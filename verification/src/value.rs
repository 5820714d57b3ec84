//! Normalizing a trust atom's value: a decimal in -1..1, rounded to nine
//! significant figures and written without its leading zero.

use vstd::prelude::*;
use vstd::string::*;
use rust_decimal::Decimal;
use rust_decimal::RoundingStrategy;

verus! {

broadcast use vstd::seq::group_seq_axioms;

/// Largest mantissa magnitude a decimal holds (96 bits).
pub open spec fn max_mantissa() -> int {
    0xFFFF_FFFF_FFFF_FFFF_FFFF_FFFF
}

/// A mantissa and a scale that together form a decimal: the scale is at
/// most 28 and the mantissa fits in 96 bits.
pub open spec fn decimal_parts_ok(mantissa: i128, scale: u32) -> bool {
    &&& scale <= 28
    &&& -max_mantissa() <= mantissa <= max_mantissa()
}

/// Ten to the power `n`.
pub open spec fn pow10(n: nat) -> nat
    decreases n,
{
    if n == 0 {
        1
    } else {
        10 * pow10((n - 1) as nat)
    }
}

/// The decimal digit character for `d < 10`.
pub open spec fn digit_char(d: nat) -> char {
    ((d + 48) as u32) as char
}

/// The decimal digits of `n`, most significant first; none for zero.
pub open spec fn digits(n: nat) -> Seq<char>
    decreases n,
{
    if n == 0 {
        Seq::empty()
    } else {
        digits(n / 10).push(digit_char(n % 10))
    }
}

/// `k` zero digits.
pub open spec fn zeros(k: nat) -> Seq<char> {
    Seq::new(k, |i: int| '0')
}

/// `mantissa / 10^scale` written out in full: a sign when negative, the
/// whole part (at least `0`), and when the scale is positive a point
/// followed by exactly `scale` fraction digits.
pub open spec fn decimal_text(mantissa: int, scale: nat) -> Seq<char> {
    let a: nat = if mantissa < 0 { (-mantissa) as nat } else { mantissa as nat };
    let d = digits(a);
    let padded = if d.len() < scale { zeros((scale - d.len()) as nat) + d } else { d };
    let whole = padded.take(padded.len() - scale);
    let frac = padded.skip(padded.len() - scale);
    let whole_text = if whole.len() == 0 { seq!['0'] } else { whole };
    let body = if scale == 0 { whole_text } else { whole_text + seq!['.'] + frac };
    if mantissa < 0 { seq!['-'] + body } else { body }
}

/// The text with every `0.` replaced by `.`, scanning left to right.
pub open spec fn drop_zero_before_point(s: Seq<char>) -> Seq<char>
    decreases s.len(),
{
    if s.len() == 0 {
        Seq::empty()
    } else if s.len() >= 2 && s[0] == '0' && s[1] == '.' {
        seq!['.'] + drop_zero_before_point(s.skip(2))
    } else {
        seq![s[0]] + drop_zero_before_point(s.drop_first())
    }
}

/// What `Decimal::from_str` gives for a text, as mantissa and scale.
pub uninterp spec fn decimal_from_str(text: Seq<char>) -> Option<(i128, u32)>;

/// What `Decimal::round_sf_with_strategy(digits, MidpointAwayFromZero)`
/// gives for the decimal `mantissa / 10^scale`, as mantissa and scale.
pub uninterp spec fn decimal_round_sf(mantissa: i128, scale: u32, digits: u32) -> Option<(i128, u32)>;

/// Calls `Decimal::from_str` and hands back the mantissa and scale of the
/// parsed decimal. The contract says only that the result is what
/// `from_str` gives for the text, and that a decimal's parts are in range;
/// which texts parse, and to what, is left to `decimal_from_str`.
#[verifier::external_body]
fn parse_decimal(text: &str) -> (parsed: Option<(i128, u32)>)
    ensures
        parsed == decimal_from_str(text@),
        parsed matches Some((m, s)) ==> decimal_parts_ok(m, s),
{
    match <Decimal as core::str::FromStr>::from_str(text) {
        Ok(d) => Some((d.mantissa(), d.scale())),
        Err(_) => None,
    }
}

/// Calls `Decimal::round_sf_with_strategy` with `MidpointAwayFromZero` on
/// the decimal `mantissa / 10^scale`. The contract names the result and
/// says a decimal's parts are in range; the rounding itself is not stated.
#[verifier::external_body]
fn round_significant(mantissa: i128, scale: u32, digits: u32) -> (rounded: Option<(i128, u32)>)
    requires
        decimal_parts_ok(mantissa, scale),
    ensures
        rounded == decimal_round_sf(mantissa, scale, digits),
        rounded matches Some((m, s)) ==> decimal_parts_ok(m, s),
{
    match Decimal::from_i128_with_scale(mantissa, scale).round_sf_with_strategy(
        digits,
        RoundingStrategy::MidpointAwayFromZero,
    ) {
        Some(d) => Some((d.mantissa(), d.scale())),
        None => None,
    }
}

/// Calls `to_string` on the decimal `mantissa / 10^scale`; its `Display`
/// writes the sign, the digits and the point as `decimal_text` says.
#[verifier::external_body]
fn decimal_to_string(mantissa: i128, scale: u32) -> (text: String)
    requires
        decimal_parts_ok(mantissa, scale),
    ensures
        text@ == decimal_text(mantissa as int, scale as nat),
{
    Decimal::from_i128_with_scale(mantissa, scale).to_string()
}

/// Why a value could not be normalized; each carries the value as given.
#[derive(Debug, Clone, PartialEq, Eq)]
pub enum ValueError {
    /// The text is not a decimal number.
    NotNumeric(String),
    /// Rounding to nine significant figures failed.
    NotRounded(String),
    /// The number lies outside -1..1.
    OutOfRange(String),
    /// The normalized value would be longer than a tag's 12 characters.
    TooLong(String),
}

impl ValueError {
    /// Which refusal: 0 not numeric, 1 not rounded, 2 out of range, 3 too
    /// long.
    pub open spec fn kind(self) -> int {
        match self {
            ValueError::NotNumeric(_) => 0,
            ValueError::NotRounded(_) => 1,
            ValueError::OutOfRange(_) => 2,
            ValueError::TooLong(_) => 3,
        }
    }

    /// The value text that was refused.
    pub open spec fn given(self) -> Seq<char> {
        match self {
            ValueError::NotNumeric(s) => s@,
            ValueError::NotRounded(s) => s@,
            ValueError::OutOfRange(s) => s@,
            ValueError::TooLong(s) => s@,
        }
    }
}

/// `mantissa / 10^scale` lies within -0.999999999..0.999999999.
pub open spec fn within_nines_value(mantissa: int, scale: nat) -> bool {
    magnitude(mantissa) * 1_000_000_000 <= 999_999_999 * pow10(scale)
}

/// How a rounded value is written in a link tag, or `None` when it lies
/// outside the range -0.999999999..0.999999999 that a tag holds: one is
/// written `.999999999`, minus one `-.999999999`, anything within the range
/// in full without the zero before the point.
pub open spec fn rounded_value_text(mantissa: i128, scale: u32) -> Option<Seq<char>> {
    let p = pow10(scale as nat) as int;
    if mantissa == p {
        Some(seq!['.', '9', '9', '9', '9', '9', '9', '9', '9', '9'])
    } else if mantissa == -p {
        Some(seq!['-', '.', '9', '9', '9', '9', '9', '9', '9', '9', '9'])
    } else if within_nines_value(mantissa as int, scale as nat) {
        Some(drop_zero_before_point(decimal_text(mantissa as int, scale as nat)))
    } else {
        None
    }
}

/// The text holds an exponent mark, `e` or `E`; values are written
/// without one.
pub open spec fn has_exponent(text: Seq<char>) -> bool {
    exists|i: int| 0 <= i < text.len() && (text[i] == 'e' || text[i] == 'E')
}

/// The most characters a value takes in a link tag.
pub open spec fn max_value_len() -> nat {
    12
}

/// What normalizing a value text gives, over the results of the decimal
/// parser and rounding: a text with an exponent mark is not numeric, and a
/// written value longer than 12 characters is refused.
pub open spec fn normalized_value(value: Seq<char>) -> Result<Seq<char>, int> {
    if has_exponent(value) {
        Err(0)
    } else {
        match decimal_from_str(value) {
            None => Err(0),
            Some((m, s)) => match decimal_round_sf(m, s, 9) {
                None => Err(1),
                Some((m2, s2)) => match rounded_value_text(m2, s2) {
                    Some(t) => if t.len() <= max_value_len() {
                        Ok(t)
                    } else {
                        Err(3)
                    },
                    None => Err(2),
                },
            },
        }
    }
}

/// Ten to the power `n`, for `n <= 28`.
pub fn pow10_exec(n: u32) -> (p: u128)
    requires
        n <= 28,
    ensures
        p == pow10(n as nat),
{
    let mut p: u128 = 1;
    let mut i: u32 = 0;
    while i < n
        invariant
            i <= n <= 28,
            p == pow10(i as nat),
        decreases n - i,
    {
        proof {
            lemma_pow10_mono(i as nat + 1, 28);
            lemma_pow10_28();
            assert(p * 10 == pow10(i as nat + 1));
        }
        p = p * 10;
        i = i + 1;
    }
    p
}

/// Ten to the 28th, the largest scale a decimal has.
pub proof fn lemma_pow10_28()
    ensures
        pow10(28) == 10000000000000000000000000000nat,
{
    reveal_with_fuel(pow10, 29);
}

/// Powers of ten grow with the exponent.
pub proof fn lemma_pow10_mono(a: nat, b: nat)
    requires
        a <= b,
    ensures
        pow10(a) <= pow10(b),
    decreases b,
{
    if a < b {
        lemma_pow10_mono(a, (b - 1) as nat);
    }
}

/// A number below `10^k` has at most `k` digits.
pub proof fn lemma_digits_len(a: nat, k: nat)
    requires
        a < pow10(k),
    ensures
        digits(a).len() <= k,
    decreases a,
{
    if a > 0 {
        assert(k > 0);
        assert(a / 10 < pow10((k - 1) as nat));
        lemma_digits_len(a / 10, (k - 1) as nat);
    }
}

/// Every digit of a number is a decimal digit character.
pub proof fn lemma_digits_are_digits(a: nat)
    ensures
        forall|i: int| 0 <= i < digits(a).len() ==> '0' <= #[trigger] digits(a)[i] <= '9',
    decreases a,
{
    if a > 0 {
        lemma_digits_are_digits(a / 10);
        let d = a % 10;
        assert(d < 10);
        assert(digit_char(d) as u32 == d + 48);
        assert('0' <= digit_char(d) <= '9');
        assert(digits(a) == digits(a / 10).push(digit_char(d)));
    }
}

/// Text without a point is left alone by `drop_zero_before_point`.
pub proof fn lemma_no_point_unchanged(s: Seq<char>)
    requires
        forall|i: int| 0 <= i < s.len() ==> s[i] != '.',
    ensures
        drop_zero_before_point(s) == s,
    decreases s.len(),
{
    if s.len() > 0 {
        lemma_no_point_unchanged(s.drop_first());
        assert(seq![s[0]] + s.drop_first() =~= s);
    }
}

/// The magnitude of an integer.
pub open spec fn magnitude(m: int) -> nat {
    if m < 0 {
        (-m) as nat
    } else {
        m as nat
    }
}

/// The `scale` fraction digits of `m / 10^scale`, for `|m| < 10^scale`.
pub open spec fn fraction_digits(m: int, scale: nat) -> Seq<char> {
    zeros((scale - digits(magnitude(m)).len()) as nat) + digits(magnitude(m))
}

/// A minus sign for a negative number, else nothing.
pub open spec fn value_sign(m: int) -> Seq<char> {
    if m < 0 {
        seq!['-']
    } else {
        Seq::<char>::empty()
    }
}

/// Powers of ten are positive.
pub proof fn lemma_pow10_positive(n: nat)
    ensures
        pow10(n) >= 1,
    decreases n,
{
    if n > 0 {
        lemma_pow10_positive((n - 1) as nat);
    }
}

/// A value within -0.999999999..0.999999999 lies strictly between minus one
/// and one.
pub proof fn lemma_within_nines_below_one(m: int, scale: nat)
    requires
        within_nines_value(m, scale),
    ensures
        magnitude(m) < pow10(scale),
{
    lemma_pow10_positive(scale);
    let a = magnitude(m);
    let p = pow10(scale);
    assert(a < p) by (nonlinear_arith)
        requires
            a * 1_000_000_000 <= 999_999_999 * p,
            p >= 1,
            a >= 0,
    ;
}

/// The number the decimal digits of a text stand for, most significant
/// first.
pub open spec fn digits_value(f: Seq<char>) -> nat
    decreases f.len(),
{
    if f.len() == 0 {
        0
    } else {
        digits_value(f.drop_last()) * 10 + ((f.last() as u32 - 48) as nat)
    }
}

/// The digits that follow the point of a value text (none for `0`).
pub open spec fn fraction_of(t: Seq<char>) -> Seq<char> {
    if t.len() >= 2 && t[0] == '.' {
        t.skip(1)
    } else if t.len() >= 3 && t[0] == '-' {
        t.skip(2)
    } else {
        Seq::empty()
    }
}

/// A value text of the shape `value_shape` whose number lies within
/// -0.999999999..0.999999999.
pub open spec fn within_nines(t: Seq<char>) -> bool {
    value_shape(t) && digits_value(fraction_of(t)) * 1_000_000_000 <= 999_999_999 * pow10(
        fraction_of(t).len(),
    )
}

/// The digits of a number, after any leading zeros, stand for that number.
pub proof fn lemma_digits_value(k: nat, a: nat)
    ensures
        digits_value(zeros(k) + digits(a)) == a,
    decreases a,
{
    if a == 0 {
        assert(digits(0) =~= Seq::<char>::empty());
        lemma_zeros_value(k);
        assert(zeros(k) + digits(0) =~= zeros(k));
    } else {
        lemma_digits_value(k, a / 10);
        let f = zeros(k) + digits(a);
        assert(f.drop_last() =~= zeros(k) + digits(a / 10));
        let d = a % 10;
        assert(f.last() == digit_char(d));
        assert(digit_char(d) as u32 == d + 48);
    }
}

/// Decimal digits stand for a number below ten to the power of their count.
pub proof fn lemma_digits_value_bound(f: Seq<char>)
    requires
        digit_chars(f),
    ensures
        digits_value(f) < pow10(f.len()),
    decreases f.len(),
{
    if f.len() > 0 {
        let front = f.drop_last();
        assert(digit_chars(front)) by {
            assert forall|i: int| 0 <= i < front.len() implies '0' <= #[trigger] front[i] <= '9' by {
                assert(front[i] == f[i]);
            }
        }
        lemma_digits_value_bound(front);
        assert('0' <= f[f.len() - 1] <= '9');
        let d = (f.last() as u32 - 48) as nat;
        assert(d <= 9);
        let v = digits_value(front);
        let p = pow10(front.len());
        assert(v * 10 + d < p * 10) by (nonlinear_arith)
            requires
                v < p,
                d <= 9,
        ;
    }
}

/// Zero digits stand for zero.
pub proof fn lemma_zeros_value(k: nat)
    ensures
        digits_value(zeros(k)) == 0,
    decreases k,
{
    if k > 0 {
        lemma_zeros_value((k - 1) as nat);
        assert(zeros(k).drop_last() =~= zeros((k - 1) as nat));
    }
}

/// A value within -0.999999999..0.999999999 with a positive scale is
/// written as its sign, a point and exactly `scale` digits.
pub proof fn law_in_range_value_text(mantissa: i128, scale: u32)
    requires
        0 < scale,
        within_nines_value(mantissa as int, scale as nat),
    ensures
        fraction_digits(mantissa as int, scale as nat).len() == scale,
        digit_chars(fraction_digits(mantissa as int, scale as nat)),
        rounded_value_text(mantissa, scale) == Some(
            value_sign(mantissa as int) + seq!['.'] + fraction_digits(mantissa as int, scale as nat),
        ),
{
    let a: nat = if mantissa < 0 { (-mantissa) as nat } else { mantissa as nat };
    let d = digits(a);
    let s = scale as nat;
    lemma_within_nines_below_one(mantissa as int, s);
    lemma_digits_len(a, s);
    lemma_digits_are_digits(a);
    let frac = zeros((s - d.len()) as nat) + d;
    assert(forall|i: int| 0 <= i < frac.len() ==> '0' <= #[trigger] frac[i] <= '9') by {
        assert forall|i: int| 0 <= i < frac.len() implies '0' <= #[trigger] frac[i] <= '9' by {
            if i >= s - d.len() {
                assert(frac[i] == d[i - (s - d.len())]);
            }
        }
    }
    let padded = if d.len() < s { zeros((s - d.len()) as nat) + d } else { d };
    assert(padded =~= frac) by {
        if d.len() >= s {
            assert(zeros(0) =~= Seq::<char>::empty());
        }
    }
    assert(padded.take(padded.len() - s) =~= Seq::<char>::empty());
    assert(padded.skip(padded.len() - s) =~= frac);
    lemma_no_point_unchanged(frac);
    let body = seq!['0'] + seq!['.'] + frac;
    assert(drop_zero_before_point(body) == seq!['.'] + drop_zero_before_point(body.skip(2)));
    assert(body.skip(2) =~= frac);
    if mantissa < 0 {
        let t = seq!['-'] + body;
        assert(t.drop_first() =~= body);
        assert(decimal_text(mantissa as int, s) =~= t);
        assert(drop_zero_before_point(t) =~= seq!['-'] + seq!['.'] + frac);
    } else {
        assert(decimal_text(mantissa as int, s) =~= body);
        assert(drop_zero_before_point(body) =~= Seq::<char>::empty() + seq!['.'] + frac);
    }
}

/// Every character is a decimal digit.
pub open spec fn digit_chars(s: Seq<char>) -> bool {
    forall|i: int| 0 <= i < s.len() ==> '0' <= #[trigger] s[i] <= '9'
}

/// How a normalized value looks: `0`, or an optional minus sign, a point
/// and one or more decimal digits, so a number strictly between minus one
/// and one.
pub open spec fn value_shape(t: Seq<char>) -> bool {
    ||| t == seq!['0']
    ||| t.len() >= 2 && t[0] == '.' && digit_chars(t.skip(1))
    ||| t.len() >= 3 && t[0] == '-' && t[1] == '.' && digit_chars(t.skip(2))
}

/// Every text `rounded_value_text` writes has the shape of a value.
pub proof fn lemma_rounded_value_shape(mantissa: i128, scale: u32)
    requires
        rounded_value_text(mantissa, scale) is Some,
    ensures
        value_shape(rounded_value_text(mantissa, scale)->0),
{
    let p = pow10(scale as nat) as int;
    let t = rounded_value_text(mantissa, scale)->0;
    let nines = seq!['9', '9', '9', '9', '9', '9', '9', '9', '9'];
    assert(digit_chars(nines)) by {
        assert forall|i: int| 0 <= i < nines.len() implies '0' <= #[trigger] nines[i] <= '9' by {}
    }
    if mantissa == p {
        assert(t =~= seq!['.'] + nines);
        assert(t.skip(1) =~= nines);
    } else if mantissa == -p {
        assert(t =~= seq!['-', '.'] + nines);
        assert(t.skip(2) =~= nines);
    } else if scale == 0 {
        assert(p == 1);
        assert(mantissa == 0);
        assert(digits(0) =~= Seq::<char>::empty());
        assert(decimal_text(0, 0) =~= seq!['0']);
        assert(seq!['0'].drop_first() =~= Seq::<char>::empty());
        assert(drop_zero_before_point(Seq::<char>::empty()) == Seq::<char>::empty());
        assert(drop_zero_before_point(seq!['0']) =~= seq!['0']);
    } else {
        law_in_range_value_text(mantissa, scale);
        let frac = fraction_digits(mantissa as int, scale as nat);
        if mantissa < 0 {
            assert(t == seq!['-'] + seq!['.'] + frac);
            assert(t.skip(2) =~= frac);
        } else {
            assert(t == Seq::<char>::empty() + seq!['.'] + frac);
            assert(t.skip(1) =~= frac);
        }
    }
}

/// Every text `rounded_value_text` writes stands for a number within
/// -0.999999999..0.999999999.
pub proof fn lemma_rounded_value_within(mantissa: i128, scale: u32)
    requires
        rounded_value_text(mantissa, scale) is Some,
    ensures
        within_nines(rounded_value_text(mantissa, scale)->0),
{
    lemma_rounded_value_shape(mantissa, scale);
    let p = pow10(scale as nat) as int;
    let t = rounded_value_text(mantissa, scale)->0;
    let nines = seq!['9', '9', '9', '9', '9', '9', '9', '9', '9'];
    if mantissa == p || mantissa == -p {
        assert(fraction_of(t) =~= nines);
        assert(digits_value(nines) == 999_999_999) by {
            reveal_with_fuel(digits_value, 10);
        }
        assert(pow10(9) == 1_000_000_000) by {
            reveal_with_fuel(pow10, 10);
        }
    } else if scale == 0 {
        assert(t =~= seq!['0']);
        assert(fraction_of(t) =~= Seq::<char>::empty());
    } else {
        law_in_range_value_text(mantissa, scale);
        let frac = fraction_digits(mantissa as int, scale as nat);
        let a = magnitude(mantissa as int);
        lemma_digits_value((scale - digits(a).len()) as nat, a);
        if mantissa < 0 {
            assert(t == seq!['-'] + seq!['.'] + frac);
            assert(fraction_of(t) =~= frac);
        } else {
            assert(t == Seq::<char>::empty() + seq!['.'] + frac);
            assert(fraction_of(t) =~= frac);
        }
    }
}

/// Replaces every `0.` by `.`, scanning left to right.
pub fn replace_zero_point(text: &str) -> (out: String)
    ensures
        out@ == drop_zero_before_point(text@),
{
    let n = text.unicode_len();
    let point = ".";
    proof {
        reveal_strlit(".");
    }
    let mut out = String::new();
    let mut i: usize = 0;
    assert(text@.skip(0) =~= text@);
    assert(out@ + drop_zero_before_point(text@) =~= drop_zero_before_point(text@));
    while i < n
        invariant
            n == text@.len(),
            i <= n,
            point@ == seq!['.'],
            out@ + drop_zero_before_point(text@.skip(i as int)) == drop_zero_before_point(text@),
        decreases n - i,
    {
        let ghost rest = text@.skip(i as int);
        if i + 1 < n && text.get_char(i) == '0' && text.get_char(i + 1) == '.' {
            out.append(point);
            assert(rest.skip(2) =~= text@.skip(i + 2));
            assert(out@ + drop_zero_before_point(text@.skip(i + 2)) =~= drop_zero_before_point(
                text@,
            ));
            i = i + 2;
        } else {
            let one = text.substring_char(i, i + 1);
            out.append(one);
            assert(rest.drop_first() =~= text@.skip(i + 1));
            assert(one@ =~= seq![rest[0]]);
            assert(out@ + drop_zero_before_point(text@.skip(i + 1)) =~= drop_zero_before_point(
                text@,
            ));
            i = i + 1;
        }
    }
    assert(text@.skip(n as int) =~= Seq::<char>::empty());
    assert(out@ + Seq::<char>::empty() =~= out@);
    out
}

/// Whether `mantissa / 10^scale` lies within -0.999999999..0.999999999,
/// given `p == 10^scale`.
fn within_nines_exec(mantissa: i128, p: u128) -> (within: bool)
    requires
        -max_mantissa() <= mantissa <= max_mantissa(),
        p <= 10000000000000000000000000000u128,
    ensures
        within == (magnitude(mantissa as int) * 1_000_000_000 <= 999_999_999 * p),
{
    let a: u128 = if mantissa < 0 {
        (-mantissa) as u128
    } else {
        mantissa as u128
    };
    assert(a * 1_000_000_000 <= 0xFFFF_FFFF_FFFF_FFFF_FFFF_FFFF * 1_000_000_000) by (nonlinear_arith)
        requires
            a <= 0xFFFF_FFFF_FFFF_FFFF_FFFF_FFFF,
    ;
    assert(999_999_999 * p <= 999_999_999 * 10000000000000000000000000000u128) by (nonlinear_arith)
        requires
            p <= 10000000000000000000000000000u128,
    ;
    a * 1_000_000_000 <= 999_999_999 * p
}

/// Writes a value already rounded to nine significant figures as a link
/// tag holds it, or refuses it when it lies outside -1..1.
pub fn rounded_text(mantissa: i128, scale: u32) -> (text: Option<String>)
    requires
        decimal_parts_ok(mantissa, scale),
    ensures
        match text {
            Some(t) => rounded_value_text(mantissa, scale) == Some(t@),
            None => rounded_value_text(mantissa, scale) is None,
        },
{
    let p = pow10_exec(scale);
    proof {
        lemma_pow10_mono(scale as nat, 28);
        lemma_pow10_28();
    }
    let pi = p as i128;
    if mantissa == pi {
        let lit = ".999999999";
        proof {
            reveal_strlit(".999999999");
        }
        Some(String::from_str(lit))
    } else if mantissa == -pi {
        let lit = "-.999999999";
        proof {
            reveal_strlit("-.999999999");
        }
        Some(String::from_str(lit))
    } else if within_nines_exec(mantissa, p) {
        let full = decimal_to_string(mantissa, scale);
        Some(replace_zero_point(full.as_str()))
    } else {
        None
    }
}

/// Whether the text holds `e` or `E`.
fn has_exponent_mark(text: &str) -> (found: bool)
    ensures
        found == has_exponent(text@),
{
    let n = text.unicode_len();
    for i in 0..n
        invariant
            n == text@.len(),
            forall|j: int| 0 <= j < i ==> text@[j] != 'e' && text@[j] != 'E',
    {
        let c = text.get_char(i);
        if c == 'e' || c == 'E' {
            return true;
        }
    }
    false
}

/// Normalizes a value for a link tag: absent stays absent; otherwise the
/// text (which must hold no exponent mark) is parsed as a decimal, rounded
/// to nine significant figures (midpoints away from zero), and written as
/// `rounded_value_text` says, or refused; a written value is at most 12
/// characters.
pub fn normalize_value(value_str: Option<String>) -> (res: Result<Option<String>, ValueError>)
    ensures
        match value_str {
            None => res == Ok::<Option<String>, ValueError>(None),
            Some(v) => match normalized_value(v@) {
                Ok(t) => res matches Ok(Some(s)) && s@ == t,
                Err(k) => res matches Err(e) && e.kind() == k && e.given() == v@,
            },
        },
        res matches Ok(Some(s)) ==> s@.len() <= max_value_len() && within_nines(s@),
        res matches Ok(Some(s)) ==> s@.len() <= 12,
        match value_str {
            Some(v) => (exists|i: int| 0 <= i < v@.len() && (v@[i] == 'e' || v@[i] == 'E')) ==> (res matches Err(
                e,
            ) && e == ValueError::NotNumeric(v)),
            None => true,
        },
{
    match value_str {
        None => Ok(None),
        Some(value_str) => {
            if has_exponent_mark(value_str.as_str()) {
                return Err(ValueError::NotNumeric(value_str));
            }
            match parse_decimal(value_str.as_str()) {
                None => Err(ValueError::NotNumeric(value_str)),
                Some((m, s)) => match round_significant(m, s, 9) {
                    None => Err(ValueError::NotRounded(value_str)),
                    Some((m2, s2)) => match rounded_text(m2, s2) {
                        Some(t) => if t.unicode_len() <= 12 {
                            proof {
                                lemma_rounded_value_within(m2, s2);
                            }
                            Ok(Some(t))
                        } else {
                            Err(ValueError::TooLong(value_str))
                        },
                        None => Err(ValueError::OutOfRange(value_str)),
                    },
                },
            }
        },
    }
}

} // verus!
