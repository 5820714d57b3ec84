# trust_atom

Trust atoms for Holochain: an agent's rating of a target, stored as a pair of
links whose tags carry the rating. A tag is the header `Ŧ→` (forward, from
source to target) or `Ŧ↩` (reverse), then four chunks separated by NUL:

    Ŧ→<content>\0<value>\0<bucket>\0<extra hash>

- `value` is a decimal in -1..1, rounded to nine significant figures and
  written without its leading zero (`0.8` becomes `.800000000`), at most
  12 characters;
- `bucket` is nine random digits;
- `extra hash` is the text of the hash of an entry holding extra fields:
  `u` followed by the URL-safe base64 of the hash's raw bytes.

A valid tag holds at most 999 bytes, its content at most 900.

## Layout

- `src/` is the library, verified with Verus: headers, link tag building and
  splitting, value normalization, buckets, reading links back into atoms,
  query planning and answering (filters are ANDed), the links a deletion
  removes, validation verdicts, and the link selections that rollups use.
  `src/laws.rs` states what holds across these functions: a written tag
  reads back with the same content and value (its extra hash as whatever
  the hash decoder reads from the written text), passes validation, and is
  found by every query whose filters it meets.
- `tests/` runs the library on concrete values.
- `app/` holds the Holochain zome functions: host calls (links, entries,
  random bytes, agent info), the serde copies of the library's types, and
  the rollup weighting, which computes in floating point.
