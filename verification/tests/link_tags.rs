use std::collections::BTreeMap;

use trust_atom::bucket::create_bucket_string;
use trust_atom::header::{build_forward_header, build_header, build_reverse_header, LinkDirection};
use trust_atom::link_tag::{build_link_tag, create_link_tag, create_link_tag_metal};
use trust_atom::text::{decode_text, split_on_nul, text_starts_with};
use trust_atom::trust_atom::{convert_link_to_trust_atom, convert_links_to_trust_atoms, create, ConvertError, Link};

const EXPECTED_ENTRY_HASH: &str = "uhCEkto76kYgGIZMzU6AbEzCx1HMRNzurwPaOdF2utJaP-33mdcdN";

fn tag_string(bytes: &[u8]) -> String {
  String::from_utf8(bytes.to_vec()).unwrap()
}

fn link(target: &[u8], tag: Vec<u8>) -> Link {
  Link { target: target.to_vec(), tag, timestamp: 0, create_link_hash: vec![1, 2, 3] }
}

#[test]
fn test_unicode_null() {
  let unicode_nul = decode_text(&[0]).unwrap();
  assert_eq!(unicode_nul.as_bytes(), &[0]);
}

#[test]
fn headers_are_mark_and_arrow() {
  assert_eq!(build_forward_header(), "Ŧ→".as_bytes().to_vec());
  assert_eq!(build_reverse_header(), "Ŧ↩".as_bytes().to_vec());
  assert_eq!(build_forward_header(), vec![197, 166, 226, 134, 146]);
  assert_eq!(build_reverse_header(), vec![197, 166, 226, 134, 169]);
  assert_eq!(build_header(LinkDirection::Forward), build_forward_header());
}

#[test]
fn test_create_trust_atom() {
  let unicode_nul: &str = std::str::from_utf8(&[0]).unwrap();
  let agent = vec![7u8; 39];
  let target = vec![9u8; 39];
  let extra: BTreeMap<String, String> = BTreeMap::from([(
    "details".into(),
    "Excellent specials. The regular menu is so-so. Their coconut curry (special) is to die for"
      .into(),
  )]);
  let bucket = create_bucket_string(&[3, 14, 15, 92, 65, 35, 89, 79, 32]);
  let created = create(
    &agent,
    &target,
    Some("sushi".to_string()),
    Some(".8".to_string()),
    Some(extra.clone()),
    bucket.clone(),
    Some(EXPECTED_ENTRY_HASH.to_string()),
  )
  .unwrap();

  let relevant_link_string = tag_string(&created.forward_tag.0);
  let chunks: Vec<&str> = relevant_link_string.split(unicode_nul).collect();
  assert_eq!(chunks.len(), 4);
  assert_eq!(chunks[0], "Ŧ→sushi");
  assert_eq!(chunks[1], ".800000000");
  let bucket_chunk = chunks[2];
  assert_eq!(bucket_chunk.chars().count(), 9);
  assert!(bucket_chunk.chars().all(|c| c.is_ascii_digit()));
  let expected_link_tag_string = format!(
    "{}{}{}{}{}{}{}{}{}",
    "Ŧ",
    "→",
    "sushi",
    unicode_nul,
    ".800000000",
    unicode_nul,
    bucket_chunk,
    unicode_nul,
    EXPECTED_ENTRY_HASH
  );
  assert_eq!(relevant_link_string, expected_link_tag_string);

  let relevant_link_string = tag_string(&created.reverse_tag.0);
  let expected_link_tag_string = format!(
    "{}{}{}{}{}{}{}{}{}",
    "Ŧ",
    "↩",
    "sushi",
    unicode_nul,
    ".800000000",
    unicode_nul,
    bucket_chunk,
    unicode_nul,
    EXPECTED_ENTRY_HASH
  );
  assert_eq!(relevant_link_string, expected_link_tag_string);
  let chunks: Vec<&str> = relevant_link_string.split(unicode_nul).collect();
  assert_eq!(chunks.len(), 4);
  assert_eq!(chunks[0], "Ŧ↩sushi");
  assert_eq!(chunks[1], ".800000000");
  assert_eq!(chunks[2], bucket_chunk);
  assert_eq!(chunks[3], EXPECTED_ENTRY_HASH);

  assert_eq!(created.trust_atom.source_hash, agent);
  assert_eq!(created.trust_atom.target_hash, target);
  assert_eq!(created.trust_atom.content, Some("sushi".to_string()));
  assert_eq!(created.trust_atom.value, Some(".8".to_string()));
  assert_eq!(created.trust_atom.extra, Some(extra));
}

#[test]
fn test_create_trust_atom_with_empty_chunks() {
  let unicode_nul: &str = std::str::from_utf8(&[0]).unwrap();
  let bucket = create_bucket_string(&[0, 1, 2, 3, 4, 5, 6, 7, 8]);
  let created = create(&[1u8; 39], &[2u8; 39], None, None, None, bucket, None).unwrap();

  let relevant_link_string = tag_string(&created.forward_tag.0);
  let chunks: Vec<&str> = relevant_link_string.split(unicode_nul).collect();
  assert_eq!(chunks.len(), 4);
  assert_eq!(chunks[0], "Ŧ→");
  assert_eq!(chunks[1], "");
  let bucket_chunk = chunks[2];
  assert_eq!(bucket_chunk.chars().count(), 9);
  assert!(bucket_chunk.chars().all(|c| c.is_ascii_digit()));
  let expected_link_tag_string = format!(
    "{}{}{}{}{}{}",
    "Ŧ", "→", unicode_nul, unicode_nul, bucket_chunk, unicode_nul
  );
  assert_eq!(relevant_link_string, expected_link_tag_string);

  let relevant_link_string = tag_string(&created.reverse_tag.0);
  let expected_link_tag_string = format!(
    "{}{}{}{}{}{}",
    "Ŧ", "↩", unicode_nul, unicode_nul, bucket_chunk, unicode_nul
  );
  assert_eq!(relevant_link_string, expected_link_tag_string);
  let chunks: Vec<&str> = relevant_link_string.split(unicode_nul).collect();
  assert_eq!(chunks.len(), 4);
  assert_eq!(chunks[0], "Ŧ↩");
  assert_eq!(chunks[1], "");
  assert_eq!(chunks[2], bucket_chunk);
}

#[test]
fn create_refuses_bad_values() {
  let bucket = || create_bucket_string(&[0; 9]);
  let out_of_range = create(&[1], &[2], None, Some("2".to_string()), None, bucket(), None);
  assert_eq!(
    out_of_range.err(),
    Some(trust_atom::value::ValueError::OutOfRange("2".to_string()))
  );
  let not_numeric = create(&[1], &[2], None, Some("foo".to_string()), None, bucket(), None);
  assert_eq!(
    not_numeric.err(),
    Some(trust_atom::value::ValueError::NotNumeric("foo".to_string()))
  );
}

#[test]
fn link_tag_chunks_are_nul_separated() {
  let tag = create_link_tag(
    &LinkDirection::Forward,
    &[Some("a".to_string()), None, Some("ü".to_string())],
  );
  assert_eq!(tag.0, "Ŧ→a\0\0ü".as_bytes().to_vec());
  let empty = create_link_tag(&LinkDirection::Reverse, &[]);
  assert_eq!(empty.0, "Ŧ↩".as_bytes().to_vec());
}

#[test]
fn build_link_tag_puts_nuls_first() {
  let tag = build_link_tag(&LinkDirection::Forward, &[Some(".8".to_string())], 2);
  assert_eq!(tag.0, "Ŧ→\0\0.8".as_bytes().to_vec());
  let tag = build_link_tag(&LinkDirection::Reverse, &[Some("x".to_string()), Some("y".to_string())], 0);
  assert_eq!(tag.0, "Ŧ↩x\0y".as_bytes().to_vec());
}

#[test]
fn metal_concatenates_pieces() {
  let tag = create_link_tag_metal(&LinkDirection::Forward, vec!["ab".to_string(), "\0".to_string(), "c".to_string()]);
  assert_eq!(tag.0, "Ŧ→ab\0c".as_bytes().to_vec());
}

#[test]
fn written_tags_read_back() {
  let base = vec![5u8; 39];
  let target = vec![6u8; 39];
  let bucket = create_bucket_string(&[9, 10, 11, 12, 13, 14, 15, 16, 17]);
  assert_eq!(bucket, "901234567");
  let created = create(
    &base,
    &target,
    Some("sushi".to_string()),
    Some("0.9871".to_string()),
    None,
    bucket,
    Some(EXPECTED_ENTRY_HASH.to_string()),
  )
  .unwrap();

  let forward = convert_link_to_trust_atom(&link(&target, created.forward_tag.0.clone()), &LinkDirection::Forward, &base).unwrap();
  assert_eq!(forward.source_hash, base);
  assert_eq!(forward.target_hash, target);
  assert_eq!(forward.content, Some("sushi".to_string()));
  assert_eq!(forward.value, Some(".987100000".to_string()));
  let hash = forward.extra_hash.clone().unwrap();
  assert_eq!(hash.len(), 39);
  assert_eq!(trust_atom::hash::entry_hash_text(&hash), EXPECTED_ENTRY_HASH);

  let reverse = convert_link_to_trust_atom(&link(&base, created.reverse_tag.0.clone()), &LinkDirection::Reverse, &target).unwrap();
  assert_eq!(reverse.source_hash, base);
  assert_eq!(reverse.target_hash, target);
  assert_eq!(reverse.content, Some("sushi".to_string()));

  let atom = forward.into_trust_atom(Some(BTreeMap::new()));
  assert_eq!(atom.extra, Some(BTreeMap::new()));
  assert_eq!(atom.value, Some(".987100000".to_string()));
}

#[test]
fn empty_chunks_read_as_absent() {
  let created = create(&[1u8; 39], &[2u8; 39], None, None, None, create_bucket_string(&[1; 9]), None).unwrap();
  let atom = convert_link_to_trust_atom(&link(&[2u8; 39], created.forward_tag.0), &LinkDirection::Forward, &[1u8; 39]).unwrap();
  assert_eq!(atom.content, None);
  assert_eq!(atom.value, None);
  assert_eq!(atom.extra_hash, None);
}

#[test]
fn unreadable_links_are_errors() {
  let base = [1u8; 3];
  let not_utf8 = convert_link_to_trust_atom(&link(&base, vec![0xff, 0xfe]), &LinkDirection::Forward, &base);
  assert_eq!(not_utf8.err(), Some(ConvertError::NotUtf8));
  let short = convert_link_to_trust_atom(&link(&base, "Ŧ→a\0b".as_bytes().to_vec()), &LinkDirection::Forward, &base);
  assert_eq!(short.err(), Some(ConvertError::MalformedTag));
  let no_header = convert_link_to_trust_atom(&link(&base, "x\0b\0c\0".as_bytes().to_vec()), &LinkDirection::Forward, &base);
  assert_eq!(no_header.err(), Some(ConvertError::MalformedTag));
  let bad_hash = convert_link_to_trust_atom(&link(&base, "Ŧ→a\0b\0c\0nothash".as_bytes().to_vec()), &LinkDirection::Forward, &base);
  assert_eq!(bad_hash.err(), Some(ConvertError::BadExtraHash));
  let non_ascii_hash = convert_link_to_trust_atom(&link(&base, "Ŧ→a\0b\0c\0é".as_bytes().to_vec()), &LinkDirection::Forward, &base);
  assert_eq!(non_ascii_hash.err(), Some(ConvertError::BadExtraHash));
  let links = vec![
    link(&base, "Ŧ→a\0b\0c\0".as_bytes().to_vec()),
    link(&base, vec![0xff]),
    link(&base, "Ŧ→a\0b".as_bytes().to_vec()),
  ];
  let first_error = convert_links_to_trust_atoms(&links, &LinkDirection::Forward, &base);
  assert_eq!(first_error.err(), Some(ConvertError::NotUtf8));
  let good = convert_links_to_trust_atoms(&links[..1], &LinkDirection::Forward, &base).unwrap();
  assert_eq!(good.len(), 1);
  assert_eq!(good[0].content, Some("a".to_string()));
}

#[test]
fn split_and_prefix_helpers() {
  let pieces = split_on_nul("a\0\0bc\0");
  assert_eq!(pieces, vec!["a".to_string(), "".to_string(), "bc".to_string(), "".to_string()]);
  assert_eq!(split_on_nul(""), vec!["".to_string()]);
  assert!(text_starts_with("sushi joint", "sushi"));
  assert!(!text_starts_with("sush", "sushi"));
  assert!(text_starts_with("x", ""));
  assert_eq!(decode_text(&[0xe2, 0x86]), None);
}

#[test]
fn test_bucket_val() {
  let bytes: [u8; 9] = [9, 10, 11, 12, 13, 14, 15, 16, 17];
  let bucket = create_bucket_string(&bytes);
  assert_eq!(bucket, "901234567".to_string());
  assert_eq!(create_bucket_string(&[255, 0, 99]), "509");
  assert_eq!(create_bucket_string(&[]), "");
}

#[test]
fn directions_differ_only_in_arrow() {
  let chunks = [Some("pizza".to_string()), Some(".5".to_string()), None];
  let forward = create_link_tag(&LinkDirection::Forward, &chunks).0;
  let reverse = create_link_tag(&LinkDirection::Reverse, &chunks).0;
  assert_eq!(forward.len(), reverse.len());
  assert_eq!(forward[..4], reverse[..4]);
  assert_eq!(forward[5..], reverse[5..]);
  assert_ne!(forward[4], reverse[4]);
}
