use trust_atom::bucket::create_bucket_string;
use trust_atom::trust_atom::create;
use trust_atom::validation::{
  bytes_equal, convert_bytes_to_string, validate_create_link, validate_delete_link, InvalidReason,
  LinkTagError, ValidateCallbackResult,
};

fn agent() -> Vec<u8> {
  vec![4u8; 39]
}

#[test]
fn created_tags_validate() {
  let created = create(
    &agent(),
    &[5u8; 39],
    Some("sushi".to_string()),
    Some(".8".to_string()),
    None,
    create_bucket_string(&[1, 2, 3, 4, 5, 6, 7, 8, 9]),
    Some("uhCEkto76kYgGIZMzU6AbEzCx1HMRNzurwPaOdF2utJaP-33mdcdN".to_string()),
  )
  .unwrap();
  assert_eq!(
    validate_create_link(&agent(), &agent(), &agent(), &created.forward_tag.0),
    Ok(ValidateCallbackResult::Valid)
  );
  assert_eq!(
    validate_create_link(&agent(), &agent(), &agent(), &created.reverse_tag.0),
    Ok(ValidateCallbackResult::Valid)
  );
}

#[test]
fn creation_checks_in_order() {
  let a = agent();
  let other = vec![6u8; 39];
  let good = "Ŧ→x\0.5\0123456789\0".as_bytes();
  assert_eq!(
    validate_create_link(&other, &a, &other, good),
    Ok(ValidateCallbackResult::Invalid(InvalidReason::CreatorNotBase))
  );
  assert_eq!(
    validate_create_link(&a, &a, &other, good),
    Ok(ValidateCallbackResult::Invalid(InvalidReason::CreatorNotBase))
  );
  assert_eq!(validate_create_link(&a, &a, &a, &[0xff]), Err(LinkTagError::NotUtf8));
  assert_eq!(
    validate_create_link(&a, &a, &a, "Ŧ→x\0.5\0123456789".as_bytes()),
    Ok(ValidateCallbackResult::Invalid(InvalidReason::ChunkCount(3)))
  );
  assert_eq!(
    validate_create_link(&a, &a, &a, "Tx\0.5\0123456789\0".as_bytes()),
    Err(LinkTagError::BadHeader)
  );
  assert_eq!(
    validate_create_link(&a, &a, &a, "Ŧ→x\0.1234567890123\0123456789\0".as_bytes()),
    Err(LinkTagError::RatingTooLong)
  );
  assert_eq!(
    validate_create_link(&a, &a, &a, "Ŧ↩x\0.5\012345678\0".as_bytes()),
    Err(LinkTagError::BadBucket)
  );
  assert_eq!(validate_create_link(&a, &a, &a, good), Ok(ValidateCallbackResult::Valid));
}

#[test]
fn deletion_checks() {
  let a = agent();
  let b = vec![1u8; 39];
  assert_eq!(
    validate_delete_link(&a, &b, &a, &a),
    ValidateCallbackResult::Invalid(InvalidReason::NotOriginalAuthor)
  );
  assert_eq!(
    validate_delete_link(&a, &a, &b, &a),
    ValidateCallbackResult::Invalid(InvalidReason::BaseNotAuthor)
  );
  assert_eq!(validate_delete_link(&a, &a, &a, &a), ValidateCallbackResult::Valid);
}

#[test]
fn byte_helpers() {
  assert!(bytes_equal(&[1, 2], &[1, 2]));
  assert!(!bytes_equal(&[1, 2], &[1]));
  assert!(!bytes_equal(&[1, 3], &[1, 2]));
  assert_eq!(convert_bytes_to_string(&[226, 134, 146]), Some("→".to_string()));
  assert_eq!(convert_bytes_to_string(&[226, 134]), None);
}

#[test]
fn created_tags_pass_validation() {
  let agent = agent();
  for value in ["0.01", "-1", "0.123456789012", "0"] {
    let created = create(
      &agent,
      &[5u8; 39],
      Some("tea".to_string()),
      Some(value.to_string()),
      None,
      create_bucket_string(&[7; 9]),
      None,
    )
    .unwrap();
    for tag in [&created.forward_tag.0, &created.reverse_tag.0] {
      assert_eq!(validate_create_link(&agent, &agent, &agent, tag), Ok(ValidateCallbackResult::Valid), "value {}", value);
    }
  }
}

#[test]
fn size_and_value_limits() {
  let a = agent();
  let tag = |content: &str, value: &str, bucket: &str| format!("Ŧ→{}\0{}\0{}\0", content, value, bucket).into_bytes();
  for value in ["", "0", ".5", "-.5", ".999999999", "-.999999999", ".0100000000", "-.0000000001"] {
    assert_eq!(validate_create_link(&a, &a, &a, &tag("x", value, "123456789")), Ok(ValidateCallbackResult::Valid), "value {}", value);
  }
  for value in ["0.5", "1", "-1", ".9999999991", "-.9999999999", "x", ".", "-.", "--.5", "00", ".5x"] {
    assert_eq!(validate_create_link(&a, &a, &a, &tag("x", value, "123456789")), Err(LinkTagError::BadValue), "value {}", value);
  }
  let content = "c".repeat(900);
  assert_eq!(validate_create_link(&a, &a, &a, &tag(&content, ".5", "123456789")), Ok(ValidateCallbackResult::Valid));
  let content = "c".repeat(901);
  assert_eq!(validate_create_link(&a, &a, &a, &tag(&content, ".5", "123456789")), Err(LinkTagError::ContentTooLong));
  let content = "é".repeat(451);
  assert_eq!(validate_create_link(&a, &a, &a, &tag(&content, ".5", "123456789")), Err(LinkTagError::ContentTooLong));
  let mut long = tag(&"c".repeat(900), ".5", "123456789");
  long.extend(std::iter::repeat(b'u').take(999 - long.len()));
  assert_eq!(validate_create_link(&a, &a, &a, &long), Ok(ValidateCallbackResult::Valid));
  long.push(b'u');
  assert_eq!(validate_create_link(&a, &a, &a, &long), Err(LinkTagError::TagTooLong));
}

#[test]
fn written_hash_text_is_base64() {
  assert_eq!(trust_atom::hash::entry_hash_text(&[77, 97, 110]), "uTWFu");
  assert_eq!(trust_atom::hash::entry_hash_text(&[255, 254, 62, 77]), "u__4-TQ");
}
