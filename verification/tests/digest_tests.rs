use chibigit::digest::ObjectID;
use chibigit::GitError;

#[test]
fn test_object_id_from_hex() {
    let hex = "e69de29bb2d1d6434b8b29ae775ad8c2e48c5391";
    let object_id = ObjectID::from_hex(hex).unwrap();
    assert_eq!(hex, object_id.to_hex());
}

#[test]
fn from_hex_accepts_uppercase_but_renders_lowercase() {
    let upper = "E69DE29BB2D1D6434B8B29AE775AD8C2E48C5391";
    let object_id = ObjectID::from_hex(upper).unwrap();
    assert_eq!("e69de29bb2d1d6434b8b29ae775ad8c2e48c5391", object_id.to_hex());
}

#[test]
fn from_hex_rejects_short_input() {
    let r = ObjectID::from_hex("e69de29bb2d1d6434b8b29ae775ad8c2e48c539");
    assert_eq!(r.unwrap_err(), GitError::MalformedDigest);
}

#[test]
fn from_hex_rejects_long_input() {
    let r = ObjectID::from_hex("e69de29bb2d1d6434b8b29ae775ad8c2e48c53911");
    assert_eq!(r.unwrap_err(), GitError::MalformedDigest);
}

#[test]
fn from_hex_rejects_non_hex_character() {
    let r = ObjectID::from_hex("g69de29bb2d1d6434b8b29ae775ad8c2e48c5391");
    assert_eq!(r.unwrap_err(), GitError::MalformedDigest);
}

#[test]
fn from_hex_rejects_signed_digit_forms() {
    let r = ObjectID::from_hex("+69de29bb2d1d6434b8b29ae775ad8c2e48c5391");
    assert_eq!(r.unwrap_err(), GitError::MalformedDigest);
}

#[test]
fn new_round_trips_through_hex() {
    let bytes: Vec<u8> = (0..20).map(|i| (i * 12 + 7) as u8).collect();
    let id = ObjectID::new(bytes);
    let hex = id.to_hex();
    assert_eq!(hex.len(), 40);
    let back = ObjectID::from_hex(&hex).unwrap();
    assert_eq!(back.to_hex(), hex);
}
