use rit::hash::{hash_length_validation, object_path, object_path_segments};

#[test]
fn path_segments_of_full_hash() {
    let (dir, file) = object_path_segments("e69de29bb2d1d6434b8b29ae775ad8c2e48c5391");
    assert_eq!(dir, "e6");
    assert_eq!(file, "9de29bb2d1d6434b8b29ae775ad8c2e48c5391");
}

#[test]
fn path_of_full_hash() {
    assert_eq!(
        object_path("e69de29bb2d1d6434b8b29ae775ad8c2e48c5391"),
        ".rit/objects/e6/9de29bb2d1d6434b8b29ae775ad8c2e48c5391"
    );
}

#[test]
fn path_of_two_character_identifier() {
    assert_eq!(object_path("ab"), ".rit/objects/ab/");
    let (dir, file) = object_path_segments("abcd");
    assert_eq!(dir, "ab");
    assert_eq!(file, "cd");
}

#[test]
fn validation_accepts_and_lowercases() {
    assert_eq!(hash_length_validation("E69DE29B"), Ok("e69de29b".to_string()));
    assert_eq!(hash_length_validation("abcd"), Ok("abcd".to_string()));
    let full = "e69de29bb2d1d6434b8b29ae775ad8c2e48c5391";
    assert_eq!(hash_length_validation(full), Ok(full.to_string()));
}

#[test]
fn validation_rejects_short_hash() {
    assert_eq!(
        hash_length_validation("abc"),
        Err("Hash too short. Minimum length: 4".to_string())
    );
    assert_eq!(
        hash_length_validation(""),
        Err("Hash too short. Minimum length: 4".to_string())
    );
}

#[test]
fn validation_rejects_long_hash() {
    let long = "a".repeat(41);
    assert_eq!(
        hash_length_validation(&long),
        Err("Hash too long. Maximum length: 40".to_string())
    );
}

#[test]
fn validation_rejects_non_hex() {
    assert_eq!(
        hash_length_validation("abcg"),
        Err("Hash must contain only hexadecimal characters (0-9, a-f, A-F)".to_string())
    );
    // length is counted in bytes: two two-byte characters pass the length check
    assert_eq!(
        hash_length_validation("ééab"),
        Err("Hash must contain only hexadecimal characters (0-9, a-f, A-F)".to_string())
    );
}
