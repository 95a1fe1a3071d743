use recovery_backup_core::backup_arg::{
    interpret_decoding, is_base64_encoded, resolve_backup_argument, BackupArgError,
};

#[test]
fn shape_needs_a_multiple_of_four() {
    assert!(is_base64_encoded(""));
    assert!(is_base64_encoded("abcd"));
    assert!(is_base64_encoded("QmFja3Vwcy9teV9iYWNrdXAuemlw"));
    assert!(is_base64_encoded("ab+/"));
    assert!(is_base64_encoded("ab=="));
    assert!(!is_base64_encoded("abc"));
    assert!(!is_base64_encoded("abcde"));
}

#[test]
fn shape_rejects_foreign_characters() {
    assert!(!is_base64_encoded("Backups/x.zip"));
    assert!(!is_base64_encoded("ab.d"));
    assert!(!is_base64_encoded("ab d"));
    assert!(!is_base64_encoded("ab-_"));
    assert!(!is_base64_encoded("abcé"));
    assert!(!is_base64_encoded("日本"));
    assert!(!is_base64_encoded("aé"));
}

#[test]
fn encoded_path_is_decoded() {
    assert_eq!(
        resolve_backup_argument("QmFja3Vwcy9teV9iYWNrdXAuemlw"),
        Ok("Backups/my_backup.zip".to_string())
    );
}

#[test]
fn literal_path_is_kept() {
    assert_eq!(resolve_backup_argument("Backups/x.zip"), Ok("Backups/x.zip".to_string()));
    assert_eq!(resolve_backup_argument("b.7z"), Ok("b.7z".to_string()));
}

#[test]
fn short_literal_of_base64_shape_is_decoded() {
    let decoded = String::from_utf8(vec![0x69, 0xb7, 0x1d]);
    assert!(decoded.is_err());
    assert_eq!(resolve_backup_argument("abcd"), Err(BackupArgError::InvalidUtf8));
    assert_eq!(resolve_backup_argument("YWJj"), Ok("abc".to_string()));
}

#[test]
fn rejected_text_is_an_error() {
    assert_eq!(resolve_backup_argument("=abc"), Err(BackupArgError::InvalidBase64));
    assert_eq!(resolve_backup_argument("a==="), Err(BackupArgError::InvalidBase64));
}

#[test]
fn bytes_that_are_not_utf8_are_an_error() {
    assert_eq!(resolve_backup_argument("/w=="), Err(BackupArgError::InvalidUtf8));
    assert_eq!(interpret_decoding(Some(vec![0xff])), Err(BackupArgError::InvalidUtf8));
    assert_eq!(interpret_decoding(Some(vec![0xc3, 0xa9])), Ok("é".to_string()));
    assert_eq!(interpret_decoding(None), Err(BackupArgError::InvalidBase64));
}

#[test]
fn empty_argument_decodes_to_empty_path() {
    assert_eq!(resolve_backup_argument(""), Ok(String::new()));
}

#[test]
#[allow(deprecated)]
fn encoding_round_trips() {
    let paths = ["", "a", "ab", "abc", "Backups/my_backup.zip", "C:\\worlds\\级别 1.7z", "x y z"];
    for path in paths {
        let encoded = base64::encode(path.as_bytes());
        assert!(is_base64_encoded(&encoded), "{}", encoded);
        assert_eq!(resolve_backup_argument(&encoded), Ok(path.to_string()));
    }
}

#[test]
fn error_messages() {
    assert_eq!(BackupArgError::InvalidBase64.message(), "Error decoding Base64");
    assert_eq!(BackupArgError::InvalidUtf8.message(), "Error decoding Base64 to UTF-8");
}
