use boothhunter::error::AppError;
use boothhunter::text::{keep_trimmed_tag, validate_color, validate_name, validate_trimmed_name};

#[test]
fn color_rejects_malformed_values() {
    for bad in ["#ZZZZZZ", "123456", "#12345", "#1234567", "", "#12345g"] {
        match validate_color(bad) {
            Err(AppError::ParseError(_)) => {}
            other => panic!("{bad:?} gave {other:?}"),
        }
    }
}

#[test]
fn color_accepts_hex_triplets() {
    assert!(validate_color("#6366f1").is_ok());
    assert!(validate_color("#ABCDEF").is_ok());
    assert!(validate_color("#000000").is_ok());
}

#[test]
fn name_is_trimmed() {
    assert_eq!(validate_name("  Summer outfits \n").unwrap(), "Summer outfits");
}

#[test]
fn name_rejects_blank_and_long() {
    assert!(matches!(validate_name(""), Err(AppError::ParseError(_))));
    assert!(matches!(validate_name("   "), Err(AppError::ParseError(_))));
    let long = "x".repeat(201);
    assert!(matches!(validate_name(&long), Err(AppError::ParseError(_))));
    let limit = "x".repeat(200);
    assert_eq!(validate_name(&limit).unwrap(), limit);
}

#[test]
fn name_length_counts_characters() {
    let kana = "あ".repeat(200);
    assert_eq!(validate_name(&kana).unwrap(), kana);
    assert!(validate_trimmed_name("あ".repeat(201)).is_err());
}

#[test]
fn tag_check_on_trimmed_text() {
    assert!(!keep_trimmed_tag(""));
    assert!(keep_trimmed_tag("valid"));
    assert!(keep_trimmed_tag(&"a".repeat(100)));
    assert!(!keep_trimmed_tag(&"a".repeat(101)));
}

#[test]
fn error_messages() {
    assert_eq!(AppError::ParseError("bad".to_string()).message(), "bad");
    assert_eq!(AppError::NotFound("7".to_string()).message(), "Item not found: 7");
    assert_eq!(AppError::Database("locked".to_string()).message(), "Database error: locked");
}

#[test]
fn refusals_carry_their_messages() {
    assert_eq!(
        validate_color("#12345").unwrap_err(),
        AppError::ParseError("Invalid color format (expected #RRGGBB)".to_string())
    );
    assert_eq!(validate_name(" ").unwrap_err(), AppError::ParseError("Name cannot be empty".to_string()));
    assert_eq!(
        validate_name(&"y".repeat(201)).unwrap_err(),
        AppError::ParseError("Name too long (max 200 chars)".to_string())
    );
}
