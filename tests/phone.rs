use ohmyphone::phone::is_valid_phone_number;

#[test]
fn test_valid_phone_numbers() {
    assert!(is_valid_phone_number("+1234567890"));
    assert!(is_valid_phone_number("1234567890"));
    assert!(is_valid_phone_number("+919876543210"));
    assert!(is_valid_phone_number("7654321"));
}

#[test]
fn test_invalid_phone_numbers() {
    assert!(!is_valid_phone_number(""));
    assert!(!is_valid_phone_number("+"));
    assert!(!is_valid_phone_number("abc123"));
    assert!(!is_valid_phone_number("+123abc"));
    assert!(!is_valid_phone_number("123-456-7890"));
    assert!(!is_valid_phone_number("123"));
    assert!(!is_valid_phone_number("12345678901234567890"));
}

#[test]
fn phone_digit_count_bounds() {
    assert!(is_valid_phone_number("123456789012345"));
    assert!(is_valid_phone_number("+123456789012345"));
    assert!(!is_valid_phone_number("1234567890123456"));
    assert!(!is_valid_phone_number("+1234567890123456"));
    assert!(!is_valid_phone_number("123456"));
    assert!(!is_valid_phone_number("+123456"));
    assert!(is_valid_phone_number("+1234567"));
}

#[test]
fn phone_rejects_plus_after_start_and_spaces() {
    assert!(!is_valid_phone_number("12+3456789"));
    assert!(!is_valid_phone_number("123 456 7890"));
    assert!(!is_valid_phone_number(" 1234567890"));
    assert!(!is_valid_phone_number("１２３４５６７８"));
}
