use blox::error::BloxError;
use blox::validate::validate_blox_syntax;

#[test]
fn test_too_many_sigils_warning() {
    // A seven-sigil line also jumps more than one level above the start.
    let warnings = validate_blox_syntax("####### seven".to_string()).unwrap();
    assert_eq!(warnings.len(), 2);
    assert_eq!(warnings[0], "Line 1: Too many # symbols (max 6)");
    assert_eq!(warnings[1], "Line 1: Invalid nesting - jumped from level 0 to 7");
}

#[test]
fn test_invalid_nesting_warning() {
    let warnings = validate_blox_syntax("#a\n###b".to_string()).unwrap();
    assert_eq!(warnings.len(), 1);
    assert_eq!(warnings[0], "Line 2: Invalid nesting - jumped from level 1 to 3");
}

#[test]
fn test_missing_block_type_warning() {
    let warnings = validate_blox_syntax("#   ".to_string()).unwrap();
    assert_eq!(warnings.len(), 1);
    assert_eq!(warnings[0], "Line 1: Missing block type after #");
}

#[test]
fn test_block_type_must_start_with_letter() {
    let warnings = validate_blox_syntax("#1abc".to_string()).unwrap();
    assert_eq!(warnings.len(), 1);
    assert_eq!(warnings[0], "Line 1: Block type must start with letter");
}

#[test]
fn test_clean_input_has_no_warnings() {
    let text = "#h1 \"T\"\ncontent\n// comment\n\n##p\nmore";
    let warnings = validate_blox_syntax(text.to_string()).unwrap();
    assert!(warnings.is_empty());
}

#[test]
fn test_error_messages() {
    let e = BloxError::ParseError { line: 7, message: "bad".to_string() };
    assert_eq!(e.message(), "Parse error at line 7: bad");

    let e = BloxError::InvalidNesting { line: 3, expected: 1, actual: 4 };
    assert_eq!(e.message(), "Invalid block nesting at line 3: expected level 1, got 4");

    let e = BloxError::UnknownBlockType { block_type: "xyz".to_string() };
    assert_eq!(e.message(), "Unknown block type: xyz");

    let e = BloxError::InvalidAttribute { line: 2, attribute: "k".to_string() };
    assert_eq!(e.message(), "Invalid attribute syntax at line 2: k");

    let e = BloxError::IoError("gone".to_string());
    assert_eq!(e.message(), "IO error: gone");

    let e = BloxError::Utf8Error("bad byte".to_string());
    assert_eq!(e.message(), "UTF-8 encoding error: bad byte");
}
