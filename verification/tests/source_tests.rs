use simple_lang::source::{
    calculate_content_size, calculate_file_size, detect_encoding, validate_source_encoding,
    SourceFile,
};

#[test]
fn test_empty_string() {
    let result = calculate_file_size("");
    assert_eq!(result, 0);
}

#[test]
fn test_ascii_content() {
    let content = "Hello, world!";
    let result = calculate_file_size(content);
    assert_eq!(result, 13);
}

#[test]
fn test_unicode_content() {
    let content = "Hello, 世界!";
    let result = calculate_file_size(content);
    assert_eq!(result, 13);
}

#[test]
fn test_multiline_content() {
    let content = "fn main() {\n    println!(\"Hello\");\n}";
    let result = calculate_file_size(content);
    assert_eq!(result, content.len() as u32);
}

#[test]
fn test_content_with_special_chars() {
    let content = "let x = \"test\\n\\t\";";
    let result = calculate_file_size(content);
    assert_eq!(result, content.len() as u32);
}

#[test]
fn test_detect_encoding_regular_utf8() {
    let content = "Hello, world!";
    let encoding = detect_encoding(content);
    assert_eq!(encoding, "UTF-8");
}

#[test]
fn test_detect_encoding_with_bom() {
    let content = "\u{FEFF}Hello, world!";
    let encoding = detect_encoding(content);
    assert_eq!(encoding, "UTF-8-BOM");
}

#[test]
fn test_calculate_content_size() {
    let content = "Hello";
    let size = calculate_content_size(content);
    assert_eq!(size, 5);
}

#[test]
fn test_calculate_content_size_unicode() {
    let content = "Hello 世界";
    let size = calculate_content_size(content);
    assert_eq!(size, 12);
}

#[test]
fn test_validate_source_encoding_accepts_plain_text() {
    assert!(validate_source_encoding("main: function() -> i32 {").is_ok());
}

#[test]
fn test_validate_source_encoding_rejects_null() {
    let text = "abc\0def";
    assert_eq!(
        validate_source_encoding(text).unwrap_err(),
        "Source code contains null bytes which are not permitted"
    );
}

#[test]
fn test_validate_source_encoding_rejects_noncharacter() {
    let text = "abc\u{fdd0}";
    assert_eq!(
        validate_source_encoding(text).unwrap_err(),
        "Source code contains a non-character code point"
    );
}

#[test]
fn test_validate_source_encoding_rejects_bom() {
    let text = "\u{FEFF}main";
    assert_eq!(
        validate_source_encoding(text).unwrap_err(),
        "Source code contains Byte Order Mark (BOM) which is not supported"
    );
}

#[test]
fn test_source_file_fields() {
    let file = SourceFile {
        path: "demo.lang".to_string(),
        content: "main".to_string(),
        encoding: detect_encoding("main"),
        size_bytes: calculate_content_size("main"),
    };
    assert_eq!(file.encoding, "UTF-8");
    assert_eq!(file.size_bytes, 4);
}
