use blox::api::{
    decode_blox_document, encode_blox_document, parse_blox_string, BloxOutputFormat,
};
use blox::ast::BlockType;

#[test]
fn test_parse_blox_string_mirror() {
    let doc = parse_blox_string("#h1 \"T\"\nbody".to_string()).unwrap();
    assert_eq!(doc.blocks.len(), 1);
    assert_eq!(doc.blocks[0].block_type, "h1");
    assert_eq!(doc.blocks[0].level, 1);
    assert_eq!(doc.blocks[0].content, "body");
}

#[test]
fn test_encode_blox_document_from_mirror() {
    let doc = parse_blox_string("#h1 \"T\"\nbody".to_string()).unwrap();
    let text = encode_blox_document(doc, true).unwrap();
    assert!(text.contains("#h1 \"T\""));
    assert!(text.contains("body"));
}

#[test]
fn test_decode_blox_document_from_mirror() {
    let doc = parse_blox_string("#h1 \"T\"".to_string()).unwrap();
    let html = decode_blox_document(doc, BloxOutputFormat::Html).unwrap();
    assert!(html.contains("<h1>T</h1>"));
}

#[test]
fn test_mirror_conversion_resolves_tokens() {
    let doc = parse_blox_string("#h1 \"T\"".to_string()).unwrap();
    let internal = blox::api::convert_to_internal_document(&doc);
    assert_eq!(internal.blocks[0].block_type, BlockType::H1);
}
