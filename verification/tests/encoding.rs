use blox::ast::{Attribute, Block, BlockType, Document};
use blox::encoder::BloxEncoder;
use blox::parser::BloxParser;

#[test]
fn test_simple_encoding() {
    let encoder = BloxEncoder::new();
    let mut doc = Document::new();

    let mut block = Block::new(BlockType::H1, 1, 1);
    block.add_attribute("title".to_string(), "Hello World".to_string());
    block.content = "This is content.".to_string();

    doc.blocks.push(block);

    let result = encoder.encode(&doc).unwrap();
    assert!(result.contains("#h1 \"Hello World\""));
    assert!(result.contains("This is content."));
}

#[test]
fn test_attribute_encoding() {
    let encoder = BloxEncoder::new();
    let mut doc = Document::new();

    let mut block = Block::new(BlockType::Image, 1, 1);
    block.add_attribute("src".to_string(), "logo.png".to_string());
    block.add_attribute("alt".to_string(), "Company Logo".to_string());
    block.add_attribute("width".to_string(), "100".to_string());

    doc.blocks.push(block);

    let result = encoder.encode(&doc).unwrap();
    assert!(result.contains("#img \"logo.png\""));
    assert!(result.contains("alt=\"Company Logo\""));
    assert!(result.contains("width=100"));
}

#[test]
fn test_encoding_roundtrip() {
    let mut doc = Document::new();

    let mut h1_block = Block::new(BlockType::H1, 1, 1);
    h1_block.add_attribute("title".to_string(), "Test Title".to_string());
    h1_block.content = "Test content".to_string();

    doc.blocks.push(h1_block);

    let encoder = BloxEncoder::new();
    let encoded = encoder.encode(&doc).unwrap();

    println!("Encoded: {}", encoded);

    assert!(encoded.contains("#h1 \"Test Title\""));
    assert!(encoded.contains("Test content"));

    // Test roundtrip
    let mut parser = BloxParser::new();
    let parsed = parser.parse_string(&encoded).unwrap();

    assert_eq!(parsed.blocks.len(), 1);
    assert_eq!(parsed.blocks[0].get_attribute("title"), Some("Test Title"));
}

#[test]
fn test_parse_encode_parse_preserves_structure() {
    // A parsed document survives one encode/parse cycle with the same
    // canonical types, levels, attribute lookups and content.
    let source = "#h1 \"Top\"\nfirst body\n##code lang=rust\nlet x = 1;\n#quote \"Someone\"\nwise words";
    let mut parser = BloxParser::new();
    let d1 = parser.parse_string(source).unwrap();

    let encoder = BloxEncoder::new();
    let text = encoder.encode(&d1).unwrap();

    let mut parser2 = BloxParser::new();
    let d2 = parser2.parse_string(&text).unwrap();

    assert_eq!(d1.blocks.len(), d2.blocks.len());
    for (a, b) in d1.blocks.iter().zip(d2.blocks.iter()) {
        assert_eq!(a.block_type.canonical(), b.block_type.canonical());
        assert_eq!(a.level, b.level);
        assert_eq!(a.content, b.content);
    }
    assert_eq!(d2.blocks[0].get_attribute("title"), Some("Top"));
    assert_eq!(d2.blocks[0].children[0].get_attribute("lang"), Some("rust"));
    assert_eq!(d2.blocks[1].get_attribute("author"), Some("Someone"));
}

#[test]
fn test_canonical_encoding_without_shorthand() {
    let encoder = BloxEncoder::with_options(0, false);
    let mut doc = Document::new();
    let mut block = Block::new(BlockType::H2, 2, 1);
    block.add_attribute("title".to_string(), "Deep".to_string());
    doc.blocks.push(block);

    let result = encoder.encode(&doc).unwrap();
    assert!(result.contains("##section \"Deep\""));
}

#[test]
fn test_metadata_encoded_as_comments() {
    let mut doc = Document::new();
    doc.metadata.push(Attribute { key: "author".to_string(), value: "someone".to_string() });
    let encoder = BloxEncoder::new();
    let result = encoder.encode(&doc).unwrap();
    assert!(result.contains("// Document metadata"));
    assert!(result.contains("// author: someone"));
}

#[test]
fn test_quoted_value_escapes_quotes() {
    let mut doc = Document::new();
    let mut block = Block::new(BlockType::Section, 1, 1);
    block.add_attribute("title".to_string(), "say \"hi\"".to_string());
    doc.blocks.push(block);
    let encoder = BloxEncoder::new();
    let result = encoder.encode(&doc).unwrap();
    assert!(result.contains("#section \"say \\\"hi\\\"\""));
}

#[test]
fn test_indented_encoding() {
    let mut doc = Document::new();
    let mut parent = Block::new(BlockType::H1, 1, 1);
    parent.add_attribute("title".to_string(), "T".to_string());
    let child = Block::new(BlockType::P, 2, 2);
    parent.children.push(child);
    doc.blocks.push(parent);

    let encoder = BloxEncoder::with_options(2, true);
    let result = encoder.encode(&doc).unwrap();
    assert!(result.contains("#h1 \"T\""));
    assert!(result.contains("  ##p"));
}

#[test]
fn test_encoding_is_stable_across_one_cycle() {
    // Once a document has gone through one encode/parse cycle, a further
    // cycle reproduces the same text.
    let source = "#h1 \"Top\"\nbody\n##c rust\nlet x = 1;";
    let mut p1 = BloxParser::new();
    let d1 = p1.parse_string(source).unwrap();
    let encoder = BloxEncoder::new();
    let t1 = encoder.encode(&d1).unwrap();

    let mut p2 = BloxParser::new();
    let d2 = p2.parse_string(&t1).unwrap();
    let t2 = encoder.encode(&d2).unwrap();
    assert_eq!(t1, t2);
}
