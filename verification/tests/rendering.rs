use blox::ast::{Attribute, Block, BlockType, Document};
use blox::decoder::{BloxDecoder, OutputFormat};
use blox::parser::BloxParser;

#[test]
fn test_html_output() {
    let decoder = BloxDecoder::new(OutputFormat::Html);
    let mut doc = Document::new();

    let mut block = Block::new(BlockType::H1, 1, 1);
    block.add_attribute("title".to_string(), "Hello World".to_string());
    doc.blocks.push(block);

    let result = decoder.decode(&doc).unwrap();
    assert!(result.contains("<h1>Hello World</h1>"));
    assert!(result.contains("<!DOCTYPE html>"));
}

#[test]
fn test_markdown_output() {
    let decoder = BloxDecoder::new(OutputFormat::Markdown);
    let mut doc = Document::new();

    let mut block = Block::new(BlockType::H1, 1, 1);
    block.add_attribute("title".to_string(), "Hello World".to_string());
    doc.blocks.push(block);

    let result = decoder.decode(&doc).unwrap();
    assert!(result.contains("# Hello World"));
}

#[test]
fn test_html_escapes_special_characters() {
    let decoder = BloxDecoder::new(OutputFormat::Html);
    let mut doc = Document::new();
    let mut block = Block::new(BlockType::Paragraph, 1, 1);
    block.content = "a<b & \"c\"".to_string();
    doc.blocks.push(block);

    let result = decoder.decode(&doc).unwrap();
    assert!(result.contains("<p>a&lt;b &amp; &quot;c&quot;</p>"));
}

#[test]
fn test_html_table_rendering() {
    let decoder = BloxDecoder::new(OutputFormat::Html);
    let mut parser = BloxParser::new();
    let doc = parser.parse_string("#table \"Caption\"\nName | Value\nTest | 123").unwrap();

    let result = decoder.decode(&doc).unwrap();
    assert!(result.contains("<caption>Caption</caption>"));
    assert!(result.contains("<th>Name</th>"));
    assert!(result.contains("<th>Value</th>"));
    assert!(result.contains("<td>Test</td>"));
    assert!(result.contains("<td>123</td>"));
}

#[test]
fn test_html_list_rendering() {
    let decoder = BloxDecoder::new(OutputFormat::Html);
    let mut parser = BloxParser::new();
    let doc = parser.parse_string("#list\n- one\n- two").unwrap();

    let result = decoder.decode(&doc).unwrap();
    assert!(result.contains("<ul>"));
    assert!(result.contains("<li>- one</li>"));
    assert!(result.contains("<li>- two</li>"));
}

#[test]
fn test_markdown_quote_with_author() {
    let decoder = BloxDecoder::new(OutputFormat::Markdown);
    let mut doc = Document::new();
    let mut block = Block::new(BlockType::Quote, 1, 1);
    block.add_attribute("author".to_string(), "Someone".to_string());
    block.content = "line one\nline two".to_string();
    doc.blocks.push(block);

    let result = decoder.decode(&doc).unwrap();
    assert!(result.contains("> line one\n> line two\n"));
    assert!(result.contains("> \u{2014} Someone"));
}

#[test]
fn test_plain_text_output() {
    let decoder = BloxDecoder::new(OutputFormat::PlainText);
    let mut parser = BloxParser::new();
    let doc = parser.parse_string("#h1 \"Title\"\nbody line\n##p\nnested").unwrap();

    let result = decoder.decode(&doc).unwrap();
    assert!(result.contains("Title\n"));
    assert!(result.contains("body line\n"));
    assert!(result.contains("  nested\n"));
}

#[test]
fn test_json_output_structure() {
    let decoder = BloxDecoder::new(OutputFormat::Json);
    let mut parser = BloxParser::new();
    let doc = parser.parse_string("#h1 \"T\"").unwrap();

    let result = decoder.decode(&doc).unwrap();
    assert!(result.starts_with("{\"blocks\":["));
    assert!(result.contains("\"block_type\":\"H1\""));
    assert!(result.contains("\"level\":1"));
    assert!(result.contains("\"key\":\"title\""));
    assert!(result.contains("\"value\":\"T\""));
    assert!(result.ends_with("\"metadata\":{}}"));
}

#[test]
fn test_json_escapes_strings() {
    let decoder = BloxDecoder::new(OutputFormat::Json);
    let mut doc = Document::new();
    let mut block = Block::new(BlockType::Paragraph, 1, 1);
    block.content = "a\"b\\c".to_string();
    doc.blocks.push(block);

    let result = decoder.decode(&doc).unwrap();
    assert!(result.contains("\"content\":\"a\\\"b\\\\c\""));
}

#[test]
fn test_html_custom_block_div() {
    let decoder = BloxDecoder::new(OutputFormat::Html);
    let mut parser = BloxParser::new();
    let doc = parser.parse_string("#warning\ncareful").unwrap();

    let result = decoder.decode(&doc).unwrap();
    assert!(result.contains("<div class=\"warning\">"));
    assert!(result.contains("careful"));
}

#[test]
fn test_html_code_language_class() {
    let decoder = BloxDecoder::new(OutputFormat::Html);
    let mut parser = BloxParser::new();
    let doc = parser.parse_string("#code rust\nlet x = 1;").unwrap();

    let result = decoder.decode(&doc).unwrap();
    assert!(result.contains("<pre><code class=\"language-rust\">let x = 1;</code></pre>"));
}

#[test]
fn test_json_empty_document() {
    let decoder = BloxDecoder::new(OutputFormat::Json);
    let doc = Document::new();
    let result = decoder.decode(&doc).unwrap();
    assert_eq!(result, "{\"blocks\":[],\"metadata\":{}}");
}
