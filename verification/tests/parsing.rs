use blox::ast::{Block, BlockType, InlineElement, ListItemType};
use blox::parser::BloxParser;

#[test]
fn test_simple_parsing() {
    let mut parser = BloxParser::new();
    let content = r#"
#h1 "Welcome to Blox"
This is the introduction.

#h2 "Features"
##code lang=rust
fn hello() {
    println!("Hello, Blox!");
}
"#;

    let doc = parser.parse_string(content).unwrap();
    assert_eq!(doc.blocks.len(), 2);
    assert_eq!(doc.blocks[0].level, 1);
    assert_eq!(doc.blocks[0].get_attribute("title"), Some("Welcome to Blox"));
}

#[test]
fn test_attribute_parsing() {
    let mut parser = BloxParser::new();
    let content = r#"#img src="logo.png" alt="Logo" width=100"#;

    let doc = parser.parse_string(content).unwrap();
    let block = &doc.blocks[0];

    assert_eq!(block.get_attribute("src"), Some("logo.png"));
    assert_eq!(block.get_attribute("alt"), Some("Logo"));
    assert_eq!(block.get_attribute("width"), Some("100"));
}

#[test]
fn test_basic_functionality() {
    let mut parser = BloxParser::new();
    let content = "#h1 \"Hello World\"\nThis is content";

    let result = parser.parse_string(content);
    println!("Parse result: {:?}", result);
    assert!(result.is_ok());

    let doc = result.unwrap();
    assert_eq!(doc.blocks.len(), 1);
    assert_eq!(doc.blocks[0].block_type, BlockType::H1);
}

#[test]
fn test_enhanced_blox_features() {
    let mut parser = BloxParser::new();
    let content = r#"
#h1 "Enhanced Blox Demo"

This shows **bold**, *italic*, `code`, and [link](url).

#list type=unordered
- Item 1
- Item 2
  - Nested item

#table header=true
Name | Value
Test | 123
"#;

    let doc = parser.parse_string(content).unwrap();

    // Check that we have blocks
    assert!(!doc.blocks.is_empty());

    // Find the H1 block which contains the inline elements
    let h1_block = doc
        .blocks
        .iter()
        .find(|b| matches!(b.block_type, BlockType::H1))
        .expect("Should have an H1 block");

    // Check that inline elements were parsed
    assert!(!h1_block.inline_elements.is_empty());

    // Check for specific inline elements
    let has_bold = h1_block
        .inline_elements
        .iter()
        .any(|elem| matches!(elem, InlineElement::Bold(_)));
    assert!(has_bold, "Should have bold inline element");

    let has_italic = h1_block
        .inline_elements
        .iter()
        .any(|elem| matches!(elem, InlineElement::Italic(_)));
    assert!(has_italic, "Should have italic inline element");

    let has_code = h1_block
        .inline_elements
        .iter()
        .any(|elem| matches!(elem, InlineElement::Code(_)));
    assert!(has_code, "Should have code inline element");

    let has_link = h1_block
        .inline_elements
        .iter()
        .any(|elem| matches!(elem, InlineElement::Link { .. }));
    assert!(has_link, "Should have link inline element");

    // Find the list block
    let list_block = doc
        .blocks
        .iter()
        .find(|b| matches!(b.block_type, BlockType::List))
        .expect("Should have a list block");

    // Check that list items were parsed
    assert!(!list_block.list_items.is_empty());

    // Find the table block
    let table_block = doc
        .blocks
        .iter()
        .find(|b| matches!(b.block_type, BlockType::Table))
        .expect("Should have a table block");

    // Check that table was parsed
    assert!(table_block.table.is_some());
    let table = table_block.table.as_ref().unwrap();
    assert!(table.header.is_some());
    assert_eq!(table.rows.len(), 1); // One data row

    println!("\u{2705} All enhanced Blox features working correctly!");
}

#[test]
fn test_comprehensive_parsing() {
    let mut parser = BloxParser::new();
    let content = r#"
#h1 "Welcome to Blox"
This is the introduction paragraph.

#h2 "Features"
Blox has many great features:

##code lang=rust
fn hello() {
    println!("Hello, Blox!");
}

##p
This is a nested paragraph.

#h2 "Conclusion"
That's all for now!
"#;

    let result = parser.parse_string(content);
    assert!(result.is_ok(), "Parsing should succeed");

    let doc = result.unwrap();
    println!("Parsed document: {:#?}", doc);

    assert_eq!(doc.blocks.len(), 3, "Should have 3 top-level blocks");

    // Test first block
    assert_eq!(doc.blocks[0].block_type, BlockType::H1);
    assert_eq!(doc.blocks[0].get_attribute("title"), Some("Welcome to Blox"));
    assert!(doc.blocks[0].content.contains("introduction"));

    // Test second block with children
    assert_eq!(doc.blocks[1].block_type, BlockType::H2);
    assert_eq!(doc.blocks[1].get_attribute("title"), Some("Features"));
    assert_eq!(doc.blocks[1].children.len(), 2, "Should have 2 child blocks");

    // Test code block child
    let code_block = &doc.blocks[1].children[0];
    assert_eq!(code_block.block_type, BlockType::Code);
    assert_eq!(code_block.get_attribute("lang"), Some("rust"));
    assert!(code_block.content.contains("println!"));
}

#[test]
fn test_shorthand_syntax() {
    let mut parser = BloxParser::new();
    let content = r#"
#h1 "Header 1"
#h2 "Header 2"  
#p
This is a paragraph.
#c rust
println!("code");
#img "logo.png"
"#;

    let doc = parser.parse_string(content).unwrap();
    println!("Shorthand document: {:#?}", doc);

    assert_eq!(doc.blocks.len(), 5);

    assert_eq!(doc.blocks[0].block_type, BlockType::H1);
    assert_eq!(doc.blocks[1].block_type, BlockType::H2);
    assert_eq!(doc.blocks[2].block_type, BlockType::P);
    assert_eq!(doc.blocks[3].block_type, BlockType::C);
    assert_eq!(doc.blocks[4].block_type, BlockType::Img);

    // Test positional attributes
    assert_eq!(doc.blocks[0].get_attribute("title"), Some("Header 1"));
    assert_eq!(doc.blocks[3].get_attribute("lang"), Some("rust"));
    assert_eq!(doc.blocks[4].get_attribute("src"), Some("logo.png"));
}

#[test]
fn test_nesting_by_level() {
    // Root 1 has exactly one child at level 2; the second level-1 header is
    // a sibling, not a descendant.
    let mut parser = BloxParser::new();
    let doc = parser.parse_string("#a\n##b\n#c").unwrap();

    assert_eq!(doc.blocks.len(), 2);
    assert_eq!(doc.blocks[0].block_type, BlockType::Custom("a".to_string()));
    assert_eq!(doc.blocks[0].level, 1);
    assert_eq!(doc.blocks[0].children.len(), 1);
    assert_eq!(doc.blocks[0].children[0].block_type, BlockType::Custom("b".to_string()));
    assert_eq!(doc.blocks[0].children[0].level, 2);
    // "c" is the code shorthand token; the structure is what matters here.
    assert_eq!(doc.blocks[1].block_type, BlockType::C);
    assert_eq!(doc.blocks[1].level, 1);
    assert!(doc.blocks[1].children.is_empty());
}

#[test]
fn test_attribute_ordering() {
    // Keyed attributes come first in match order, positional ones after.
    let mut parser = BloxParser::new();
    let doc = parser.parse_string(r#"#img "logo.png" alt="Company Logo" width=100"#).unwrap();
    let block = &doc.blocks[0];

    assert_eq!(block.attributes.len(), 3);
    assert_eq!(block.attributes[0].key, "alt");
    assert_eq!(block.attributes[0].value, "Company Logo");
    assert_eq!(block.attributes[1].key, "width");
    assert_eq!(block.attributes[1].value, "100");
    assert_eq!(block.attributes[2].key, "src");
    assert_eq!(block.attributes[2].value, "logo.png");
    assert_eq!(block.get_attribute("src"), Some("logo.png"));
}

#[test]
fn test_inline_tokenization_order() {
    // The pooled matches are walked in offset order; an overlapping match
    // is dropped silently.
    let mut block = Block::new(BlockType::Paragraph, 1, 1);
    block.content = "a **b** *c*".to_string();
    block.parse_inline_elements().unwrap();

    assert_eq!(
        block.inline_elements,
        vec![
            InlineElement::Text("a ".to_string()),
            InlineElement::Bold("b".to_string()),
            InlineElement::Text(" ".to_string()),
            InlineElement::Italic("c".to_string()),
        ]
    );
}

#[test]
fn test_table_header_and_rows() {
    let mut block = Block::new(BlockType::Table, 1, 1);
    block.add_attribute("header".to_string(), "true".to_string());
    block.content = "Name | Value\nTest | 123".to_string();
    block.parse_table().unwrap();

    let table = block.table.as_ref().unwrap();
    let header = table.header.as_ref().unwrap();
    assert_eq!(header.cells.len(), 2);
    assert!(header.cells.iter().all(|c| c.is_header));
    assert_eq!(header.cells[0].content, "Name");
    assert_eq!(header.cells[1].content, "Value");
    assert_eq!(table.rows.len(), 1);
    assert_eq!(table.rows[0].cells.len(), 2);
    assert_eq!(table.rows[0].cells[0].content, "Test");
    assert_eq!(table.rows[0].cells[1].content, "123");
    assert!(!table.rows[0].cells[0].is_header);
}

#[test]
fn test_empty_input_yields_empty_document() {
    let mut parser = BloxParser::new();
    let doc = parser.parse_string("").unwrap();
    assert!(doc.blocks.is_empty());
    assert!(doc.metadata.is_empty());
}

#[test]
fn test_duplicate_keys_first_match_wins() {
    let mut parser = BloxParser::new();
    let doc = parser.parse_string(r#"#section title="A" title="B""#).unwrap();
    assert_eq!(doc.blocks[0].get_attribute("title"), Some("A"));
    assert_eq!(doc.blocks[0].attributes.len(), 2);
}

#[test]
fn test_seven_sigils_is_content() {
    // More than six sigils never matches a block start; the line becomes
    // content of an implicit paragraph.
    let mut parser = BloxParser::new();
    let doc = parser.parse_string("####### seven").unwrap();
    assert_eq!(doc.blocks.len(), 1);
    assert_eq!(doc.blocks[0].block_type, BlockType::Paragraph);
    assert_eq!(doc.blocks[0].content, "####### seven");
}

#[test]
fn test_list_single_current_item_tracking() {
    // Only one current item is tracked: the first item at a fresh level has
    // no parent yet and is not collected; a dash-less line continues the
    // current item.
    let mut block = Block::new(BlockType::List, 1, 1);
    block.content = "- Item 1\n- Item 2\n  - Nested item".to_string();
    block.parse_list_items().unwrap();

    assert_eq!(block.list_items.len(), 1);
    assert_eq!(block.list_items[0].content, "Item 2\n  - Nested item");
    assert_eq!(block.list_items[0].item_type, ListItemType::Unchecked);
}

#[test]
fn test_check_list_items() {
    let mut block = Block::new(BlockType::List, 1, 1);
    block.add_attribute("type".to_string(), "check".to_string());
    block.content = "- first\n- [x] done\n- [ ] open".to_string();
    block.parse_list_items().unwrap();

    assert_eq!(block.list_items.len(), 2);
    assert_eq!(block.list_items[0].item_type, ListItemType::Checked);
    assert_eq!(block.list_items[0].content, "done");
    assert_eq!(block.list_items[1].item_type, ListItemType::Unchecked);
    assert_eq!(block.list_items[1].content, "open");
}

#[test]
fn test_definition_list_items() {
    let mut block = Block::new(BlockType::List, 1, 1);
    block.add_attribute("type".to_string(), "definition".to_string());
    block.content = "- ignored\n- term: meaning".to_string();
    block.parse_list_items().unwrap();

    assert_eq!(block.list_items.len(), 1);
    assert_eq!(
        block.list_items[0].item_type,
        ListItemType::Definition { term: "term".to_string() }
    );
    assert_eq!(block.list_items[0].content, "meaning");
}

#[test]
fn test_comment_lines_are_ignored() {
    let mut parser = BloxParser::new();
    let doc = parser.parse_string("// a comment\n#h1 \"T\"\n  // indented comment\nbody").unwrap();
    assert_eq!(doc.blocks.len(), 1);
    assert_eq!(doc.blocks[0].content, "body");
}

#[test]
fn test_unterminated_quote_falls_back_to_bare() {
    // An unterminated double quote in a keyed value falls back to the bare
    // non-whitespace run starting at the quote.
    let mut parser = BloxParser::new();
    let doc = parser.parse_string("#section x=\"ab cd").unwrap();
    assert_eq!(doc.blocks[0].get_attribute("x"), Some("\"ab"));
}

#[test]
fn test_single_quoted_attribute_value() {
    let mut parser = BloxParser::new();
    let doc = parser.parse_string("#section x='a b' 'T'").unwrap();
    assert_eq!(doc.blocks[0].get_attribute("x"), Some("a b"));
    assert_eq!(doc.blocks[0].get_attribute("title"), Some("T"));
}

#[test]
fn test_inline_empty_content_is_one_empty_text() {
    let mut block = Block::new(BlockType::Paragraph, 1, 1);
    block.parse_inline_elements().unwrap();
    assert_eq!(block.inline_elements, vec![InlineElement::Text(String::new())]);
}

#[test]
fn test_inline_no_match_is_whole_text() {
    let mut block = Block::new(BlockType::Paragraph, 1, 1);
    block.content = "plain words only".to_string();
    block.parse_inline_elements().unwrap();
    assert_eq!(
        block.inline_elements,
        vec![InlineElement::Text("plain words only".to_string())]
    );
}
