//! The host marshalling boundary: a mirror of the document tree with the
//! block type flattened to its token string, conversions in both
//! directions, and the top-level parse, encode and decode entry points.

use vstd::prelude::*;
use crate::ast::{
    Attribute, Block, BlockType, Document, InlineElement, ListItem, ListItemType, ListType, Table,
    TableCell, TableRow, attrs_view, block_view, blocks_view, clone_attrs, clone_inlines,
    clone_items, clone_table, inlines_view, items_view, lemma_blocks_view_index,
    lemma_blocks_view_push, table_view,
};
use crate::decoder::{BloxDecoder, OutputFormat, decode_spec};
use crate::encoder::{BloxEncoder, enc_doc_spec};
use crate::model::{
    AttrV, BlockV, DocV, InlineV, ItemV, TableV, type_from_str_spec, type_to_str_spec,
};
use crate::parser::{BloxParser, parse_lines_spec};
use crate::text::lines_spec;

verus! {

/// An inline element as the host sees it.
pub type BloxInlineElement = InlineElement;

/// A list kind as the host sees it.
pub type BloxListType = ListType;

/// A list item kind as the host sees it.
pub type BloxListItemType = ListItemType;

/// A list item as the host sees it.
pub type BloxListItem = ListItem;

/// A table cell as the host sees it.
pub type BloxTableCell = TableCell;

/// A table row as the host sees it.
pub type BloxTableRow = TableRow;

/// A table as the host sees it.
pub type BloxTable = Table;

/// Ghost model of a mirror block.
#[verifier::ext_equal]
pub ghost struct MirrorBlockV {
    pub block_type: Seq<char>,
    pub level: nat,
    pub attributes: Seq<AttrV>,
    pub content: Seq<char>,
    pub children: Seq<MirrorBlockV>,
    pub line_number: nat,
    pub inline_elements: Seq<InlineV>,
    pub list_items: Seq<ItemV>,
    pub table: Option<TableV>,
}

/// Ghost model of a mirror document.
#[verifier::ext_equal]
pub ghost struct MirrorDocV {
    pub blocks: Seq<MirrorBlockV>,
    pub metadata: Seq<AttrV>,
}

/// A block as the host sees it: the block type flattened to its token.
#[derive(Debug, PartialEq)]
pub struct BloxBlock {
    pub block_type: String,
    pub level: usize,
    pub attributes: Vec<Attribute>,
    pub content: String,
    pub children: Vec<BloxBlock>,
    pub line_number: usize,
    pub inline_elements: Vec<InlineElement>,
    pub list_items: Vec<ListItem>,
    pub table: Option<Table>,
}

/// A document as the host sees it.
#[derive(Debug, PartialEq)]
pub struct BloxDocument {
    pub blocks: Vec<BloxBlock>,
    pub metadata: Vec<Attribute>,
}

pub open spec fn mirror_blocks_v(s: Seq<BloxBlock>) -> Seq<MirrorBlockV>
    decreases s, s.len(),
{
    if s.len() == 0 {
        Seq::empty()
    } else {
        seq![mirror_block_v(s[0])] + mirror_blocks_v(s.drop_first())
    }
}

pub open spec fn mirror_block_v(b: BloxBlock) -> MirrorBlockV
    decreases b, 0nat,
{
    MirrorBlockV {
        block_type: b.block_type@,
        level: b.level as nat,
        attributes: attrs_view(b.attributes@),
        content: b.content@,
        children: mirror_blocks_v(b.children@),
        line_number: b.line_number as nat,
        inline_elements: inlines_view(b.inline_elements@),
        list_items: items_view(b.list_items@),
        table: match b.table {
            Some(t) => Some(table_view(t)),
            None => None,
        },
    }
}

impl View for BloxBlock {
    type V = MirrorBlockV;

    open spec fn view(&self) -> MirrorBlockV {
        mirror_block_v(*self)
    }
}

impl View for BloxDocument {
    type V = MirrorDocV;

    open spec fn view(&self) -> MirrorDocV {
        MirrorDocV { blocks: mirror_blocks_v(self.blocks@), metadata: attrs_view(self.metadata@) }
    }
}

pub proof fn lemma_mirror_blocks_index(s: Seq<BloxBlock>)
    ensures
        mirror_blocks_v(s).len() == s.len(),
        forall|i: int|
            0 <= i < s.len() ==> mirror_blocks_v(s)[i] == mirror_block_v(#[trigger] s[i]),
    decreases s.len(),
{
    if s.len() > 0 {
        lemma_mirror_blocks_index(s.drop_first());
        assert forall|i: int| 0 <= i < s.len() implies mirror_blocks_v(s)[i] == mirror_block_v(
            s[i],
        ) by {
            if i > 0 {
                assert(s.drop_first()[i - 1] == s[i]);
                assert(mirror_blocks_v(s)[i] == mirror_blocks_v(s.drop_first())[i - 1]);
            }
        }
    }
}

// ---------------------------------------------------------------------------
// Conversions
// ---------------------------------------------------------------------------

/// The mirror of a block: the type becomes its token, everything else is
/// carried over.
pub open spec fn mirror_of_block(b: BlockV) -> MirrorBlockV
    decreases b, 0nat,
{
    MirrorBlockV {
        block_type: type_to_str_spec(b.block_type),
        level: b.level,
        attributes: b.attributes,
        content: b.content,
        children: mirror_of_blocks(b.children),
        line_number: b.line_number,
        inline_elements: b.inline_elements,
        list_items: b.list_items,
        table: b.table,
    }
}

pub open spec fn mirror_of_blocks(s: Seq<BlockV>) -> Seq<MirrorBlockV>
    decreases s, s.len(),
{
    if s.len() == 0 {
        Seq::empty()
    } else {
        seq![mirror_of_block(s[0])] + mirror_of_blocks(s.drop_first())
    }
}

/// The internal block of a mirror block: the token is resolved through the
/// type table, everything else is carried over.
pub open spec fn internal_of_mirror(m: MirrorBlockV) -> BlockV
    decreases m, 0nat,
{
    BlockV {
        block_type: type_from_str_spec(m.block_type),
        level: m.level,
        attributes: m.attributes,
        content: m.content,
        children: internal_of_mirrors(m.children),
        line_number: m.line_number,
        inline_elements: m.inline_elements,
        list_items: m.list_items,
        table: m.table,
    }
}

pub open spec fn internal_of_mirrors(s: Seq<MirrorBlockV>) -> Seq<BlockV>
    decreases s, s.len(),
{
    if s.len() == 0 {
        Seq::empty()
    } else {
        seq![internal_of_mirror(s[0])] + internal_of_mirrors(s.drop_first())
    }
}

pub proof fn lemma_mirror_of_blocks_index(s: Seq<BlockV>)
    ensures
        mirror_of_blocks(s).len() == s.len(),
        forall|i: int|
            0 <= i < s.len() ==> mirror_of_blocks(s)[i] == mirror_of_block(#[trigger] s[i]),
    decreases s.len(),
{
    if s.len() > 0 {
        lemma_mirror_of_blocks_index(s.drop_first());
        assert forall|i: int| 0 <= i < s.len() implies mirror_of_blocks(s)[i] == mirror_of_block(
            s[i],
        ) by {
            if i > 0 {
                assert(s.drop_first()[i - 1] == s[i]);
                assert(mirror_of_blocks(s)[i] == mirror_of_blocks(s.drop_first())[i - 1]);
            }
        }
    }
}

pub proof fn lemma_internal_of_mirrors_index(s: Seq<MirrorBlockV>)
    ensures
        internal_of_mirrors(s).len() == s.len(),
        forall|i: int|
            0 <= i < s.len() ==> internal_of_mirrors(s)[i] == internal_of_mirror(#[trigger] s[i]),
    decreases s.len(),
{
    if s.len() > 0 {
        lemma_internal_of_mirrors_index(s.drop_first());
        assert forall|i: int| 0 <= i < s.len() implies internal_of_mirrors(s)[i]
            == internal_of_mirror(s[i]) by {
            if i > 0 {
                assert(s.drop_first()[i - 1] == s[i]);
                assert(internal_of_mirrors(s)[i] == internal_of_mirrors(s.drop_first())[i - 1]);
            }
        }
    }
}

/// The mirror copy of an internal block.
#[verifier::loop_isolation(false)]
pub fn to_mirror_block(b: &Block) -> (r: BloxBlock)
    ensures
        r@ == mirror_of_block(b@),
    decreases *b,
{
    let mut children: Vec<BloxBlock> = Vec::new();
    let mut i: usize = 0;
    proof {
        lemma_blocks_view_index(b.children@);
        lemma_mirror_of_blocks_index(blocks_view(b.children@));
    }
    while i < b.children.len()
        invariant
            i <= b.children@.len(),
            children@.len() == i,
            mirror_blocks_v(children@).len() == i,
            forall|j: int|
                0 <= j < i ==> mirror_blocks_v(children@)[j] == mirror_of_blocks(
                    blocks_view(b.children@),
                )[j],
        decreases b.children@.len() - i,
    {
        let ghost snap = children@;
        let c = to_mirror_block(&b.children[i]);
        let ghost cg = c;
        children.push(c);
        proof {
            lemma_mirror_blocks_index(children@);
            lemma_mirror_blocks_index(snap);
            assert forall|j: int| 0 <= j < i + 1 implies mirror_blocks_v(children@)[j]
                == mirror_of_blocks(blocks_view(b.children@))[j] by {
                assert(mirror_blocks_v(children@)[j] == mirror_block_v(children@[j]));
                if j < i {
                    assert(children@[j] == snap[j]);
                    assert(mirror_blocks_v(snap)[j] == mirror_block_v(snap[j]));
                } else {
                    assert(children@[j] == cg);
                }
            }
        }
        i = i + 1;
    }
    let ts = b.block_type.to_str();
    let r = BloxBlock {
        block_type: ts.to_owned(),
        level: b.level,
        attributes: clone_attrs(&b.attributes),
        content: b.content.clone(),
        children,
        line_number: b.line_number,
        inline_elements: clone_inlines(&b.inline_elements),
        list_items: clone_items(&b.list_items),
        table: match &b.table {
            Some(t) => Some(clone_table(t)),
            None => None,
        },
    };
    proof {
        assert(mirror_blocks_v(r.children@) =~= mirror_of_blocks(blocks_view(b.children@)));
        assert(r@ =~= mirror_of_block(b@));
    }
    r
}

/// The mirror copy of an internal document.
pub fn to_mirror_document(d: &Document) -> (r: BloxDocument)
    ensures
        r@.blocks == mirror_of_blocks(d@.blocks),
        r@.metadata == d@.metadata,
{
    let mut blocks: Vec<BloxBlock> = Vec::new();
    let mut i: usize = 0;
    proof {
        lemma_blocks_view_index(d.blocks@);
        lemma_mirror_of_blocks_index(blocks_view(d.blocks@));
    }
    while i < d.blocks.len()
        invariant
            i <= d.blocks@.len(),
            blocks@.len() == i,
            mirror_blocks_v(blocks@).len() == i,
            blocks_view(d.blocks@).len() == d.blocks@.len(),
            forall|j: int|
                0 <= j < d.blocks@.len() ==> blocks_view(d.blocks@)[j] == block_view(
                    #[trigger] d.blocks@[j],
                ),
            mirror_of_blocks(blocks_view(d.blocks@)).len() == d.blocks@.len(),
            forall|j: int|
                0 <= j < d.blocks@.len() ==> mirror_of_blocks(blocks_view(d.blocks@))[j]
                    == mirror_of_block(#[trigger] blocks_view(d.blocks@)[j]),
            forall|j: int|
                0 <= j < i ==> mirror_blocks_v(blocks@)[j] == mirror_of_blocks(
                    blocks_view(d.blocks@),
                )[j],
        decreases d.blocks@.len() - i,
    {
        let ghost snap = blocks@;
        let c = to_mirror_block(&d.blocks[i]);
        let ghost cg = c;
        blocks.push(c);
        proof {
            lemma_mirror_blocks_index(blocks@);
            lemma_mirror_blocks_index(snap);
            assert forall|j: int| 0 <= j < i + 1 implies mirror_blocks_v(blocks@)[j]
                == mirror_of_blocks(blocks_view(d.blocks@))[j] by {
                assert(mirror_blocks_v(blocks@)[j] == mirror_block_v(blocks@[j]));
                if j < i {
                    assert(blocks@[j] == snap[j]);
                    assert(mirror_blocks_v(snap)[j] == mirror_block_v(snap[j]));
                } else {
                    assert(blocks@[j] == cg);
                }
            }
        }
        i = i + 1;
    }
    let r = BloxDocument { blocks, metadata: clone_attrs(&d.metadata) };
    proof {
        assert(mirror_blocks_v(r.blocks@) =~= mirror_of_blocks(d@.blocks));
    }
    r
}

/// The internal copy of a mirror block.
#[verifier::loop_isolation(false)]
pub fn convert_to_internal_block(block: &BloxBlock) -> (r: Block)
    ensures
        r@ == internal_of_mirror(block@),
    decreases *block,
{
    let block_type = BlockType::from_str(block.block_type.as_str());
    let mut children: Vec<Block> = Vec::new();
    let mut i: usize = 0;
    proof {
        lemma_mirror_blocks_index(block.children@);
        lemma_internal_of_mirrors_index(mirror_blocks_v(block.children@));
    }
    while i < block.children.len()
        invariant
            i <= block.children@.len(),
            children@.len() == i,
            blocks_view(children@).len() == i,
            forall|j: int|
                0 <= j < i ==> blocks_view(children@)[j] == internal_of_mirrors(
                    mirror_blocks_v(block.children@),
                )[j],
        decreases block.children@.len() - i,
    {
        let ghost snap = children@;
        let c = convert_to_internal_block(&block.children[i]);
        let ghost cg = c;
        children.push(c);
        proof {
            lemma_blocks_view_push(snap, cg);
            lemma_blocks_view_index(children@);
        }
        i = i + 1;
    }
    let r = Block {
        block_type,
        level: block.level,
        attributes: clone_attrs(&block.attributes),
        content: block.content.clone(),
        children,
        line_number: block.line_number,
        inline_elements: clone_inlines(&block.inline_elements),
        list_items: clone_items(&block.list_items),
        table: match &block.table {
            Some(t) => Some(clone_table(t)),
            None => None,
        },
    };
    proof {
        assert(blocks_view(r.children@) =~= internal_of_mirrors(mirror_blocks_v(block.children@)));
        assert(r@ =~= internal_of_mirror(block@));
    }
    r
}

/// The internal copy of a mirror document.
pub fn convert_to_internal_document(doc: &BloxDocument) -> (r: Document)
    ensures
        r@.blocks == internal_of_mirrors(doc@.blocks),
        r@.metadata == doc@.metadata,
{
    let mut blocks: Vec<Block> = Vec::new();
    let mut i: usize = 0;
    proof {
        lemma_mirror_blocks_index(doc.blocks@);
        lemma_internal_of_mirrors_index(mirror_blocks_v(doc.blocks@));
    }
    while i < doc.blocks.len()
        invariant
            i <= doc.blocks@.len(),
            blocks@.len() == i,
            blocks_view(blocks@).len() == i,
            mirror_blocks_v(doc.blocks@).len() == doc.blocks@.len(),
            forall|j: int|
                0 <= j < doc.blocks@.len() ==> mirror_blocks_v(doc.blocks@)[j] == mirror_block_v(
                    #[trigger] doc.blocks@[j],
                ),
            internal_of_mirrors(mirror_blocks_v(doc.blocks@)).len() == doc.blocks@.len(),
            forall|j: int|
                0 <= j < doc.blocks@.len() ==> internal_of_mirrors(mirror_blocks_v(doc.blocks@))[j]
                    == internal_of_mirror(#[trigger] mirror_blocks_v(doc.blocks@)[j]),
            forall|j: int|
                0 <= j < i ==> blocks_view(blocks@)[j] == internal_of_mirrors(
                    mirror_blocks_v(doc.blocks@),
                )[j],
        decreases doc.blocks@.len() - i,
    {
        let ghost snap = blocks@;
        let c = convert_to_internal_block(&doc.blocks[i]);
        let ghost cg = c;
        blocks.push(c);
        proof {
            lemma_blocks_view_push(snap, cg);
            lemma_blocks_view_index(blocks@);
        }
        i = i + 1;
    }
    let r = Document { blocks, metadata: clone_attrs(&doc.metadata) };
    proof {
        assert(blocks_view(r.blocks@) =~= internal_of_mirrors(doc@.blocks));
    }
    r
}

// ---------------------------------------------------------------------------
// Formats and progress
// ---------------------------------------------------------------------------

/// An output format as the host names it.
#[derive(Debug, Clone, PartialEq, Eq, Structural)]
pub enum BloxOutputFormat {
    Html,
    Markdown,
    Json,
    PlainText,
}

/// The decoder format a host format selects.
pub open spec fn format_of_spec(f: BloxOutputFormat) -> OutputFormat {
    match f {
        BloxOutputFormat::Html => OutputFormat::Html,
        BloxOutputFormat::Markdown => OutputFormat::Markdown,
        BloxOutputFormat::Json => OutputFormat::Json,
        BloxOutputFormat::PlainText => OutputFormat::PlainText,
    }
}

impl BloxOutputFormat {
    /// The decoder format this host format selects.
    pub fn to_format(&self) -> (r: OutputFormat)
        ensures
            r == format_of_spec(*self),
    {
        match self {
            BloxOutputFormat::Html => OutputFormat::Html,
            BloxOutputFormat::Markdown => OutputFormat::Markdown,
            BloxOutputFormat::Json => OutputFormat::Json,
            BloxOutputFormat::PlainText => OutputFormat::PlainText,
        }
    }
}

/// A progress report for a long parse driven by a caller.
#[derive(Debug, Clone, PartialEq)]
pub struct ParseProgress {
    pub lines_processed: u64,
    pub total_lines: u64,
    pub current_section: String,
}

// ---------------------------------------------------------------------------
// Entry points
// ---------------------------------------------------------------------------

/// Parse a Blox document from string content, as the host sees it.  Never
/// fails.
pub fn parse_blox_string(content: String) -> (r: Result<BloxDocument, String>)
    ensures
        match r {
            Ok(d) => {
                &&& d@.blocks == mirror_of_blocks(
                    parse_lines_spec(
                        (Seq::<BlockV>::empty(), Seq::<BlockV>::empty()),
                        lines_spec(content@),
                    ),
                )
                &&& d@.metadata.len() == 0
            },
            Err(_) => false,
        },
{
    let mut parser = BloxParser::new();
    match parser.parse_string(content.as_str()) {
        Ok(document) => Ok(to_mirror_document(&document)),
        Err(e) => Err(e.message()),
    }
}

/// Serialize a host document back to Blox source text.  Never fails.
pub fn encode_blox_document(document: BloxDocument, use_shorthand: bool) -> (r: Result<
    String,
    String,
>)
    ensures
        match r {
            Ok(s) => s@ == enc_doc_spec(
                DocV {
                    blocks: internal_of_mirrors(document@.blocks),
                    metadata: document@.metadata,
                },
                0nat,
                use_shorthand,
            ),
            Err(_) => false,
        },
{
    let internal_doc = convert_to_internal_document(&document);
    let encoder = BloxEncoder::with_options(0, use_shorthand);
    match encoder.encode(&internal_doc) {
        Ok(content) => Ok(content),
        Err(e) => Err(e.message()),
    }
}

/// Render a host document to the chosen output format.  Never fails.
pub fn decode_blox_document(document: BloxDocument, format: BloxOutputFormat) -> (r: Result<
    String,
    String,
>)
    ensures
        match r {
            Ok(s) => s@ == decode_spec(
                DocV {
                    blocks: internal_of_mirrors(document@.blocks),
                    metadata: document@.metadata,
                },
                format_of_spec(format),
            ),
            Err(_) => false,
        },
{
    let internal_doc = convert_to_internal_document(&document);
    let decoder = BloxDecoder::new(format.to_format());
    match decoder.decode(&internal_doc) {
        Ok(content) => Ok(content),
        Err(e) => Err(e.message()),
    }
}

} // verus!
