//! The document tree: `Document`, `Block`, `Attribute`, inline spans, list
//! items and tables, with views into the ghost model.

use vstd::prelude::*;
use crate::model::{
    AttrV, TypeV, InlineV, ListTypeV, ItemTypeV, ItemV, CellV, RowV, TableV, BlockV, DocV, lookup,
    type_from_str_spec, type_to_str_spec, canonical_spec,
};
use crate::text::{chars_of, lower_of, eq_str};

verus! {

#[derive(Debug, Clone, PartialEq)]
pub struct Attribute {
    pub key: String,
    pub value: String,
}

#[derive(Debug, Clone, PartialEq)]
pub enum BlockType {
    Section,
    Paragraph,
    Code,
    Quote,
    Image,
    Table,
    List,
    Math,
    Comment,
    H1,
    H2,
    H3,
    H4,
    H5,
    H6,
    P,
    C,
    Q,
    Img,
    Tbl,
    M,
    Custom(String),
}

#[derive(Debug, Clone, PartialEq)]
pub enum InlineElement {
    Text(String),
    Link { text: String, url: String },
    Bold(String),
    Italic(String),
    Code(String),
    Math(String),
    Strikethrough(String),
    Highlight(String),
    Subscript(String),
    Superscript(String),
    Reference(String),
    Footnote { id: String, text: String },
    Custom { element_type: String, attributes: Vec<Attribute>, content: String },
}

#[derive(Debug, Clone, PartialEq)]
pub enum ListType {
    Unordered,
    Ordered,
    Check,
    Definition,
}

#[derive(Debug, Clone, PartialEq)]
pub enum ListItemType {
    Unchecked,
    Checked,
    Definition { term: String },
}

#[derive(Debug, PartialEq)]
pub struct ListItem {
    pub item_type: ListItemType,
    pub content: String,
    pub children: Vec<ListItem>,
    pub level: usize,
}

#[derive(Debug, Clone, PartialEq)]
pub struct TableCell {
    pub content: String,
    pub colspan: usize,
    pub rowspan: usize,
    pub is_header: bool,
}

#[derive(Debug, Clone, PartialEq)]
pub struct TableRow {
    pub cells: Vec<TableCell>,
}

#[derive(Debug, Clone, PartialEq)]
pub struct Table {
    pub caption: Option<String>,
    pub header: Option<TableRow>,
    pub rows: Vec<TableRow>,
}

#[derive(Debug, PartialEq)]
pub struct Block {
    pub block_type: BlockType,
    pub level: usize,
    pub attributes: Vec<Attribute>,
    pub content: String,
    pub children: Vec<Block>,
    pub line_number: usize,
    pub inline_elements: Vec<InlineElement>,
    pub list_items: Vec<ListItem>,
    pub table: Option<Table>,
}

#[derive(Debug, PartialEq)]
pub struct Document {
    pub blocks: Vec<Block>,
    pub metadata: Vec<Attribute>,
}

// ---------------------------------------------------------------------------
// Views
// ---------------------------------------------------------------------------

pub open spec fn attr_view(a: Attribute) -> AttrV {
    AttrV { key: a.key@, value: a.value@ }
}

pub open spec fn attrs_view(s: Seq<Attribute>) -> Seq<AttrV> {
    s.map_values(|a: Attribute| attr_view(a))
}

impl View for Attribute {
    type V = AttrV;

    open spec fn view(&self) -> AttrV {
        attr_view(*self)
    }
}

pub open spec fn type_view(t: BlockType) -> TypeV {
    match t {
        BlockType::Section => TypeV::Section,
        BlockType::Paragraph => TypeV::Paragraph,
        BlockType::Code => TypeV::Code,
        BlockType::Quote => TypeV::Quote,
        BlockType::Image => TypeV::Image,
        BlockType::Table => TypeV::Table,
        BlockType::List => TypeV::List,
        BlockType::Math => TypeV::Math,
        BlockType::Comment => TypeV::Comment,
        BlockType::H1 => TypeV::H1,
        BlockType::H2 => TypeV::H2,
        BlockType::H3 => TypeV::H3,
        BlockType::H4 => TypeV::H4,
        BlockType::H5 => TypeV::H5,
        BlockType::H6 => TypeV::H6,
        BlockType::P => TypeV::P,
        BlockType::C => TypeV::C,
        BlockType::Q => TypeV::Q,
        BlockType::Img => TypeV::Img,
        BlockType::Tbl => TypeV::Tbl,
        BlockType::M => TypeV::M,
        BlockType::Custom(name) => TypeV::Custom(name@),
    }
}

impl View for BlockType {
    type V = TypeV;

    open spec fn view(&self) -> TypeV {
        type_view(*self)
    }
}

pub open spec fn inline_view(e: InlineElement) -> InlineV {
    match e {
        InlineElement::Text(s) => InlineV::Text(s@),
        InlineElement::Link { text, url } => InlineV::Link { text: text@, url: url@ },
        InlineElement::Bold(s) => InlineV::Bold(s@),
        InlineElement::Italic(s) => InlineV::Italic(s@),
        InlineElement::Code(s) => InlineV::Code(s@),
        InlineElement::Math(s) => InlineV::Math(s@),
        InlineElement::Strikethrough(s) => InlineV::Strikethrough(s@),
        InlineElement::Highlight(s) => InlineV::Highlight(s@),
        InlineElement::Subscript(s) => InlineV::Subscript(s@),
        InlineElement::Superscript(s) => InlineV::Superscript(s@),
        InlineElement::Reference(s) => InlineV::Reference(s@),
        InlineElement::Footnote { id, text } => InlineV::Footnote { id: id@, text: text@ },
        InlineElement::Custom { element_type, attributes, content } => InlineV::Custom {
            element_type: element_type@,
            attributes: attrs_view(attributes@),
            content: content@,
        },
    }
}

pub open spec fn inlines_view(s: Seq<InlineElement>) -> Seq<InlineV> {
    s.map_values(|e: InlineElement| inline_view(e))
}

impl View for InlineElement {
    type V = InlineV;

    open spec fn view(&self) -> InlineV {
        inline_view(*self)
    }
}

pub open spec fn list_type_view(t: ListType) -> ListTypeV {
    match t {
        ListType::Unordered => ListTypeV::Unordered,
        ListType::Ordered => ListTypeV::Ordered,
        ListType::Check => ListTypeV::Check,
        ListType::Definition => ListTypeV::Definition,
    }
}

impl View for ListType {
    type V = ListTypeV;

    open spec fn view(&self) -> ListTypeV {
        list_type_view(*self)
    }
}

pub open spec fn item_type_view(t: ListItemType) -> ItemTypeV {
    match t {
        ListItemType::Unchecked => ItemTypeV::Unchecked,
        ListItemType::Checked => ItemTypeV::Checked,
        ListItemType::Definition { term } => ItemTypeV::Definition { term: term@ },
    }
}

impl View for ListItemType {
    type V = ItemTypeV;

    open spec fn view(&self) -> ItemTypeV {
        item_type_view(*self)
    }
}

pub open spec fn items_view(s: Seq<ListItem>) -> Seq<ItemV>
    decreases s, s.len(),
{
    if s.len() == 0 {
        Seq::empty()
    } else {
        seq![item_view(s[0])] + items_view(s.drop_first())
    }
}

pub open spec fn item_view(it: ListItem) -> ItemV
    decreases it, 0nat,
{
    ItemV {
        item_type: item_type_view(it.item_type),
        content: it.content@,
        children: items_view(it.children@),
        level: it.level as nat,
    }
}

impl View for ListItem {
    type V = ItemV;

    open spec fn view(&self) -> ItemV {
        item_view(*self)
    }
}

pub open spec fn cell_view(c: TableCell) -> CellV {
    CellV {
        content: c.content@,
        colspan: c.colspan as nat,
        rowspan: c.rowspan as nat,
        is_header: c.is_header,
    }
}

pub open spec fn row_view(r: TableRow) -> RowV {
    RowV { cells: r.cells@.map_values(|c: TableCell| cell_view(c)) }
}

pub open spec fn rows_view(s: Seq<TableRow>) -> Seq<RowV> {
    s.map_values(|r: TableRow| row_view(r))
}

impl View for TableCell {
    type V = CellV;

    open spec fn view(&self) -> CellV {
        cell_view(*self)
    }
}

impl View for TableRow {
    type V = RowV;

    open spec fn view(&self) -> RowV {
        row_view(*self)
    }
}

pub open spec fn table_view(t: Table) -> TableV {
    TableV {
        caption: match t.caption {
            Some(s) => Some(s@),
            None => None,
        },
        header: match t.header {
            Some(r) => Some(row_view(r)),
            None => None,
        },
        rows: rows_view(t.rows@),
    }
}

impl View for Table {
    type V = TableV;

    open spec fn view(&self) -> TableV {
        table_view(*self)
    }
}

pub open spec fn blocks_view(s: Seq<Block>) -> Seq<BlockV>
    decreases s, s.len(),
{
    if s.len() == 0 {
        Seq::empty()
    } else {
        seq![block_view(s[0])] + blocks_view(s.drop_first())
    }
}

pub open spec fn block_view(b: Block) -> BlockV
    decreases b, 0nat,
{
    BlockV {
        block_type: type_view(b.block_type),
        level: b.level as nat,
        attributes: attrs_view(b.attributes@),
        content: b.content@,
        children: blocks_view(b.children@),
        line_number: b.line_number as nat,
        inline_elements: inlines_view(b.inline_elements@),
        list_items: items_view(b.list_items@),
        table: match b.table {
            Some(t) => Some(table_view(t)),
            None => None,
        },
    }
}

impl View for Block {
    type V = BlockV;

    open spec fn view(&self) -> BlockV {
        block_view(*self)
    }
}

impl View for Document {
    type V = DocV;

    open spec fn view(&self) -> DocV {
        DocV { blocks: blocks_view(self.blocks@), metadata: attrs_view(self.metadata@) }
    }
}

// ---------------------------------------------------------------------------
// Lemmas on the recursively defined views
// ---------------------------------------------------------------------------

pub proof fn lemma_blocks_view_index(s: Seq<Block>)
    ensures
        blocks_view(s).len() == s.len(),
        forall|i: int| 0 <= i < s.len() ==> blocks_view(s)[i] == block_view(#[trigger] s[i]),
    decreases s.len(),
{
    if s.len() > 0 {
        lemma_blocks_view_index(s.drop_first());
        assert forall|i: int| 0 <= i < s.len() implies blocks_view(s)[i] == block_view(
            #[trigger] s[i],
        ) by {
            if i > 0 {
                assert(s.drop_first()[i - 1] == s[i]);
                assert(blocks_view(s)[i] == blocks_view(s.drop_first())[i - 1]);
            }
        }
    }
}

pub proof fn lemma_blocks_view_push(s: Seq<Block>, b: Block)
    ensures
        blocks_view(s.push(b)) == blocks_view(s).push(block_view(b)),
{
    lemma_blocks_view_index(s);
    lemma_blocks_view_index(s.push(b));
    assert forall|i: int| 0 <= i < s.len() + 1 implies blocks_view(s.push(b))[i] == blocks_view(
        s,
    ).push(block_view(b))[i] by {
        if i < s.len() {
            assert(s.push(b)[i] == s[i]);
        } else {
            assert(s.push(b)[i] == b);
        }
    }
    assert(blocks_view(s.push(b)) =~= blocks_view(s).push(block_view(b)));
}

pub proof fn lemma_blocks_view_drop_last(s: Seq<Block>)
    requires
        s.len() > 0,
    ensures
        blocks_view(s.subrange(0, s.len() - 1)) == blocks_view(s).drop_last(),
        blocks_view(s).len() == s.len(),
        blocks_view(s).last() == block_view(s.last()),
{
    lemma_blocks_view_index(s);
    lemma_blocks_view_index(s.subrange(0, s.len() - 1));
    assert forall|i: int| 0 <= i < s.len() - 1 implies blocks_view(s.subrange(0, s.len() - 1))[i]
        == blocks_view(s).drop_last()[i] by {
        assert(s.subrange(0, s.len() - 1)[i] == s[i]);
        assert(blocks_view(s).drop_last()[i] == blocks_view(s)[i]);
    }
    assert(blocks_view(s.subrange(0, s.len() - 1)) =~= blocks_view(s).drop_last());
}

pub proof fn lemma_items_view_index(s: Seq<ListItem>)
    ensures
        items_view(s).len() == s.len(),
        forall|i: int| 0 <= i < s.len() ==> items_view(s)[i] == item_view(#[trigger] s[i]),
    decreases s.len(),
{
    if s.len() > 0 {
        lemma_items_view_index(s.drop_first());
        assert forall|i: int| 0 <= i < s.len() implies items_view(s)[i] == item_view(
            #[trigger] s[i],
        ) by {
            if i > 0 {
                assert(s.drop_first()[i - 1] == s[i]);
                assert(items_view(s)[i] == items_view(s.drop_first())[i - 1]);
            }
        }
    }
}

pub proof fn lemma_items_view_push(s: Seq<ListItem>, it: ListItem)
    ensures
        items_view(s.push(it)) == items_view(s).push(item_view(it)),
{
    lemma_items_view_index(s);
    lemma_items_view_index(s.push(it));
    assert forall|i: int| 0 <= i < s.len() + 1 implies items_view(s.push(it))[i] == items_view(
        s,
    ).push(item_view(it))[i] by {
        if i < s.len() {
            assert(s.push(it)[i] == s[i]);
        } else {
            assert(s.push(it)[i] == it);
        }
    }
    assert(items_view(s.push(it)) =~= items_view(s).push(item_view(it)));
}

// ---------------------------------------------------------------------------
// Construction and lookup
// ---------------------------------------------------------------------------

impl Document {
    /// The empty document.
    pub fn new() -> (r: Document)
        ensures
            r@ == (DocV { blocks: Seq::<BlockV>::empty(), metadata: Seq::<AttrV>::empty() }),
    {
        let r = Document { blocks: Vec::new(), metadata: Vec::new() };
        proof {
            assert(attrs_view(r.metadata@) =~= Seq::<AttrV>::empty());
        }
        r
    }
}

impl Block {
    /// A fresh block with no attributes, content or children.
    pub fn new(block_type: BlockType, level: usize, line_number: usize) -> (r: Block)
        ensures
            r@ == (BlockV {
                block_type: block_type@,
                level: level as nat,
                attributes: Seq::<AttrV>::empty(),
                content: Seq::<char>::empty(),
                children: Seq::<BlockV>::empty(),
                line_number: line_number as nat,
                inline_elements: Seq::<InlineV>::empty(),
                list_items: Seq::<ItemV>::empty(),
                table: None,
            }),
    {
        let r = Block {
            block_type,
            level,
            attributes: Vec::new(),
            content: String::new(),
            children: Vec::new(),
            line_number,
            inline_elements: Vec::new(),
            list_items: Vec::new(),
            table: None,
        };
        proof {
            assert(attrs_view(r.attributes@) =~= Seq::<AttrV>::empty());
            assert(inlines_view(r.inline_elements@) =~= Seq::<InlineV>::empty());
        }
        r
    }

    /// Append an attribute; earlier attributes shadow it on lookup.
    pub fn add_attribute(&mut self, key: String, value: String)
        ensures
            final (self)@ == (BlockV {
                attributes: old(self)@.attributes.push(AttrV { key: key@, value: value@ }),
                ..old(self)@
            }),
    {
        let ghost prev = attrs_view(self.attributes@);
        let ghost a = AttrV { key: key@, value: value@ };
        self.attributes.push(Attribute { key, value });
        proof {
            assert(attrs_view(self.attributes@) =~= prev.push(a));
        }
    }

    /// The value of the first attribute whose key is `key`.
    pub fn get_attribute(&self, key: &str) -> (r: Option<&str>)
        ensures
            match (r, lookup(self@.attributes, key@)) {
                (Some(v), Some(w)) => v@ == w,
                (None, None) => true,
                _ => false,
            },
    {
        let ghost whole = attrs_view(self.attributes@);
        proof {
            assert(whole.subrange(0, whole.len() as int) =~= whole);
        }
        let mut i: usize = 0;
        while i < self.attributes.len()
            invariant
                i <= self.attributes@.len(),
                whole == attrs_view(self.attributes@),
                whole.len() == self.attributes@.len(),
                forall|j: int| 0 <= j < whole.len() ==> whole[j] == attr_view(
                    #[trigger] self.attributes@[j],
                ),
                lookup(whole, key@) == lookup(
                    whole.subrange(i as int, whole.len() as int),
                    key@,
                ),
            decreases self.attributes@.len() - i,
        {
            let kc = chars_of(self.attributes[i].key.as_str());
            let hit = eq_str(kc.as_slice(), key);
            proof {
                let rest = whole.subrange(i as int, whole.len() as int);
                assert(rest[0] == whole[i as int]);
                if !hit {
                    assert(rest.drop_first() =~= whole.subrange(
                        i as int + 1,
                        whole.len() as int,
                    ));
                }
            }
            if hit {
                return Some(self.attributes[i].value.as_str());
            }
            i = i + 1;
        }
        proof {
            assert(whole.subrange(i as int, whole.len() as int).len() == 0);
        }
        None
    }
}

/// The value of the first metadata entry whose key is `key`.
pub fn metadata_get<'a>(meta: &'a Vec<Attribute>, key: &str) -> (r: Option<&'a str>)
    ensures
        match (r, lookup(attrs_view(meta@), key@)) {
            (Some(v), Some(w)) => v@ == w,
            (None, None) => true,
            _ => false,
        },
{
    let ghost whole = attrs_view(meta@);
    proof {
        assert(whole.subrange(0, whole.len() as int) =~= whole);
    }
    let mut i: usize = 0;
    while i < meta.len()
        invariant
            i <= meta@.len(),
            whole == attrs_view(meta@),
            whole.len() == meta@.len(),
            forall|j: int| 0 <= j < whole.len() ==> whole[j] == attr_view(#[trigger] meta@[j]),
            lookup(whole, key@) == lookup(whole.subrange(i as int, whole.len() as int), key@),
        decreases meta@.len() - i,
    {
        let kc = chars_of(meta[i].key.as_str());
        let hit = eq_str(kc.as_slice(), key);
        proof {
            let rest = whole.subrange(i as int, whole.len() as int);
            assert(rest[0] == whole[i as int]);
            if !hit {
                assert(rest.drop_first() =~= whole.subrange(i as int + 1, whole.len() as int));
            }
        }
        if hit {
            return Some(meta[i].value.as_str());
        }
        i = i + 1;
    }
    proof {
        assert(whole.subrange(i as int, whole.len() as int).len() == 0);
    }
    None
}

/// A copy of an attribute with the same key and value.
pub fn clone_attr(a: &Attribute) -> (r: Attribute)
    ensures
        r@ == a@,
{
    Attribute { key: a.key.clone(), value: a.value.clone() }
}

/// A copy of an attribute list, in order.
pub fn clone_attrs(s: &Vec<Attribute>) -> (r: Vec<Attribute>)
    ensures
        attrs_view(r@) == attrs_view(s@),
        r@.len() == s@.len(),
{
    let mut out: Vec<Attribute> = Vec::new();
    let mut i: usize = 0;
    while i < s.len()
        invariant
            i <= s@.len(),
            out@.len() == i,
            forall|j: int| 0 <= j < i ==> attr_view(#[trigger] out@[j]) == attr_view(s@[j]),
        decreases s@.len() - i,
    {
        out.push(clone_attr(&s[i]));
        i = i + 1;
    }
    proof {
        assert(attrs_view(out@) =~= attrs_view(s@));
    }
    out
}

/// A copy of a block type, `Custom` spelling included.
pub fn clone_type(t: &BlockType) -> (r: BlockType)
    ensures
        r@ == t@,
{
    match t {
        BlockType::Section => BlockType::Section,
        BlockType::Paragraph => BlockType::Paragraph,
        BlockType::Code => BlockType::Code,
        BlockType::Quote => BlockType::Quote,
        BlockType::Image => BlockType::Image,
        BlockType::Table => BlockType::Table,
        BlockType::List => BlockType::List,
        BlockType::Math => BlockType::Math,
        BlockType::Comment => BlockType::Comment,
        BlockType::H1 => BlockType::H1,
        BlockType::H2 => BlockType::H2,
        BlockType::H3 => BlockType::H3,
        BlockType::H4 => BlockType::H4,
        BlockType::H5 => BlockType::H5,
        BlockType::H6 => BlockType::H6,
        BlockType::P => BlockType::P,
        BlockType::C => BlockType::C,
        BlockType::Q => BlockType::Q,
        BlockType::Img => BlockType::Img,
        BlockType::Tbl => BlockType::Tbl,
        BlockType::M => BlockType::M,
        BlockType::Custom(name) => BlockType::Custom(name.clone()),
    }
}

/// A copy of an inline element.
pub fn clone_inline(e: &InlineElement) -> (r: InlineElement)
    ensures
        r@ == e@,
{
    match e {
        InlineElement::Text(s) => InlineElement::Text(s.clone()),
        InlineElement::Link { text, url } => InlineElement::Link {
            text: text.clone(),
            url: url.clone(),
        },
        InlineElement::Bold(s) => InlineElement::Bold(s.clone()),
        InlineElement::Italic(s) => InlineElement::Italic(s.clone()),
        InlineElement::Code(s) => InlineElement::Code(s.clone()),
        InlineElement::Math(s) => InlineElement::Math(s.clone()),
        InlineElement::Strikethrough(s) => InlineElement::Strikethrough(s.clone()),
        InlineElement::Highlight(s) => InlineElement::Highlight(s.clone()),
        InlineElement::Subscript(s) => InlineElement::Subscript(s.clone()),
        InlineElement::Superscript(s) => InlineElement::Superscript(s.clone()),
        InlineElement::Reference(s) => InlineElement::Reference(s.clone()),
        InlineElement::Footnote { id, text } => InlineElement::Footnote {
            id: id.clone(),
            text: text.clone(),
        },
        InlineElement::Custom { element_type, attributes, content } => {
            let r = InlineElement::Custom {
                element_type: element_type.clone(),
                attributes: clone_attrs(attributes),
                content: content.clone(),
            };
            proof {
                assert(r@ =~= e@);
            }
            r
        },
    }
}

/// A copy of an inline element list, in order.
pub fn clone_inlines(s: &Vec<InlineElement>) -> (r: Vec<InlineElement>)
    ensures
        inlines_view(r@) == inlines_view(s@),
{
    let mut out: Vec<InlineElement> = Vec::new();
    let mut i: usize = 0;
    while i < s.len()
        invariant
            i <= s@.len(),
            out@.len() == i,
            forall|j: int| 0 <= j < i ==> inline_view(#[trigger] out@[j]) == inline_view(s@[j]),
        decreases s@.len() - i,
    {
        out.push(clone_inline(&s[i]));
        i = i + 1;
    }
    proof {
        assert(inlines_view(out@) =~= inlines_view(s@));
    }
    out
}

/// A copy of a list item and its descendants.
#[verifier::loop_isolation(false)]
pub fn clone_item(it: &ListItem) -> (r: ListItem)
    ensures
        r@ == it@,
    decreases *it,
{
    let item_type = match &it.item_type {
        ListItemType::Unchecked => ListItemType::Unchecked,
        ListItemType::Checked => ListItemType::Checked,
        ListItemType::Definition { term } => ListItemType::Definition { term: term.clone() },
    };
    let mut children: Vec<ListItem> = Vec::new();
    let mut i: usize = 0;
    proof {
        lemma_items_view_index(it.children@);
    }
    while i < it.children.len()
        invariant
            i <= it.children@.len(),
            children@.len() == i,
            items_view(children@).len() == i,
            forall|j: int|
                0 <= j < i ==> items_view(children@)[j] == items_view(it.children@)[j],
        decreases it.children@.len() - i,
    {
        let ghost snap = children@;
        let c = clone_item(&it.children[i]);
        let ghost cg = c;
        children.push(c);
        proof {
            lemma_items_view_push(snap, cg);
            lemma_items_view_index(children@);
        }
        i = i + 1;
    }
    let r = ListItem { item_type, content: it.content.clone(), children, level: it.level };
    proof {
        assert(items_view(r.children@) =~= items_view(it.children@));
        assert(r@ =~= it@);
    }
    r
}

/// A copy of a list item list, in order.
pub fn clone_items(s: &Vec<ListItem>) -> (r: Vec<ListItem>)
    ensures
        items_view(r@) == items_view(s@),
{
    let mut out: Vec<ListItem> = Vec::new();
    let mut i: usize = 0;
    proof {
        lemma_items_view_index(s@);
    }
    while i < s.len()
        invariant
            i <= s@.len(),
            out@.len() == i,
            items_view(out@).len() == i,
            items_view(s@).len() == s@.len(),
            forall|j: int| 0 <= j < i ==> items_view(out@)[j] == items_view(s@)[j],
        decreases s@.len() - i,
    {
        let ghost snap = out@;
        let c = clone_item(&s[i]);
        let ghost cg = c;
        out.push(c);
        proof {
            lemma_items_view_push(snap, cg);
            lemma_items_view_index(out@);
            lemma_items_view_index(s@);
        }
        i = i + 1;
    }
    proof {
        assert(items_view(out@) =~= items_view(s@));
    }
    out
}

/// A copy of a table.
pub fn clone_table(t: &Table) -> (r: Table)
    ensures
        r@ == t@,
{
    let caption = match &t.caption {
        Some(c) => Some(c.clone()),
        None => None,
    };
    let header = match &t.header {
        Some(h) => Some(clone_row(h)),
        None => None,
    };
    let mut rows: Vec<TableRow> = Vec::new();
    let mut i: usize = 0;
    while i < t.rows.len()
        invariant
            i <= t.rows@.len(),
            rows@.len() == i,
            forall|j: int| 0 <= j < i ==> row_view(#[trigger] rows@[j]) == row_view(t.rows@[j]),
        decreases t.rows@.len() - i,
    {
        rows.push(clone_row(&t.rows[i]));
        i = i + 1;
    }
    let r = Table { caption, header, rows };
    proof {
        assert(rows_view(r.rows@) =~= rows_view(t.rows@));
        assert(r@ =~= t@);
    }
    r
}

/// A copy of a table row.
pub fn clone_row(row: &TableRow) -> (r: TableRow)
    ensures
        r@ == row@,
{
    let mut cells: Vec<TableCell> = Vec::new();
    let mut i: usize = 0;
    while i < row.cells.len()
        invariant
            i <= row.cells@.len(),
            cells@.len() == i,
            forall|j: int|
                0 <= j < i ==> cell_view(#[trigger] cells@[j]) == cell_view(row.cells@[j]),
        decreases row.cells@.len() - i,
    {
        let c = &row.cells[i];
        cells.push(
            TableCell {
                content: c.content.clone(),
                colspan: c.colspan,
                rowspan: c.rowspan,
                is_header: c.is_header,
            },
        );
        i = i + 1;
    }
    let r = TableRow { cells };
    proof {
        assert(row_view(r) =~= row_view(*row));
    }
    r
}

impl BlockType {
    /// The block type a header token denotes; unrecognized tokens become
    /// `Custom` and keep their spelling.
    pub fn from_str(s: &str) -> (r: BlockType)
        ensures
            r@ == type_from_str_spec(s@),
    {
        let cv = chars_of(s);
        let l = lower_of(cv.as_slice());
        let lv = l.as_slice();
        if eq_str(lv, "section") {
            BlockType::Section
        } else if eq_str(lv, "paragraph") {
            BlockType::Paragraph
        } else if eq_str(lv, "code") {
            BlockType::Code
        } else if eq_str(lv, "quote") {
            BlockType::Quote
        } else if eq_str(lv, "image") {
            BlockType::Image
        } else if eq_str(lv, "table") {
            BlockType::Table
        } else if eq_str(lv, "list") {
            BlockType::List
        } else if eq_str(lv, "math") {
            BlockType::Math
        } else if eq_str(lv, "comment") {
            BlockType::Comment
        } else if eq_str(lv, "h1") {
            BlockType::H1
        } else if eq_str(lv, "h2") {
            BlockType::H2
        } else if eq_str(lv, "h3") {
            BlockType::H3
        } else if eq_str(lv, "h4") {
            BlockType::H4
        } else if eq_str(lv, "h5") {
            BlockType::H5
        } else if eq_str(lv, "h6") {
            BlockType::H6
        } else if eq_str(lv, "p") {
            BlockType::P
        } else if eq_str(lv, "c") {
            BlockType::C
        } else if eq_str(lv, "q") {
            BlockType::Q
        } else if eq_str(lv, "img") {
            BlockType::Img
        } else if eq_str(lv, "tbl") {
            BlockType::Tbl
        } else if eq_str(lv, "m") {
            BlockType::M
        } else {
            BlockType::Custom(s.to_owned())
        }
    }

    /// The token of this block type.
    pub fn to_str(&self) -> (r: &str)
        ensures
            r@ == type_to_str_spec(self@),
    {
        match self {
            BlockType::Section => "section",
            BlockType::Paragraph => "paragraph",
            BlockType::Code => "code",
            BlockType::Quote => "quote",
            BlockType::Image => "image",
            BlockType::Table => "table",
            BlockType::List => "list",
            BlockType::Math => "math",
            BlockType::Comment => "comment",
            BlockType::H1 => "h1",
            BlockType::H2 => "h2",
            BlockType::H3 => "h3",
            BlockType::H4 => "h4",
            BlockType::H5 => "h5",
            BlockType::H6 => "h6",
            BlockType::P => "p",
            BlockType::C => "c",
            BlockType::Q => "q",
            BlockType::Img => "img",
            BlockType::Tbl => "tbl",
            BlockType::M => "m",
            BlockType::Custom(name) => name.as_str(),
        }
    }

    /// The canonical kind this type reduces to; shorthand aliases map to
    /// their core kind, everything else stays itself.
    pub fn canonical(&self) -> (r: BlockType)
        ensures
            r@ == canonical_spec(self@),
    {
        match self {
            BlockType::Section => BlockType::Section,
            BlockType::Paragraph => BlockType::Paragraph,
            BlockType::Code => BlockType::Code,
            BlockType::Quote => BlockType::Quote,
            BlockType::Image => BlockType::Image,
            BlockType::Table => BlockType::Table,
            BlockType::List => BlockType::List,
            BlockType::Math => BlockType::Math,
            BlockType::Comment => BlockType::Comment,
            BlockType::H1 => BlockType::Section,
            BlockType::H2 => BlockType::Section,
            BlockType::H3 => BlockType::Section,
            BlockType::H4 => BlockType::Section,
            BlockType::H5 => BlockType::Section,
            BlockType::H6 => BlockType::Section,
            BlockType::P => BlockType::Paragraph,
            BlockType::C => BlockType::Code,
            BlockType::Q => BlockType::Quote,
            BlockType::Img => BlockType::Image,
            BlockType::Tbl => BlockType::Table,
            BlockType::M => BlockType::Math,
            BlockType::Custom(name) => BlockType::Custom(name.clone()),
        }
    }
}

} // verus!
