//! Ghost models of the document tree.
//!
//! Every executable AST type has a view into these ghost types; contracts
//! throughout the crate speak of the views.

use vstd::prelude::*;
use crate::text::lower_seq;

verus! {

/// Model of an attribute: an ordered key/value pair.
#[verifier::ext_equal]
pub ghost struct AttrV {
    pub key: Seq<char>,
    pub value: Seq<char>,
}

/// Model of a block type.
#[verifier::ext_equal]
pub ghost enum TypeV {
    Section,
    Paragraph,
    Code,
    Quote,
    Image,
    Table,
    List,
    Math,
    Comment,
    H1,
    H2,
    H3,
    H4,
    H5,
    H6,
    P,
    C,
    Q,
    Img,
    Tbl,
    M,
    Custom(Seq<char>),
}

/// Model of an inline span.
#[verifier::ext_equal]
pub ghost enum InlineV {
    Text(Seq<char>),
    Link { text: Seq<char>, url: Seq<char> },
    Bold(Seq<char>),
    Italic(Seq<char>),
    Code(Seq<char>),
    Math(Seq<char>),
    Strikethrough(Seq<char>),
    Highlight(Seq<char>),
    Subscript(Seq<char>),
    Superscript(Seq<char>),
    Reference(Seq<char>),
    Footnote { id: Seq<char>, text: Seq<char> },
    Custom { element_type: Seq<char>, attributes: Seq<AttrV>, content: Seq<char> },
}

/// Model of a list kind.
#[verifier::ext_equal]
pub ghost enum ListTypeV {
    Unordered,
    Ordered,
    Check,
    Definition,
}

/// Model of a list item kind.
#[verifier::ext_equal]
pub ghost enum ItemTypeV {
    Unchecked,
    Checked,
    Definition { term: Seq<char> },
}

/// Model of a list item.
#[verifier::ext_equal]
pub ghost struct ItemV {
    pub item_type: ItemTypeV,
    pub content: Seq<char>,
    pub children: Seq<ItemV>,
    pub level: nat,
}

/// Model of a table cell.
#[verifier::ext_equal]
pub ghost struct CellV {
    pub content: Seq<char>,
    pub colspan: nat,
    pub rowspan: nat,
    pub is_header: bool,
}

/// Model of a table row.
#[verifier::ext_equal]
pub ghost struct RowV {
    pub cells: Seq<CellV>,
}

/// Model of a table.
#[verifier::ext_equal]
pub ghost struct TableV {
    pub caption: Option<Seq<char>>,
    pub header: Option<RowV>,
    pub rows: Seq<RowV>,
}

/// Model of a block.
#[verifier::ext_equal]
pub ghost struct BlockV {
    pub block_type: TypeV,
    pub level: nat,
    pub attributes: Seq<AttrV>,
    pub content: Seq<char>,
    pub children: Seq<BlockV>,
    pub line_number: nat,
    pub inline_elements: Seq<InlineV>,
    pub list_items: Seq<ItemV>,
    pub table: Option<TableV>,
}

/// Model of a document.
#[verifier::ext_equal]
pub ghost struct DocV {
    pub blocks: Seq<BlockV>,
    pub metadata: Seq<AttrV>,
}

// ---------------------------------------------------------------------------
// Attribute lookup
// ---------------------------------------------------------------------------

/// The value of the first attribute whose key is `key`, if any.
pub open spec fn lookup(attrs: Seq<AttrV>, key: Seq<char>) -> Option<Seq<char>>
    decreases attrs.len(),
{
    if attrs.len() == 0 {
        None
    } else if attrs[0].key == key {
        Some(attrs[0].value)
    } else {
        lookup(attrs.drop_first(), key)
    }
}

// ---------------------------------------------------------------------------
// Block-type token maps
// ---------------------------------------------------------------------------

/// The block type a token denotes: the token is matched lower-cased, and an
/// unrecognized token is kept verbatim in `Custom`.
pub open spec fn type_from_str_spec(s: Seq<char>) -> TypeV {
    let l = lower_seq(s);
    if l == "section"@ {
        TypeV::Section
    } else if l == "paragraph"@ {
        TypeV::Paragraph
    } else if l == "code"@ {
        TypeV::Code
    } else if l == "quote"@ {
        TypeV::Quote
    } else if l == "image"@ {
        TypeV::Image
    } else if l == "table"@ {
        TypeV::Table
    } else if l == "list"@ {
        TypeV::List
    } else if l == "math"@ {
        TypeV::Math
    } else if l == "comment"@ {
        TypeV::Comment
    } else if l == "h1"@ {
        TypeV::H1
    } else if l == "h2"@ {
        TypeV::H2
    } else if l == "h3"@ {
        TypeV::H3
    } else if l == "h4"@ {
        TypeV::H4
    } else if l == "h5"@ {
        TypeV::H5
    } else if l == "h6"@ {
        TypeV::H6
    } else if l == "p"@ {
        TypeV::P
    } else if l == "c"@ {
        TypeV::C
    } else if l == "q"@ {
        TypeV::Q
    } else if l == "img"@ {
        TypeV::Img
    } else if l == "tbl"@ {
        TypeV::Tbl
    } else if l == "m"@ {
        TypeV::M
    } else {
        TypeV::Custom(s)
    }
}

/// The token of a block type.
pub open spec fn type_to_str_spec(t: TypeV) -> Seq<char> {
    match t {
        TypeV::Section => "section"@,
        TypeV::Paragraph => "paragraph"@,
        TypeV::Code => "code"@,
        TypeV::Quote => "quote"@,
        TypeV::Image => "image"@,
        TypeV::Table => "table"@,
        TypeV::List => "list"@,
        TypeV::Math => "math"@,
        TypeV::Comment => "comment"@,
        TypeV::H1 => "h1"@,
        TypeV::H2 => "h2"@,
        TypeV::H3 => "h3"@,
        TypeV::H4 => "h4"@,
        TypeV::H5 => "h5"@,
        TypeV::H6 => "h6"@,
        TypeV::P => "p"@,
        TypeV::C => "c"@,
        TypeV::Q => "q"@,
        TypeV::Img => "img"@,
        TypeV::Tbl => "tbl"@,
        TypeV::M => "m"@,
        TypeV::Custom(name) => name,
    }
}

/// The canonical kind a shorthand alias reduces to.
pub open spec fn canonical_spec(t: TypeV) -> TypeV {
    match t {
        TypeV::H1 => TypeV::Section,
        TypeV::H2 => TypeV::Section,
        TypeV::H3 => TypeV::Section,
        TypeV::H4 => TypeV::Section,
        TypeV::H5 => TypeV::Section,
        TypeV::H6 => TypeV::Section,
        TypeV::P => TypeV::Paragraph,
        TypeV::C => TypeV::Code,
        TypeV::Q => TypeV::Quote,
        TypeV::Img => TypeV::Image,
        TypeV::Tbl => TypeV::Table,
        TypeV::M => TypeV::Math,
        _ => t,
    }
}

// ---------------------------------------------------------------------------
// Positional-attribute keys
// ---------------------------------------------------------------------------

/// Whether the raw block-type token is heading-like for positional keys.
pub open spec fn token_is_heading(t: Seq<char>) -> bool {
    t == "section"@ || t == "h1"@ || t == "h2"@ || t == "h3"@ || t == "h4"@ || t == "h5"@ || t
        == "h6"@
}

/// The key given to the positional attribute at `index` of a block whose
/// header carried the raw token `t`.
pub open spec fn positional_key_spec(t: Seq<char>, index: int) -> Seq<char> {
    if token_is_heading(t) && index == 0 {
        "title"@
    } else if (t == "image"@ || t == "img"@) && index == 0 {
        "src"@
    } else if (t == "image"@ || t == "img"@) && index == 1 {
        "alt"@
    } else if (t == "code"@ || t == "c"@) && index == 0 {
        "lang"@
    } else if (t == "quote"@ || t == "q"@) && index == 0 {
        "author"@
    } else if (t == "table"@ || t == "tbl"@) && index == 0 {
        "caption"@
    } else {
        "value"@
    }
}

/// The key the encoder writes first, as a bare quoted value, for a block of
/// type `t`; `None` when the type has no positional key.
pub open spec fn positional_key_of_type(t: TypeV) -> Option<Seq<char>> {
    match t {
        TypeV::Section => Some("title"@),
        TypeV::H1 => Some("title"@),
        TypeV::H2 => Some("title"@),
        TypeV::H3 => Some("title"@),
        TypeV::H4 => Some("title"@),
        TypeV::H5 => Some("title"@),
        TypeV::H6 => Some("title"@),
        TypeV::Image => Some("src"@),
        TypeV::Img => Some("src"@),
        TypeV::Code => Some("lang"@),
        TypeV::C => Some("lang"@),
        TypeV::Quote => Some("author"@),
        TypeV::Q => Some("author"@),
        TypeV::Table => Some("caption"@),
        TypeV::Tbl => Some("caption"@),
        _ => None,
    }
}

} // verus!
