//! The JSON target: a direct structural serialization of the document
//! tree.  Field and variant names mirror the tree's types and are part of
//! the compatibility surface; output is compact.

use vstd::prelude::*;
use crate::ast::{
    Attribute, Block, Document, InlineElement, ListItem, ListItemType, Table, TableCell, TableRow,
    attr_view, attrs_view, block_view, blocks_view, cell_view, inline_view, inlines_view,
    item_view, items_view, lemma_blocks_view_index, lemma_items_view_index, row_view, rows_view,
};
use crate::model::{AttrV, BlockV, CellV, DocV, InlineV, ItemTypeV, ItemV, RowV, TableV, TypeV};
use crate::text::{chars_of, dec_str, push_char, push_usize};

verus! {

// ---------------------------------------------------------------------------
// Strings and numbers
// ---------------------------------------------------------------------------

/// A hexadecimal digit character for `d < 16`.
pub open spec fn hex_digit(d: nat) -> char {
    if d == 0 {
        '0'
    } else if d == 1 {
        '1'
    } else if d == 2 {
        '2'
    } else if d == 3 {
        '3'
    } else if d == 4 {
        '4'
    } else if d == 5 {
        '5'
    } else if d == 6 {
        '6'
    } else if d == 7 {
        '7'
    } else if d == 8 {
        '8'
    } else if d == 9 {
        '9'
    } else if d == 10 {
        'a'
    } else if d == 11 {
        'b'
    } else if d == 12 {
        'c'
    } else if d == 13 {
        'd'
    } else if d == 14 {
        'e'
    } else {
        'f'
    }
}

/// One character inside a JSON string: quote and backslash are escaped,
/// newline, carriage return and tab get their short forms, the remaining
/// control characters a `\u00..` form.
pub open spec fn json_esc_char(c: char) -> Seq<char> {
    if c == '"' {
        seq!['\\', '"']
    } else if c == '\\' {
        seq!['\\', '\\']
    } else if c == '\n' {
        seq!['\\', 'n']
    } else if c == '\r' {
        seq!['\\', 'r']
    } else if c == '\t' {
        seq!['\\', 't']
    } else if (c as u32) < 0x20 {
        "\\u00"@ + seq![hex_digit((c as u32) as nat / 16), hex_digit((c as u32) as nat % 16)]
    } else {
        seq![c]
    }
}

pub open spec fn json_esc(s: Seq<char>) -> Seq<char>
    decreases s.len(),
{
    if s.len() == 0 {
        Seq::empty()
    } else {
        json_esc_char(s[0]) + json_esc(s.drop_first())
    }
}

/// A JSON string literal.
pub open spec fn json_str(s: Seq<char>) -> Seq<char> {
    seq!['"'] + json_esc(s) + seq!['"']
}

fn hex_digit_exec(d: u32) -> (r: char)
    requires
        d < 16,
    ensures
        r == hex_digit(d as nat),
{
    match d {
        0 => '0',
        1 => '1',
        2 => '2',
        3 => '3',
        4 => '4',
        5 => '5',
        6 => '6',
        7 => '7',
        8 => '8',
        9 => '9',
        10 => 'a',
        11 => 'b',
        12 => 'c',
        13 => 'd',
        14 => 'e',
        _ => 'f',
    }
}

/// Append a JSON string literal for `s`.
#[verifier::loop_isolation(false)]
fn push_json_str(out: &mut String, s: &str)
    ensures
        final (out)@ == old(out)@ + json_str(s@),
{
    let cv = chars_of(s);
    let v = cv.as_slice();
    let ghost sv = cv@;
    push_char(out, '"');
    let mut i: usize = 0;
    proof {
        assert(sv.subrange(0, sv.len() as int) =~= sv);
        assert(old(out)@ + seq!['"'] + json_esc(sv) =~= out@ + json_esc(
            sv.subrange(0, sv.len() as int),
        ));
    }
    while i < v.len()
        invariant
            i <= sv.len(),
            old(out)@ + seq!['"'] + json_esc(sv) == out@ + json_esc(
                sv.subrange(i as int, sv.len() as int),
            ),
        decreases sv.len() - i,
    {
        proof {
            let rest = sv.subrange(i as int, sv.len() as int);
            assert(rest[0] == sv[i as int]);
            assert(rest.drop_first() =~= sv.subrange(i as int + 1, sv.len() as int));
        }
        let c = v[i];
        if c == '"' {
            push_char(out, '\\');
            push_char(out, '"');
        } else if c == '\\' {
            push_char(out, '\\');
            push_char(out, '\\');
        } else if c == '\n' {
            push_char(out, '\\');
            push_char(out, 'n');
        } else if c == '\r' {
            push_char(out, '\\');
            push_char(out, 'r');
        } else if c == '\t' {
            push_char(out, '\\');
            push_char(out, 't');
        } else if (c as u32) < 0x20 {
            out.append("\\u00");
            push_char(out, hex_digit_exec((c as u32) / 16));
            push_char(out, hex_digit_exec((c as u32) % 16));
        } else {
            push_char(out, c);
        }
        i = i + 1;
        proof {
            assert(old(out)@ + seq!['"'] + json_esc(sv) =~= out@ + json_esc(
                sv.subrange(i as int, sv.len() as int),
            ));
        }
    }
    push_char(out, '"');
    proof {
        assert(json_esc(sv.subrange(i as int, sv.len() as int)).len() == 0);
        assert(final (out)@ =~= old(out)@ + json_str(s@));
    }
}

// ---------------------------------------------------------------------------
// Joining
// ---------------------------------------------------------------------------

/// Parts joined by commas.
pub open spec fn join_comma(parts: Seq<Seq<char>>) -> Seq<char>
    decreases parts.len(),
{
    if parts.len() == 0 {
        Seq::empty()
    } else if parts.len() == 1 {
        parts[0]
    } else {
        parts[0] + seq![','] + join_comma(parts.drop_first())
    }
}

proof fn lemma_join_comma_push(parts: Seq<Seq<char>>, x: Seq<char>)
    ensures
        join_comma(parts.push(x)) == if parts.len() == 0 {
            x
        } else {
            join_comma(parts) + seq![','] + x
        },
    decreases parts.len(),
{
    let p2 = parts.push(x);
    if parts.len() == 0 {
        assert(p2.len() == 1);
        assert(p2[0] == x);
    } else {
        lemma_join_comma_push(parts.drop_first(), x);
        assert(p2.drop_first() =~= parts.drop_first().push(x));
        assert(p2[0] == parts[0]);
        if parts.len() == 1 {
            assert(join_comma(p2) == parts[0] + seq![','] + x);
        } else {
            assert(join_comma(p2) == parts[0] + seq![','] + join_comma(
                parts.drop_first().push(x),
            ));
            assert(join_comma(parts) + seq![','] + x =~= parts[0] + seq![','] + (join_comma(
                parts.drop_first(),
            ) + seq![','] + x));
        }
    }
}

/// A JSON array of the given element texts.
pub open spec fn json_arr(elems: Seq<Seq<char>>) -> Seq<char> {
    seq!['['] + join_comma(elems) + seq![']']
}

// ---------------------------------------------------------------------------
// Leaves
// ---------------------------------------------------------------------------

/// A block type as JSON: a bare variant-name string, or an object for the
/// `Custom` carrier.
pub open spec fn json_of_type(t: TypeV) -> Seq<char> {
    match t {
        TypeV::Section => "\"Section\""@,
        TypeV::Paragraph => "\"Paragraph\""@,
        TypeV::Code => "\"Code\""@,
        TypeV::Quote => "\"Quote\""@,
        TypeV::Image => "\"Image\""@,
        TypeV::Table => "\"Table\""@,
        TypeV::List => "\"List\""@,
        TypeV::Math => "\"Math\""@,
        TypeV::Comment => "\"Comment\""@,
        TypeV::H1 => "\"H1\""@,
        TypeV::H2 => "\"H2\""@,
        TypeV::H3 => "\"H3\""@,
        TypeV::H4 => "\"H4\""@,
        TypeV::H5 => "\"H5\""@,
        TypeV::H6 => "\"H6\""@,
        TypeV::P => "\"P\""@,
        TypeV::C => "\"C\""@,
        TypeV::Q => "\"Q\""@,
        TypeV::Img => "\"Img\""@,
        TypeV::Tbl => "\"Tbl\""@,
        TypeV::M => "\"M\""@,
        TypeV::Custom(name) => "{\"Custom\":"@ + json_str(name) + "}"@,
    }
}

pub open spec fn json_of_attr(a: AttrV) -> Seq<char> {
    "{\"key\":"@ + json_str(a.key) + ",\"value\":"@ + json_str(a.value) + "}"@
}

pub open spec fn json_of_attrs(s: Seq<AttrV>) -> Seq<char> {
    json_arr(s.map_values(|a: AttrV| json_of_attr(a)))
}

pub open spec fn json_of_inline(e: InlineV) -> Seq<char> {
    match e {
        InlineV::Text(s) => "{\"Text\":"@ + json_str(s) + "}"@,
        InlineV::Link { text, url } => "{\"Link\":{\"text\":"@ + json_str(text) + ",\"url\":"@
            + json_str(url) + "}}"@,
        InlineV::Bold(s) => "{\"Bold\":"@ + json_str(s) + "}"@,
        InlineV::Italic(s) => "{\"Italic\":"@ + json_str(s) + "}"@,
        InlineV::Code(s) => "{\"Code\":"@ + json_str(s) + "}"@,
        InlineV::Math(s) => "{\"Math\":"@ + json_str(s) + "}"@,
        InlineV::Strikethrough(s) => "{\"Strikethrough\":"@ + json_str(s) + "}"@,
        InlineV::Highlight(s) => "{\"Highlight\":"@ + json_str(s) + "}"@,
        InlineV::Subscript(s) => "{\"Subscript\":"@ + json_str(s) + "}"@,
        InlineV::Superscript(s) => "{\"Superscript\":"@ + json_str(s) + "}"@,
        InlineV::Reference(s) => "{\"Reference\":"@ + json_str(s) + "}"@,
        InlineV::Footnote { id, text } => "{\"Footnote\":{\"id\":"@ + json_str(id)
            + ",\"text\":"@ + json_str(text) + "}}"@,
        InlineV::Custom { element_type, attributes, content } => "{\"Custom\":{\"element_type\":"@
            + json_str(element_type) + ",\"attributes\":"@ + json_of_attrs(attributes)
            + ",\"content\":"@ + json_str(content) + "}}"@,
    }
}

pub open spec fn json_of_inlines(s: Seq<InlineV>) -> Seq<char> {
    json_arr(s.map_values(|e: InlineV| json_of_inline(e)))
}

pub open spec fn json_of_item_type(t: ItemTypeV) -> Seq<char> {
    match t {
        ItemTypeV::Unchecked => "\"Unchecked\""@,
        ItemTypeV::Checked => "\"Checked\""@,
        ItemTypeV::Definition { term } => "{\"Definition\":{\"term\":"@ + json_str(term) + "}}"@,
    }
}

pub open spec fn json_of_cell(c: CellV) -> Seq<char> {
    "{\"content\":"@ + json_str(c.content) + ",\"colspan\":"@ + dec_str(c.colspan)
        + ",\"rowspan\":"@ + dec_str(c.rowspan) + ",\"is_header\":"@ + (if c.is_header {
        "true"@
    } else {
        "false"@
    }) + "}"@
}

pub open spec fn json_of_row(r: RowV) -> Seq<char> {
    "{\"cells\":"@ + json_arr(r.cells.map_values(|c: CellV| json_of_cell(c))) + "}"@
}

pub open spec fn json_of_table(t: TableV) -> Seq<char> {
    "{\"caption\":"@ + (match t.caption {
        Some(c) => json_str(c),
        None => "null"@,
    }) + ",\"header\":"@ + (match t.header {
        Some(h) => json_of_row(h),
        None => "null"@,
    }) + ",\"rows\":"@ + json_arr(t.rows.map_values(|r: RowV| json_of_row(r))) + "}"@
}

// ---------------------------------------------------------------------------
// Items, blocks, documents
// ---------------------------------------------------------------------------

pub open spec fn json_of_items(s: Seq<ItemV>) -> Seq<Seq<char>>
    decreases s, s.len(),
{
    if s.len() == 0 {
        Seq::empty()
    } else {
        seq![json_of_item(s[0])] + json_of_items(s.drop_first())
    }
}

pub open spec fn json_of_item(it: ItemV) -> Seq<char>
    decreases it, 0nat,
{
    "{\"item_type\":"@ + json_of_item_type(it.item_type) + ",\"content\":"@ + json_str(it.content)
        + ",\"children\":"@ + json_arr(json_of_items(it.children)) + ",\"level\":"@ + dec_str(
        it.level,
    ) + "}"@
}

pub proof fn lemma_json_items_index(s: Seq<ItemV>)
    ensures
        json_of_items(s).len() == s.len(),
        forall|i: int| 0 <= i < s.len() ==> json_of_items(s)[i] == json_of_item(#[trigger] s[i]),
    decreases s.len(),
{
    if s.len() > 0 {
        lemma_json_items_index(s.drop_first());
        assert forall|i: int| 0 <= i < s.len() implies json_of_items(s)[i] == json_of_item(
            s[i],
        ) by {
            if i > 0 {
                assert(s.drop_first()[i - 1] == s[i]);
                assert(json_of_items(s)[i] == json_of_items(s.drop_first())[i - 1]);
            }
        }
    }
}

pub open spec fn json_of_blocks(s: Seq<BlockV>) -> Seq<Seq<char>>
    decreases s, s.len(),
{
    if s.len() == 0 {
        Seq::empty()
    } else {
        seq![json_of_block(s[0])] + json_of_blocks(s.drop_first())
    }
}

/// The leading half of a block's JSON object: type, level, attributes,
/// content and children.
pub open spec fn json_block_head(b: BlockV) -> Seq<char>
    decreases b, 0nat,
{
    "{\"block_type\":"@ + json_of_type(b.block_type) + ",\"level\":"@ + dec_str(b.level)
        + ",\"attributes\":"@ + json_of_attrs(b.attributes) + ",\"content\":"@ + json_str(
        b.content,
    ) + ",\"children\":"@ + json_arr(json_of_blocks(b.children))
}

/// The trailing half of a block's JSON object: line number and the derived
/// fields.
pub open spec fn json_block_tail(b: BlockV) -> Seq<char> {
    ",\"line_number\":"@ + dec_str(b.line_number) + ",\"inline_elements\":"@ + json_of_inlines(
        b.inline_elements,
    ) + ",\"list_items\":"@ + json_arr(json_of_items(b.list_items)) + ",\"table\":"@ + (
    match b.table {
        Some(t) => json_of_table(t),
        None => "null"@,
    }) + "}"@
}

pub open spec fn json_of_block(b: BlockV) -> Seq<char>
    decreases b, 1nat,
{
    json_block_head(b) + json_block_tail(b)
}

pub proof fn lemma_json_blocks_index(s: Seq<BlockV>)
    ensures
        json_of_blocks(s).len() == s.len(),
        forall|i: int| 0 <= i < s.len() ==> json_of_blocks(s)[i] == json_of_block(#[trigger] s[i]),
    decreases s.len(),
{
    if s.len() > 0 {
        lemma_json_blocks_index(s.drop_first());
        assert forall|i: int| 0 <= i < s.len() implies json_of_blocks(s)[i] == json_of_block(
            s[i],
        ) by {
            if i > 0 {
                assert(s.drop_first()[i - 1] == s[i]);
                assert(json_of_blocks(s)[i] == json_of_blocks(s.drop_first())[i - 1]);
            }
        }
    }
}

/// The metadata object: each pair as `"key":"value"`, in storage order.
pub open spec fn json_of_metadata(meta: Seq<AttrV>) -> Seq<char> {
    seq!['{'] + join_comma(
        meta.map_values(|a: AttrV| json_str(a.key) + seq![':'] + json_str(a.value)),
    ) + seq!['}']
}

/// A whole document as JSON.
pub open spec fn json_of_document(d: DocV) -> Seq<char> {
    "{\"blocks\":"@ + json_arr(json_of_blocks(d.blocks)) + ",\"metadata\":"@ + json_of_metadata(
        d.metadata,
    ) + "}"@
}

// ---------------------------------------------------------------------------
// Rendering
// ---------------------------------------------------------------------------

fn push_json_type(out: &mut String, t: &crate::ast::BlockType)
    ensures
        final (out)@ == old(out)@ + json_of_type(t@),
{
    match t {
        crate::ast::BlockType::Section => out.append("\"Section\""),
        crate::ast::BlockType::Paragraph => out.append("\"Paragraph\""),
        crate::ast::BlockType::Code => out.append("\"Code\""),
        crate::ast::BlockType::Quote => out.append("\"Quote\""),
        crate::ast::BlockType::Image => out.append("\"Image\""),
        crate::ast::BlockType::Table => out.append("\"Table\""),
        crate::ast::BlockType::List => out.append("\"List\""),
        crate::ast::BlockType::Math => out.append("\"Math\""),
        crate::ast::BlockType::Comment => out.append("\"Comment\""),
        crate::ast::BlockType::H1 => out.append("\"H1\""),
        crate::ast::BlockType::H2 => out.append("\"H2\""),
        crate::ast::BlockType::H3 => out.append("\"H3\""),
        crate::ast::BlockType::H4 => out.append("\"H4\""),
        crate::ast::BlockType::H5 => out.append("\"H5\""),
        crate::ast::BlockType::H6 => out.append("\"H6\""),
        crate::ast::BlockType::P => out.append("\"P\""),
        crate::ast::BlockType::C => out.append("\"C\""),
        crate::ast::BlockType::Q => out.append("\"Q\""),
        crate::ast::BlockType::Img => out.append("\"Img\""),
        crate::ast::BlockType::Tbl => out.append("\"Tbl\""),
        crate::ast::BlockType::M => out.append("\"M\""),
        crate::ast::BlockType::Custom(name) => {
            out.append("{\"Custom\":");
            push_json_str(out, name.as_str());
            out.append("}");
            proof {
                assert(final (out)@ =~= old(out)@ + json_of_type(t@));
            }
        },
    }
}

fn push_json_attrs(out: &mut String, attrs: &Vec<Attribute>)
    ensures
        final (out)@ == old(out)@ + json_of_attrs(attrs_view(attrs@)),
{
    let ghost av = attrs_view(attrs@);
    let ghost elems = av.map_values(|a: AttrV| json_of_attr(a));
    push_char(out, '[');
    let mut k: usize = 0;
    let ghost base = old(out)@;
    proof {
        assert(elems.subrange(0, 0) =~= Seq::<Seq<char>>::empty());
        assert(out@ =~= base + seq!['['] + join_comma(elems.subrange(0, 0)));
    }
    while k < attrs.len()
        invariant
            k <= attrs@.len(),
            av == attrs_view(attrs@),
            av.len() == attrs@.len(),
            elems == av.map_values(|a: AttrV| json_of_attr(a)),
            forall|j: int| 0 <= j < av.len() ==> av[j] == attr_view(#[trigger] attrs@[j]),
            out@ == base + seq!['['] + join_comma(elems.subrange(0, k as int)),
        decreases attrs@.len() - k,
    {
        if k > 0 {
            push_char(out, ',');
        }
        let ghost before = out@;
        let a = &attrs[k];
        out.append("{\"key\":");
        push_json_str(out, a.key.as_str());
        out.append(",\"value\":");
        push_json_str(out, a.value.as_str());
        out.append("}");
        proof {
            assert(out@ =~= before + json_of_attr(av[k as int]));
            lemma_join_comma_push(elems.subrange(0, k as int), elems[k as int]);
            assert(elems.subrange(0, k as int).push(elems[k as int]) =~= elems.subrange(
                0,
                k as int + 1,
            ));
            assert(out@ =~= base + seq!['['] + join_comma(elems.subrange(0, k as int + 1)));
        }
        k = k + 1;
    }
    push_char(out, ']');
    proof {
        assert(elems.subrange(0, elems.len() as int) =~= elems);
        assert(final (out)@ =~= old(out)@ + json_of_attrs(av));
    }
}

fn push_json_inline(out: &mut String, e: &InlineElement)
    ensures
        final (out)@ == old(out)@ + json_of_inline(e@),
{
    match e {
        InlineElement::Text(s) => {
            out.append("{\"Text\":");
            push_json_str(out, s.as_str());
            out.append("}");
        },
        InlineElement::Link { text, url } => {
            out.append("{\"Link\":{\"text\":");
            push_json_str(out, text.as_str());
            out.append(",\"url\":");
            push_json_str(out, url.as_str());
            out.append("}}");
        },
        InlineElement::Bold(s) => {
            out.append("{\"Bold\":");
            push_json_str(out, s.as_str());
            out.append("}");
        },
        InlineElement::Italic(s) => {
            out.append("{\"Italic\":");
            push_json_str(out, s.as_str());
            out.append("}");
        },
        InlineElement::Code(s) => {
            out.append("{\"Code\":");
            push_json_str(out, s.as_str());
            out.append("}");
        },
        InlineElement::Math(s) => {
            out.append("{\"Math\":");
            push_json_str(out, s.as_str());
            out.append("}");
        },
        InlineElement::Strikethrough(s) => {
            out.append("{\"Strikethrough\":");
            push_json_str(out, s.as_str());
            out.append("}");
        },
        InlineElement::Highlight(s) => {
            out.append("{\"Highlight\":");
            push_json_str(out, s.as_str());
            out.append("}");
        },
        InlineElement::Subscript(s) => {
            out.append("{\"Subscript\":");
            push_json_str(out, s.as_str());
            out.append("}");
        },
        InlineElement::Superscript(s) => {
            out.append("{\"Superscript\":");
            push_json_str(out, s.as_str());
            out.append("}");
        },
        InlineElement::Reference(s) => {
            out.append("{\"Reference\":");
            push_json_str(out, s.as_str());
            out.append("}");
        },
        InlineElement::Footnote { id, text } => {
            out.append("{\"Footnote\":{\"id\":");
            push_json_str(out, id.as_str());
            out.append(",\"text\":");
            push_json_str(out, text.as_str());
            out.append("}}");
        },
        InlineElement::Custom { element_type, attributes, content } => {
            out.append("{\"Custom\":{\"element_type\":");
            push_json_str(out, element_type.as_str());
            out.append(",\"attributes\":");
            push_json_attrs(out, attributes);
            out.append(",\"content\":");
            push_json_str(out, content.as_str());
            out.append("}}");
        },
    }
    proof {
        assert(final (out)@ =~= old(out)@ + json_of_inline(e@));
    }
}

fn push_json_inlines(out: &mut String, elems: &Vec<InlineElement>)
    ensures
        final (out)@ == old(out)@ + json_of_inlines(inlines_view(elems@)),
{
    let ghost iv = inlines_view(elems@);
    let ghost parts = iv.map_values(|e: InlineV| json_of_inline(e));
    push_char(out, '[');
    let mut k: usize = 0;
    let ghost base = old(out)@;
    proof {
        assert(parts.subrange(0, 0) =~= Seq::<Seq<char>>::empty());
        assert(out@ =~= base + seq!['['] + join_comma(parts.subrange(0, 0)));
    }
    while k < elems.len()
        invariant
            k <= elems@.len(),
            iv == inlines_view(elems@),
            iv.len() == elems@.len(),
            parts == iv.map_values(|e: InlineV| json_of_inline(e)),
            forall|j: int| 0 <= j < iv.len() ==> iv[j] == inline_view(#[trigger] elems@[j]),
            out@ == base + seq!['['] + join_comma(parts.subrange(0, k as int)),
        decreases elems@.len() - k,
    {
        if k > 0 {
            push_char(out, ',');
        }
        let ghost before = out@;
        push_json_inline(out, &elems[k]);
        proof {
            assert(out@ =~= before + parts[k as int]);
            lemma_join_comma_push(parts.subrange(0, k as int), parts[k as int]);
            assert(parts.subrange(0, k as int).push(parts[k as int]) =~= parts.subrange(
                0,
                k as int + 1,
            ));
            assert(out@ =~= base + seq!['['] + join_comma(parts.subrange(0, k as int + 1)));
        }
        k = k + 1;
    }
    push_char(out, ']');
    proof {
        assert(parts.subrange(0, parts.len() as int) =~= parts);
        assert(final (out)@ =~= old(out)@ + json_of_inlines(iv));
    }
}

#[verifier::loop_isolation(false)]
#[verifier::rlimit(100)]
fn push_json_item(out: &mut String, it: &ListItem)
    ensures
        final (out)@ == old(out)@ + json_of_item(it@),
    decreases *it,
{
    out.append("{\"item_type\":");
    match &it.item_type {
        ListItemType::Unchecked => out.append("\"Unchecked\""),
        ListItemType::Checked => out.append("\"Checked\""),
        ListItemType::Definition { term } => {
            out.append("{\"Definition\":{\"term\":");
            push_json_str(out, term.as_str());
            out.append("}}");
        },
    }
    out.append(",\"content\":");
    push_json_str(out, it.content.as_str());
    out.append(",\"children\":");
    let ghost mid = out@;
    proof {
        assert(mid =~= old(out)@ + "{\"item_type\":"@ + json_of_item_type(it@.item_type)
            + ",\"content\":"@ + json_str(it@.content) + ",\"children\":"@);
    }
    let ghost chv = items_view(it.children@);
    let ghost parts = json_of_items(chv);
    proof {
        lemma_items_view_index(it.children@);
        lemma_json_items_index(chv);
    }
    push_char(out, '[');
    let ghost base = out@;
    let mut k: usize = 0;
    proof {
        assert(parts.subrange(0, 0) =~= Seq::<Seq<char>>::empty());
        assert(out@ =~= base + join_comma(parts.subrange(0, 0)));
    }
    while k < it.children.len()
        invariant
            k <= it.children@.len(),
            out@ == base + join_comma(parts.subrange(0, k as int)),
        decreases it.children@.len() - k,
    {
        if k > 0 {
            push_char(out, ',');
        }
        let ghost before = out@;
        push_json_item(out, &it.children[k]);
        proof {
            assert(chv[k as int] == item_view(it.children@[k as int]));
            assert(out@ =~= before + parts[k as int]);
            lemma_join_comma_push(parts.subrange(0, k as int), parts[k as int]);
            assert(parts.subrange(0, k as int).push(parts[k as int]) =~= parts.subrange(
                0,
                k as int + 1,
            ));
            assert(out@ =~= base + join_comma(parts.subrange(0, k as int + 1)));
        }
        k = k + 1;
    }
    push_char(out, ']');
    out.append(",\"level\":");
    push_usize(out, it.level);
    out.append("}");
    proof {
        assert(parts.subrange(0, parts.len() as int) =~= parts);
        assert(final (out)@ =~= mid + json_arr(json_of_items(it@.children)) + ",\"level\":"@
            + dec_str(it@.level) + "}"@);
        assert(final (out)@ =~= old(out)@ + json_of_item(it@));
    }
}

fn push_json_cell(out: &mut String, c: &TableCell)
    ensures
        final (out)@ == old(out)@ + json_of_cell(c@),
{
    out.append("{\"content\":");
    push_json_str(out, c.content.as_str());
    out.append(",\"colspan\":");
    push_usize(out, c.colspan);
    out.append(",\"rowspan\":");
    push_usize(out, c.rowspan);
    out.append(",\"is_header\":");
    if c.is_header {
        out.append("true");
    } else {
        out.append("false");
    }
    out.append("}");
    proof {
        assert(final (out)@ =~= old(out)@ + json_of_cell(c@));
    }
}

fn push_json_row(out: &mut String, r: &TableRow)
    ensures
        final (out)@ == old(out)@ + json_of_row(r@),
{
    out.append("{\"cells\":");
    let ghost cv = r.cells@.map_values(|c: TableCell| cell_view(c));
    let ghost parts = cv.map_values(|c: CellV| json_of_cell(c));
    push_char(out, '[');
    let ghost base = out@;
    let mut k: usize = 0;
    proof {
        assert(parts.subrange(0, 0) =~= Seq::<Seq<char>>::empty());
        assert(out@ =~= base + join_comma(parts.subrange(0, 0)));
    }
    while k < r.cells.len()
        invariant
            k <= r.cells@.len(),
            cv == r.cells@.map_values(|c: TableCell| cell_view(c)),
            parts == cv.map_values(|c: CellV| json_of_cell(c)),
            cv.len() == r.cells@.len(),
            out@ == base + join_comma(parts.subrange(0, k as int)),
        decreases r.cells@.len() - k,
    {
        if k > 0 {
            push_char(out, ',');
        }
        let ghost before = out@;
        push_json_cell(out, &r.cells[k]);
        proof {
            assert(cv[k as int] == cell_view(r.cells@[k as int]));
            assert(out@ =~= before + parts[k as int]);
            lemma_join_comma_push(parts.subrange(0, k as int), parts[k as int]);
            assert(parts.subrange(0, k as int).push(parts[k as int]) =~= parts.subrange(
                0,
                k as int + 1,
            ));
            assert(out@ =~= base + join_comma(parts.subrange(0, k as int + 1)));
        }
        k = k + 1;
    }
    push_char(out, ']');
    out.append("}");
    proof {
        assert(parts.subrange(0, parts.len() as int) =~= parts);
        assert(final (out)@ =~= old(out)@ + json_of_row(r@));
    }
}

#[verifier::rlimit(100)]
fn push_json_table(out: &mut String, t: &Table)
    ensures
        final (out)@ == old(out)@ + json_of_table(t@),
{
    out.append("{\"caption\":");
    match &t.caption {
        Some(c) => push_json_str(out, c.as_str()),
        None => out.append("null"),
    }
    out.append(",\"header\":");
    match &t.header {
        Some(h) => push_json_row(out, h),
        None => out.append("null"),
    }
    out.append(",\"rows\":");
    let ghost rv = rows_view(t.rows@);
    let ghost parts = rv.map_values(|r: RowV| json_of_row(r));
    push_char(out, '[');
    let ghost base = out@;
    let mut k: usize = 0;
    proof {
        assert(parts.subrange(0, 0) =~= Seq::<Seq<char>>::empty());
        assert(out@ =~= base + join_comma(parts.subrange(0, 0)));
    }
    while k < t.rows.len()
        invariant
            k <= t.rows@.len(),
            rv == rows_view(t.rows@),
            parts == rv.map_values(|r: RowV| json_of_row(r)),
            rv.len() == t.rows@.len(),
            forall|j: int| 0 <= j < rv.len() ==> rv[j] == row_view(#[trigger] t.rows@[j]),
            out@ == base + join_comma(parts.subrange(0, k as int)),
        decreases t.rows@.len() - k,
    {
        if k > 0 {
            push_char(out, ',');
        }
        let ghost before = out@;
        push_json_row(out, &t.rows[k]);
        proof {
            assert(out@ =~= before + parts[k as int]);
            lemma_join_comma_push(parts.subrange(0, k as int), parts[k as int]);
            assert(parts.subrange(0, k as int).push(parts[k as int]) =~= parts.subrange(
                0,
                k as int + 1,
            ));
            assert(out@ =~= base + join_comma(parts.subrange(0, k as int + 1)));
        }
        k = k + 1;
    }
    push_char(out, ']');
    out.append("}");
    proof {
        assert(parts.subrange(0, parts.len() as int) =~= parts);
        assert(final (out)@ =~= old(out)@ + json_of_table(t@));
    }
}

/// The JSON array of a block list.
#[verifier::loop_isolation(false)]
#[verifier::rlimit(50)]
fn push_json_block_array(out: &mut String, children: &Vec<Block>)
    ensures
        final (out)@ == old(out)@ + json_arr(json_of_blocks(blocks_view(children@))),
    decreases *children,
{
    let ghost chv = blocks_view(children@);
    let ghost parts = json_of_blocks(chv);
    proof {
        lemma_blocks_view_index(children@);
        lemma_json_blocks_index(chv);
    }
    push_char(out, '[');
    let ghost base = out@;
    let mut k: usize = 0;
    proof {
        assert(parts.subrange(0, 0) =~= Seq::<Seq<char>>::empty());
        assert(out@ =~= base + join_comma(parts.subrange(0, 0)));
    }
    while k < children.len()
        invariant
            k <= children@.len(),
            out@ == base + join_comma(parts.subrange(0, k as int)),
        decreases children@.len() - k,
    {
        if k > 0 {
            push_char(out, ',');
        }
        let ghost before = out@;
        push_json_block(out, &children[k]);
        proof {
            assert(chv[k as int] == block_view(children@[k as int]));
            assert(out@ =~= before + parts[k as int]);
            lemma_join_comma_push(parts.subrange(0, k as int), parts[k as int]);
            assert(parts.subrange(0, k as int).push(parts[k as int]) =~= parts.subrange(
                0,
                k as int + 1,
            ));
            assert(out@ =~= base + join_comma(parts.subrange(0, k as int + 1)));
        }
        k = k + 1;
    }
    push_char(out, ']');
    proof {
        assert(parts.subrange(0, parts.len() as int) =~= parts);
        assert(final (out)@ =~= old(out)@ + json_arr(parts));
    }
}

#[verifier::rlimit(50)]
fn push_json_block_head(out: &mut String, b: &Block)
    ensures
        final (out)@ == old(out)@ + json_block_head(b@),
    decreases *b, 0nat,
{
    out.append("{\"block_type\":");
    push_json_type(out, &b.block_type);
    proof {
        assert(out@ =~= old(out)@ + "{\"block_type\":"@ + json_of_type(b@.block_type));
    }
    let ghost s1 = out@;
    out.append(",\"level\":");
    push_usize(out, b.level);
    proof {
        assert(out@ =~= s1 + ",\"level\":"@ + dec_str(b@.level));
    }
    let ghost s2 = out@;
    out.append(",\"attributes\":");
    push_json_attrs(out, &b.attributes);
    proof {
        assert(out@ =~= s2 + ",\"attributes\":"@ + json_of_attrs(b@.attributes));
    }
    let ghost s3 = out@;
    out.append(",\"content\":");
    push_json_str(out, b.content.as_str());
    out.append(",\"children\":");
    proof {
        assert(out@ =~= s3 + ",\"content\":"@ + json_str(b@.content) + ",\"children\":"@);
    }
    let ghost mid = out@;
    push_json_block_array(out, &b.children);
    proof {
        assert(mid =~= old(out)@ + "{\"block_type\":"@ + json_of_type(b@.block_type)
            + ",\"level\":"@ + dec_str(b@.level) + ",\"attributes\":"@ + json_of_attrs(
            b@.attributes,
        ) + ",\"content\":"@ + json_str(b@.content) + ",\"children\":"@);
        assert(final (out)@ =~= old(out)@ + json_block_head(b@));
    }
}

#[verifier::loop_isolation(false)]
#[verifier::rlimit(100)]
fn push_json_block_tail(out: &mut String, b: &Block)
    ensures
        final (out)@ == old(out)@ + json_block_tail(b@),
{
    out.append(",\"line_number\":");
    push_usize(out, b.line_number);
    out.append(",\"inline_elements\":");
    push_json_inlines(out, &b.inline_elements);
    out.append(",\"list_items\":");
    let ghost mid = out@;
    proof {
        assert(mid =~= old(out)@ + ",\"line_number\":"@ + dec_str(b@.line_number)
            + ",\"inline_elements\":"@ + json_of_inlines(b@.inline_elements)
            + ",\"list_items\":"@);
    }
    let ghost liv = items_view(b.list_items@);
    let ghost lparts = json_of_items(liv);
    proof {
        lemma_items_view_index(b.list_items@);
        lemma_json_items_index(liv);
    }
    push_char(out, '[');
    let ghost lbase = out@;
    let mut m: usize = 0;
    proof {
        assert(lparts.subrange(0, 0) =~= Seq::<Seq<char>>::empty());
        assert(out@ =~= lbase + join_comma(lparts.subrange(0, 0)));
    }
    while m < b.list_items.len()
        invariant
            m <= b.list_items@.len(),
            out@ == lbase + join_comma(lparts.subrange(0, m as int)),
        decreases b.list_items@.len() - m,
    {
        if m > 0 {
            push_char(out, ',');
        }
        let ghost before = out@;
        push_json_item(out, &b.list_items[m]);
        proof {
            assert(liv[m as int] == item_view(b.list_items@[m as int]));
            assert(out@ =~= before + lparts[m as int]);
            lemma_join_comma_push(lparts.subrange(0, m as int), lparts[m as int]);
            assert(lparts.subrange(0, m as int).push(lparts[m as int]) =~= lparts.subrange(
                0,
                m as int + 1,
            ));
            assert(out@ =~= lbase + join_comma(lparts.subrange(0, m as int + 1)));
        }
        m = m + 1;
    }
    push_char(out, ']');
    out.append(",\"table\":");
    match &b.table {
        Some(t) => push_json_table(out, t),
        None => out.append("null"),
    }
    out.append("}");
    proof {
        assert(lparts.subrange(0, lparts.len() as int) =~= lparts);
        assert(final (out)@ =~= mid + json_arr(json_of_items(b@.list_items)) + ",\"table\":"@
            + (match b@.table {
            Some(t) => json_of_table(t),
            None => "null"@,
        }) + "}"@);
        assert(final (out)@ =~= old(out)@ + json_block_tail(b@));
    }
}

fn push_json_block(out: &mut String, b: &Block)
    ensures
        final (out)@ == old(out)@ + json_of_block(b@),
    decreases *b, 1nat,
{
    push_json_block_head(out, b);
    push_json_block_tail(out, b);
    proof {
        assert(final (out)@ =~= old(out)@ + json_of_block(b@));
    }
}

/// A whole document as compact JSON text.
#[verifier::loop_isolation(false)]
#[verifier::rlimit(100)]
pub fn render_json_document(document: &Document) -> (r: String)
    ensures
        r@ == json_of_document(document@),
{
    let mut out = String::new();
    out.append("{\"blocks\":");
    let ghost rbv = blocks_view(document.blocks@);
    let ghost parts = json_of_blocks(rbv);
    proof {
        lemma_blocks_view_index(document.blocks@);
        lemma_json_blocks_index(rbv);
    }
    push_char(&mut out, '[');
    let ghost base = out@;
    let mut k: usize = 0;
    proof {
        assert(parts.subrange(0, 0) =~= Seq::<Seq<char>>::empty());
        assert(out@ =~= base + join_comma(parts.subrange(0, 0)));
    }
    while k < document.blocks.len()
        invariant
            k <= document.blocks@.len(),
            out@ == base + join_comma(parts.subrange(0, k as int)),
        decreases document.blocks@.len() - k,
    {
        if k > 0 {
            push_char(&mut out, ',');
        }
        let ghost before = out@;
        push_json_block(&mut out, &document.blocks[k]);
        proof {
            assert(rbv[k as int] == block_view(document.blocks@[k as int]));
            assert(out@ =~= before + parts[k as int]);
            lemma_join_comma_push(parts.subrange(0, k as int), parts[k as int]);
            assert(parts.subrange(0, k as int).push(parts[k as int]) =~= parts.subrange(
                0,
                k as int + 1,
            ));
            assert(out@ =~= base + join_comma(parts.subrange(0, k as int + 1)));
        }
        k = k + 1;
    }
    push_char(&mut out, ']');
    out.append(",\"metadata\":");
    let ghost mv = attrs_view(document.metadata@);
    let ghost mparts = mv.map_values(|a: AttrV| json_str(a.key) + seq![':'] + json_str(a.value));
    push_char(&mut out, '{');
    let ghost mbase = out@;
    let mut m: usize = 0;
    proof {
        assert(mparts.subrange(0, 0) =~= Seq::<Seq<char>>::empty());
        assert(out@ =~= mbase + join_comma(mparts.subrange(0, 0)));
    }
    while m < document.metadata.len()
        invariant
            m <= document.metadata@.len(),
            mv.len() == document.metadata@.len(),
            forall|j: int| 0 <= j < mv.len() ==> mv[j] == attr_view(#[trigger] document.metadata@[j]),
            out@ == mbase + join_comma(mparts.subrange(0, m as int)),
        decreases document.metadata@.len() - m,
    {
        if m > 0 {
            push_char(&mut out, ',');
        }
        let ghost before = out@;
        push_json_str(&mut out, document.metadata[m].key.as_str());
        push_char(&mut out, ':');
        push_json_str(&mut out, document.metadata[m].value.as_str());
        proof {
            assert(out@ =~= before + mparts[m as int]);
            lemma_join_comma_push(mparts.subrange(0, m as int), mparts[m as int]);
            assert(mparts.subrange(0, m as int).push(mparts[m as int]) =~= mparts.subrange(
                0,
                m as int + 1,
            ));
            assert(out@ =~= mbase + join_comma(mparts.subrange(0, m as int + 1)));
        }
        m = m + 1;
    }
    push_char(&mut out, '}');
    out.append("}");
    proof {
        assert(parts.subrange(0, parts.len() as int) =~= parts);
        assert(mparts.subrange(0, mparts.len() as int) =~= mparts);
        assert(out@ =~= json_of_document(document@));
    }
    out
}

} // verus!
