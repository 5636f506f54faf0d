//! The encoder: a document tree back to Blox source text.
//!
//! Metadata becomes comment lines; each block becomes a header line of
//! sigils, the type token and its attributes, then its content lines, its
//! children, and a blank separator line.

use vstd::prelude::*;
use crate::ast::{
    Attribute, Block, BlockType, Document, attr_view, attrs_view, block_view, blocks_view,
    lemma_blocks_view_index,
};
use crate::error::ParseResult;
use crate::model::{
    AttrV, BlockV, DocV, TypeV, canonical_spec, lookup, positional_key_of_type, type_to_str_spec,
};
use crate::text::{
    chars_of, eq_str, lemma_repeat_add, lines_spec, push_char, push_repeat, repeat_char, scan_to,
    scan_to_exec, split_lines, string_of,
};

verus! {

// ---------------------------------------------------------------------------
// Attribute text
// ---------------------------------------------------------------------------

/// One character as it appears inside a double-quoted attribute value: a
/// quote gains a backslash.
pub open spec fn esc_char(c: char) -> Seq<char> {
    if c == '"' {
        seq!['\\', '"']
    } else {
        seq![c]
    }
}

/// A value with its quotes escaped.
pub open spec fn esc_quotes(s: Seq<char>) -> Seq<char>
    decreases s.len(),
{
    if s.len() == 0 {
        Seq::empty()
    } else {
        esc_char(s[0]) + esc_quotes(s.drop_first())
    }
}

/// A value wrapped in double quotes, inner quotes escaped.
pub open spec fn quoted_value(v: Seq<char>) -> Seq<char> {
    seq!['"'] + esc_quotes(v) + seq!['"']
}

/// A `key=value` value: quoted when it holds a space or a quote, bare
/// otherwise.
pub open spec fn enc_attr_value(v: Seq<char>) -> Seq<char> {
    if scan_to(v, 0, ' ') < v.len() || scan_to(v, 0, '"') < v.len() {
        quoted_value(v)
    } else {
        v
    }
}

/// The `key=value` parts of the attributes whose key is not the block
/// type's positional key, in storage order.
pub open spec fn kv_parts(attrs: Seq<AttrV>, pk: Option<Seq<char>>) -> Seq<Seq<char>>
    decreases attrs.len(),
{
    if attrs.len() == 0 {
        Seq::empty()
    } else {
        let rest = kv_parts(attrs.drop_first(), pk);
        if pk == Some(attrs[0].key) {
            rest
        } else {
            seq![attrs[0].key + seq!['='] + enc_attr_value(attrs[0].value)] + rest
        }
    }
}

/// All parts of a block's attribute text: the positional value first, as a
/// bare quoted string, then the `key=value` parts.
pub open spec fn attr_parts(attrs: Seq<AttrV>, bt: TypeV) -> Seq<Seq<char>> {
    let pk = positional_key_of_type(bt);
    let head: Seq<Seq<char>> = match pk {
        Some(k) => match lookup(attrs, k) {
            Some(v) => seq![quoted_value(v)],
            None => Seq::empty(),
        },
        None => Seq::empty(),
    };
    head + kv_parts(attrs, pk)
}

/// Parts joined by single spaces.
pub open spec fn join_sp(parts: Seq<Seq<char>>) -> Seq<char>
    decreases parts.len(),
{
    if parts.len() == 0 {
        Seq::empty()
    } else if parts.len() == 1 {
        parts[0]
    } else {
        parts[0] + seq![' '] + join_sp(parts.drop_first())
    }
}

proof fn lemma_join_sp_push(parts: Seq<Seq<char>>, x: Seq<char>)
    ensures
        join_sp(parts.push(x)) == if parts.len() == 0 {
            x
        } else {
            join_sp(parts) + seq![' '] + x
        },
    decreases parts.len(),
{
    let p2 = parts.push(x);
    if parts.len() == 0 {
        assert(p2.len() == 1);
        assert(p2[0] == x);
    } else {
        lemma_join_sp_push(parts.drop_first(), x);
        assert(p2.drop_first() =~= parts.drop_first().push(x));
        assert(p2[0] == parts[0]);
        if parts.len() == 1 {
            assert(join_sp(p2) == parts[0] + seq![' '] + x);
            assert(join_sp(parts) == parts[0]);
        } else {
            assert(join_sp(p2) == parts[0] + seq![' '] + join_sp(parts.drop_first().push(x)));
            assert(join_sp(parts) + seq![' '] + x =~= parts[0] + seq![' '] + (join_sp(
                parts.drop_first(),
            ) + seq![' '] + x));
        }
    }
}

/// The whole attribute text of a block's header: empty exactly when the
/// block has no attributes.
pub open spec fn enc_attrs_spec(attrs: Seq<AttrV>, bt: TypeV) -> Seq<char> {
    if attrs.len() == 0 {
        Seq::empty()
    } else {
        join_sp(attr_parts(attrs, bt))
    }
}

// ---------------------------------------------------------------------------
// Block text
// ---------------------------------------------------------------------------

/// The token the encoder writes for a block type: its shorthand when
/// shorthand is on and one exists, else the canonical token.
pub open spec fn type_string_spec(bt: TypeV, use_shorthand: bool) -> Seq<char> {
    if use_shorthand {
        match bt {
            TypeV::Section => "section"@,
            TypeV::Paragraph => "p"@,
            TypeV::Code => "c"@,
            TypeV::Quote => "q"@,
            TypeV::Image => "img"@,
            TypeV::Table => "tbl"@,
            TypeV::Math => "m"@,
            _ => type_to_str_spec(bt),
        }
    } else {
        type_to_str_spec(canonical_spec(bt))
    }
}

/// The child indent level: one deeper, saturating at the machine limit.
pub open spec fn next_level(l: nat) -> nat {
    if l < usize::MAX {
        (l + 1) as nat
    } else {
        l
    }
}

/// The content lines from index `i` on, each written as indent, line,
/// newline.
pub open spec fn enc_content(
    acc: Seq<char>,
    lines: Seq<Seq<char>>,
    i: int,
    indent: Seq<char>,
) -> Seq<char>
    decreases lines.len() - i,
{
    if i < 0 || i >= lines.len() {
        acc
    } else {
        enc_content(acc + indent + lines[i] + seq!['\n'], lines, i + 1, indent)
    }
}

/// One block serialized after `acc`: header line, content lines, children
/// one level deeper, then a blank separator line.
pub open spec fn enc_block_spec(
    acc: Seq<char>,
    b: BlockV,
    parent_level: nat,
    indent_size: nat,
    use_shorthand: bool,
) -> Seq<char>
    decreases b, 0nat,
{
    let indent = repeat_char(' ', parent_level * indent_size);
    let attrs_str = enc_attrs_spec(b.attributes, b.block_type);
    let header = indent + repeat_char('#', b.level) + type_string_spec(b.block_type, use_shorthand)
        + (if attrs_str.len() > 0 {
        seq![' '] + attrs_str
    } else {
        Seq::<char>::empty()
    }) + seq!['\n'];
    let acc2 = enc_content(acc + header, lines_spec(b.content), 0, indent);
    let acc3 = enc_blocks_spec(
        acc2,
        b.children,
        0,
        next_level(parent_level),
        indent_size,
        use_shorthand,
    );
    acc3 + seq!['\n']
}

/// A block sequence serialized after `acc`, from index `i` on.
pub open spec fn enc_blocks_spec(
    acc: Seq<char>,
    blocks: Seq<BlockV>,
    i: int,
    parent_level: nat,
    indent_size: nat,
    use_shorthand: bool,
) -> Seq<char>
    decreases blocks, blocks.len() - i,
{
    if i < 0 || i >= blocks.len() {
        acc
    } else {
        enc_blocks_spec(
            enc_block_spec(acc, blocks[i], parent_level, indent_size, use_shorthand),
            blocks,
            i + 1,
            parent_level,
            indent_size,
            use_shorthand,
        )
    }
}

/// The metadata comment lines from index `i` on.
pub open spec fn enc_meta(acc: Seq<char>, meta: Seq<AttrV>, i: int) -> Seq<char>
    decreases meta.len() - i,
{
    if i < 0 || i >= meta.len() {
        acc
    } else {
        enc_meta(acc + "// "@ + meta[i].key + ": "@ + meta[i].value + seq!['\n'], meta, i + 1)
    }
}

/// A whole document serialized: the metadata comment block when metadata
/// is present, then every root block.
pub open spec fn enc_doc_spec(d: DocV, indent_size: nat, use_shorthand: bool) -> Seq<char> {
    let head: Seq<char> = if d.metadata.len() > 0 {
        enc_meta("// Document metadata\n"@, d.metadata, 0) + seq!['\n']
    } else {
        Seq::empty()
    };
    enc_blocks_spec(head, d.blocks, 0, 0nat, indent_size, use_shorthand)
}

// ---------------------------------------------------------------------------
// The encoder
// ---------------------------------------------------------------------------

/// Ghost model of an encoder's options.
#[verifier::ext_equal]
pub ghost struct EncoderV {
    pub indent_size: nat,
    pub use_shorthand: bool,
}

pub struct BloxEncoder {
    indent_size: usize,
    use_shorthand: bool,
}

impl View for BloxEncoder {
    type V = EncoderV;

    closed spec fn view(&self) -> EncoderV {
        EncoderV { indent_size: self.indent_size as nat, use_shorthand: self.use_shorthand }
    }
}

impl BloxEncoder {
    /// The default encoder: no indentation, shorthand tokens.
    pub fn new() -> (r: BloxEncoder)
        ensures
            r@ == (EncoderV { indent_size: 0nat, use_shorthand: true }),
    {
        BloxEncoder { indent_size: 0, use_shorthand: true }
    }

    /// An encoder with explicit indentation width and token style.
    pub fn with_options(indent_size: usize, use_shorthand: bool) -> (r: BloxEncoder)
        ensures
            r@ == (EncoderV { indent_size: indent_size as nat, use_shorthand }),
    {
        BloxEncoder { indent_size, use_shorthand }
    }

    /// The value of a positional attribute, always double quoted.
    #[verifier::loop_isolation(false)]
    fn quote_positional_value(&self, value: &str) -> (r: String)
        ensures
            r@ == quoted_value(value@),
    {
        let cv = chars_of(value);
        let v = cv.as_slice();
        let ghost s = cv@;
        let mut out = String::new();
        push_char(&mut out, '"');
        let mut i: usize = 0;
        proof {
            assert(s.subrange(0, s.len() as int) =~= s);
            assert(esc_quotes(s) =~= out@.subrange(1, out@.len() as int) + esc_quotes(
                s.subrange(0, s.len() as int),
            ));
        }
        while i < v.len()
            invariant
                i <= s.len(),
                out@.len() >= 1,
                out@[0] == '"',
                esc_quotes(s) == out@.subrange(1, out@.len() as int) + esc_quotes(
                    s.subrange(i as int, s.len() as int),
                ),
            decreases s.len() - i,
        {
            proof {
                let rest = s.subrange(i as int, s.len() as int);
                assert(rest[0] == s[i as int]);
                assert(rest.drop_first() =~= s.subrange(i as int + 1, s.len() as int));
            }
            if v[i] == '"' {
                push_char(&mut out, '\\');
                push_char(&mut out, '"');
            } else {
                push_char(&mut out, v[i]);
            }
            i = i + 1;
            proof {
                assert(esc_quotes(s) =~= out@.subrange(1, out@.len() as int) + esc_quotes(
                    s.subrange(i as int, s.len() as int),
                ));
            }
        }
        push_char(&mut out, '"');
        proof {
            assert(esc_quotes(s.subrange(i as int, s.len() as int)).len() == 0);
            assert(out@ =~= quoted_value(value@));
        }
        out
    }

    /// The text of a `key=value` value: quoted when it holds a space or a
    /// quote.
    fn encode_value(&self, value: &str) -> (r: String)
        ensures
            r@ == enc_attr_value(value@),
    {
        let cv = chars_of(value);
        let v = cv.as_slice();
        let a = scan_to_exec(v, 0, ' ');
        let b = scan_to_exec(v, 0, '"');
        if a < v.len() || b < v.len() {
            self.quote_positional_value(value)
        } else {
            value.to_owned()
        }
    }

    /// Whether `key` is the positional key of the block type.
    fn is_positional_attribute(&self, key: &str, block_type: &BlockType) -> (r: bool)
        ensures
            r == (positional_key_of_type(block_type@) == Some(key@)),
    {
        let kc = chars_of(key);
        let kv = kc.as_slice();
        match block_type {
            BlockType::Section | BlockType::H1 | BlockType::H2 | BlockType::H3 | BlockType::H4
                | BlockType::H5 | BlockType::H6 => eq_str(kv, "title"),
            BlockType::Image | BlockType::Img => eq_str(kv, "src"),
            BlockType::Code | BlockType::C => eq_str(kv, "lang"),
            BlockType::Quote | BlockType::Q => eq_str(kv, "author"),
            BlockType::Table | BlockType::Tbl => eq_str(kv, "caption"),
            _ => false,
        }
    }

    /// The first attribute whose key is the block type's positional key.
    fn get_positional_attribute<'a>(
        &self,
        attributes: &'a Vec<Attribute>,
        block_type: &BlockType,
    ) -> (r: Option<&'a Attribute>)
        ensures
            match positional_key_of_type(block_type@) {
                Some(k) => match (r, lookup(attrs_view(attributes@), k)) {
                    (Some(a), Some(v)) => a@.key == k && a@.value == v,
                    (None, None) => true,
                    _ => false,
                },
                None => r is None,
            },
    {
        let has_pk = match block_type {
            BlockType::Section | BlockType::H1 | BlockType::H2 | BlockType::H3 | BlockType::H4
                | BlockType::H5 | BlockType::H6 | BlockType::Image | BlockType::Img
                | BlockType::Code | BlockType::C | BlockType::Quote | BlockType::Q
                | BlockType::Table | BlockType::Tbl => true,
            _ => false,
        };
        if !has_pk {
            return None;
        }
        let ghost whole = attrs_view(attributes@);
        let ghost pk = positional_key_of_type(block_type@)->0;
        let mut i: usize = 0;
        proof {
            assert(whole.subrange(0, whole.len() as int) =~= whole);
        }
        while i < attributes.len()
            invariant
                i <= attributes@.len(),
                whole == attrs_view(attributes@),
                whole.len() == attributes@.len(),
                forall|j: int|
                    0 <= j < whole.len() ==> whole[j] == attr_view(#[trigger] attributes@[j]),
                positional_key_of_type(block_type@) == Some(pk),
                lookup(whole, pk) == lookup(whole.subrange(i as int, whole.len() as int), pk),
            decreases attributes@.len() - i,
        {
            let hit = self.is_positional_attribute(attributes[i].key.as_str(), block_type);
            proof {
                let rest = whole.subrange(i as int, whole.len() as int);
                assert(rest[0] == whole[i as int]);
                if !hit {
                    assert(rest.drop_first() =~= whole.subrange(i as int + 1, whole.len() as int));
                }
            }
            if hit {
                return Some(&attributes[i]);
            }
            i = i + 1;
        }
        proof {
            assert(whole.subrange(i as int, whole.len() as int).len() == 0);
        }
        None
    }

    /// The attribute text of a header: the positional value first, then
    /// the remaining attributes as `key=value`, space separated.
    #[verifier::loop_isolation(false)]
    fn encode_attributes(&self, attributes: &Vec<Attribute>, block_type: &BlockType) -> (r: String)
        ensures
            r@ == enc_attrs_spec(attrs_view(attributes@), block_type@),
    {
        let ghost whole = attrs_view(attributes@);
        let ghost pk = positional_key_of_type(block_type@);
        if attributes.len() == 0 {
            proof {
                assert(whole.len() == 0);
            }
            return String::new();
        }
        let mut parts: Vec<String> = Vec::new();
        let ghost mut partsv: Seq<Seq<char>> = Seq::empty();
        match self.get_positional_attribute(attributes, block_type) {
            Some(attr) => {
                let q = self.quote_positional_value(attr.value.as_str());
                parts.push(q);
                proof {
                    partsv = partsv.push(quoted_value(attr@.value));
                }
            },
            None => {},
        }
        let ghost head = partsv;
        proof {
            assert(head =~= attr_parts(whole, block_type@).subrange(0, head.len() as int));
        }
        let ghost mut kvdone: Seq<Seq<char>> = Seq::empty();
        let mut i: usize = 0;
        proof {
            assert(whole.subrange(0, whole.len() as int) =~= whole);
            assert(kv_parts(whole, pk) =~= kvdone + kv_parts(
                whole.subrange(0, whole.len() as int),
                pk,
            ));
        }
        while i < attributes.len()
            invariant
                i <= attributes@.len(),
                whole.len() == attributes@.len(),
                forall|j: int|
                    0 <= j < whole.len() ==> whole[j] == attr_view(#[trigger] attributes@[j]),
                kv_parts(whole, pk) == kvdone + kv_parts(
                    whole.subrange(i as int, whole.len() as int),
                    pk,
                ),
                partsv == head + kvdone,
                parts@.len() == partsv.len(),
                forall|j: int| 0 <= j < parts@.len() ==> (#[trigger] parts@[j])@ == partsv[j],
            decreases attributes@.len() - i,
        {
            let a = &attributes[i];
            let hit = self.is_positional_attribute(a.key.as_str(), block_type);
            proof {
                let rest = whole.subrange(i as int, whole.len() as int);
                assert(rest[0] == whole[i as int]);
                assert(rest.drop_first() =~= whole.subrange(i as int + 1, whole.len() as int));
            }
            if !hit {
                let mut part = String::new();
                part.append(a.key.as_str());
                push_char(&mut part, '=');
                let ev = self.encode_value(a.value.as_str());
                part.append(ev.as_str());
                proof {
                    assert(part@ =~= whole[i as int].key + seq!['='] + enc_attr_value(
                        whole[i as int].value,
                    ));
                }
                parts.push(part);
                proof {
                    partsv = partsv.push(
                        whole[i as int].key + seq!['='] + enc_attr_value(whole[i as int].value),
                    );
                    kvdone = kvdone.push(
                        whole[i as int].key + seq!['='] + enc_attr_value(whole[i as int].value),
                    );
                    assert(kv_parts(whole, pk) =~= kvdone + kv_parts(
                        whole.subrange(i as int + 1, whole.len() as int),
                        pk,
                    ));
                }
            }
            i = i + 1;
        }
        proof {
            assert(kv_parts(whole.subrange(i as int, whole.len() as int), pk).len() == 0);
            assert(kv_parts(whole, pk) =~= kvdone);
            assert(partsv =~= attr_parts(whole, block_type@));
        }
        // Join the parts with single spaces.
        let mut out = String::new();
        let mut k: usize = 0;
        proof {
            assert(partsv.subrange(0, 0) =~= Seq::<Seq<char>>::empty());
        }
        while k < parts.len()
            invariant
                k <= parts@.len(),
                parts@.len() == partsv.len(),
                forall|j: int| 0 <= j < parts@.len() ==> (#[trigger] parts@[j])@ == partsv[j],
                out@ == join_sp(partsv.subrange(0, k as int)),
            decreases parts@.len() - k,
        {
            if k > 0 {
                push_char(&mut out, ' ');
            }
            out.append(parts[k].as_str());
            proof {
                lemma_join_sp_push(partsv.subrange(0, k as int), partsv[k as int]);
                assert(partsv.subrange(0, k as int).push(partsv[k as int]) =~= partsv.subrange(
                    0,
                    k as int + 1,
                ));
                assert(out@ =~= join_sp(partsv.subrange(0, k as int + 1)));
            }
            k = k + 1;
        }
        proof {
            assert(partsv.subrange(0, partsv.len() as int) =~= partsv);
            assert(out@ == enc_attrs_spec(whole, block_type@));
        }
        out
    }

    /// The token written for a block type.
    fn get_block_type_string(&self, block_type: &BlockType) -> (r: String)
        ensures
            r@ == type_string_spec(block_type@, self@.use_shorthand),
    {
        if self.use_shorthand {
            match block_type {
                BlockType::Section => "section".to_owned(),
                BlockType::Paragraph => "p".to_owned(),
                BlockType::Code => "c".to_owned(),
                BlockType::Quote => "q".to_owned(),
                BlockType::Image => "img".to_owned(),
                BlockType::Table => "tbl".to_owned(),
                BlockType::Math => "m".to_owned(),
                _ => block_type.to_str().to_owned(),
            }
        } else {
            let c = block_type.canonical();
            c.to_str().to_owned()
        }
    }

    /// Serialize one block and its descendants onto `output`.
    #[verifier::loop_isolation(false)]
    fn encode_block(&self, output: &mut String, block: &Block, parent_level: usize) -> (r:
        ParseResult<()>)
        ensures
            r is Ok,
            final (output)@ == enc_block_spec(
                old(output)@,
                block@,
                parent_level as nat,
                self@.indent_size,
                self@.use_shorthand,
            ),
        decreases *block,
    {
        let ghost accv = output@;
        let mut indent = String::new();
        let mut li: usize = 0;
        proof {
            assert(indent@ =~= repeat_char(' ', 0nat * self@.indent_size)) by {
                assert(0nat * self@.indent_size == 0nat) by (nonlinear_arith);
            };
        }
        while li < parent_level
            invariant
                li <= parent_level,
                indent@ == repeat_char(' ', li as nat * self@.indent_size),
            decreases parent_level - li,
        {
            push_repeat(&mut indent, ' ', self.indent_size);
            proof {
                lemma_repeat_add(' ', li as nat * self@.indent_size, self@.indent_size);
                assert((li as nat + 1) * self@.indent_size == li as nat * self@.indent_size
                    + self@.indent_size) by (nonlinear_arith);
            }
            li = li + 1;
        }
        proof {
            assert(li as nat * self@.indent_size == parent_level as nat * self@.indent_size);
        }
        let ghost indentv = indent@;
        // Header line.
        output.append(indent.as_str());
        push_repeat(output, '#', block.level);
        let ts = self.get_block_type_string(&block.block_type);
        output.append(ts.as_str());
        let attrs_str = self.encode_attributes(&block.attributes, &block.block_type);
        if !attrs_str.as_str().is_empty() {
            push_char(output, ' ');
            output.append(attrs_str.as_str());
        }
        push_char(output, '\n');
        let ghost header_done = output@;
        proof {
            let attrs_spec = enc_attrs_spec(block@.attributes, block@.block_type);
            assert(header_done =~= accv + (indentv + repeat_char('#', block@.level)
                + type_string_spec(block@.block_type, self@.use_shorthand) + (if attrs_spec.len()
                > 0 {
                seq![' '] + attrs_spec
            } else {
                Seq::<char>::empty()
            }) + seq!['\n']));
        }
        // Content lines.
        if !block.content.as_str().is_empty() {
            let cv = chars_of(block.content.as_str());
            let lines = split_lines(cv.as_slice());
            let ghost ls = crate::text::seqs_of(lines@);
            let mut i: usize = 0;
            while i < lines.len()
                invariant
                    i <= lines@.len(),
                    enc_content(header_done, ls, 0, indentv) == enc_content(
                        output@,
                        ls,
                        i as int,
                        indentv,
                    ),
                decreases lines@.len() - i,
            {
                let ghost before = output@;
                output.append(indent.as_str());
                let line = string_of(lines[i].as_slice());
                output.append(line.as_str());
                push_char(output, '\n');
                proof {
                    assert(ls[i as int] == lines@[i as int]@);
                    assert(output@ =~= before + indentv + ls[i as int] + seq!['\n']);
                    assert(enc_content(before, ls, i as int, indentv) == enc_content(
                        output@,
                        ls,
                        i as int + 1,
                        indentv,
                    ));
                }
                i = i + 1;
            }
            proof {
                assert(enc_content(output@, ls, i as int, indentv) == output@);
                assert(output@ == enc_content(header_done, lines_spec(block@.content), 0, indentv));
            }
        } else {
            proof {
                assert(lines_spec(block@.content).len() == 0);
                assert(output@ == enc_content(header_done, lines_spec(block@.content), 0, indentv));
            }
        }
        let ghost content_done = output@;
        // Children, one level deeper.
        let child_level = if parent_level < usize::MAX {
            parent_level + 1
        } else {
            parent_level
        };
        let ghost cbv = blocks_view(block.children@);
        let mut ci: usize = 0;
        proof {
            lemma_blocks_view_index(block.children@);
        }
        while ci < block.children.len()
            invariant
                ci <= block.children@.len(),
                enc_blocks_spec(
                    content_done,
                    cbv,
                    0,
                    child_level as nat,
                    self@.indent_size,
                    self@.use_shorthand,
                ) == enc_blocks_spec(
                    output@,
                    cbv,
                    ci as int,
                    child_level as nat,
                    self@.indent_size,
                    self@.use_shorthand,
                ),
            decreases block.children@.len() - ci,
        {
            let r = self.encode_block(output, &block.children[ci], child_level);
            match r {
                Ok(_) => {},
                Err(_) => vstd::pervasive::unreached(),
            }
            proof {
                assert(cbv[ci as int] == block_view(block.children@[ci as int]));
            }
            ci = ci + 1;
        }
        proof {
            assert(enc_blocks_spec(
                output@,
                cbv,
                ci as int,
                child_level as nat,
                self@.indent_size,
                self@.use_shorthand,
            ) == output@);
        }
        push_char(output, '\n');
        proof {
            assert(next_level(parent_level as nat) == child_level as nat);
            assert(output@ =~= enc_block_spec(
                accv,
                block@,
                parent_level as nat,
                self@.indent_size,
                self@.use_shorthand,
            ));
        }
        Ok(())
    }

    /// Serialize a whole document to Blox source text.
    #[verifier::loop_isolation(false)]
    pub fn encode(&self, document: &Document) -> (r: ParseResult<String>)
        ensures
            match r {
                Ok(s) => s@ == enc_doc_spec(document@, self@.indent_size, self@.use_shorthand),
                Err(_) => false,
            },
    {
        let mut output = String::new();
        let ghost meta = attrs_view(document.metadata@);
        if document.metadata.len() > 0 {
            output.append("// Document metadata\n");
            let mut i: usize = 0;
            while i < document.metadata.len()
                invariant
                    i <= document.metadata@.len(),
                    meta.len() == document.metadata@.len(),
                    forall|j: int|
                        0 <= j < meta.len() ==> meta[j] == attr_view(
                            #[trigger] document.metadata@[j],
                        ),
                    enc_meta("// Document metadata\n"@, meta, 0) == enc_meta(
                        output@,
                        meta,
                        i as int,
                    ),
                decreases document.metadata@.len() - i,
            {
                let ghost before = output@;
                output.append("// ");
                output.append(document.metadata[i].key.as_str());
                output.append(": ");
                output.append(document.metadata[i].value.as_str());
                push_char(&mut output, '\n');
                proof {
                    assert(output@ =~= before + "// "@ + meta[i as int].key + ": "@
                        + meta[i as int].value + seq!['\n']);
                    assert(enc_meta(before, meta, i as int) == enc_meta(
                        output@,
                        meta,
                        i as int + 1,
                    ));
                }
                i = i + 1;
            }
            push_char(&mut output, '\n');
            proof {
                assert(enc_meta(output@.drop_last(), meta, i as int) == output@.drop_last());
                assert(output@ =~= enc_meta("// Document metadata\n"@, meta, 0) + seq!['\n']);
            }
        }
        let ghost head = output@;
        proof {
            if meta.len() > 0 {
                assert(head == enc_meta("// Document metadata\n"@, meta, 0) + seq!['\n']);
            } else {
                assert(head =~= Seq::<char>::empty());
            }
        }
        let ghost rbv = blocks_view(document.blocks@);
        proof {
            lemma_blocks_view_index(document.blocks@);
        }
        let mut k: usize = 0;
        while k < document.blocks.len()
            invariant
                k <= document.blocks@.len(),
                enc_blocks_spec(head, rbv, 0, 0nat, self@.indent_size, self@.use_shorthand)
                    == enc_blocks_spec(
                    output@,
                    rbv,
                    k as int,
                    0nat,
                    self@.indent_size,
                    self@.use_shorthand,
                ),
            decreases document.blocks@.len() - k,
        {
            let r = self.encode_block(&mut output, &document.blocks[k], 0);
            match r {
                Ok(_) => {},
                Err(_) => vstd::pervasive::unreached(),
            }
            proof {
                assert(rbv[k as int] == block_view(document.blocks@[k as int]));
            }
            k = k + 1;
        }
        proof {
            assert(enc_blocks_spec(
                output@,
                rbv,
                k as int,
                0nat,
                self@.indent_size,
                self@.use_shorthand,
            ) == output@);
            assert(output@ == enc_doc_spec(document@, self@.indent_size, self@.use_shorthand));
        }
        Ok(output)
    }
}

impl Default for BloxEncoder {
    /// The same options as `new`.
    fn default() -> (r: BloxEncoder)
        ensures
            r@ == (EncoderV { indent_size: 0nat, use_shorthand: true }),
    {
        BloxEncoder::new()
    }
}

} // verus!
