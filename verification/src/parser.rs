//! The line classifier and the stack-based block assembler.
//!
//! Each input line is classified as a block start, content, a comment or
//! blank; the assembler keeps a stack of open blocks with strictly
//! increasing levels, closes blocks when a new header at the same or a
//! shallower level arrives, and attaches each closed block to its parent or
//! to the document root.

use vstd::prelude::*;
use crate::ast::{
    Attribute, Block, BlockType, Document, attrs_view, block_view, blocks_view,
    lemma_blocks_view_index, lemma_blocks_view_push,
};
use crate::attrs::{parse_attribute_text, parse_attributes_spec};
use crate::enrich::{enrich_blocks, enriched_blocks};
use crate::error::ParseResult;
use crate::model::{AttrV, BlockV, DocV, TypeV, type_from_str_spec};
use crate::text::{
    chars_of, ident_end, ident_end_exec, is_letter, is_letter_exec, lines_spec, run_of,
    run_of_exec, split_lines, string_of, subvec, trim_of, trim_spec, ws_end, ws_end_exec,
};

verus! {

// ---------------------------------------------------------------------------
// Line classification
// ---------------------------------------------------------------------------

/// Ghost model of a classified line.
#[verifier::ext_equal]
pub ghost enum LineV {
    BlockStart { level: nat, token: Seq<char>, attrs: Seq<char> },
    Content(Seq<char>),
    Comment,
    Empty,
}

enum LineType {
    BlockStart { level: usize, block_type: String, attributes_str: String },
    Content(String),
    Comment,
    Empty,
}

impl View for LineType {
    type V = LineV;

    closed spec fn view(&self) -> LineV {
        match self {
            LineType::BlockStart { level, block_type, attributes_str } => LineV::BlockStart {
                level: *level as nat,
                token: block_type@,
                attrs: attributes_str@,
            },
            LineType::Content(s) => LineV::Content(s@),
            LineType::Comment => LineV::Comment,
            LineType::Empty => LineV::Empty,
        }
    }
}

/// What one line is: blank once trimmed, a `//` comment, a block start
/// (one to six sigils, optional whitespace, a type token starting with a
/// letter, then the attribute text after the following whitespace), or
/// plain content kept verbatim.
pub open spec fn classify_spec(line: Seq<char>) -> LineV {
    let t = trim_spec(line);
    if t.len() == 0 {
        LineV::Empty
    } else if t.len() >= 2 && t[0] == '/' && t[1] == '/' {
        LineV::Comment
    } else {
        let k = run_of(line, 0, '#');
        if 1 <= k <= 6 {
            let i = ws_end(line, k);
            if i < line.len() && is_letter(line[i]) {
                let j = ident_end(line, i);
                let m = ws_end(line, j);
                LineV::BlockStart {
                    level: k as nat,
                    token: line.subrange(i, j),
                    attrs: line.subrange(m, line.len() as int),
                }
            } else {
                LineV::Content(line)
            }
        } else {
            LineV::Content(line)
        }
    }
}

// ---------------------------------------------------------------------------
// The assembler's ghost model
// ---------------------------------------------------------------------------

/// A freshly opened block.
pub open spec fn fresh_block_v(t: TypeV, level: nat, attrs: Seq<AttrV>, line: nat) -> BlockV {
    BlockV {
        block_type: t,
        level,
        attributes: attrs,
        content: Seq::empty(),
        children: Seq::empty(),
        line_number: line,
        inline_elements: Seq::empty(),
        list_items: Seq::empty(),
        table: None,
    }
}

/// Close the topmost open block: it becomes the last child of the block
/// below it, or a new document root when none is below.
pub open spec fn attach_top(st: (Seq<BlockV>, Seq<BlockV>)) -> (Seq<BlockV>, Seq<BlockV>) {
    let stack = st.0;
    let top = stack.last();
    let rest = stack.drop_last();
    if rest.len() > 0 {
        let parent = rest.last();
        let parent2 = BlockV { children: parent.children.push(top), ..parent };
        (rest.drop_last().push(parent2), st.1)
    } else {
        (rest, st.1.push(top))
    }
}

/// Close every open block whose level is at least `level`.
pub open spec fn close_upto(st: (Seq<BlockV>, Seq<BlockV>), level: nat) -> (
    Seq<BlockV>,
    Seq<BlockV>,
)
    decreases st.0.len(),
{
    if st.0.len() > 0 && st.0.last().level >= level {
        close_upto(attach_top(st), level)
    } else {
        st
    }
}

/// Closing at level zero closes every open block.
pub proof fn lemma_close_all(st: (Seq<BlockV>, Seq<BlockV>))
    ensures
        close_upto(st, 0nat).0.len() == 0,
    decreases st.0.len(),
{
    if st.0.len() > 0 {
        let st2 = attach_top(st);
        assert(st2.0.len() == st.0.len() - 1);
        lemma_close_all(st2);
    }
}

/// One assembler step over one classified line.  A block start closes the
/// blocks at its level or deeper and opens a new block; content goes to
/// the top block, or opens an implicit level-one paragraph; comments and
/// blank lines change nothing.
pub open spec fn step_line(st: (Seq<BlockV>, Seq<BlockV>), line: Seq<char>, line_no: nat) -> Seq<
    BlockV,
> {
    match classify_spec(line) {
        LineV::BlockStart { level, token, attrs } => {
            let c = close_upto(st, level);
            c.0.push(
                fresh_block_v(
                    type_from_str_spec(token),
                    level,
                    parse_attributes_spec(attrs, token),
                    line_no,
                ),
            )
        },
        LineV::Content(text) => {
            if st.0.len() > 0 {
                let top = st.0.last();
                let top2 = BlockV {
                    content: if top.content.len() == 0 {
                        text
                    } else {
                        top.content + seq!['\n'] + text
                    },
                    ..top
                };
                st.0.drop_last().push(top2)
            } else {
                st.0.push(
                    BlockV {
                        content: text,
                        ..fresh_block_v(TypeV::Paragraph, 1nat, Seq::empty(), line_no)
                    },
                )
            }
        },
        LineV::Comment => st.0,
        LineV::Empty => st.0,
    }
}

/// The roots after a step: only a closing block start moves blocks to the
/// roots.
pub open spec fn step_line_roots(
    st: (Seq<BlockV>, Seq<BlockV>),
    line: Seq<char>,
    line_no: nat,
) -> Seq<BlockV> {
    match classify_spec(line) {
        LineV::BlockStart { level, token, attrs } => close_upto(st, level).1,
        _ => st.1,
    }
}

/// The assembler folded over the lines from index `i` on; the line number
/// of the line at index `i` is `i + 1`.
pub open spec fn run_lines(st: (Seq<BlockV>, Seq<BlockV>), lines: Seq<Seq<char>>, i: int) -> (
    Seq<BlockV>,
    Seq<BlockV>,
)
    decreases lines.len() - i,
{
    if i < 0 || i >= lines.len() {
        st
    } else {
        let st2 = (
            step_line(st, lines[i], (i + 1) as nat),
            step_line_roots(st, lines[i], (i + 1) as nat),
        );
        run_lines(st2, lines, i + 1)
    }
}

/// The document roots a full parse of `lines` yields from state `st`:
/// every line is stepped, the still open blocks are flushed to the roots,
/// and every root is enriched.
pub open spec fn parse_lines_spec(st: (Seq<BlockV>, Seq<BlockV>), lines: Seq<Seq<char>>) -> Seq<
    BlockV,
> {
    enrich_blocks(close_upto(run_lines(st, lines, 0), 0).1)
}

// ---------------------------------------------------------------------------
// The parser
// ---------------------------------------------------------------------------

/// Ghost model of the parser's state.
#[verifier::ext_equal]
pub ghost struct ParserV {
    pub doc: DocV,
    pub stack: Seq<BlockV>,
    pub current_line: nat,
}

pub struct BloxParser {
    document: Document,
    block_stack: Vec<Block>,
    current_line: usize,
}

impl View for BloxParser {
    type V = ParserV;

    closed spec fn view(&self) -> ParserV {
        ParserV {
            doc: self.document@,
            stack: blocks_view(self.block_stack@),
            current_line: self.current_line as nat,
        }
    }
}

impl BloxParser {
    /// A fresh parser: empty document, empty stack.
    pub fn new() -> (r: BloxParser)
        ensures
            r@ == (ParserV {
                doc: DocV { blocks: Seq::empty(), metadata: Seq::empty() },
                stack: Seq::empty(),
                current_line: 0nat,
            }),
    {
        let r = BloxParser { document: Document::new(), block_stack: Vec::new(), current_line: 0 };
        proof {
            assert(r@ =~= (ParserV {
                doc: DocV { blocks: Seq::empty(), metadata: Seq::empty() },
                stack: Seq::empty(),
                current_line: 0nat,
            }));
        }
        r
    }

    /// Classify one line of input.
    fn classify_line(&self, line: &str) -> (r: LineType)
        ensures
            r@ == classify_spec(line@),
    {
        let cv = chars_of(line);
        let v = cv.as_slice();
        let t = trim_of(v);
        if t.len() == 0 {
            return LineType::Empty;
        }
        if t.len() >= 2 && t[0] == '/' && t[1] == '/' {
            return LineType::Comment;
        }
        let k = run_of_exec(v, 0, '#');
        if 1 <= k && k <= 6 {
            let i = ws_end_exec(v, k);
            if i < v.len() && is_letter_exec(v[i]) {
                let j = ident_end_exec(v, i);
                let m = ws_end_exec(v, j);
                return LineType::BlockStart {
                    level: k,
                    block_type: string_of(subvec(v, i, j).as_slice()),
                    attributes_str: string_of(subvec(v, m, v.len()).as_slice()),
                };
            }
        }
        LineType::Content(line.to_owned())
    }

    /// Parse a header's trailing text into its attribute list.
    fn parse_attributes(&self, attrs_str: &str, block_type: &str) -> (r: ParseResult<
        Vec<Attribute>,
    >)
        ensures
            match r {
                Ok(v) => attrs_view(v@) == parse_attributes_spec(attrs_str@, block_type@),
                Err(_) => false,
            },
    {
        let av = chars_of(attrs_str);
        let tv = chars_of(block_type);
        Ok(parse_attribute_text(av.as_slice(), tv.as_slice()))
    }

    /// The key of a positional attribute, by block-type token and position.
    fn get_positional_key(&self, block_type: &str, index: usize) -> (r: &'static str)
        ensures
            r@ == crate::model::positional_key_spec(block_type@, index as int),
    {
        let tv = chars_of(block_type);
        crate::attrs::positional_key_exec(tv.as_slice(), index)
    }

    /// Close every open block at `level` or deeper, attaching each to its
    /// parent or to the document roots.
    #[verifier::loop_isolation(false)]
    fn close_blocks_at_level(&mut self, level: usize)
        ensures
            (final (self)@.stack, final (self)@.doc.blocks) == close_upto(
                (old(self)@.stack, old(self)@.doc.blocks),
                level as nat,
            ),
            final (self)@.doc.metadata == old(self)@.doc.metadata,
            final (self)@.current_line == old(self)@.current_line,
    {
        loop
            invariant
                close_upto((old(self)@.stack, old(self)@.doc.blocks), level as nat) == close_upto(
                    (self@.stack, self@.doc.blocks),
                    level as nat,
                ),
                self@.doc.metadata == old(self)@.doc.metadata,
                self@.current_line == old(self)@.current_line,
            decreases self.block_stack@.len(),
        {
            let n = self.block_stack.len();
            proof {
                lemma_blocks_view_index(self.block_stack@);
            }
            if n == 0 {
                return ;
            }
            if self.block_stack[n - 1].level < level {
                return ;
            }
            let ghost svec = self.block_stack@;
            let ghost stv = blocks_view(svec);
            let ghost rtv = blocks_view(self.document.blocks@);
            let completed = match self.block_stack.pop() {
                Some(b) => b,
                None => vstd::pervasive::unreached(),
            };
            let ghost cv = block_view(completed);
            proof {
                crate::ast::lemma_blocks_view_drop_last(svec);
                assert(self.block_stack@ == svec.subrange(0, svec.len() - 1));
                assert(blocks_view(self.block_stack@) == stv.drop_last());
                assert(cv == stv.last());
                assert(stv.last().level >= level);
            }
            let m = self.block_stack.len();
            if m > 0 {
                let ghost svec2 = self.block_stack@;
                let mut parent = match self.block_stack.pop() {
                    Some(b) => b,
                    None => vstd::pervasive::unreached(),
                };
                let ghost pv = block_view(parent);
                proof {
                    crate::ast::lemma_blocks_view_drop_last(svec2);
                    assert(self.block_stack@ == svec2.subrange(0, svec2.len() - 1));
                    assert(blocks_view(self.block_stack@) == stv.drop_last().drop_last());
                    assert(pv == stv.drop_last().last());
                }
                let ghost pcsnap = parent.children@;
                let ghost compg = completed;
                parent.children.push(completed);
                proof {
                    lemma_blocks_view_push(pcsnap, compg);
                    assert(block_view(parent) =~= (BlockV {
                        children: pv.children.push(cv),
                        ..pv
                    }));
                }
                let ghost pv2 = block_view(parent);
                let ghost svec3 = self.block_stack@;
                let ghost parentg = parent;
                self.block_stack.push(parent);
                proof {
                    assert(self.block_stack@ == svec3.push(parentg));
                    lemma_blocks_view_push(svec3, parentg);
                    assert(blocks_view(self.block_stack@) == stv.drop_last().drop_last().push(
                        pv2,
                    ));
                    assert(blocks_view(self.block_stack@) =~= attach_top((stv, rtv)).0);
                    assert(blocks_view(self.document.blocks@) =~= attach_top((stv, rtv)).1);
                }
            } else {
                let ghost rvec = self.document.blocks@;
                let ghost compg = completed;
                self.document.blocks.push(completed);
                proof {
                    assert(self.document.blocks@ == rvec.push(compg));
                    lemma_blocks_view_push(rvec, compg);
                    assert(blocks_view(self.block_stack@) =~= attach_top((stv, rtv)).0);
                    assert(blocks_view(self.document.blocks@) =~= attach_top((stv, rtv)).1);
                }
            }
            proof {
                assert(close_upto((stv, rtv), level as nat) == close_upto(
                    attach_top((stv, rtv)),
                    level as nat,
                ));
                assert((self@.stack, self@.doc.blocks) =~= attach_top((stv, rtv)));
            }
        }
    }

    /// Open a new block for a header line: close blocks at its level or
    /// deeper, resolve the type token, parse the attributes, and push it.
    fn handle_block_start(
        &mut self,
        level: usize,
        block_type: String,
        attributes_str: String,
    ) -> (r: ParseResult<()>)
        ensures
            r is Ok,
            final (self)@.stack == close_upto(
                (old(self)@.stack, old(self)@.doc.blocks),
                level as nat,
            ).0.push(
                fresh_block_v(
                    type_from_str_spec(block_type@),
                    level as nat,
                    parse_attributes_spec(attributes_str@, block_type@),
                    old(self)@.current_line,
                ),
            ),
            final (self)@.doc.blocks == close_upto(
                (old(self)@.stack, old(self)@.doc.blocks),
                level as nat,
            ).1,
            final (self)@.doc.metadata == old(self)@.doc.metadata,
            final (self)@.current_line == old(self)@.current_line,
    {
        self.close_blocks_at_level(level);
        let block_type_enum = BlockType::from_str(block_type.as_str());
        let mut block = Block::new(block_type_enum, level, self.current_line);
        let attributes = match self.parse_attributes(attributes_str.as_str(), block_type.as_str()) {
            Ok(a) => a,
            Err(_) => vstd::pervasive::unreached(),
        };
        block.attributes = attributes;
        let ghost bv = block_view(block);
        let ghost svec = self.block_stack@;
        let ghost blockg = block;
        self.block_stack.push(block);
        proof {
            assert(self.block_stack@ == svec.push(blockg));
            lemma_blocks_view_push(svec, blockg);
            assert(bv =~= fresh_block_v(
                type_from_str_spec(block_type@),
                level as nat,
                parse_attributes_spec(attributes_str@, block_type@),
                old(self)@.current_line,
            ));
        }
        Ok(())
    }

    /// Append a content line to the top block, or open an implicit
    /// level-one paragraph when no block is open.
    fn handle_content_line(&mut self, content: String)
        ensures
            final (self)@.stack == ({
                let st = old(self)@.stack;
                if st.len() > 0 {
                    let top = st.last();
                    st.drop_last().push(
                        BlockV {
                            content: if top.content.len() == 0 {
                                content@
                            } else {
                                top.content + seq!['\n'] + content@
                            },
                            ..top
                        },
                    )
                } else {
                    st.push(
                        BlockV {
                            content: content@,
                            ..fresh_block_v(
                                TypeV::Paragraph,
                                1nat,
                                Seq::empty(),
                                old(self)@.current_line,
                            )
                        },
                    )
                }
            }),
            final (self)@.doc == old(self)@.doc,
            final (self)@.current_line == old(self)@.current_line,
    {
        let n = self.block_stack.len();
        proof {
            lemma_blocks_view_index(self.block_stack@);
        }
        if n > 0 {
            let ghost svec = self.block_stack@;
            let ghost stv = blocks_view(svec);
            let mut current = match self.block_stack.pop() {
                Some(b) => b,
                None => vstd::pervasive::unreached(),
            };
            let ghost tv = block_view(current);
            proof {
                crate::ast::lemma_blocks_view_drop_last(svec);
                assert(self.block_stack@ == svec.subrange(0, svec.len() - 1));
                assert(blocks_view(self.block_stack@) == stv.drop_last());
                assert(tv == stv.last());
            }
            if !current.content.as_str().is_empty() {
                crate::text::push_char(&mut current.content, '\n');
            }
            current.content.append(content.as_str());
            proof {
                assert(block_view(current) =~= (BlockV {
                    content: if tv.content.len() == 0 {
                        content@
                    } else {
                        tv.content + seq!['\n'] + content@
                    },
                    ..tv
                }));
            }
            let ghost svec2 = self.block_stack@;
            let ghost cv2 = block_view(current);
            let ghost curg = current;
            self.block_stack.push(current);
            proof {
                assert(self.block_stack@ == svec2.push(curg));
                lemma_blocks_view_push(svec2, curg);
            }
        } else {
            let mut paragraph = Block::new(BlockType::Paragraph, 1, self.current_line);
            paragraph.content = content;
            let ghost pv = block_view(paragraph);
            let ghost svec2 = self.block_stack@;
            let ghost parg = paragraph;
            self.block_stack.push(paragraph);
            proof {
                assert(self.block_stack@ == svec2.push(parg));
                lemma_blocks_view_push(svec2, parg);
                assert(pv =~= (BlockV {
                    content: content@,
                    ..fresh_block_v(TypeV::Paragraph, 1nat, Seq::empty(), old(self)@.current_line)
                }));
            }
        }
    }

    /// Classify one line and apply the assembler step it calls for.
    fn parse_line(&mut self, line: &str) -> (r: ParseResult<()>)
        ensures
            r is Ok,
            final (self)@.stack == step_line(
                (old(self)@.stack, old(self)@.doc.blocks),
                line@,
                old(self)@.current_line,
            ),
            final (self)@.doc.blocks == step_line_roots(
                (old(self)@.stack, old(self)@.doc.blocks),
                line@,
                old(self)@.current_line,
            ),
            final (self)@.doc.metadata == old(self)@.doc.metadata,
            final (self)@.current_line == old(self)@.current_line,
    {
        let line_type = self.classify_line(line);
        match line_type {
            LineType::BlockStart { level, block_type, attributes_str } => {
                let r = self.handle_block_start(level, block_type, attributes_str);
                match r {
                    Ok(_) => {},
                    Err(_) => vstd::pervasive::unreached(),
                }
            },
            LineType::Content(content) => {
                self.handle_content_line(content);
            },
            LineType::Comment => {},
            LineType::Empty => {},
        }
        Ok(())
    }

    /// Close all remaining open blocks and hand out the finished document,
    /// every block enriched; the parser is left empty.
    fn finalize_document(&mut self) -> (r: ParseResult<Document>)
        ensures
            match r {
                Ok(d) => {
                    &&& d@.blocks == enrich_blocks(
                        close_upto((old(self)@.stack, old(self)@.doc.blocks), 0nat).1,
                    )
                    &&& d@.metadata == old(self)@.doc.metadata
                },
                Err(_) => false,
            },
            final (self)@.stack.len() == 0,
            final (self)@.doc.blocks.len() == 0,
            final (self)@.doc.metadata.len() == 0,
            final (self)@.current_line == old(self)@.current_line,
    {
        proof {
            lemma_close_all((old(self)@.stack, old(self)@.doc.blocks));
        }
        self.close_blocks_at_level(0);
        let mut taken = Document::new();
        core::mem::swap(&mut self.document, &mut taken);
        let blocks = enriched_blocks(&taken.blocks);
        let out = Document { blocks, metadata: taken.metadata };
        proof {
            assert(attrs_view(self.document.metadata@) =~= Seq::<AttrV>::empty());
        }
        Ok(out)
    }

    /// Parse a whole Blox document from a string.  Every line is consumed;
    /// parsing never fails.
    #[verifier::loop_isolation(false)]
    pub fn parse_string(&mut self, content: &str) -> (r: ParseResult<Document>)
        ensures
            match r {
                Ok(d) => {
                    &&& d@.blocks == parse_lines_spec(
                        (old(self)@.stack, old(self)@.doc.blocks),
                        lines_spec(content@),
                    )
                    &&& d@.metadata == old(self)@.doc.metadata
                },
                Err(_) => false,
            },
            final (self)@.stack.len() == 0,
            final (self)@.doc.blocks.len() == 0,
            final (self)@.doc.metadata.len() == 0,
    {
        let cv = chars_of(content);
        let lines = split_lines(cv.as_slice());
        let ghost ls = crate::text::seqs_of(lines@);
        let ghost st0 = (old(self)@.stack, old(self)@.doc.blocks);
        let mut i: usize = 0;
        while i < lines.len()
            invariant
                i <= lines@.len(),
                run_lines(st0, ls, 0) == run_lines((self@.stack, self@.doc.blocks), ls, i as int),
                self@.doc.metadata == old(self)@.doc.metadata,
            decreases lines@.len() - i,
        {
            self.current_line = i + 1;
            let ghost stv = (self@.stack, self@.doc.blocks);
            let line = string_of(lines[i].as_slice());
            let r = self.parse_line(line.as_str());
            match r {
                Ok(_) => {},
                Err(_) => vstd::pervasive::unreached(),
            }
            proof {
                assert(ls[i as int] == lines@[i as int]@);
                assert(run_lines(stv, ls, i as int) == run_lines(
                    (
                        step_line(stv, ls[i as int], (i + 1) as nat),
                        step_line_roots(stv, ls[i as int], (i + 1) as nat),
                    ),
                    ls,
                    i as int + 1,
                ));
            }
            i = i + 1;
        }
        proof {
            assert(run_lines((self@.stack, self@.doc.blocks), ls, i as int) == (
                self@.stack,
                self@.doc.blocks,
            ));
        }
        self.finalize_document()
    }
}

impl Default for BloxParser {
    /// The same fresh state as `new`.
    fn default() -> (r: BloxParser)
        ensures
            r@ == (ParserV {
                doc: DocV { blocks: Seq::empty(), metadata: Seq::empty() },
                stack: Seq::empty(),
                current_line: 0nat,
            }),
    {
        BloxParser::new()
    }
}

} // verus!
