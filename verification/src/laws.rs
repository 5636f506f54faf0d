//! Round-trip laws: what a parse of the encoder's output gives back.
//!
//! The statements are scoped by well-formedness: a block-type token in the
//! header grammar, content whose lines the classifier keeps as content, and
//! either no attributes or exactly the block type's positional attribute
//! with a tame value.  Attribute text does not round-trip in general: a
//! quoted positional value holding `=` re-parses as a keyed attribute, and
//! a shorthand token resolves to its alias type, so the block type is
//! preserved up to its canonical projection.

use vstd::prelude::*;
use crate::encoder::{
    enc_attrs_spec, enc_block_spec, enc_blocks_spec, enc_content, enc_doc_spec, type_string_spec,
};
use crate::enrich::{enrich_block, enrich_blocks};
use crate::model::{AttrV, BlockV, DocV, TypeV, type_from_str_spec};
use crate::parser::{
    LineV, attach_top, classify_spec, close_upto, fresh_block_v, parse_lines_spec, run_lines,
    step_line, step_line_roots,
};
use crate::attrs::{keyed_scan, parse_attributes_spec, pos_scan, strip_spans};
use crate::text::{
    ident_end, is_ident_char, is_letter, is_wspace, lines_spec, repeat_char, run_of, scan_to,
    trim_end_spec, trim_spec, trim_start_spec, ws_end,
};

verus! {

// ---------------------------------------------------------------------------
// Well-formedness
// ---------------------------------------------------------------------------

/// A block-type token as the header grammar accepts it: non-empty, starting
/// with a letter, identifier characters throughout, and without sigils.
pub open spec fn token_wf(tok: Seq<char>) -> bool {
    &&& tok.len() > 0
    &&& is_letter(tok[0])
    &&& forall|i: int| 0 <= i < tok.len() ==> is_ident_char(#[trigger] tok[i])
}

/// Content that survives a round trip: no carriage returns, no trailing
/// newline, and every line classified as plain content.
pub open spec fn content_wf(content: Seq<char>) -> bool {
    &&& forall|i: int| 0 <= i < content.len() ==> content[i] != '\r'
    &&& content.len() > 0 ==> content.last() != '\n'
    &&& forall|i: int|
        0 <= i < lines_spec(content).len() ==> classify_spec(#[trigger] lines_spec(content)[i])
            == LineV::Content(lines_spec(content)[i])
}

// ---------------------------------------------------------------------------
// Helper lemmas
// ---------------------------------------------------------------------------

/// A sequence with no surrounding whitespace is its own trim.
proof fn lemma_trim_id(s: Seq<char>)
    requires
        s.len() > 0,
        !is_wspace(s[0]),
        !is_wspace(s.last()),
    ensures
        trim_spec(s) == s,
{
    assert(trim_start_spec(s) == s);
    assert(trim_end_spec(s) == s);
}

/// The run of `c` at the start of `prefix + rest` is exactly the prefix
/// when the prefix is all `c` and the rest starts otherwise.
proof fn lemma_run_of_exact(s: Seq<char>, i: int, end: int, c: char)
    requires
        0 <= i <= end <= s.len(),
        forall|j: int| i <= j < end ==> s[j] == c,
        end < s.len() ==> s[end] != c,
    ensures
        run_of(s, i, c) == end,
    decreases end - i,
{
    if i < end {
        lemma_run_of_exact(s, i + 1, end, c);
    }
}

/// The identifier run ends exactly where the identifier characters do.
proof fn lemma_ident_end_exact(s: Seq<char>, i: int, end: int)
    requires
        0 <= i <= end <= s.len(),
        forall|j: int| i <= j < end ==> is_ident_char(#[trigger] s[j]),
        end < s.len() ==> !is_ident_char(s[end]),
    ensures
        ident_end(s, i) == end,
    decreases end - i,
{
    if i < end {
        lemma_ident_end_exact(s, i + 1, end);
    }
}

/// A header line of sigils, a well-formed token, and optionally one space
/// and attribute text without surrounding whitespace classifies as a block
/// start with that level, that token and that attribute text.
proof fn lemma_classify_header(level: nat, tok: Seq<char>, a: Seq<char>)
    requires
        1 <= level <= 6,
        token_wf(tok),
        a.len() > 0 ==> !is_wspace(a[0]) && !is_wspace(a.last()) && a[0] != '#',
    ensures
        classify_spec(
            repeat_char('#', level) + tok + (if a.len() > 0 {
                seq![' '] + a
            } else {
                Seq::<char>::empty()
            }),
        ) == (LineV::BlockStart { level, token: tok, attrs: a }),
{
    let line = repeat_char('#', level) + tok + (if a.len() > 0 {
        seq![' '] + a
    } else {
        Seq::<char>::empty()
    });
    let te = level + tok.len();
    lemma_repeat_char_facts('#', level);
    assert(forall|j: int| 0 <= j < level ==> line[j] == '#');
    assert(forall|j: int|
        level <= j < te ==> line[j] == tok[j - level] && is_ident_char(#[trigger] line[j]));
    if a.len() > 0 {
        assert(line.len() == te + 1 + a.len());
        assert(line[te as int] == ' ');
        assert(forall|j: int| te + 1 <= j < line.len() ==> line[j] == a[j - te - 1]);
        assert(line.last() == a.last());
    } else {
        assert(line.len() == te);
        assert(line.last() == tok.last());
        assert(!is_wspace(tok.last()));
    }
    assert(line[0] == '#');
    assert(!is_wspace('#'));
    assert(!is_wspace(line.last()));
    lemma_trim_id(line);
    let t = trim_spec(line);
    assert(t == line);
    assert(t[0] == '#');
    assert(t[0] != '/');
    lemma_run_of_exact(line, 0, level as int, '#');
    assert(run_of(line, 0, '#') == level);
    assert(!is_wspace(line[level as int]));
    assert(ws_end(line, level as int) == level);
    assert(is_letter(line[level as int]));
    lemma_ident_end_exact(line, level as int, te as int);
    assert(ident_end(line, level as int) == te);
    if a.len() > 0 {
        assert(is_wspace(line[te as int]));
        assert(!is_wspace(line[te as int + 1]));
        assert(ws_end(line, te as int + 1) == te + 1);
        assert(ws_end(line, te as int) == te + 1);
        assert(line.subrange(te as int + 1, line.len() as int) =~= a);
    } else {
        assert(ws_end(line, te as int) == te);
        assert(line.subrange(te as int, line.len() as int) =~= a);
    }
    assert(line.subrange(level as int, te as int) =~= tok);
}

/// All characters of a sigil run are sigils.
proof fn lemma_repeat_char_facts(c: char, n: nat)
    ensures
        repeat_char(c, n).len() == n,
        forall|j: int| 0 <= j < n ==> repeat_char(c, n)[j] == c,
    decreases n,
{
    if n > 0 {
        lemma_repeat_char_facts(c, (n - 1) as nat);
    }
}

/// Splitting text that starts with a newline-terminated line without inner
/// newlines or a trailing carriage return peels that line off.
proof fn lemma_lines_prepend(a: Seq<char>, rest: Seq<char>)
    requires
        forall|j: int| 0 <= j < a.len() ==> a[j] != '\n',
        a.len() > 0 ==> a.last() != '\r',
    ensures
        lines_spec(a + seq!['\n'] + rest) == seq![a] + lines_spec(rest),
{
    let s = a + seq!['\n'] + rest;
    assert(s.len() == a.len() + 1 + rest.len());
    assert(forall|j: int| 0 <= j < a.len() ==> s[j] == a[j]);
    assert(s[a.len() as int] == '\n');
    crate::text::lemma_scan_to_char(s, 0, a.len() as int, '\n');
    assert(scan_to(s, 0, '\n') == a.len());
    assert(s.subrange(0, a.len() as int) =~= a);
    assert(s.subrange(a.len() as int + 1, s.len() as int) =~= rest);
    assert(crate::text::strip_cr(a) == a);
}

/// Empty attribute text parses to an empty attribute list.
proof fn lemma_empty_attrs(tok: Seq<char>)
    ensures
        parse_attributes_spec(Seq::<char>::empty(), tok) == Seq::<AttrV>::empty(),
{
    let e = Seq::<char>::empty();
    assert(trim_spec(e) == e);
    assert(keyed_scan(e, 0) == Seq::<(int, int, AttrV)>::empty());
    assert(strip_spans(e, keyed_scan(e, 0), 0) =~= e);
    assert(pos_scan(e, 0) == Seq::<Seq<char>>::empty());
    assert(parse_attributes_spec(e, tok) =~= Seq::<AttrV>::empty());
}

// ---------------------------------------------------------------------------
// Content accumulation
// ---------------------------------------------------------------------------

/// The content accumulated by stepping the lines from `i` on: content
/// lines join with newlines, blank and comment lines change nothing.
pub open spec fn content_fold(c: Seq<char>, lines: Seq<Seq<char>>, i: int) -> Seq<char>
    decreases lines.len() - i,
{
    if i < 0 || i >= lines.len() {
        c
    } else {
        match classify_spec(lines[i]) {
            LineV::Content(text) => content_fold(
                if c.len() == 0 {
                    text
                } else {
                    c + seq!['\n'] + text
                },
                lines,
                i + 1,
            ),
            _ => content_fold(c, lines, i + 1),
        }
    }
}

/// Lines joined by single newlines.
pub open spec fn join_nl(lines: Seq<Seq<char>>) -> Seq<char>
    decreases lines.len(),
{
    if lines.len() == 0 {
        Seq::empty()
    } else if lines.len() == 1 {
        lines[0]
    } else {
        lines[0] + seq!['\n'] + join_nl(lines.drop_first())
    }
}

/// Stepping a stack holding one open block over content, blank and comment
/// lines only accumulates content on that block.
proof fn lemma_content_run(b: BlockV, roots: Seq<BlockV>, lines: Seq<Seq<char>>, i: int)
    requires
        0 <= i <= lines.len(),
        forall|m: int|
            i <= m < lines.len() ==> (classify_spec(#[trigger] lines[m]) == LineV::Content(
                lines[m],
            ) || classify_spec(lines[m]) == LineV::Empty || classify_spec(lines[m])
                == LineV::Comment),
    ensures
        run_lines((seq![b], roots), lines, i) == (
            seq![BlockV { content: content_fold(b.content, lines, i), ..b }],
            roots,
        ),
    decreases lines.len() - i,
{
    if i >= lines.len() {
        assert(run_lines((seq![b], roots), lines, i) == (seq![b], roots));
        assert(BlockV { content: content_fold(b.content, lines, i), ..b } =~= b);
    } else {
        let st = (seq![b], roots);
        let n = (i + 1) as nat;
        if classify_spec(lines[i]) == LineV::Content(lines[i]) {
            let text = lines[i];
            let top2 = BlockV {
                content: if b.content.len() == 0 {
                    text
                } else {
                    b.content + seq!['\n'] + text
                },
                ..b
            };
            assert(st.0.len() > 0);
            assert(st.0.last() == b);
            assert(st.0.drop_last().push(top2) =~= seq![top2]);
            assert(step_line(st, lines[i], n) == seq![top2]);
            assert(step_line_roots(st, lines[i], n) == roots);
            lemma_content_run(top2, roots, lines, i + 1);
            assert(run_lines(st, lines, i) == run_lines((seq![top2], roots), lines, i + 1));
            assert(BlockV { content: content_fold(top2.content, lines, i + 1), ..top2 } =~= (
            BlockV { content: content_fold(b.content, lines, i), ..b }));
        } else {
            assert(step_line(st, lines[i], n) == st.0);
            assert(step_line_roots(st, lines[i], n) == st.1);
            lemma_content_run(b, roots, lines, i + 1);
            assert(content_fold(b.content, lines, i) == content_fold(b.content, lines, i + 1));
        }
    }
}

/// Lines that are all blank or comments leave the fold unchanged.
proof fn lemma_fold_skips(c: Seq<char>, lines: Seq<Seq<char>>, i: int)
    requires
        0 <= i <= lines.len(),
        forall|m: int|
            i <= m < lines.len() ==> (classify_spec(#[trigger] lines[m]) == LineV::Empty
                || classify_spec(lines[m]) == LineV::Comment),
    ensures
        content_fold(c, lines, i) == c,
    decreases lines.len() - i,
{
    if i < lines.len() {
        lemma_fold_skips(c, lines, i + 1);
    }
}

/// Over a run of content lines followed only by blank or comment lines,
/// the fold is the newline join of the content lines.
proof fn lemma_fold_is_join(c: Seq<char>, lines: Seq<Seq<char>>, i: int, j: int)
    requires
        0 <= i <= j <= lines.len(),
        forall|m: int|
            i <= m < j ==> classify_spec(#[trigger] lines[m]) == LineV::Content(lines[m]),
        forall|m: int|
            j <= m < lines.len() ==> (classify_spec(#[trigger] lines[m]) == LineV::Empty
                || classify_spec(lines[m]) == LineV::Comment),
    ensures
        content_fold(c, lines, i) == (if i >= j {
            c
        } else if c.len() == 0 {
            join_nl(lines.subrange(i, j))
        } else {
            c + seq!['\n'] + join_nl(lines.subrange(i, j))
        }),
    decreases j - i,
{
    if i >= j {
        lemma_fold_skips(c, lines, i);
    } else {
        let text = lines[i];
        if text.len() == 0 {
            assert(trim_spec(text) == text);
            assert(classify_spec(text) == LineV::Empty);
            assert(false);
        }
        let c2 = if c.len() == 0 {
            text
        } else {
            c + seq!['\n'] + text
        };
        assert(c2.len() > 0);
        lemma_fold_is_join(c2, lines, i + 1, j);
        let sub = lines.subrange(i, j);
        assert(sub[0] == lines[i]);
        if i + 1 >= j {
            assert(sub.len() == 1);
            assert(join_nl(sub) == lines[i]);
            assert(content_fold(c, lines, i) == c2);
        } else {
            assert(sub.drop_first() =~= lines.subrange(i + 1, j));
            assert(join_nl(sub) == lines[i] + seq!['\n'] + join_nl(lines.subrange(i + 1, j)));
            if c.len() == 0 {
                assert(c2 + seq!['\n'] + join_nl(lines.subrange(i + 1, j)) =~= join_nl(sub));
            } else {
                assert(c2 + seq!['\n'] + join_nl(lines.subrange(i + 1, j)) =~= c + seq!['\n']
                    + join_nl(sub));
            }
        }
    }
}

// ---------------------------------------------------------------------------
// Line splitting of encoded text
// ---------------------------------------------------------------------------

/// No line of a split holds a newline; without carriage returns in the
/// text, none holds a carriage return either.
proof fn lemma_lines_chars(s: Seq<char>)
    requires
        forall|k: int| 0 <= k < s.len() ==> s[k] != '\r',
    ensures
        forall|i: int, j: int|
            0 <= i < lines_spec(s).len() && 0 <= j < lines_spec(s)[i].len()
                ==> #[trigger] lines_spec(s)[i][j] != '\n' && lines_spec(s)[i][j] != '\r',
    decreases s.len(),
{
    if s.len() > 0 {
        crate::text::lemma_scan_to_bounds(s, 0, '\n');
        let t = scan_to(s, 0, '\n');
        if t >= s.len() {
            assert(lines_spec(s) == seq![s]);
            assert forall|i: int, j: int|
                0 <= i < lines_spec(s).len() && 0 <= j < lines_spec(s)[i].len()
                    implies #[trigger] lines_spec(s)[i][j] != '\n' && lines_spec(s)[i][j]
                != '\r' by {
                assert(lines_spec(s)[i] == s);
            }
        } else {
            let l1 = s.subrange(0, t);
            let rest = s.subrange(t + 1, s.len() as int);
            assert(crate::text::strip_cr(l1) == l1);
            lemma_lines_chars(rest);
            assert(lines_spec(s) == seq![l1] + lines_spec(rest));
            assert forall|i: int, j: int|
                0 <= i < lines_spec(s).len() && 0 <= j < lines_spec(s)[i].len()
                    implies #[trigger] lines_spec(s)[i][j] != '\n' && lines_spec(s)[i][j]
                != '\r' by {
                if i == 0 {
                    assert(lines_spec(s)[0] == l1);
                    assert(l1[j] == s[j]);
                } else {
                    assert(lines_spec(s)[i] == lines_spec(rest)[i - 1]);
                }
            }
        }
    }
}

/// The lines from `i` on, each terminated by a newline.
pub open spec fn termcat(lines: Seq<Seq<char>>, i: int) -> Seq<char>
    decreases lines.len() - i,
{
    if i < 0 || i >= lines.len() {
        Seq::empty()
    } else {
        lines[i] + seq!['\n'] + termcat(lines, i + 1)
    }
}

/// Writing content lines with an empty indent appends each line and a
/// newline.
proof fn lemma_enc_content_flat(acc: Seq<char>, lines: Seq<Seq<char>>, i: int)
    requires
        0 <= i <= lines.len(),
    ensures
        enc_content(acc, lines, i, Seq::<char>::empty()) == acc + termcat(lines, i),
    decreases lines.len() - i,
{
    if i >= lines.len() {
        assert(acc + termcat(lines, i) =~= acc);
    } else {
        let acc2 = acc + Seq::<char>::empty() + lines[i] + seq!['\n'];
        lemma_enc_content_flat(acc2, lines, i + 1);
        assert(acc2 + termcat(lines, i + 1) =~= acc + termcat(lines, i));
    }
}

/// Splitting newline-terminated lines followed by one final newline gives
/// the lines back, plus one empty line.
proof fn lemma_lines_of_termcat(lines: Seq<Seq<char>>, i: int)
    requires
        0 <= i <= lines.len(),
        forall|m: int, j: int|
            0 <= m < lines.len() && 0 <= j < lines[m].len() ==> #[trigger] lines[m][j] != '\n'
                && lines[m][j] != '\r',
    ensures
        lines_spec(termcat(lines, i) + seq!['\n']) == lines.subrange(i, lines.len() as int)
            + seq![Seq::<char>::empty()],
    decreases lines.len() - i,
{
    if i >= lines.len() {
        let s = termcat(lines, i) + seq!['\n'];
        assert(s =~= seq!['\n']);
        assert(s.len() == 1);
        assert(s[0] == '\n');
        assert(scan_to(s, 0, '\n') == 0);
        assert(s.subrange(0, 0) =~= Seq::<char>::empty());
        assert(s.subrange(1, 1) =~= Seq::<char>::empty());
        assert(crate::text::strip_cr(Seq::<char>::empty()) =~= Seq::<char>::empty());
        assert(lines_spec(Seq::<char>::empty()) == Seq::<Seq<char>>::empty());
        assert(lines_spec(s) == seq![crate::text::strip_cr(s.subrange(0, 0))] + lines_spec(
            s.subrange(1, 1),
        ));
        assert(lines_spec(s) =~= seq![Seq::<char>::empty()]);
        assert(lines.subrange(i, lines.len() as int).len() == 0);
        assert(lines.subrange(i, lines.len() as int) + seq![Seq::<char>::empty()] =~= seq![
            Seq::<char>::empty(),
        ]);
    } else {
        lemma_lines_of_termcat(lines, i + 1);
        let a = lines[i];
        let rest = termcat(lines, i + 1) + seq!['\n'];
        assert(termcat(lines, i) + seq!['\n'] =~= a + seq!['\n'] + rest);
        lemma_lines_prepend(a, rest);
        assert(lines_spec(termcat(lines, i) + seq!['\n']) == seq![a] + lines_spec(rest));
        assert(seq![a] + (lines.subrange(i + 1, lines.len() as int) + seq![Seq::<char>::empty()])
            =~= lines.subrange(i, lines.len() as int) + seq![Seq::<char>::empty()]);
    }
}

/// Joining the split of carriage-return-free text without a trailing
/// newline gives the text back.
proof fn lemma_lines_join_back(content: Seq<char>)
    requires
        content.len() > 0,
        forall|k: int| 0 <= k < content.len() ==> content[k] != '\r',
        content.last() != '\n',
    ensures
        join_nl(lines_spec(content)) == content,
    decreases content.len(),
{
    crate::text::lemma_scan_to_bounds(content, 0, '\n');
    let t = scan_to(content, 0, '\n');
    if t >= content.len() {
        assert(lines_spec(content) == seq![content]);
    } else {
        let l1 = content.subrange(0, t);
        let rest = content.subrange(t + 1, content.len() as int);
        assert(content[t] == '\n');
        assert(t < content.len() - 1) by {
            if t == content.len() - 1 {
                assert(content.last() == '\n');
            }
        }
        assert(rest.len() > 0);
        assert(rest.last() == content.last());
        lemma_lines_join_back(rest);
        assert(crate::text::strip_cr(l1) == l1);
        assert(lines_spec(content) == seq![l1] + lines_spec(rest));
        assert(lines_spec(rest).len() >= 1);
        let all = seq![l1] + lines_spec(rest);
        assert(all.len() >= 2);
        assert(all[0] == l1);
        assert(all.drop_first() =~= lines_spec(rest));
        assert(join_nl(all) == l1 + seq!['\n'] + join_nl(lines_spec(rest)));
        assert(l1 + seq!['\n'] + rest =~= content);
    }
}

// ---------------------------------------------------------------------------
// The round-trip law
// ---------------------------------------------------------------------------

/// **Round trip of a single-block document.**  Parsing the default
/// encoding of a document that holds one block without attributes or
/// children yields exactly one root block with the same level and the same
/// content; its type is the block's encoder token resolved back through
/// the parser's type table, and it again has no attributes and no
/// children.
#[verifier::rlimit(100)]
pub proof fn law_roundtrip_single_block(b: BlockV)
    requires
        1 <= b.level <= 6,
        b.attributes.len() == 0,
        b.children.len() == 0,
        token_wf(type_string_spec(b.block_type, true)),
        content_wf(b.content),
    ensures
        ({
            let text = enc_doc_spec(DocV { blocks: seq![b], metadata: Seq::empty() }, 0nat, true);
            let roots = parse_lines_spec(
                (Seq::<BlockV>::empty(), Seq::<BlockV>::empty()),
                lines_spec(text),
            );
            &&& roots.len() == 1
            &&& roots[0].block_type == type_from_str_spec(type_string_spec(b.block_type, true))
            &&& roots[0].level == b.level
            &&& roots[0].content == b.content
            &&& roots[0].attributes == Seq::<AttrV>::empty()
            &&& roots[0].children == Seq::<BlockV>::empty()
        }),
{
    let tok = type_string_spec(b.block_type, true);
    let hl = repeat_char('#', b.level) + tok;
    let d = DocV { blocks: seq![b], metadata: Seq::<AttrV>::empty() };
    let text = enc_doc_spec(d, 0nat, true);
    let cl = lines_spec(b.content);

    // The encoded text: header line, newline-terminated content lines, and
    // the blank separator line.
    assert(seq![b].len() == 1);
    assert(enc_doc_spec(d, 0nat, true) == enc_blocks_spec(
        Seq::<char>::empty(),
        seq![b],
        0,
        0nat,
        0nat,
        true,
    ));
    assert(seq![b][0] == b);
    assert(enc_blocks_spec(Seq::<char>::empty(), seq![b], 0, 0nat, 0nat, true)
        == enc_blocks_spec(
        enc_block_spec(Seq::<char>::empty(), b, 0nat, 0nat, true),
        seq![b],
        1,
        0nat,
        0nat,
        true,
    ));
    assert(text == enc_block_spec(Seq::<char>::empty(), b, 0nat, 0nat, true));
    assert(0nat * 0nat == 0nat);
    assert(repeat_char(' ', 0nat) == Seq::<char>::empty());
    assert(enc_attrs_spec(b.attributes, b.block_type) == Seq::<char>::empty());
    let header = Seq::<char>::empty() + repeat_char('#', b.level) + tok + Seq::<char>::empty()
        + seq!['\n'];
    let acc1 = Seq::<char>::empty() + header;
    assert(acc1 =~= hl + seq!['\n']);
    lemma_enc_content_flat(acc1, cl, 0);
    let acc2 = acc1 + termcat(cl, 0);
    assert(enc_content(acc1, cl, 0, Seq::<char>::empty()) == acc2);
    assert(enc_blocks_spec(acc2, b.children, 0, 1nat, 0nat, true) == acc2);
    assert(text == acc2 + seq!['\n']);
    assert(text =~= hl + seq!['\n'] + (termcat(cl, 0) + seq!['\n']));

    // Splitting the text back into lines.
    lemma_repeat_char_facts('#', b.level);
    assert(forall|j: int| 0 <= j < hl.len() ==> hl[j] != '\n' && hl[j] != '\r') by {
        assert(forall|j: int| 0 <= j < b.level ==> hl[j] == '#');
        assert(forall|j: int|
            b.level <= j < hl.len() ==> hl[j] == tok[j - b.level] && is_ident_char(
                #[trigger] hl[j],
            ));
    }
    assert(hl.len() > 0);
    assert(hl.last() != '\r');
    lemma_lines_chars(b.content);
    lemma_lines_of_termcat(cl, 0);
    assert(lines_spec(termcat(cl, 0) + seq!['\n']) == cl.subrange(0, cl.len() as int) + seq![
        Seq::<char>::empty(),
    ]);
    assert(cl.subrange(0, cl.len() as int) =~= cl);
    lemma_lines_prepend(hl, termcat(cl, 0) + seq!['\n']);
    let lv = lines_spec(text);
    assert(lv == seq![hl] + (cl + seq![Seq::<char>::empty()]));
    assert(lv.len() == cl.len() + 2);
    assert(lv[0] == hl);
    assert(forall|m: int| 1 <= m < lv.len() - 1 ==> #[trigger] lv[m] == cl[m - 1]);
    assert(lv[lv.len() - 1] =~= Seq::<char>::empty());

    // Classifying each line.
    lemma_classify_header(b.level, tok, Seq::<char>::empty());
    assert(hl =~= repeat_char('#', b.level) + tok + Seq::<char>::empty());
    assert(classify_spec(lv[0]) == (LineV::BlockStart {
        level: b.level,
        token: tok,
        attrs: Seq::<char>::empty(),
    }));
    assert(forall|m: int|
        1 <= m < lv.len() - 1 ==> classify_spec(#[trigger] lv[m]) == LineV::Content(lv[m]));
    assert(trim_spec(Seq::<char>::empty()) == Seq::<char>::empty());
    assert(classify_spec(lv[lv.len() - 1]) == LineV::Empty);

    // Running the assembler.
    let st0 = (Seq::<BlockV>::empty(), Seq::<BlockV>::empty());
    lemma_empty_attrs(tok);
    let b0 = fresh_block_v(type_from_str_spec(tok), b.level, Seq::<AttrV>::empty(), 1nat);
    assert(close_upto(st0, b.level) == st0);
    assert(step_line(st0, lv[0], 1nat) =~= seq![b0]);
    assert(step_line_roots(st0, lv[0], 1nat) == Seq::<BlockV>::empty());
    assert(run_lines(st0, lv, 0) == run_lines(
        (seq![b0], Seq::<BlockV>::empty()),
        lv,
        1,
    ));
    lemma_content_run(b0, Seq::<BlockV>::empty(), lv, 1);
    let cf = content_fold(b0.content, lv, 1);
    let bf = BlockV { content: cf, ..b0 };
    assert(run_lines(st0, lv, 0) == (seq![bf], Seq::<BlockV>::empty()));

    // The accumulated content is the block content given at the start.
    lemma_fold_is_join(b0.content, lv, 1, lv.len() - 1);
    if cl.len() == 0 {
        assert(b.content.len() == 0) by {
            if b.content.len() > 0 {
                assert(lines_spec(b.content).len() >= 1);
            }
        }
        assert(cf =~= b.content);
    } else {
        assert(lv.subrange(1, lv.len() - 1) =~= cl);
        lemma_lines_join_back(b.content);
        assert(cf == join_nl(cl));
        assert(cf == b.content);
    }

    // Flushing the one open block to the roots.
    let stf = (seq![bf], Seq::<BlockV>::empty());
    assert(stf.0.last() == bf);
    assert(bf.level >= 0);
    let at = attach_top(stf);
    assert(stf.0.drop_last() =~= Seq::<BlockV>::empty());
    assert(at.0.len() == 0);
    assert(at.1 =~= seq![bf]);
    assert(close_upto(at, 0nat) == at);
    assert(close_upto(stf, 0nat) == at);

    // Enrichment keeps the structural fields.
    assert(seq![bf].drop_first() =~= Seq::<BlockV>::empty());
    assert(enrich_blocks(Seq::<BlockV>::empty()) == Seq::<BlockV>::empty());
    assert(enrich_blocks(seq![bf]) == seq![enrich_block(bf)] + Seq::<BlockV>::empty());
    let r = enrich_block(bf);
    assert(enrich_blocks(seq![bf]) =~= seq![r]);
    assert(r.block_type == type_from_str_spec(tok));
    assert(r.level == b.level);
    assert(r.content == b.content);
    assert(r.attributes =~= Seq::<AttrV>::empty());
    assert(enrich_blocks(bf.children) == Seq::<BlockV>::empty());
    assert(r.children =~= Seq::<BlockV>::empty());
    let roots = parse_lines_spec(st0, lv);
    assert(roots =~= seq![r]);
}

/// Every built-in block type's encoder token is a well-formed header
/// token.
#[verifier::rlimit(100)]
pub proof fn lemma_builtin_token_wf(t: TypeV)
    requires
        !(t is Custom),
    ensures
        token_wf(type_string_spec(t, true)),
{
    reveal_strlit("section");
    reveal_strlit("paragraph");
    reveal_strlit("code");
    reveal_strlit("quote");
    reveal_strlit("image");
    reveal_strlit("table");
    reveal_strlit("list");
    reveal_strlit("math");
    reveal_strlit("comment");
    reveal_strlit("h1");
    reveal_strlit("h2");
    reveal_strlit("h3");
    reveal_strlit("h4");
    reveal_strlit("h5");
    reveal_strlit("h6");
    reveal_strlit("p");
    reveal_strlit("c");
    reveal_strlit("q");
    reveal_strlit("img");
    reveal_strlit("tbl");
    reveal_strlit("m");
    let tok = type_string_spec(t, true);
    assert forall|i: int| 0 <= i < tok.len() implies is_ident_char(#[trigger] tok[i]) by {}
}

/// Sequences differing at one index differ.
proof fn lemma_seq_neq_at(a: Seq<char>, b: Seq<char>, i: int)
    requires
        0 <= i < a.len(),
        0 <= i < b.len(),
        a[i] != b[i],
    ensures
        a != b,
{
    if a == b {
        assert(a[i] == b[i]);
    }
}

proof fn lemma_from_token_section()
    ensures
        type_from_str_spec("section"@) == TypeV::Section,
{
    reveal_strlit("section");
    reveal_strlit("paragraph");
    reveal_strlit("code");
    reveal_strlit("quote");
    reveal_strlit("image");
    reveal_strlit("table");
    reveal_strlit("list");
    reveal_strlit("math");
    reveal_strlit("comment");
    reveal_strlit("h1");
    reveal_strlit("h2");
    reveal_strlit("h3");
    reveal_strlit("h4");
    reveal_strlit("h5");
    reveal_strlit("h6");
    reveal_strlit("p");
    reveal_strlit("c");
    reveal_strlit("q");
    reveal_strlit("img");
    reveal_strlit("tbl");
    reveal_strlit("m");
    assert(crate::text::lower_seq("section"@) =~= "section"@);
}

proof fn lemma_from_token_p()
    ensures
        type_from_str_spec("p"@) == TypeV::P,
{
    reveal_strlit("section");
    reveal_strlit("paragraph");
    reveal_strlit("code");
    reveal_strlit("quote");
    reveal_strlit("image");
    reveal_strlit("table");
    reveal_strlit("list");
    reveal_strlit("math");
    reveal_strlit("comment");
    reveal_strlit("h1");
    reveal_strlit("h2");
    reveal_strlit("h3");
    reveal_strlit("h4");
    reveal_strlit("h5");
    reveal_strlit("h6");
    reveal_strlit("p");
    reveal_strlit("c");
    reveal_strlit("q");
    reveal_strlit("img");
    reveal_strlit("tbl");
    reveal_strlit("m");
    assert(crate::text::lower_seq("p"@) =~= "p"@);
}

proof fn lemma_from_token_c()
    ensures
        type_from_str_spec("c"@) == TypeV::C,
{
    reveal_strlit("section");
    reveal_strlit("paragraph");
    reveal_strlit("code");
    reveal_strlit("quote");
    reveal_strlit("image");
    reveal_strlit("table");
    reveal_strlit("list");
    reveal_strlit("math");
    reveal_strlit("comment");
    reveal_strlit("h1");
    reveal_strlit("h2");
    reveal_strlit("h3");
    reveal_strlit("h4");
    reveal_strlit("h5");
    reveal_strlit("h6");
    reveal_strlit("p");
    reveal_strlit("c");
    reveal_strlit("q");
    reveal_strlit("img");
    reveal_strlit("tbl");
    reveal_strlit("m");
    assert(crate::text::lower_seq("c"@) =~= "c"@);
    lemma_seq_neq_at("c"@, "p"@, 0);
}

proof fn lemma_from_token_q()
    ensures
        type_from_str_spec("q"@) == TypeV::Q,
{
    reveal_strlit("section");
    reveal_strlit("paragraph");
    reveal_strlit("code");
    reveal_strlit("quote");
    reveal_strlit("image");
    reveal_strlit("table");
    reveal_strlit("list");
    reveal_strlit("math");
    reveal_strlit("comment");
    reveal_strlit("h1");
    reveal_strlit("h2");
    reveal_strlit("h3");
    reveal_strlit("h4");
    reveal_strlit("h5");
    reveal_strlit("h6");
    reveal_strlit("p");
    reveal_strlit("c");
    reveal_strlit("q");
    reveal_strlit("img");
    reveal_strlit("tbl");
    reveal_strlit("m");
    assert(crate::text::lower_seq("q"@) =~= "q"@);
    lemma_seq_neq_at("q"@, "p"@, 0);
    lemma_seq_neq_at("q"@, "c"@, 0);
}

proof fn lemma_from_token_img()
    ensures
        type_from_str_spec("img"@) == TypeV::Img,
{
    reveal_strlit("section");
    reveal_strlit("paragraph");
    reveal_strlit("code");
    reveal_strlit("quote");
    reveal_strlit("image");
    reveal_strlit("table");
    reveal_strlit("list");
    reveal_strlit("math");
    reveal_strlit("comment");
    reveal_strlit("h1");
    reveal_strlit("h2");
    reveal_strlit("h3");
    reveal_strlit("h4");
    reveal_strlit("h5");
    reveal_strlit("h6");
    reveal_strlit("p");
    reveal_strlit("c");
    reveal_strlit("q");
    reveal_strlit("img");
    reveal_strlit("tbl");
    reveal_strlit("m");
    assert(crate::text::lower_seq("img"@) =~= "img"@);
}

proof fn lemma_from_token_tbl()
    ensures
        type_from_str_spec("tbl"@) == TypeV::Tbl,
{
    reveal_strlit("section");
    reveal_strlit("paragraph");
    reveal_strlit("code");
    reveal_strlit("quote");
    reveal_strlit("image");
    reveal_strlit("table");
    reveal_strlit("list");
    reveal_strlit("math");
    reveal_strlit("comment");
    reveal_strlit("h1");
    reveal_strlit("h2");
    reveal_strlit("h3");
    reveal_strlit("h4");
    reveal_strlit("h5");
    reveal_strlit("h6");
    reveal_strlit("p");
    reveal_strlit("c");
    reveal_strlit("q");
    reveal_strlit("img");
    reveal_strlit("tbl");
    reveal_strlit("m");
    assert(crate::text::lower_seq("tbl"@) =~= "tbl"@);
    lemma_seq_neq_at("tbl"@, "img"@, 0);
}

proof fn lemma_from_token_list()
    ensures
        type_from_str_spec("list"@) == TypeV::List,
{
    reveal_strlit("section");
    reveal_strlit("paragraph");
    reveal_strlit("code");
    reveal_strlit("quote");
    reveal_strlit("image");
    reveal_strlit("table");
    reveal_strlit("list");
    reveal_strlit("math");
    reveal_strlit("comment");
    reveal_strlit("h1");
    reveal_strlit("h2");
    reveal_strlit("h3");
    reveal_strlit("h4");
    reveal_strlit("h5");
    reveal_strlit("h6");
    reveal_strlit("p");
    reveal_strlit("c");
    reveal_strlit("q");
    reveal_strlit("img");
    reveal_strlit("tbl");
    reveal_strlit("m");
    assert(crate::text::lower_seq("list"@) =~= "list"@);
    lemma_seq_neq_at("list"@, "code"@, 0);
}

proof fn lemma_from_token_m()
    ensures
        type_from_str_spec("m"@) == TypeV::M,
{
    reveal_strlit("section");
    reveal_strlit("paragraph");
    reveal_strlit("code");
    reveal_strlit("quote");
    reveal_strlit("image");
    reveal_strlit("table");
    reveal_strlit("list");
    reveal_strlit("math");
    reveal_strlit("comment");
    reveal_strlit("h1");
    reveal_strlit("h2");
    reveal_strlit("h3");
    reveal_strlit("h4");
    reveal_strlit("h5");
    reveal_strlit("h6");
    reveal_strlit("p");
    reveal_strlit("c");
    reveal_strlit("q");
    reveal_strlit("img");
    reveal_strlit("tbl");
    reveal_strlit("m");
    assert(crate::text::lower_seq("m"@) =~= "m"@);
    lemma_seq_neq_at("m"@, "p"@, 0);
    lemma_seq_neq_at("m"@, "c"@, 0);
    lemma_seq_neq_at("m"@, "q"@, 0);
}

proof fn lemma_from_token_comment()
    ensures
        type_from_str_spec("comment"@) == TypeV::Comment,
{
    reveal_strlit("section");
    reveal_strlit("paragraph");
    reveal_strlit("code");
    reveal_strlit("quote");
    reveal_strlit("image");
    reveal_strlit("table");
    reveal_strlit("list");
    reveal_strlit("math");
    reveal_strlit("comment");
    reveal_strlit("h1");
    reveal_strlit("h2");
    reveal_strlit("h3");
    reveal_strlit("h4");
    reveal_strlit("h5");
    reveal_strlit("h6");
    reveal_strlit("p");
    reveal_strlit("c");
    reveal_strlit("q");
    reveal_strlit("img");
    reveal_strlit("tbl");
    reveal_strlit("m");
    assert(crate::text::lower_seq("comment"@) =~= "comment"@);
    lemma_seq_neq_at("comment"@, "section"@, 1);
}

proof fn lemma_from_token_h1()
    ensures
        type_from_str_spec("h1"@) == TypeV::H1,
{
    reveal_strlit("section");
    reveal_strlit("paragraph");
    reveal_strlit("code");
    reveal_strlit("quote");
    reveal_strlit("image");
    reveal_strlit("table");
    reveal_strlit("list");
    reveal_strlit("math");
    reveal_strlit("comment");
    reveal_strlit("h1");
    reveal_strlit("h2");
    reveal_strlit("h3");
    reveal_strlit("h4");
    reveal_strlit("h5");
    reveal_strlit("h6");
    reveal_strlit("p");
    reveal_strlit("c");
    reveal_strlit("q");
    reveal_strlit("img");
    reveal_strlit("tbl");
    reveal_strlit("m");
    assert(crate::text::lower_seq("h1"@) =~= "h1"@);
}

proof fn lemma_from_token_h2()
    ensures
        type_from_str_spec("h2"@) == TypeV::H2,
{
    reveal_strlit("section");
    reveal_strlit("paragraph");
    reveal_strlit("code");
    reveal_strlit("quote");
    reveal_strlit("image");
    reveal_strlit("table");
    reveal_strlit("list");
    reveal_strlit("math");
    reveal_strlit("comment");
    reveal_strlit("h1");
    reveal_strlit("h2");
    reveal_strlit("h3");
    reveal_strlit("h4");
    reveal_strlit("h5");
    reveal_strlit("h6");
    reveal_strlit("p");
    reveal_strlit("c");
    reveal_strlit("q");
    reveal_strlit("img");
    reveal_strlit("tbl");
    reveal_strlit("m");
    assert(crate::text::lower_seq("h2"@) =~= "h2"@);
    lemma_seq_neq_at("h2"@, "h1"@, 1);
}

proof fn lemma_from_token_h3()
    ensures
        type_from_str_spec("h3"@) == TypeV::H3,
{
    reveal_strlit("section");
    reveal_strlit("paragraph");
    reveal_strlit("code");
    reveal_strlit("quote");
    reveal_strlit("image");
    reveal_strlit("table");
    reveal_strlit("list");
    reveal_strlit("math");
    reveal_strlit("comment");
    reveal_strlit("h1");
    reveal_strlit("h2");
    reveal_strlit("h3");
    reveal_strlit("h4");
    reveal_strlit("h5");
    reveal_strlit("h6");
    reveal_strlit("p");
    reveal_strlit("c");
    reveal_strlit("q");
    reveal_strlit("img");
    reveal_strlit("tbl");
    reveal_strlit("m");
    assert(crate::text::lower_seq("h3"@) =~= "h3"@);
    lemma_seq_neq_at("h3"@, "h1"@, 1);
    lemma_seq_neq_at("h3"@, "h2"@, 1);
}

proof fn lemma_from_token_h4()
    ensures
        type_from_str_spec("h4"@) == TypeV::H4,
{
    reveal_strlit("section");
    reveal_strlit("paragraph");
    reveal_strlit("code");
    reveal_strlit("quote");
    reveal_strlit("image");
    reveal_strlit("table");
    reveal_strlit("list");
    reveal_strlit("math");
    reveal_strlit("comment");
    reveal_strlit("h1");
    reveal_strlit("h2");
    reveal_strlit("h3");
    reveal_strlit("h4");
    reveal_strlit("h5");
    reveal_strlit("h6");
    reveal_strlit("p");
    reveal_strlit("c");
    reveal_strlit("q");
    reveal_strlit("img");
    reveal_strlit("tbl");
    reveal_strlit("m");
    assert(crate::text::lower_seq("h4"@) =~= "h4"@);
    lemma_seq_neq_at("h4"@, "h1"@, 1);
    lemma_seq_neq_at("h4"@, "h2"@, 1);
    lemma_seq_neq_at("h4"@, "h3"@, 1);
}

proof fn lemma_from_token_h5()
    ensures
        type_from_str_spec("h5"@) == TypeV::H5,
{
    reveal_strlit("section");
    reveal_strlit("paragraph");
    reveal_strlit("code");
    reveal_strlit("quote");
    reveal_strlit("image");
    reveal_strlit("table");
    reveal_strlit("list");
    reveal_strlit("math");
    reveal_strlit("comment");
    reveal_strlit("h1");
    reveal_strlit("h2");
    reveal_strlit("h3");
    reveal_strlit("h4");
    reveal_strlit("h5");
    reveal_strlit("h6");
    reveal_strlit("p");
    reveal_strlit("c");
    reveal_strlit("q");
    reveal_strlit("img");
    reveal_strlit("tbl");
    reveal_strlit("m");
    assert(crate::text::lower_seq("h5"@) =~= "h5"@);
    lemma_seq_neq_at("h5"@, "h1"@, 1);
    lemma_seq_neq_at("h5"@, "h2"@, 1);
    lemma_seq_neq_at("h5"@, "h3"@, 1);
    lemma_seq_neq_at("h5"@, "h4"@, 1);
}

proof fn lemma_from_token_h6()
    ensures
        type_from_str_spec("h6"@) == TypeV::H6,
{
    reveal_strlit("section");
    reveal_strlit("paragraph");
    reveal_strlit("code");
    reveal_strlit("quote");
    reveal_strlit("image");
    reveal_strlit("table");
    reveal_strlit("list");
    reveal_strlit("math");
    reveal_strlit("comment");
    reveal_strlit("h1");
    reveal_strlit("h2");
    reveal_strlit("h3");
    reveal_strlit("h4");
    reveal_strlit("h5");
    reveal_strlit("h6");
    reveal_strlit("p");
    reveal_strlit("c");
    reveal_strlit("q");
    reveal_strlit("img");
    reveal_strlit("tbl");
    reveal_strlit("m");
    assert(crate::text::lower_seq("h6"@) =~= "h6"@);
    lemma_seq_neq_at("h6"@, "h1"@, 1);
    lemma_seq_neq_at("h6"@, "h2"@, 1);
    lemma_seq_neq_at("h6"@, "h3"@, 1);
    lemma_seq_neq_at("h6"@, "h4"@, 1);
    lemma_seq_neq_at("h6"@, "h5"@, 1);
}

/// The parse of a built-in type's encoder token reduces to the same
/// canonical kind: the type survives a round trip up to its canonical
/// projection.
pub proof fn lemma_builtin_token_canonical(t: TypeV)
    requires
        !(t is Custom),
    ensures
        crate::model::canonical_spec(type_from_str_spec(type_string_spec(t, true)))
            == crate::model::canonical_spec(t),
{
    let tok = type_string_spec(t, true);
    match t {
        TypeV::Section => {
            lemma_from_token_section();
            assert(tok == "section"@);
        },
        TypeV::Paragraph => {
            lemma_from_token_p();
            assert(tok == "p"@);
        },
        TypeV::Code => {
            lemma_from_token_c();
            assert(tok == "c"@);
        },
        TypeV::Quote => {
            lemma_from_token_q();
            assert(tok == "q"@);
        },
        TypeV::Image => {
            lemma_from_token_img();
            assert(tok == "img"@);
        },
        TypeV::Table => {
            lemma_from_token_tbl();
            assert(tok == "tbl"@);
        },
        TypeV::List => {
            lemma_from_token_list();
            assert(tok == "list"@);
        },
        TypeV::Math => {
            lemma_from_token_m();
            assert(tok == "m"@);
        },
        TypeV::Comment => {
            lemma_from_token_comment();
            assert(tok == "comment"@);
        },
        TypeV::H1 => {
            lemma_from_token_h1();
            assert(tok == "h1"@);
        },
        TypeV::H2 => {
            lemma_from_token_h2();
            assert(tok == "h2"@);
        },
        TypeV::H3 => {
            lemma_from_token_h3();
            assert(tok == "h3"@);
        },
        TypeV::H4 => {
            lemma_from_token_h4();
            assert(tok == "h4"@);
        },
        TypeV::H5 => {
            lemma_from_token_h5();
            assert(tok == "h5"@);
        },
        TypeV::H6 => {
            lemma_from_token_h6();
            assert(tok == "h6"@);
        },
        TypeV::P => {
            lemma_from_token_p();
            assert(tok == "p"@);
        },
        TypeV::C => {
            lemma_from_token_c();
            assert(tok == "c"@);
        },
        TypeV::Q => {
            lemma_from_token_q();
            assert(tok == "q"@);
        },
        TypeV::Img => {
            lemma_from_token_img();
            assert(tok == "img"@);
        },
        TypeV::Tbl => {
            lemma_from_token_tbl();
            assert(tok == "tbl"@);
        },
        TypeV::M => {
            lemma_from_token_m();
            assert(tok == "m"@);
        },
        TypeV::Custom(_) => {
            assert(false);
        },
    }
}


// ---------------------------------------------------------------------------
// One positional attribute
// ---------------------------------------------------------------------------

/// Text without `=` holds no `key=value` token.
proof fn lemma_keyed_scan_none(s: Seq<char>, p: int)
    requires
        0 <= p <= s.len(),
        forall|j: int| 0 <= j < s.len() ==> s[j] != '=',
    ensures
        keyed_scan(s, p) == Seq::<(int, int, AttrV)>::empty(),
    decreases s.len() - p,
{
    if p < s.len() {
        crate::text::lemma_word_end_bounds(s, p);
        let w = crate::text::word_end(s, p);
        assert(crate::attrs::keyed_at(s, p) is None);
        lemma_keyed_scan_none(s, p + 1);
    }
}

/// Escaping a value without quotes changes nothing.
proof fn lemma_esc_quotes_id(v: Seq<char>)
    requires
        forall|j: int| 0 <= j < v.len() ==> v[j] != '"',
    ensures
        crate::encoder::esc_quotes(v) == v,
    decreases v.len(),
{
    if v.len() > 0 {
        lemma_esc_quotes_id(v.drop_first());
        assert(crate::encoder::esc_char(v[0]) == seq![v[0]]);
        assert(crate::encoder::esc_quotes(v) =~= v);
    }
}

/// A single double-quoted token, with a quote-free and equals-free value,
/// parses to one positional attribute.
proof fn lemma_attrs_quoted(tok: Seq<char>, v: Seq<char>)
    requires
        forall|j: int| 0 <= j < v.len() ==> v[j] != '"' && v[j] != '=',
    ensures
        parse_attributes_spec(seq!['"'] + v + seq!['"'], tok) == seq![
            AttrV { key: crate::model::positional_key_spec(tok, 0), value: v },
        ],
{
    let at = seq!['"'] + v + seq!['"'];
    assert(at.len() == v.len() + 2);
    assert(at[0] == '"');
    assert(at.last() == '"');
    assert(!is_wspace('"'));
    lemma_trim_id(at);
    assert(trim_spec(at) == at);
    assert(forall|j: int| 0 <= j < at.len() ==> at[j] != '=') by {
        assert(forall|j: int| 1 <= j < at.len() - 1 ==> at[j] == v[j - 1]);
    }
    lemma_keyed_scan_none(at, 0);
    assert(strip_spans(at, keyed_scan(at, 0), 0) =~= at);
    // The positional scan finds exactly the quoted value.
    assert(forall|j: int| 1 <= j < v.len() + 1 ==> at[j] == v[j - 1] && at[j] != '"');
    crate::text::lemma_scan_to_char(at, 1, v.len() as int + 1, '"');
    assert(scan_to(at, 1, '"') == v.len() + 1);
    assert(crate::attrs::pos_value_at(at, 0) == Some(
        (at.len() as int, at.subrange(1, v.len() as int + 1)),
    ));
    assert(at.subrange(1, v.len() as int + 1) =~= v);
    assert(crate::attrs::pos_at(at, 0) == Some((at.len() as int, v)));
    assert(pos_scan(at, at.len() as int) == Seq::<Seq<char>>::empty());
    assert(pos_scan(at, 0) =~= seq![v]);
    assert(parse_attributes_spec(at, tok) =~= seq![
        AttrV { key: crate::model::positional_key_spec(tok, 0), value: v },
    ]);
}

/// **Round trip of a single-block document with its positional
/// attribute.**  A block carrying exactly its block type's positional
/// attribute, with a value free of quotes, equals signs and newlines,
/// comes back from a parse of its encoding with the same level, content,
/// and that same single attribute.
#[verifier::rlimit(100)]
pub proof fn law_roundtrip_single_block_titled(b: BlockV, k: Seq<char>, v: Seq<char>)
    requires
        1 <= b.level <= 6,
        b.children.len() == 0,
        token_wf(type_string_spec(b.block_type, true)),
        content_wf(b.content),
        b.attributes == seq![AttrV { key: k, value: v }],
        crate::model::positional_key_of_type(b.block_type) == Some(k),
        crate::model::positional_key_spec(type_string_spec(b.block_type, true), 0) == k,
        forall|j: int| 0 <= j < v.len() ==> v[j] != '"' && v[j] != '=' && v[j] != '\n',
    ensures
        ({
            let text = enc_doc_spec(DocV { blocks: seq![b], metadata: Seq::empty() }, 0nat, true);
            let roots = parse_lines_spec(
                (Seq::<BlockV>::empty(), Seq::<BlockV>::empty()),
                lines_spec(text),
            );
            &&& roots.len() == 1
            &&& roots[0].block_type == type_from_str_spec(type_string_spec(b.block_type, true))
            &&& roots[0].level == b.level
            &&& roots[0].content == b.content
            &&& roots[0].attributes == b.attributes
            &&& roots[0].children == Seq::<BlockV>::empty()
        }),
{
    let tok = type_string_spec(b.block_type, true);
    let at = seq!['"'] + v + seq!['"'];
    let hl = repeat_char('#', b.level) + tok + (seq![' '] + at);
    let d = DocV { blocks: seq![b], metadata: Seq::<AttrV>::empty() };
    let text = enc_doc_spec(d, 0nat, true);
    let cl = lines_spec(b.content);

    // The encoded attribute text is the quoted value.
    let kv = AttrV { key: k, value: v };
    assert(b.attributes[0] == kv);
    assert(crate::model::lookup(b.attributes, k) == Some(v));
    assert(b.attributes.drop_first() =~= Seq::<AttrV>::empty());
    assert(crate::encoder::kv_parts(Seq::<AttrV>::empty(), Some(k))
        == Seq::<Seq<char>>::empty());
    assert(crate::encoder::kv_parts(b.attributes, Some(k)) == Seq::<Seq<char>>::empty());
    lemma_esc_quotes_id(v);
    assert(crate::encoder::quoted_value(v) =~= at);
    assert(crate::encoder::attr_parts(b.attributes, b.block_type) =~= seq![at]);
    assert(crate::encoder::join_sp(seq![at]) == at);
    let attrs_str = enc_attrs_spec(b.attributes, b.block_type);
    assert(attrs_str == at);
    assert(attrs_str.len() > 0);

    // The encoded text: header line with the quoted value, content lines,
    // blank separator.
    assert(seq![b].len() == 1);
    assert(seq![b][0] == b);
    assert(enc_doc_spec(d, 0nat, true) == enc_blocks_spec(
        Seq::<char>::empty(),
        seq![b],
        0,
        0nat,
        0nat,
        true,
    ));
    assert(enc_blocks_spec(Seq::<char>::empty(), seq![b], 0, 0nat, 0nat, true)
        == enc_blocks_spec(
        enc_block_spec(Seq::<char>::empty(), b, 0nat, 0nat, true),
        seq![b],
        1,
        0nat,
        0nat,
        true,
    ));
    assert(text == enc_block_spec(Seq::<char>::empty(), b, 0nat, 0nat, true));
    assert(0nat * 0nat == 0nat);
    assert(repeat_char(' ', 0nat) == Seq::<char>::empty());
    let header = Seq::<char>::empty() + repeat_char('#', b.level) + tok + (seq![' '] + attrs_str)
        + seq!['\n'];
    let acc1 = Seq::<char>::empty() + header;
    assert(acc1 =~= hl + seq!['\n']);
    lemma_enc_content_flat(acc1, cl, 0);
    let acc2 = acc1 + termcat(cl, 0);
    assert(enc_content(acc1, cl, 0, Seq::<char>::empty()) == acc2);
    assert(enc_blocks_spec(acc2, b.children, 0, 1nat, 0nat, true) == acc2);
    assert(text == acc2 + seq!['\n']);
    assert(text =~= hl + seq!['\n'] + (termcat(cl, 0) + seq!['\n']));

    // Splitting the text back into lines.
    lemma_repeat_char_facts('#', b.level);
    assert(forall|j: int| 0 <= j < hl.len() ==> hl[j] != '\n') by {
        assert(forall|j: int| 0 <= j < b.level ==> hl[j] == '#');
        assert(forall|j: int|
            b.level <= j < b.level + tok.len() ==> hl[j] == tok[j - b.level] && is_ident_char(
                #[trigger] hl[j],
            ));
        assert(hl[b.level as int + tok.len() as int] == ' ');
        assert(forall|j: int|
            b.level + tok.len() + 1 <= j < hl.len() ==> hl[j] == at[j - b.level - tok.len()
                - 1]);
        assert(forall|j: int| 1 <= j < at.len() - 1 ==> at[j] == v[j - 1]);
        assert(at[0] == '"' && at.last() == '"');
    }
    assert(hl.len() > 0);
    assert(hl.last() == '"');
    assert(hl.last() != '\r');
    lemma_lines_chars(b.content);
    lemma_lines_of_termcat(cl, 0);
    assert(cl.subrange(0, cl.len() as int) =~= cl);
    lemma_lines_prepend(hl, termcat(cl, 0) + seq!['\n']);
    let lv = lines_spec(text);
    assert(lv == seq![hl] + (cl + seq![Seq::<char>::empty()]));
    assert(lv.len() == cl.len() + 2);
    assert(lv[0] == hl);
    assert(forall|m: int| 1 <= m < lv.len() - 1 ==> #[trigger] lv[m] == cl[m - 1]);
    assert(lv[lv.len() - 1] =~= Seq::<char>::empty());

    // Classifying each line.
    assert(at[0] == '"' && !is_wspace('"') && at[0] != '#');
    lemma_classify_header(b.level, tok, at);
    assert(classify_spec(lv[0]) == (LineV::BlockStart { level: b.level, token: tok, attrs: at }));
    assert(forall|m: int|
        1 <= m < lv.len() - 1 ==> classify_spec(#[trigger] lv[m]) == LineV::Content(lv[m]));
    assert(trim_spec(Seq::<char>::empty()) == Seq::<char>::empty());
    assert(classify_spec(lv[lv.len() - 1]) == LineV::Empty);

    // Running the assembler.
    let st0 = (Seq::<BlockV>::empty(), Seq::<BlockV>::empty());
    lemma_attrs_quoted(tok, v);
    assert(parse_attributes_spec(at, tok) == seq![kv]);
    let b0 = fresh_block_v(type_from_str_spec(tok), b.level, seq![kv], 1nat);
    assert(close_upto(st0, b.level) == st0);
    assert(step_line(st0, lv[0], 1nat) =~= seq![b0]);
    assert(step_line_roots(st0, lv[0], 1nat) == Seq::<BlockV>::empty());
    assert(run_lines(st0, lv, 0) == run_lines((seq![b0], Seq::<BlockV>::empty()), lv, 1));
    lemma_content_run(b0, Seq::<BlockV>::empty(), lv, 1);
    let cf = content_fold(b0.content, lv, 1);
    let bf = BlockV { content: cf, ..b0 };
    assert(run_lines(st0, lv, 0) == (seq![bf], Seq::<BlockV>::empty()));

    // The accumulated content is the block content given at the start.
    lemma_fold_is_join(b0.content, lv, 1, lv.len() - 1);
    if cl.len() == 0 {
        assert(b.content.len() == 0) by {
            if b.content.len() > 0 {
                assert(lines_spec(b.content).len() >= 1);
            }
        }
        assert(cf =~= b.content);
    } else {
        assert(lv.subrange(1, lv.len() - 1) =~= cl);
        lemma_lines_join_back(b.content);
        assert(cf == join_nl(cl));
        assert(cf == b.content);
    }

    // Flushing the one open block to the roots.
    let stf = (seq![bf], Seq::<BlockV>::empty());
    assert(stf.0.last() == bf);
    let atp = attach_top(stf);
    assert(stf.0.drop_last() =~= Seq::<BlockV>::empty());
    assert(atp.0.len() == 0);
    assert(atp.1 =~= seq![bf]);
    assert(close_upto(atp, 0nat) == atp);
    assert(close_upto(stf, 0nat) == atp);

    // Enrichment keeps the structural fields.
    assert(seq![bf].drop_first() =~= Seq::<BlockV>::empty());
    assert(enrich_blocks(Seq::<BlockV>::empty()) == Seq::<BlockV>::empty());
    assert(enrich_blocks(seq![bf]) == seq![enrich_block(bf)] + Seq::<BlockV>::empty());
    let r = enrich_block(bf);
    assert(enrich_blocks(seq![bf]) =~= seq![r]);
    assert(r.block_type == type_from_str_spec(tok));
    assert(r.level == b.level);
    assert(r.content == b.content);
    assert(r.attributes =~= b.attributes);
    assert(enrich_blocks(bf.children) == Seq::<BlockV>::empty());
    assert(r.children =~= Seq::<BlockV>::empty());
    let roots = parse_lines_spec(st0, lv);
    assert(roots =~= seq![r]);
}

} // verus!