//! The inline-span tokenizer: a block's raw content becomes an ordered,
//! non-overlapping, content-covering sequence of inline elements.
//!
//! Nine span patterns are matched at every offset of the content; the walk
//! takes matches in offset order, emits plain text between them, and drops a
//! match that overlaps one already emitted.

use vstd::prelude::*;
use crate::ast::{Block, InlineElement, inlines_view};
use crate::error::ParseResult;
use crate::model::{BlockV, InlineV};
use crate::text::{scan_to, scan_to_exec, subvec, string_of, chars_of};

verus! {

/// A two-character delimiter span `cc…cc` beginning exactly at `i`: the
/// payload is the non-empty run free of `c` between the delimiters.
pub open spec fn double_at(s: Seq<char>, i: int, c: char) -> Option<(int, Seq<char>)> {
    if 0 <= i && i + 1 < s.len() && s[i] == c && s[i + 1] == c {
        let t = scan_to(s, i + 2, c);
        if t > i + 2 && t + 1 < s.len() && s[t + 1] == c {
            Some((t + 2, s.subrange(i + 2, t)))
        } else {
            None
        }
    } else {
        None
    }
}

/// A one-character delimiter span `c…c` beginning exactly at `i`: the
/// payload is the non-empty run free of `c` between the delimiters.
pub open spec fn single_at(s: Seq<char>, i: int, c: char) -> Option<(int, Seq<char>)> {
    if 0 <= i && i < s.len() && s[i] == c {
        let t = scan_to(s, i + 1, c);
        if t > i + 1 && t < s.len() {
            Some((t + 1, s.subrange(i + 1, t)))
        } else {
            None
        }
    } else {
        None
    }
}

/// A link `[text](url)` beginning exactly at `i`, with non-empty text and
/// url.
pub open spec fn link_at(s: Seq<char>, i: int) -> Option<(int, Seq<char>, Seq<char>)> {
    if 0 <= i && i < s.len() && s[i] == '[' {
        let t = scan_to(s, i + 1, ']');
        if t > i + 1 && t + 1 < s.len() && s[t + 1] == '(' {
            let u = scan_to(s, t + 2, ')');
            if u > t + 2 && u < s.len() {
                Some((u + 1, s.subrange(i + 1, t), s.subrange(t + 2, u)))
            } else {
                None
            }
        } else {
            None
        }
    } else {
        None
    }
}

/// The inline span whose match begins exactly at `i`, with its end offset.
/// The patterns' start characters are disjoint, so at most one pattern can
/// match at an offset; they are tried in the fixed pattern order.
pub open spec fn match_at(s: Seq<char>, i: int) -> Option<(int, InlineV)> {
    if double_at(s, i, '*') is Some {
        let m = double_at(s, i, '*')->0;
        Some((m.0, InlineV::Bold(m.1)))
    } else if single_at(s, i, '*') is Some {
        let m = single_at(s, i, '*')->0;
        Some((m.0, InlineV::Italic(m.1)))
    } else if single_at(s, i, '`') is Some {
        let m = single_at(s, i, '`')->0;
        Some((m.0, InlineV::Code(m.1)))
    } else if link_at(s, i) is Some {
        let m = link_at(s, i)->0;
        Some((m.0, InlineV::Link { text: m.1, url: m.2 }))
    } else if double_at(s, i, '~') is Some {
        let m = double_at(s, i, '~')->0;
        Some((m.0, InlineV::Strikethrough(m.1)))
    } else if double_at(s, i, '=') is Some {
        let m = double_at(s, i, '=')->0;
        Some((m.0, InlineV::Highlight(m.1)))
    } else if single_at(s, i, '^') is Some {
        let m = single_at(s, i, '^')->0;
        Some((m.0, InlineV::Superscript(m.1)))
    } else if single_at(s, i, '_') is Some {
        let m = single_at(s, i, '_')->0;
        Some((m.0, InlineV::Subscript(m.1)))
    } else if single_at(s, i, '$') is Some {
        let m = single_at(s, i, '$')->0;
        Some((m.0, InlineV::Math(m.1)))
    } else {
        None
    }
}

/// The walk over match offsets: a match at `i >= cursor` emits the untouched
/// text before it and then itself; one overlapping an emitted match is
/// dropped; trailing text is emitted at the end.
pub open spec fn inline_walk(s: Seq<char>, i: int, cursor: int) -> Seq<InlineV>
    decreases s.len() - i,
{
    if i < 0 || i >= s.len() {
        if 0 <= cursor < s.len() {
            seq![InlineV::Text(s.subrange(cursor, s.len() as int))]
        } else {
            Seq::empty()
        }
    } else {
        match match_at(s, i) {
            Some(m) => {
                if i >= cursor {
                    (if i > cursor {
                        seq![InlineV::Text(s.subrange(cursor, i))]
                    } else {
                        Seq::empty()
                    }) + seq![m.1] + inline_walk(s, i + 1, m.0)
                } else {
                    inline_walk(s, i + 1, cursor)
                }
            },
            None => inline_walk(s, i + 1, cursor),
        }
    }
}

/// The inline elements of a block's content: empty content is one empty
/// text element, otherwise the walk from the start.
pub open spec fn inline_spec(s: Seq<char>) -> Seq<InlineV> {
    if s.len() == 0 {
        seq![InlineV::Text(Seq::<char>::empty())]
    } else {
        inline_walk(s, 0, 0)
    }
}

fn match_at_exec(v: &[char], i: usize) -> (r: Option<(usize, InlineElement)>)
    requires
        i < v@.len(),
    ensures
        match (r, match_at(v@, i as int)) {
            (Some((end, e)), Some(m)) => end as int == m.0 && e@ == m.1 && i < end <= v@.len(),
            (None, None) => true,
            _ => false,
        },
{
    let n = v.len();
    let c = v[i];
    if c == '*' {
        if i + 1 < n && v[i + 1] == '*' {
            let t = scan_to_exec(v, i + 2, '*');
            if t > i + 2 && n - t > 1 && v[t + 1] == '*' {
                return Some((t + 2, InlineElement::Bold(string_of(subvec(v, i + 2, t).as_slice()))));
            }
        }
        let t = scan_to_exec(v, i + 1, '*');
        if t > i + 1 && t < n {
            return Some((t + 1, InlineElement::Italic(string_of(subvec(v, i + 1, t).as_slice()))));
        }
        return None;
    }
    if c == '`' {
        let t = scan_to_exec(v, i + 1, '`');
        if t > i + 1 && t < n {
            return Some((t + 1, InlineElement::Code(string_of(subvec(v, i + 1, t).as_slice()))));
        }
        return None;
    }
    if c == '[' {
        let t = scan_to_exec(v, i + 1, ']');
        if t > i + 1 && n - t > 1 && v[t + 1] == '(' {
            let u = scan_to_exec(v, t + 2, ')');
            if u > t + 2 && u < n {
                return Some(
                    (
                        u + 1,
                        InlineElement::Link {
                            text: string_of(subvec(v, i + 1, t).as_slice()),
                            url: string_of(subvec(v, t + 2, u).as_slice()),
                        },
                    ),
                );
            }
        }
        return None;
    }
    if c == '~' {
        if i + 1 < n && v[i + 1] == '~' {
            let t = scan_to_exec(v, i + 2, '~');
            if t > i + 2 && n - t > 1 && v[t + 1] == '~' {
                return Some(
                    (t + 2, InlineElement::Strikethrough(string_of(subvec(v, i + 2, t).as_slice()))),
                );
            }
        }
        return None;
    }
    if c == '=' {
        if i + 1 < n && v[i + 1] == '=' {
            let t = scan_to_exec(v, i + 2, '=');
            if t > i + 2 && n - t > 1 && v[t + 1] == '=' {
                return Some(
                    (t + 2, InlineElement::Highlight(string_of(subvec(v, i + 2, t).as_slice()))),
                );
            }
        }
        return None;
    }
    if c == '^' {
        let t = scan_to_exec(v, i + 1, '^');
        if t > i + 1 && t < n {
            return Some(
                (t + 1, InlineElement::Superscript(string_of(subvec(v, i + 1, t).as_slice()))),
            );
        }
        return None;
    }
    if c == '_' {
        let t = scan_to_exec(v, i + 1, '_');
        if t > i + 1 && t < n {
            return Some(
                (t + 1, InlineElement::Subscript(string_of(subvec(v, i + 1, t).as_slice()))),
            );
        }
        return None;
    }
    if c == '$' {
        let t = scan_to_exec(v, i + 1, '$');
        if t > i + 1 && t < n {
            return Some((t + 1, InlineElement::Math(string_of(subvec(v, i + 1, t).as_slice()))));
        }
        return None;
    }
    None
}

/// The inline elements of `content`, in walk order.
pub fn tokenize_inline(content: &str) -> (r: Vec<InlineElement>)
    ensures
        inlines_view(r@) == inline_spec(content@),
{
    let cv = chars_of(content);
    let v = cv.as_slice();
    let ghost s = cv@;
    let mut out: Vec<InlineElement> = Vec::new();
    if v.len() == 0 {
        out.push(InlineElement::Text(String::new()));
        proof {
            assert(inlines_view(out@) =~= inline_spec(content@));
        }
        return out;
    }
    let ghost whole = inline_walk(s, 0, 0);
    let mut i: usize = 0;
    let mut cursor: usize = 0;
    proof {
        assert(inlines_view(out@) + inline_walk(s, 0, 0) =~= whole);
    }
    while i < v.len()
        invariant
            s == cv@,
            v@ == cv@,
            i <= s.len(),
            cursor <= s.len(),
            whole == inline_walk(s, 0, 0),
            whole == inlines_view(out@) + inline_walk(s, i as int, cursor as int),
        decreases v@.len() - i,
    {
        let m = match_at_exec(v, i);
        match m {
            Some((end, e)) => {
                if i >= cursor {
                    let ghost before = inlines_view(out@);
                    let ghost mv = match_at(s, i as int)->0;
                    if i > cursor {
                        let txt = InlineElement::Text(string_of(subvec(v, cursor, i).as_slice()));
                        out.push(txt);
                    }
                    out.push(e);
                    proof {
                        if i > cursor {
                            assert(inlines_view(out@) =~= before + seq![
                                InlineV::Text(s.subrange(cursor as int, i as int)),
                            ] + seq![mv.1]);
                        } else {
                            assert(inlines_view(out@) =~= before + seq![mv.1]);
                        }
                        assert(whole =~= inlines_view(out@) + inline_walk(
                            s,
                            i as int + 1,
                            end as int,
                        ));
                    }
                    cursor = end;
                    i = i + 1;
                } else {
                    proof {
                        assert(inline_walk(s, i as int, cursor as int) == inline_walk(
                            s,
                            i as int + 1,
                            cursor as int,
                        ));
                    }
                    i = i + 1;
                }
            },
            None => {
                proof {
                    assert(inline_walk(s, i as int, cursor as int) == inline_walk(
                        s,
                        i as int + 1,
                        cursor as int,
                    ));
                }
                i = i + 1;
            },
        }
    }
    if cursor < v.len() {
        let ghost before = inlines_view(out@);
        out.push(InlineElement::Text(string_of(subvec(v, cursor, v.len()).as_slice())));
        proof {
            assert(inlines_view(out@) =~= before + seq![
                InlineV::Text(s.subrange(cursor as int, s.len() as int)),
            ]);
            assert(inlines_view(out@) =~= whole);
        }
    } else {
        proof {
            assert(inline_walk(s, i as int, cursor as int) =~= Seq::<InlineV>::empty());
            assert(inlines_view(out@) =~= whole);
        }
    }
    proof {
        assert(inline_spec(content@) == whole);
    }
    out
}

impl Block {
    /// Derive the inline elements from this block's content.
    pub fn parse_inline_elements(&mut self) -> (r: ParseResult<()>)
        ensures
            r is Ok,
            final (self)@ == (BlockV {
                inline_elements: inline_spec(old(self)@.content),
                ..old(self)@
            }),
    {
        let elems = tokenize_inline(self.content.as_str());
        self.inline_elements = elems;
        proof {
            assert(self@ =~= (BlockV {
                inline_elements: inline_spec(old(self)@.content),
                ..old(self)@
            }));
        }
        Ok(())
    }
}

} // verus!
