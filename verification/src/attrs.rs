//! The attribute grammar: the trailing text of a block header becomes an
//! ordered attribute list.
//!
//! `key=value` tokens are collected first, in match order; the matched spans
//! are then removed and what remains is scanned for positional tokens, which
//! are keyed by block type and position and appended after the keyed ones.

use vstd::prelude::*;
use crate::ast::{Attribute, attr_view, attrs_view};
use crate::model::{AttrV, positional_key_spec, token_is_heading};
use crate::text::{
    is_wspace, word_end, nonws_end, bare_end, ws_end, scan_to, trim_spec, lemma_word_end_bounds,
    lemma_nonws_end_bounds, lemma_bare_end_bounds, lemma_ws_end_bounds, lemma_scan_to_bounds,
    word_end_exec, nonws_end_exec, bare_end_exec, ws_end_exec, scan_to_exec, subvec, string_of,
    trim_of, push_all, eq_str,
};

verus! {

// ---------------------------------------------------------------------------
// Keyed attributes: `key=value`
// ---------------------------------------------------------------------------

/// The `key=value` token beginning exactly at `q`, if any: a non-empty word
/// run, `=`, then a double-quoted, single-quoted or bare non-whitespace
/// value.  An unterminated quote falls back to a bare value, as the
/// non-whitespace run starting at the quote.  Yields the end of the token
/// and the attribute.
pub open spec fn keyed_at(s: Seq<char>, q: int) -> Option<(int, AttrV)> {
    let w = word_end(s, q);
    if w == q || w >= s.len() || s[w] != '=' {
        None
    } else {
        let v = w + 1;
        let key = s.subrange(q, w);
        if v < s.len() && s[v] == '"' && scan_to(s, v + 1, '"') < s.len() {
            let c = scan_to(s, v + 1, '"');
            Some((c + 1, AttrV { key, value: s.subrange(v + 1, c) }))
        } else if v < s.len() && s[v] == '\'' && scan_to(s, v + 1, '\'') < s.len() {
            let c = scan_to(s, v + 1, '\'');
            Some((c + 1, AttrV { key, value: s.subrange(v + 1, c) }))
        } else {
            let b = nonws_end(s, v);
            if b > v {
                Some((b, AttrV { key, value: s.subrange(v, b) }))
            } else {
                None
            }
        }
    }
}

pub proof fn lemma_keyed_at_bounds(s: Seq<char>, q: int)
    requires
        0 <= q <= s.len(),
    ensures
        keyed_at(s, q) is Some ==> q < (keyed_at(s, q)->0).0 <= s.len(),
{
    lemma_word_end_bounds(s, q);
    let w = word_end(s, q);
    if !(w == q || w >= s.len() || s[w] != '=') {
        if w + 1 < s.len() {
            lemma_scan_to_bounds(s, w + 2, '"');
            lemma_scan_to_bounds(s, w + 2, '\'');
        }
        lemma_nonws_end_bounds(s, w + 1);
    }
}

/// All `key=value` tokens from position `p` on: the scan takes the leftmost
/// token, then continues after it; positions where no token starts are
/// skipped.  Yields `(start, end, attribute)` triples in order.
pub open spec fn keyed_scan(s: Seq<char>, p: int) -> Seq<(int, int, AttrV)>
    decreases s.len() - p,
    via keyed_scan_dec
{
    if p < 0 || p >= s.len() {
        Seq::empty()
    } else {
        match keyed_at(s, p) {
            Some(m) => seq![(p, m.0, m.1)] + keyed_scan(s, m.0),
            None => keyed_scan(s, p + 1),
        }
    }
}

#[via_fn]
proof fn keyed_scan_dec(s: Seq<char>, p: int) {
    if 0 <= p < s.len() {
        lemma_keyed_at_bounds(s, p);
    }
}

/// The spans of `keyed_scan` are in order, disjoint and inside `s`.
pub proof fn lemma_keyed_scan_wf(s: Seq<char>, p: int)
    requires
        0 <= p <= s.len(),
    ensures
        forall|i: int|
            0 <= i < keyed_scan(s, p).len() ==> p <= (#[trigger] keyed_scan(s, p)[i]).0 < keyed_scan(
                s,
                p,
            )[i].1 <= s.len(),
        forall|i: int|
            0 <= i && i + 1 < keyed_scan(s, p).len() ==> (#[trigger] keyed_scan(s, p)[i]).1
                <= keyed_scan(s, p)[i + 1].0,
    decreases s.len() - p,
{
    if p < s.len() {
        lemma_keyed_at_bounds(s, p);
        match keyed_at(s, p) {
            Some(m) => {
                lemma_keyed_scan_wf(s, m.0);
                let ms = keyed_scan(s, p);
                let rest = keyed_scan(s, m.0);
                let head = seq![(p, m.0, m.1)];
                assert(ms == head + rest);
                assert(ms.len() == rest.len() + 1);
                assert((head + rest)[0] == (p, m.0, m.1));
                assert forall|i: int| 0 <= i < ms.len() implies p <= (#[trigger] ms[i]).0
                    < ms[i].1 <= s.len() by {
                    if i > 0 {
                        assert((head + rest)[i] == rest[i - 1]);
                        assert(ms[i] == rest[i - 1]);
                    }
                }
                assert forall|i: int| 0 <= i && i + 1 < ms.len() implies (#[trigger] ms[i]).1 <= ms[i
                    + 1].0 by {
                    assert((head + rest)[i + 1] == rest[i]);
                    if i == 0 {
                        assert(ms[1] == rest[0]);
                    } else {
                        assert((head + rest)[i] == rest[i - 1]);
                        assert(ms[i] == rest[i - 1]);
                        assert(ms[i + 1] == rest[i]);
                    }
                }
            },
            None => {
                lemma_keyed_scan_wf(s, p + 1);
                let ms = keyed_scan(s, p);
                let rest = keyed_scan(s, p + 1);
                assert(ms == rest);
                assert forall|i: int| 0 <= i < ms.len() implies p <= (#[trigger] ms[i]).0
                    < ms[i].1 <= s.len() by {
                    assert(ms[i] == rest[i]);
                }
                assert forall|i: int| 0 <= i && i + 1 < ms.len() implies (#[trigger] ms[i]).1
                    <= ms[i + 1].0 by {
                    assert(ms[i] == rest[i]);
                    assert(ms[i + 1] == rest[i + 1]);
                }
            },
        }
    }
}

/// `s` with the given spans removed: the concatenation of the gaps from `p`
/// between and after the spans.
pub open spec fn strip_spans(s: Seq<char>, ms: Seq<(int, int, AttrV)>, p: int) -> Seq<char>
    decreases ms.len(),
{
    if ms.len() == 0 {
        s.subrange(p, s.len() as int)
    } else {
        s.subrange(p, ms[0].0) + strip_spans(s, ms.drop_first(), ms[0].1)
    }
}

/// The `key=value` token beginning exactly at `q`, executable form.
fn keyed_at_exec(v: &[char], q: usize) -> (r: Option<(usize, Attribute)>)
    requires
        q <= v@.len(),
    ensures
        match (r, keyed_at(v@, q as int)) {
            (Some((end, a)), Some(m)) => end as int == m.0 && a@ == m.1 && q < end <= v@.len(),
            (None, None) => true,
            _ => false,
        },
{
    proof {
        lemma_keyed_at_bounds(v@, q as int);
        lemma_word_end_bounds(v@, q as int);
    }
    let w = word_end_exec(v, q);
    if w == q || w >= v.len() || v[w] != '=' {
        return None;
    }
    let key = string_of(subvec(v, q, w).as_slice());
    let vs = w + 1;
    if vs < v.len() && v[vs] == '"' {
        let c = scan_to_exec(v, vs + 1, '"');
        if c < v.len() {
            let value = string_of(subvec(v, vs + 1, c).as_slice());
            return Some((c + 1, Attribute { key, value }));
        }
    }
    if vs < v.len() && v[vs] == '\'' {
        let c = scan_to_exec(v, vs + 1, '\'');
        if c < v.len() {
            let value = string_of(subvec(v, vs + 1, c).as_slice());
            return Some((c + 1, Attribute { key, value }));
        }
    }
    proof {
        lemma_nonws_end_bounds(v@, vs as int);
    }
    let b = nonws_end_exec(v, vs);
    if b > vs {
        let value = string_of(subvec(v, vs, b).as_slice());
        Some((b, Attribute { key, value }))
    } else {
        None
    }
}

// ---------------------------------------------------------------------------
// Positional attributes
// ---------------------------------------------------------------------------

/// The positional value beginning exactly at `v`: a double-quoted string, a
/// single-quoted string, or a non-empty bare run without whitespace, quotes
/// or `=`.  An unterminated quote matches nothing.
pub open spec fn pos_value_at(s: Seq<char>, v: int) -> Option<(int, Seq<char>)> {
    if v < s.len() && s[v] == '"' {
        let c = scan_to(s, v + 1, '"');
        if c < s.len() {
            Some((c + 1, s.subrange(v + 1, c)))
        } else {
            None
        }
    } else if v < s.len() && s[v] == '\'' {
        let c = scan_to(s, v + 1, '\'');
        if c < s.len() {
            Some((c + 1, s.subrange(v + 1, c)))
        } else {
            None
        }
    } else {
        let b = bare_end(s, v);
        if b > v {
            Some((b, s.subrange(v, b)))
        } else {
            None
        }
    }
}

pub proof fn lemma_pos_value_bounds(s: Seq<char>, v: int)
    requires
        0 <= v <= s.len(),
    ensures
        pos_value_at(s, v) is Some ==> v < (pos_value_at(s, v)->0).0 <= s.len(),
{
    if v < s.len() {
        lemma_scan_to_bounds(s, v + 1, '"');
        lemma_scan_to_bounds(s, v + 1, '\'');
    }
    lemma_bare_end_bounds(s, v);
}

/// The positional token whose whole match begins exactly at `q`: at the
/// start of the text a value may stand directly, anywhere a value follows a
/// run of at least one whitespace character.
pub open spec fn pos_at(s: Seq<char>, q: int) -> Option<(int, Seq<char>)> {
    if q == 0 {
        match pos_value_at(s, 0) {
            Some(m) => Some(m),
            None => {
                let e = ws_end(s, 0);
                if e > 0 {
                    pos_value_at(s, e)
                } else {
                    None
                }
            },
        }
    } else {
        if q < s.len() && is_wspace(s[q]) {
            pos_value_at(s, ws_end(s, q))
        } else {
            None
        }
    }
}

pub proof fn lemma_pos_at_bounds(s: Seq<char>, q: int)
    requires
        0 <= q <= s.len(),
    ensures
        pos_at(s, q) is Some ==> q < (pos_at(s, q)->0).0 <= s.len(),
{
    lemma_pos_value_bounds(s, q);
    lemma_ws_end_bounds(s, q);
    if q == 0 {
        lemma_ws_end_bounds(s, 0);
        lemma_pos_value_bounds(s, ws_end(s, 0));
    } else if q < s.len() && is_wspace(s[q]) {
        lemma_pos_value_bounds(s, ws_end(s, q));
    }
}

/// All positional values from position `p` on, leftmost first,
/// non-overlapping.
pub open spec fn pos_scan(s: Seq<char>, p: int) -> Seq<Seq<char>>
    decreases s.len() - p,
    via pos_scan_dec
{
    if p < 0 || p >= s.len() {
        Seq::empty()
    } else {
        match pos_at(s, p) {
            Some(m) => seq![m.1] + pos_scan(s, m.0),
            None => pos_scan(s, p + 1),
        }
    }
}

#[via_fn]
proof fn pos_scan_dec(s: Seq<char>, p: int) {
    if 0 <= p < s.len() {
        lemma_pos_at_bounds(s, p);
    }
}

fn pos_value_at_exec(v: &[char], p: usize) -> (r: Option<(usize, Vec<char>)>)
    requires
        p <= v@.len(),
    ensures
        match (r, pos_value_at(v@, p as int)) {
            (Some((end, val)), Some(m)) => end as int == m.0 && val@ == m.1 && p < end
                <= v@.len(),
            (None, None) => true,
            _ => false,
        },
{
    proof {
        lemma_pos_value_bounds(v@, p as int);
    }
    if p < v.len() && v[p] == '"' {
        let c = scan_to_exec(v, p + 1, '"');
        if c < v.len() {
            return Some((c + 1, subvec(v, p + 1, c)));
        }
        return None;
    }
    if p < v.len() && v[p] == '\'' {
        let c = scan_to_exec(v, p + 1, '\'');
        if c < v.len() {
            return Some((c + 1, subvec(v, p + 1, c)));
        }
        return None;
    }
    let b = bare_end_exec(v, p);
    if b > p {
        Some((b, subvec(v, p, b)))
    } else {
        None
    }
}

fn pos_at_exec(v: &[char], q: usize) -> (r: Option<(usize, Vec<char>)>)
    requires
        q <= v@.len(),
    ensures
        match (r, pos_at(v@, q as int)) {
            (Some((end, val)), Some(m)) => end as int == m.0 && val@ == m.1 && q < end
                <= v@.len(),
            (None, None) => true,
            _ => false,
        },
{
    proof {
        lemma_pos_at_bounds(v@, q as int);
    }
    if q == 0 {
        let first = pos_value_at_exec(v, 0);
        match first {
            Some(m) => Some(m),
            None => {
                let e = ws_end_exec(v, 0);
                if e > 0 {
                    pos_value_at_exec(v, e)
                } else {
                    None
                }
            },
        }
    } else {
        if q < v.len() && crate::text::is_wspace_exec(v[q]) {
            let e = ws_end_exec(v, q);
            pos_value_at_exec(v, e)
        } else {
            None
        }
    }
}

// ---------------------------------------------------------------------------
// Positional keys
// ---------------------------------------------------------------------------

/// The key assigned to the positional token at `index` under the raw
/// block-type token `t`.
pub fn positional_key_exec(t: &[char], index: usize) -> (r: &'static str)
    ensures
        r@ == positional_key_spec(t@, index as int),
{
    let heading = eq_str(t, "section") || eq_str(t, "h1") || eq_str(t, "h2") || eq_str(t, "h3")
        || eq_str(t, "h4") || eq_str(t, "h5") || eq_str(t, "h6");
    proof {
        assert(heading == token_is_heading(t@));
    }
    if heading && index == 0 {
        "title"
    } else if (eq_str(t, "image") || eq_str(t, "img")) && index == 0 {
        "src"
    } else if (eq_str(t, "image") || eq_str(t, "img")) && index == 1 {
        "alt"
    } else if (eq_str(t, "code") || eq_str(t, "c")) && index == 0 {
        "lang"
    } else if (eq_str(t, "quote") || eq_str(t, "q")) && index == 0 {
        "author"
    } else if (eq_str(t, "table") || eq_str(t, "tbl")) && index == 0 {
        "caption"
    } else {
        "value"
    }
}

// ---------------------------------------------------------------------------
// The attribute list of a header
// ---------------------------------------------------------------------------

/// Collect the keyed attributes and their spans, in match order.
fn keyed_pass(t: &[char]) -> (r: (Vec<Attribute>, Vec<(usize, usize)>))
    ensures
        r.0@.len() == keyed_scan(t@, 0).len(),
        r.1@.len() == keyed_scan(t@, 0).len(),
        forall|i: int|
            0 <= i < keyed_scan(t@, 0).len() ==> attr_view(#[trigger] r.0@[i]) == keyed_scan(
                t@,
                0,
            )[i].2,
        forall|i: int|
            0 <= i < keyed_scan(t@, 0).len() ==> (#[trigger] r.1@[i]).0 == keyed_scan(t@, 0)[i].0
                && r.1@[i].1 == keyed_scan(t@, 0)[i].1,
{
    let ghost s = t@;
    let ghost all = keyed_scan(s, 0);
    let mut attrs: Vec<Attribute> = Vec::new();
    let mut spans: Vec<(usize, usize)> = Vec::new();
    let ghost mut done: Seq<(int, int, AttrV)> = Seq::empty();
    let mut p: usize = 0;
    proof {
        assert(all =~= done + keyed_scan(s, 0));
    }
    while p < t.len()
        invariant
            p <= t@.len(),
            s == t@,
            all == keyed_scan(s, 0),
            all == done + keyed_scan(s, p as int),
            spans@.len() == done.len(),
            attrs@.len() == done.len(),
            forall|i: int|
                0 <= i < done.len() ==> (#[trigger] spans@[i]).0 == done[i].0 && spans@[i].1
                    == done[i].1,
            forall|i: int| 0 <= i < done.len() ==> attr_view(#[trigger] attrs@[i]) == done[i].2,
        decreases t@.len() - p,
    {
        let m = keyed_at_exec(t, p);
        match m {
            Some((end, a)) => {
                proof {
                    let km = keyed_at(s, p as int)->0;
                    assert(keyed_scan(s, p as int) == seq![(p as int, km.0, km.1)] + keyed_scan(
                        s,
                        km.0,
                    ));
                    done = done.push((p as int, end as int, attr_view(a)));
                    assert(all =~= done + keyed_scan(s, end as int));
                }
                spans.push((p, end));
                attrs.push(a);
                p = end;
            },
            None => {
                proof {
                    assert(keyed_scan(s, p as int) == keyed_scan(s, p as int + 1));
                }
                p = p + 1;
            },
        }
    }
    proof {
        assert(keyed_scan(s, p as int) =~= Seq::<(int, int, AttrV)>::empty());
        assert(all =~= done);
    }
    (attrs, spans)
}

/// The text with the keyed spans removed: the concatenation of the gaps.
fn gaps_pass(t: &[char], spans: &Vec<(usize, usize)>) -> (rem: Vec<char>)
    requires
        spans@.len() == keyed_scan(t@, 0).len(),
        forall|i: int|
            0 <= i < keyed_scan(t@, 0).len() ==> (#[trigger] spans@[i]).0 == keyed_scan(t@, 0)[i].0
                && spans@[i].1 == keyed_scan(t@, 0)[i].1,
    ensures
        rem@ == strip_spans(t@, keyed_scan(t@, 0), 0),
{
    let ghost s = t@;
    let ghost all = keyed_scan(s, 0);
    proof {
        lemma_keyed_scan_wf(s, 0);
    }
    let mut rem: Vec<char> = Vec::new();
    let mut last: usize = 0;
    let mut k: usize = 0;
    proof {
        assert(all.subrange(0, all.len() as int) =~= all);
        assert(strip_spans(s, all, 0) =~= rem@ + strip_spans(
            s,
            all.subrange(0, all.len() as int),
            0,
        ));
    }
    while k < spans.len()
        invariant
            k <= spans@.len(),
            s == t@,
            all == keyed_scan(s, 0),
            spans@.len() == all.len(),
            forall|i: int|
                0 <= i < all.len() ==> (#[trigger] spans@[i]).0 == all[i].0 && spans@[i].1
                    == all[i].1,
            forall|i: int| 0 <= i < all.len() ==> 0 <= (#[trigger] all[i]).0 < all[i].1 <= s.len(),
            forall|i: int| 0 <= i && i + 1 < all.len() ==> (#[trigger] all[i]).1 <= all[i + 1].0,
            k == 0 ==> last == 0,
            k > 0 ==> last as int == all[k as int - 1].1,
            last <= s.len(),
            k < all.len() ==> last as int <= all[k as int].0,
            strip_spans(s, all, 0) == rem@ + strip_spans(
                s,
                all.subrange(k as int, all.len() as int),
                last as int,
            ),
        decreases spans@.len() - k,
    {
        let (a, b) = spans[k];
        let gap = subvec(t, last, a);
        proof {
            let sub = all.subrange(k as int, all.len() as int);
            assert(sub[0] == all[k as int]);
            assert(sub.drop_first() =~= all.subrange(k as int + 1, all.len() as int));
            assert(strip_spans(s, sub, last as int) == s.subrange(last as int, a as int)
                + strip_spans(s, sub.drop_first(), b as int));
        }
        push_all(&mut rem, gap.as_slice());
        last = b;
        k = k + 1;
        proof {
            assert(strip_spans(s, all, 0) =~= rem@ + strip_spans(
                s,
                all.subrange(k as int, all.len() as int),
                last as int,
            ));
        }
    }
    let tail = subvec(t, last, t.len());
    push_all(&mut rem, tail.as_slice());
    proof {
        assert(all.subrange(k as int, all.len() as int).len() == 0);
        assert(strip_spans(s, all.subrange(k as int, all.len() as int), last as int) == s.subrange(
            last as int,
            s.len() as int,
        ));
        assert(rem@ =~= strip_spans(s, all, 0));
    }
    rem
}

/// The positional attributes parsed from `rem`, keyed by the block-type
/// token and their position.
fn pos_pass(rem: &[char], token: &[char]) -> (r: Vec<Attribute>)
    ensures
        r@.len() == pos_scan(rem@, 0).len(),
        forall|i: int|
            0 <= i < pos_scan(rem@, 0).len() ==> attr_view(#[trigger] r@[i]) == (AttrV {
                key: positional_key_spec(token@, i),
                value: pos_scan(rem@, 0)[i],
            }),
{
    let ghost rs = rem@;
    let ghost ps = pos_scan(rs, 0);
    let ghost mut vals: Seq<Seq<char>> = Seq::empty();
    let mut out: Vec<Attribute> = Vec::new();
    let mut idx: usize = 0;
    let mut q: usize = 0;
    proof {
        assert(ps =~= vals + pos_scan(rs, 0));
    }
    while q < rem.len()
        invariant
            q <= rem@.len(),
            rs == rem@,
            ps == pos_scan(rs, 0),
            ps == vals + pos_scan(rs, q as int),
            idx == vals.len(),
            idx <= q,
            out@.len() == vals.len(),
            forall|i: int|
                0 <= i < vals.len() ==> attr_view(#[trigger] out@[i]) == (AttrV {
                    key: positional_key_spec(token@, i),
                    value: vals[i],
                }),
        decreases rem@.len() - q,
    {
        let m = pos_at_exec(rem, q);
        match m {
            Some((end, val)) => {
                proof {
                    let pm = pos_at(rs, q as int)->0;
                    assert(pos_scan(rs, q as int) == seq![pm.1] + pos_scan(rs, pm.0));
                }
                let key = positional_key_exec(token, idx);
                out.push(Attribute { key: key.to_owned(), value: string_of(val.as_slice()) });
                proof {
                    vals = vals.push(val@);
                    assert(ps =~= vals + pos_scan(rs, end as int));
                }
                idx = idx + 1;
                q = end;
            },
            None => {
                proof {
                    assert(pos_scan(rs, q as int) == pos_scan(rs, q as int + 1));
                }
                q = q + 1;
            },
        }
    }
    proof {
        assert(pos_scan(rs, q as int) =~= Seq::<Seq<char>>::empty());
        assert(ps =~= vals);
    }
    out
}

/// The ordered attribute list parsed from a header's trailing text `raw`
/// under the raw block-type token `token`: the keyed attributes in match
/// order, then the positional ones.
pub open spec fn parse_attributes_spec(raw: Seq<char>, token: Seq<char>) -> Seq<AttrV> {
    let s = trim_spec(raw);
    let ks = keyed_scan(s, 0);
    let rem = strip_spans(s, ks, 0);
    let ps = pos_scan(rem, 0);
    ks.map_values(|m: (int, int, AttrV)| m.2) + Seq::new(
        ps.len(),
        |i: int| AttrV { key: positional_key_spec(token, i), value: ps[i] },
    )
}

/// Parse a header's trailing text into its ordered attribute list.
pub fn parse_attribute_text(raw: &[char], token: &[char]) -> (r: Vec<Attribute>)
    ensures
        attrs_view(r@) == parse_attributes_spec(raw@, token@),
{
    let t = trim_of(raw);
    let ghost s = t@;
    let (mut attrs, spans) = keyed_pass(t.as_slice());
    let rem = gaps_pass(t.as_slice(), &spans);
    let ghost keyed_len = attrs@.len() as int;
    let pos = pos_pass(rem.as_slice(), token);
    let mut j: usize = 0;
    while j < pos.len()
        invariant
            j <= pos@.len(),
            attrs@.len() == keyed_len + j,
            forall|i: int|
                0 <= i < keyed_len ==> attr_view(#[trigger] attrs@[i]) == keyed_scan(t@, 0)[i].2,
            forall|i: int|
                0 <= i < j ==> attr_view(attrs@[keyed_len + i]) == attr_view(#[trigger] pos@[i]),
            keyed_len == keyed_scan(t@, 0).len(),
            pos@.len() == pos_scan(rem@, 0).len(),
            forall|i: int|
                0 <= i < pos@.len() ==> attr_view(#[trigger] pos@[i]) == (AttrV {
                    key: positional_key_spec(token@, i),
                    value: pos_scan(rem@, 0)[i],
                }),
        decreases pos@.len() - j,
    {
        attrs.push(crate::ast::clone_attr(&pos[j]));
        j = j + 1;
    }
    proof {
        let ks = keyed_scan(s, 0);
        let ps = pos_scan(rem@, 0);
        let want = parse_attributes_spec(raw@, token@);
        let keyedpart = ks.map_values(|m: (int, int, AttrV)| m.2);
        assert(want == keyedpart + Seq::new(
            ps.len(),
            |i: int| AttrV { key: positional_key_spec(token@, i), value: ps[i] },
        ));
        assert(keyedpart.len() == keyed_len);
        assert(want.len() == keyed_len + ps.len());
        assert(attrs_view(attrs@).len() == want.len());
        assert forall|i: int| 0 <= i < want.len() implies attrs_view(attrs@)[i] == want[i] by {
            assert(attrs_view(attrs@)[i] == attr_view(attrs@[i]));
            if i < keyed_len {
                assert(keyedpart[i] == ks[i].2);
                assert(want[i] == keyedpart[i]);
                assert(attr_view(attrs@[i]) == ks[i].2);
            } else {
                assert(want[i] == Seq::new(
                    ps.len(),
                    |j: int| AttrV { key: positional_key_spec(token@, j), value: ps[j] },
                )[i - keyed_len]);
                assert(want[i] == (AttrV {
                    key: positional_key_spec(token@, i - keyed_len),
                    value: ps[i - keyed_len],
                }));
                assert(attr_view(attrs@[i]) == attr_view(pos@[i - keyed_len]));
            }
        }
        assert(attrs_view(attrs@) =~= want);
    }
    attrs
}

} // verus!
