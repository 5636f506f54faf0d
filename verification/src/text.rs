//! Character and string utilities shared by the parser, the encoder and the
//! renderers.
//!
//! Executable code works over `Vec<char>` / `&[char]` slices; every function
//! is specified against a spec-level model over `Seq<char>`.

use vstd::prelude::*;

verus! {

// ---------------------------------------------------------------------------
// Character classes
// ---------------------------------------------------------------------------

/// The Unicode `White_Space` characters, the class `str::trim` strips.
pub open spec fn is_wspace(c: char) -> bool {
    c == ' ' || c == '\t' || c == '\n' || c == '\u{b}' || c == '\u{c}' || c == '\r' || c
        == '\u{85}' || c == '\u{a0}' || c == '\u{1680}' || ('\u{2000}' <= c && c <= '\u{200a}') || c
        == '\u{2028}' || c == '\u{2029}' || c == '\u{202f}' || c == '\u{205f}' || c == '\u{3000}'
}

pub fn is_wspace_exec(c: char) -> (r: bool)
    ensures
        r == is_wspace(c),
{
    c == ' ' || c == '\t' || c == '\n' || c == '\u{b}' || c == '\u{c}' || c == '\r' || c
        == '\u{85}' || c == '\u{a0}' || c == '\u{1680}' || ('\u{2000}' <= c && c <= '\u{200a}') || c
        == '\u{2028}' || c == '\u{2029}' || c == '\u{202f}' || c == '\u{205f}' || c == '\u{3000}'
}

/// ASCII letters, the characters that may begin a block-type token.
pub open spec fn is_letter(c: char) -> bool {
    ('a' <= c && c <= 'z') || ('A' <= c && c <= 'Z')
}

pub fn is_letter_exec(c: char) -> (r: bool)
    ensures
        r == is_letter(c),
{
    ('a' <= c && c <= 'z') || ('A' <= c && c <= 'Z')
}

pub open spec fn is_digit(c: char) -> bool {
    '0' <= c && c <= '9'
}

pub fn is_digit_exec(c: char) -> (r: bool)
    ensures
        r == is_digit(c),
{
    '0' <= c && c <= '9'
}

/// Characters allowed after the first letter of a block-type token.
pub open spec fn is_ident_char(c: char) -> bool {
    is_letter(c) || is_digit(c) || c == '_' || c == '-'
}

pub fn is_ident_char_exec(c: char) -> (r: bool)
    ensures
        r == is_ident_char(c),
{
    is_letter_exec(c) || is_digit_exec(c) || c == '_' || c == '-'
}

/// Characters allowed in an attribute key.
pub open spec fn is_word_char(c: char) -> bool {
    is_letter(c) || is_digit(c) || c == '_'
}

pub fn is_word_char_exec(c: char) -> (r: bool)
    ensures
        r == is_word_char(c),
{
    is_letter_exec(c) || is_digit_exec(c) || c == '_'
}

/// ASCII lower-casing of one character.
pub open spec fn lower_char(c: char) -> char {
    if c == 'A' {
        'a'
    } else if c == 'B' {
        'b'
    } else if c == 'C' {
        'c'
    } else if c == 'D' {
        'd'
    } else if c == 'E' {
        'e'
    } else if c == 'F' {
        'f'
    } else if c == 'G' {
        'g'
    } else if c == 'H' {
        'h'
    } else if c == 'I' {
        'i'
    } else if c == 'J' {
        'j'
    } else if c == 'K' {
        'k'
    } else if c == 'L' {
        'l'
    } else if c == 'M' {
        'm'
    } else if c == 'N' {
        'n'
    } else if c == 'O' {
        'o'
    } else if c == 'P' {
        'p'
    } else if c == 'Q' {
        'q'
    } else if c == 'R' {
        'r'
    } else if c == 'S' {
        's'
    } else if c == 'T' {
        't'
    } else if c == 'U' {
        'u'
    } else if c == 'V' {
        'v'
    } else if c == 'W' {
        'w'
    } else if c == 'X' {
        'x'
    } else if c == 'Y' {
        'y'
    } else if c == 'Z' {
        'z'
    } else {
        c
    }
}

pub fn lower_char_exec(c: char) -> (r: char)
    ensures
        r == lower_char(c),
{
    match c {
        'A' => 'a',
        'B' => 'b',
        'C' => 'c',
        'D' => 'd',
        'E' => 'e',
        'F' => 'f',
        'G' => 'g',
        'H' => 'h',
        'I' => 'i',
        'J' => 'j',
        'K' => 'k',
        'L' => 'l',
        'M' => 'm',
        'N' => 'n',
        'O' => 'o',
        'P' => 'p',
        'Q' => 'q',
        'R' => 'r',
        'S' => 's',
        'T' => 't',
        'U' => 'u',
        'V' => 'v',
        'W' => 'w',
        'X' => 'x',
        'Y' => 'y',
        'Z' => 'z',
        _ => c,
    }
}

/// ASCII lower-casing of a character sequence.
pub open spec fn lower_seq(s: Seq<char>) -> Seq<char> {
    s.map_values(|c: char| lower_char(c))
}

pub fn lower_of(v: &[char]) -> (r: Vec<char>)
    ensures
        r@ == lower_seq(v@),
{
    let mut out: Vec<char> = Vec::new();
    let mut i: usize = 0;
    while i < v.len()
        invariant
            i <= v@.len(),
            out@ == lower_seq(v@.subrange(0, i as int)),
        decreases v@.len() - i,
    {
        out.push(lower_char_exec(v[i]));
        i = i + 1;
        proof {
            assert(out@ =~= lower_seq(v@.subrange(0, i as int)));
        }
    }
    proof {
        assert(v@.subrange(0, v@.len() as int) =~= v@);
    }
    out
}

// ---------------------------------------------------------------------------
// Scanning
// ---------------------------------------------------------------------------

/// First index `j >= i` with `s[j] == c`, or `s.len()` when there is none.
pub open spec fn scan_to(s: Seq<char>, i: int, c: char) -> int
    decreases s.len() - i,
{
    if i < s.len() {
        if s[i] == c {
            i
        } else {
            scan_to(s, i + 1, c)
        }
    } else {
        s.len() as int
    }
}

pub proof fn lemma_scan_to_bounds(s: Seq<char>, i: int, c: char)
    requires
        0 <= i <= s.len(),
    ensures
        i <= scan_to(s, i, c) <= s.len(),
        scan_to(s, i, c) < s.len() ==> s[scan_to(s, i, c)] == c,
        forall|j: int| i <= j < scan_to(s, i, c) ==> s[j] != c,
    decreases s.len() - i,
{
    if i < s.len() && s[i] != c {
        lemma_scan_to_bounds(s, i + 1, c);
    }
}

pub fn scan_to_exec(v: &[char], i: usize, c: char) -> (r: usize)
    requires
        i <= v@.len(),
    ensures
        r == scan_to(v@, i as int, c),
        i <= r <= v@.len(),
{
    let mut j: usize = i;
    while j < v.len() && v[j] != c
        invariant
            i <= j <= v@.len(),
            scan_to(v@, i as int, c) == scan_to(v@, j as int, c),
        decreases v@.len() - j,
    {
        j = j + 1;
    }
    j
}

/// End of the run of `c` characters beginning at `i`.
pub open spec fn run_of(s: Seq<char>, i: int, c: char) -> int
    decreases s.len() - i,
{
    if i < s.len() && s[i] == c {
        run_of(s, i + 1, c)
    } else {
        i
    }
}

pub proof fn lemma_run_of_bounds(s: Seq<char>, i: int, c: char)
    requires
        0 <= i <= s.len(),
    ensures
        i <= run_of(s, i, c) <= s.len(),
        forall|j: int| i <= j < run_of(s, i, c) ==> s[j] == c,
        run_of(s, i, c) < s.len() ==> s[run_of(s, i, c)] != c,
    decreases s.len() - i,
{
    if i < s.len() && s[i] == c {
        lemma_run_of_bounds(s, i + 1, c);
    }
}

pub fn run_of_exec(v: &[char], i: usize, c: char) -> (r: usize)
    requires
        i <= v@.len(),
    ensures
        r == run_of(v@, i as int, c),
        i <= r <= v@.len(),
{
    let mut j: usize = i;
    while j < v.len() && v[j] == c
        invariant
            i <= j <= v@.len(),
            run_of(v@, i as int, c) == run_of(v@, j as int, c),
        decreases v@.len() - j,
    {
        j = j + 1;
    }
    j
}

/// End of the whitespace run beginning at `i`.
pub open spec fn ws_end(s: Seq<char>, i: int) -> int
    decreases s.len() - i,
{
    if i < s.len() && is_wspace(s[i]) {
        ws_end(s, i + 1)
    } else {
        i
    }
}

pub proof fn lemma_ws_end_bounds(s: Seq<char>, i: int)
    requires
        0 <= i <= s.len(),
    ensures
        i <= ws_end(s, i) <= s.len(),
        forall|j: int| i <= j < ws_end(s, i) ==> is_wspace(s[j]),
        ws_end(s, i) < s.len() ==> !is_wspace(s[ws_end(s, i)]),
    decreases s.len() - i,
{
    if i < s.len() && is_wspace(s[i]) {
        lemma_ws_end_bounds(s, i + 1);
    }
}

pub fn ws_end_exec(v: &[char], i: usize) -> (r: usize)
    requires
        i <= v@.len(),
    ensures
        r == ws_end(v@, i as int),
        i <= r <= v@.len(),
{
    let mut j: usize = i;
    loop
        invariant
            i <= j <= v@.len(),
            ws_end(v@, i as int) == ws_end(v@, j as int),
        decreases v@.len() - j,
    {
        if j < v.len() && is_wspace_exec(v[j]) {
            j = j + 1;
        } else {
            return j;
        }
    }
}

/// End of the non-whitespace run beginning at `i`.
pub open spec fn nonws_end(s: Seq<char>, i: int) -> int
    decreases s.len() - i,
{
    if i < s.len() && !is_wspace(s[i]) {
        nonws_end(s, i + 1)
    } else {
        i
    }
}

pub fn nonws_end_exec(v: &[char], i: usize) -> (r: usize)
    requires
        i <= v@.len(),
    ensures
        r == nonws_end(v@, i as int),
        i <= r <= v@.len(),
{
    let mut j: usize = i;
    loop
        invariant
            i <= j <= v@.len(),
            nonws_end(v@, i as int) == nonws_end(v@, j as int),
        decreases v@.len() - j,
    {
        if j < v.len() && !is_wspace_exec(v[j]) {
            j = j + 1;
        } else {
            return j;
        }
    }
}

/// End of the identifier run beginning at `i`.
pub open spec fn ident_end(s: Seq<char>, i: int) -> int
    decreases s.len() - i,
{
    if i < s.len() && is_ident_char(s[i]) {
        ident_end(s, i + 1)
    } else {
        i
    }
}

pub fn ident_end_exec(v: &[char], i: usize) -> (r: usize)
    requires
        i <= v@.len(),
    ensures
        r == ident_end(v@, i as int),
        i <= r <= v@.len(),
{
    let mut j: usize = i;
    loop
        invariant
            i <= j <= v@.len(),
            ident_end(v@, i as int) == ident_end(v@, j as int),
        decreases v@.len() - j,
    {
        if j < v.len() && is_ident_char_exec(v[j]) {
            j = j + 1;
        } else {
            return j;
        }
    }
}

/// End of the attribute-key run beginning at `i`.
pub open spec fn word_end(s: Seq<char>, i: int) -> int
    decreases s.len() - i,
{
    if i < s.len() && is_word_char(s[i]) {
        word_end(s, i + 1)
    } else {
        i
    }
}

pub fn word_end_exec(v: &[char], i: usize) -> (r: usize)
    requires
        i <= v@.len(),
    ensures
        r == word_end(v@, i as int),
        i <= r <= v@.len(),
{
    let mut j: usize = i;
    loop
        invariant
            i <= j <= v@.len(),
            word_end(v@, i as int) == word_end(v@, j as int),
        decreases v@.len() - j,
    {
        if j < v.len() && is_word_char_exec(v[j]) {
            j = j + 1;
        } else {
            return j;
        }
    }
}

pub proof fn lemma_nonws_end_bounds(s: Seq<char>, i: int)
    requires
        0 <= i <= s.len(),
    ensures
        i <= nonws_end(s, i) <= s.len(),
        forall|j: int| i <= j < nonws_end(s, i) ==> !is_wspace(s[j]),
        nonws_end(s, i) < s.len() ==> is_wspace(s[nonws_end(s, i)]),
    decreases s.len() - i,
{
    if i < s.len() && !is_wspace(s[i]) {
        lemma_nonws_end_bounds(s, i + 1);
    }
}

pub proof fn lemma_ident_end_bounds(s: Seq<char>, i: int)
    requires
        0 <= i <= s.len(),
    ensures
        i <= ident_end(s, i) <= s.len(),
        forall|j: int| i <= j < ident_end(s, i) ==> is_ident_char(s[j]),
        ident_end(s, i) < s.len() ==> !is_ident_char(s[ident_end(s, i)]),
    decreases s.len() - i,
{
    if i < s.len() && is_ident_char(s[i]) {
        lemma_ident_end_bounds(s, i + 1);
    }
}

pub proof fn lemma_word_end_bounds(s: Seq<char>, i: int)
    requires
        0 <= i <= s.len(),
    ensures
        i <= word_end(s, i) <= s.len(),
        forall|j: int| i <= j < word_end(s, i) ==> is_word_char(s[j]),
        word_end(s, i) < s.len() ==> !is_word_char(s[word_end(s, i)]),
    decreases s.len() - i,
{
    if i < s.len() && is_word_char(s[i]) {
        lemma_word_end_bounds(s, i + 1);
    }
}

/// A bare positional-attribute character: anything but whitespace, quotes
/// and `=`.
pub open spec fn is_bare_char(c: char) -> bool {
    !is_wspace(c) && c != '"' && c != '\'' && c != '='
}

pub fn is_bare_char_exec(c: char) -> (r: bool)
    ensures
        r == is_bare_char(c),
{
    !is_wspace_exec(c) && c != '"' && c != '\'' && c != '='
}

/// End of the bare positional-token run beginning at `i`.
pub open spec fn bare_end(s: Seq<char>, i: int) -> int
    decreases s.len() - i,
{
    if i < s.len() && is_bare_char(s[i]) {
        bare_end(s, i + 1)
    } else {
        i
    }
}

pub fn bare_end_exec(v: &[char], i: usize) -> (r: usize)
    requires
        i <= v@.len(),
    ensures
        r == bare_end(v@, i as int),
        i <= r <= v@.len(),
{
    let mut j: usize = i;
    loop
        invariant
            i <= j <= v@.len(),
            bare_end(v@, i as int) == bare_end(v@, j as int),
        decreases v@.len() - j,
    {
        if j < v.len() && is_bare_char_exec(v[j]) {
            j = j + 1;
        } else {
            return j;
        }
    }
}

pub proof fn lemma_bare_end_bounds(s: Seq<char>, i: int)
    requires
        0 <= i <= s.len(),
    ensures
        i <= bare_end(s, i) <= s.len(),
        forall|j: int| i <= j < bare_end(s, i) ==> is_bare_char(s[j]),
        bare_end(s, i) < s.len() ==> !is_bare_char(s[bare_end(s, i)]),
    decreases s.len() - i,
{
    if i < s.len() && is_bare_char(s[i]) {
        lemma_bare_end_bounds(s, i + 1);
    }
}

/// First index `j >= i` where the two-character pattern `ab` begins, or
/// `s.len()` when there is none.
pub open spec fn scan_to2(s: Seq<char>, i: int, a: char, b: char) -> int
    decreases s.len() - i,
{
    if i + 1 < s.len() {
        if s[i] == a && s[i + 1] == b {
            i
        } else {
            scan_to2(s, i + 1, a, b)
        }
    } else {
        s.len() as int
    }
}

pub proof fn lemma_scan_to2_bounds(s: Seq<char>, i: int, a: char, b: char)
    requires
        0 <= i <= s.len(),
    ensures
        i <= scan_to2(s, i, a, b) <= s.len(),
        scan_to2(s, i, a, b) < s.len() ==> scan_to2(s, i, a, b) + 1 < s.len() && s[scan_to2(
            s,
            i,
            a,
            b,
        )] == a && s[scan_to2(s, i, a, b) + 1] == b,
    decreases s.len() - i,
{
    if i + 1 < s.len() && !(s[i] == a && s[i + 1] == b) {
        lemma_scan_to2_bounds(s, i + 1, a, b);
    }
}

pub fn scan_to2_exec(v: &[char], i: usize, a: char, b: char) -> (r: usize)
    requires
        i <= v@.len(),
    ensures
        r == scan_to2(v@, i as int, a, b),
        r <= v@.len(),
{
    let mut j: usize = i;
    loop
        invariant
            i <= j <= v@.len(),
            scan_to2(v@, i as int, a, b) == scan_to2(v@, j as int, a, b),
        decreases v@.len() - j,
    {
        if v.len() > 0 && j < v.len() - 1 {
            if v[j] == a && v[j + 1] == b {
                return j;
            }
            j = j + 1;
        } else {
            return v.len();
        }
    }
}

// ---------------------------------------------------------------------------
// Slicing, trimming, splitting
// ---------------------------------------------------------------------------

pub fn subvec(v: &[char], a: usize, b: usize) -> (r: Vec<char>)
    requires
        a <= b <= v@.len(),
    ensures
        r@ == v@.subrange(a as int, b as int),
{
    let mut out: Vec<char> = Vec::new();
    let mut i: usize = a;
    while i < b
        invariant
            a <= i <= b <= v@.len(),
            out@ == v@.subrange(a as int, i as int),
        decreases b - i,
    {
        out.push(v[i]);
        i = i + 1;
        proof {
            assert(out@ =~= v@.subrange(a as int, i as int));
        }
    }
    out
}

/// Append all characters of `src` to `dst`.
pub fn push_all(dst: &mut Vec<char>, src: &[char])
    ensures
        final (dst)@ == old(dst)@ + src@,
{
    let mut i: usize = 0;
    proof {
        assert(dst@ =~= old(dst)@ + src@.subrange(0, 0));
    }
    while i < src.len()
        invariant
            i <= src@.len(),
            dst@ == old(dst)@ + src@.subrange(0, i as int),
        decreases src@.len() - i,
    {
        dst.push(src[i]);
        i = i + 1;
        proof {
            assert(dst@ =~= old(dst)@ + src@.subrange(0, i as int));
        }
    }
    proof {
        assert(old(dst)@ + src@.subrange(0, src@.len() as int) =~= old(dst)@ + src@);
    }
}

/// `s` with its leading whitespace removed.
pub open spec fn trim_start_spec(s: Seq<char>) -> Seq<char>
    decreases s.len(),
{
    if s.len() > 0 && is_wspace(s[0]) {
        trim_start_spec(s.drop_first())
    } else {
        s
    }
}

/// `s` with its trailing whitespace removed.
pub open spec fn trim_end_spec(s: Seq<char>) -> Seq<char>
    decreases s.len(),
{
    if s.len() > 0 && is_wspace(s.last()) {
        trim_end_spec(s.drop_last())
    } else {
        s
    }
}

/// What `str::trim` returns.
pub open spec fn trim_spec(s: Seq<char>) -> Seq<char> {
    trim_end_spec(trim_start_spec(s))
}

proof fn lemma_trim_start_step(s: Seq<char>, i: int)
    requires
        0 <= i < s.len(),
        is_wspace(s[i]),
        forall|j: int| 0 <= j < i ==> is_wspace(s[j]),
    ensures
        trim_start_spec(s.subrange(i, s.len() as int)) == trim_start_spec(
            s.subrange(i + 1, s.len() as int),
        ),
{
    let t = s.subrange(i, s.len() as int);
    assert(t.len() > 0 && is_wspace(t[0]));
    assert(t.drop_first() =~= s.subrange(i + 1, s.len() as int));
}

proof fn lemma_trim_end_step(s: Seq<char>, a: int, b: int)
    requires
        0 <= a < b <= s.len(),
        is_wspace(s[b - 1]),
    ensures
        trim_end_spec(s.subrange(a, b)) == trim_end_spec(s.subrange(a, b - 1)),
{
    let t = s.subrange(a, b);
    assert(t.len() > 0 && is_wspace(t.last()));
    assert(t.drop_last() =~= s.subrange(a, b - 1));
}

/// The bounds of the trimmed middle of `v`: `trim_spec(v@)` is
/// `v@.subrange(r.0, r.1)`.
pub fn trim_bounds(v: &[char]) -> (r: (usize, usize))
    ensures
        r.0 <= r.1 <= v@.len(),
        trim_spec(v@) == v@.subrange(r.0 as int, r.1 as int),
{
    let n = v.len();
    let mut a: usize = 0;
    proof {
        assert(v@.subrange(0, n as int) =~= v@);
    }
    while a < n && is_wspace_exec(v[a])
        invariant
            a <= n == v@.len(),
            forall|j: int| 0 <= j < a ==> is_wspace(v@[j]),
            trim_start_spec(v@) == trim_start_spec(v@.subrange(a as int, n as int)),
        decreases n - a,
    {
        proof {
            lemma_trim_start_step(v@, a as int);
        }
        a = a + 1;
    }
    let ghost mid = v@.subrange(a as int, n as int);
    proof {
        assert(trim_start_spec(mid) == mid);
    }
    let mut b: usize = n;
    while b > a && is_wspace_exec(v[b - 1])
        invariant
            a <= b <= n == v@.len(),
            trim_end_spec(mid) == trim_end_spec(v@.subrange(a as int, b as int)),
        decreases b,
    {
        proof {
            lemma_trim_end_step(v@, a as int, b as int);
        }
        b = b - 1;
    }
    proof {
        let fin = v@.subrange(a as int, b as int);
        assert(trim_end_spec(fin) == fin);
        assert(trim_spec(v@) == v@.subrange(a as int, b as int));
    }
    (a, b)
}

/// The trimmed copy of `v`.
pub fn trim_of(v: &[char]) -> (r: Vec<char>)
    ensures
        r@ == trim_spec(v@),
{
    let (a, b) = trim_bounds(v);
    subvec(v, a, b)
}

/// One line with a single trailing carriage return removed.
pub open spec fn strip_cr(l: Seq<char>) -> Seq<char> {
    if l.len() > 0 && l.last() == '\r' {
        l.drop_last()
    } else {
        l
    }
}

/// What `str::lines` yields: segments split on `'\n'`, each with one
/// trailing `'\r'` removed, without a final empty segment.
pub open spec fn lines_spec(s: Seq<char>) -> Seq<Seq<char>>
    decreases s.len(),
    via lines_spec_dec
{
    if s.len() == 0 {
        Seq::empty()
    } else {
        let t = scan_to(s, 0, '\n');
        if t >= s.len() {
            seq![s]
        } else {
            seq![strip_cr(s.subrange(0, t))] + lines_spec(s.subrange(t + 1, s.len() as int))
        }
    }
}

#[via_fn]
proof fn lines_spec_dec(s: Seq<char>) {
    if s.len() > 0 {
        lemma_scan_to_bounds(s, 0, '\n');
    }
}

/// The views of a sequence of character vectors.
pub open spec fn seqs_of(vs: Seq<Vec<char>>) -> Seq<Seq<char>> {
    vs.map_values(|v: Vec<char>| v@)
}

proof fn lemma_lines_unfold(s: Seq<char>, p: int, t: int)
    requires
        0 <= p <= t < s.len(),
        s[t] == '\n',
        forall|j: int| p <= j < t ==> s[j] != '\n',
    ensures
        lines_spec(s.subrange(p, s.len() as int)) == seq![
            strip_cr(s.subrange(p, t)),
        ] + lines_spec(s.subrange(t + 1, s.len() as int)),
{
    let rest = s.subrange(p, s.len() as int);
    assert(rest.len() > 0);
    lemma_scan_to_char(rest, 0, t - p, '\n');
    assert(scan_to(rest, 0, '\n') == t - p);
    assert(rest.subrange(0, t - p) =~= s.subrange(p, t));
    assert(rest.subrange(t - p + 1, rest.len() as int) =~= s.subrange(t + 1, s.len() as int));
}

pub proof fn lemma_scan_to_char(s: Seq<char>, i: int, t: int, c: char)
    requires
        0 <= i <= t < s.len(),
        s[t] == c,
        forall|j: int| i <= j < t ==> s[j] != c,
    ensures
        scan_to(s, i, c) == t,
    decreases t - i,
{
    if i < t {
        lemma_scan_to_char(s, i + 1, t, c);
    }
}

pub proof fn lemma_scan_to_none(s: Seq<char>, i: int, c: char)
    requires
        0 <= i <= s.len(),
        forall|j: int| i <= j < s.len() ==> s[j] != c,
    ensures
        scan_to(s, i, c) == s.len(),
    decreases s.len() - i,
{
    if i < s.len() {
        lemma_scan_to_none(s, i + 1, c);
    }
}

/// Split `v` into lines as `str::lines` does.
pub fn split_lines(v: &[char]) -> (r: Vec<Vec<char>>)
    ensures
        seqs_of(r@) == lines_spec(v@),
{
    let n = v.len();
    let mut out: Vec<Vec<char>> = Vec::new();
    let mut start: usize = 0;
    let mut i: usize = 0;
    proof {
        assert(v@.subrange(0, n as int) =~= v@);
        assert(seqs_of(out@) =~= Seq::<Seq<char>>::empty());
    }
    while i < n
        invariant
            start <= i <= n == v@.len(),
            forall|j: int| start <= j < i ==> v@[j] != '\n',
            lines_spec(v@) == seqs_of(out@) + lines_spec(v@.subrange(start as int, n as int)),
        decreases n - i,
    {
        if v[i] == '\n' {
            let mut line = subvec(v, start, i);
            if line.len() > 0 && line[line.len() - 1] == '\r' {
                line.pop();
            }
            proof {
                assert(line@ =~= strip_cr(v@.subrange(start as int, i as int)));
                lemma_lines_unfold(v@, start as int, i as int);
            }
            let ghost prev = seqs_of(out@);
            out.push(line);
            proof {
                assert(seqs_of(out@) =~= prev.push(line@)) by {
                    assert(forall|k: int|
                        0 <= k < out@.len() ==> seqs_of(out@)[k] == #[trigger] out@[k]@);
                };
            }
            start = i + 1;
        }
        i = i + 1;
    }
    if start < n {
        let line = subvec(v, start, n);
        proof {
            let rest = v@.subrange(start as int, n as int);
            lemma_scan_to_none(rest, 0, '\n');
            assert(lines_spec(rest) == seq![rest]);
        }
        out.push(line);
        proof {
            assert(seqs_of(out@) =~= lines_spec(v@)) by {
                assert(forall|k: int|
                    0 <= k < out@.len() ==> seqs_of(out@)[k] == #[trigger] out@[k]@);
            };
        }
    } else {
        proof {
            assert(v@.subrange(start as int, n as int).len() == 0);
            assert(seqs_of(out@) =~= lines_spec(v@));
        }
    }
    out
}

/// What `str::split` yields for a one-character separator: the segments
/// between occurrences of `sep`, empty segments kept.
pub open spec fn split_on(s: Seq<char>, sep: char) -> Seq<Seq<char>>
    decreases s.len(),
    via split_on_dec
{
    let t = scan_to(s, 0, sep);
    if t >= s.len() {
        seq![s]
    } else {
        seq![s.subrange(0, t)] + split_on(s.subrange(t + 1, s.len() as int), sep)
    }
}

#[via_fn]
proof fn split_on_dec(s: Seq<char>, sep: char) {
    lemma_scan_to_bounds(s, 0, sep);
}

/// Split `v` on the separator character, keeping empty segments.
pub fn split_on_exec(v: &[char], sep: char) -> (r: Vec<Vec<char>>)
    ensures
        seqs_of(r@) == split_on(v@, sep),
{
    let n = v.len();
    let mut out: Vec<Vec<char>> = Vec::new();
    let mut start: usize = 0;
    let mut i: usize = 0;
    proof {
        assert(v@.subrange(0, n as int) =~= v@);
        assert(seqs_of(out@) =~= Seq::<Seq<char>>::empty());
    }
    while i < n
        invariant
            start <= i <= n == v@.len(),
            forall|j: int| start <= j < i ==> v@[j] != sep,
            split_on(v@, sep) == seqs_of(out@) + split_on(v@.subrange(start as int, n as int), sep),
        decreases n - i,
    {
        if v[i] == sep {
            let seg = subvec(v, start, i);
            proof {
                let rest = v@.subrange(start as int, n as int);
                lemma_scan_to_char(rest, 0, i as int - start, sep);
                assert(rest.subrange(0, i as int - start) =~= v@.subrange(start as int, i as int));
                assert(rest.subrange(i as int - start + 1, rest.len() as int) =~= v@.subrange(
                    i as int + 1,
                    n as int,
                ));
            }
            let ghost prev = seqs_of(out@);
            out.push(seg);
            proof {
                assert(seqs_of(out@) =~= prev.push(seg@)) by {
                    assert(forall|k: int|
                        0 <= k < out@.len() ==> seqs_of(out@)[k] == #[trigger] out@[k]@);
                };
            }
            start = i + 1;
        }
        i = i + 1;
    }
    let seg = subvec(v, start, n);
    proof {
        let rest = v@.subrange(start as int, n as int);
        lemma_scan_to_none(rest, 0, sep);
        assert(split_on(rest, sep) == seq![rest]);
    }
    out.push(seg);
    proof {
        assert(seqs_of(out@) =~= split_on(v@, sep)) by {
            assert(forall|k: int| 0 <= k < out@.len() ==> seqs_of(out@)[k] == #[trigger] out@[k]@);
        };
    }
    out
}

// ---------------------------------------------------------------------------
// Strings
// ---------------------------------------------------------------------------

/// Relies on `String::push`: appends exactly the one character.
#[verifier::external_body]
pub fn push_char(s: &mut String, c: char)
    ensures
        final (s)@ == old(s)@.push(c),
{
    s.push(c);
}

/// The characters of `s`, in order.
pub fn chars_of(s: &str) -> (r: Vec<char>)
    ensures
        r@ == s@,
{
    let n = s.unicode_len();
    let mut v: Vec<char> = Vec::new();
    let mut i: usize = 0;
    while i < n
        invariant
            n == s@.len(),
            i <= n,
            v@ == s@.subrange(0, i as int),
        decreases n - i,
    {
        v.push(s.get_char(i));
        i = i + 1;
        proof {
            assert(v@ =~= s@.subrange(0, i as int));
        }
    }
    proof {
        assert(v@ =~= s@);
    }
    v
}

/// The string holding exactly the characters of `v`.
pub fn string_of(v: &[char]) -> (r: String)
    ensures
        r@ == v@,
{
    let mut out = String::new();
    let mut i: usize = 0;
    while i < v.len()
        invariant
            i <= v@.len(),
            out@ == v@.subrange(0, i as int),
        decreases v@.len() - i,
    {
        push_char(&mut out, v[i]);
        i = i + 1;
        proof {
            assert(out@ =~= v@.subrange(0, i as int));
        }
    }
    proof {
        assert(out@ =~= v@);
    }
    out
}

/// Append the characters of `v` to `s`.
pub fn append_chars(s: &mut String, v: &[char])
    ensures
        final (s)@ == old(s)@ + v@,
{
    let t = string_of(v);
    s.append(t.as_str());
}

/// Character-wise equality of two slices.
pub fn eq_chars(a: &[char], b: &[char]) -> (r: bool)
    ensures
        r == (a@ == b@),
{
    if a.len() != b.len() {
        proof {
            assert(a@.len() != b@.len());
        }
        return false;
    }
    let mut i: usize = 0;
    while i < a.len()
        invariant
            i <= a@.len(),
            a@.len() == b@.len(),
            forall|j: int| 0 <= j < i ==> a@[j] == b@[j],
        decreases a@.len() - i,
    {
        if a[i] != b[i] {
            return false;
        }
        i = i + 1;
    }
    proof {
        assert(a@ =~= b@);
    }
    true
}

/// Character-wise equality of a slice and a string.
pub fn eq_str(a: &[char], s: &str) -> (r: bool)
    ensures
        r == (a@ == s@),
{
    let n = s.unicode_len();
    if a.len() != n {
        proof {
            assert(a@.len() != s@.len());
        }
        return false;
    }
    let mut i: usize = 0;
    while i < n
        invariant
            i <= n,
            a@.len() == s@.len() == n,
            forall|j: int| 0 <= j < i ==> a@[j] == s@[j],
        decreases n - i,
    {
        if a[i] != s.get_char(i) {
            return false;
        }
        i = i + 1;
    }
    proof {
        assert(a@ =~= s@);
    }
    true
}

/// Whether `p` is a prefix of `s`.
pub open spec fn has_prefix(s: Seq<char>, p: Seq<char>) -> bool {
    s.len() >= p.len() && s.subrange(0, p.len() as int) == p
}

pub fn has_prefix_str(a: &[char], p: &str) -> (r: bool)
    ensures
        r == has_prefix(a@, p@),
{
    let n = p.unicode_len();
    if a.len() < n {
        return false;
    }
    let mut i: usize = 0;
    while i < n
        invariant
            i <= n == p@.len(),
            a@.len() >= n,
            forall|j: int| 0 <= j < i ==> a@[j] == p@[j],
        decreases n - i,
    {
        if a[i] != p.get_char(i) {
            proof {
                assert(a@.subrange(0, n as int)[i as int] != p@[i as int]);
            }
            return false;
        }
        i = i + 1;
    }
    proof {
        assert(a@.subrange(0, n as int) =~= p@);
    }
    true
}

// ---------------------------------------------------------------------------
// Repetition and decimal formatting
// ---------------------------------------------------------------------------

/// `n` copies of `c`.
pub open spec fn repeat_char(c: char, n: nat) -> Seq<char>
    decreases n,
{
    if n == 0 {
        Seq::empty()
    } else {
        repeat_char(c, (n - 1) as nat).push(c)
    }
}

pub proof fn lemma_repeat_add(c: char, a: nat, b: nat)
    ensures
        repeat_char(c, a + b) == repeat_char(c, a) + repeat_char(c, b),
    decreases b,
{
    if b == 0 {
        assert(repeat_char(c, a + 0) =~= repeat_char(c, a) + repeat_char(c, 0nat));
    } else {
        lemma_repeat_add(c, a, (b - 1) as nat);
        assert(repeat_char(c, a + b) =~= repeat_char(c, a) + repeat_char(c, b));
    }
}

/// Append `n` copies of `c` to `s`.
pub fn push_repeat(s: &mut String, c: char, n: usize)
    ensures
        final (s)@ == old(s)@ + repeat_char(c, n as nat),
{
    let mut i: usize = 0;
    proof {
        assert(old(s)@ + repeat_char(c, 0nat) =~= old(s)@);
    }
    while i < n
        invariant
            i <= n,
            s@ == old(s)@ + repeat_char(c, i as nat),
        decreases n - i,
    {
        push_char(s, c);
        i = i + 1;
    }
}

/// The decimal digit character for `d < 10`.
pub open spec fn digit_char(d: nat) -> char {
    if d == 0 {
        '0'
    } else if d == 1 {
        '1'
    } else if d == 2 {
        '2'
    } else if d == 3 {
        '3'
    } else if d == 4 {
        '4'
    } else if d == 5 {
        '5'
    } else if d == 6 {
        '6'
    } else if d == 7 {
        '7'
    } else if d == 8 {
        '8'
    } else {
        '9'
    }
}

/// The decimal numeral of `n`.
pub open spec fn dec_str(n: nat) -> Seq<char>
    decreases n,
{
    if n < 10 {
        seq![digit_char(n)]
    } else {
        dec_str(n / 10).push(digit_char(n % 10))
    }
}

fn digit_char_exec(d: usize) -> (r: char)
    requires
        d < 10,
    ensures
        r == digit_char(d as nat),
{
    match d {
        0 => '0',
        1 => '1',
        2 => '2',
        3 => '3',
        4 => '4',
        5 => '5',
        6 => '6',
        7 => '7',
        8 => '8',
        _ => '9',
    }
}

/// Append the decimal numeral of `n` to `s`.
pub fn push_usize(s: &mut String, n: usize)
    ensures
        final (s)@ == old(s)@ + dec_str(n as nat),
    decreases n,
{
    if n < 10 {
        push_char(s, digit_char_exec(n));
        proof {
            assert(old(s)@ + dec_str(n as nat) =~= old(s)@.push(digit_char(n as nat)));
        }
    } else {
        push_usize(s, n / 10);
        push_char(s, digit_char_exec(n % 10));
        proof {
            assert(old(s)@ + dec_str(n as nat) =~= (old(s)@ + dec_str((n / 10) as nat)).push(
                digit_char((n % 10) as nat),
            ));
        }
    }
}

/// The decimal numeral of `n` as a string.
pub fn usize_string(n: usize) -> (r: String)
    ensures
        r@ == dec_str(n as nat),
{
    let mut s = String::new();
    push_usize(&mut s, n);
    proof {
        assert(Seq::<char>::empty() + dec_str(n as nat) =~= dec_str(n as nat));
    }
    s
}

} // verus!
