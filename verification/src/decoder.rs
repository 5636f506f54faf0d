//! The decoder: a document tree lowered to HTML, Markdown, JSON or plain
//! text, one render function per target, dispatching on the canonical
//! block kind and recursing into children.

use vstd::prelude::*;
use crate::ast::{Block, BlockType, Document, block_view, blocks_view, lemma_blocks_view_index};
use crate::encoder::next_level;
use crate::error::ParseResult;
use crate::json::{json_of_document, render_json_document};
use crate::model::{AttrV, BlockV, DocV, TypeV, lookup, type_to_str_spec};
use crate::text::{
    chars_of, dec_str, lines_spec, push_char, push_repeat, push_usize, repeat_char, split_lines,
    split_on, split_on_exec, string_of, trim_of, trim_spec,
};

verus! {

// ---------------------------------------------------------------------------
// HTML escaping
// ---------------------------------------------------------------------------

/// One character as HTML text.
pub open spec fn html_esc_char(c: char) -> Seq<char> {
    if c == '&' {
        "&amp;"@
    } else if c == '<' {
        "&lt;"@
    } else if c == '>' {
        "&gt;"@
    } else if c == '"' {
        "&quot;"@
    } else if c == '\'' {
        "&#39;"@
    } else {
        seq![c]
    }
}

/// Text escaped for HTML: the five special characters become entities.
pub open spec fn html_esc(s: Seq<char>) -> Seq<char>
    decreases s.len(),
{
    if s.len() == 0 {
        Seq::empty()
    } else {
        html_esc_char(s[0]) + html_esc(s.drop_first())
    }
}

/// Escape `text` for HTML and append it to `out`.
#[verifier::loop_isolation(false)]
fn push_html_esc(out: &mut String, text: &str)
    ensures
        final (out)@ == old(out)@ + html_esc(text@),
{
    let cv = chars_of(text);
    let v = cv.as_slice();
    let ghost s = cv@;
    let mut i: usize = 0;
    proof {
        assert(s.subrange(0, s.len() as int) =~= s);
        assert(old(out)@ + html_esc(s) =~= out@ + html_esc(s.subrange(0, s.len() as int)));
    }
    while i < v.len()
        invariant
            i <= s.len(),
            old(out)@ + html_esc(s) == out@ + html_esc(s.subrange(i as int, s.len() as int)),
        decreases s.len() - i,
    {
        proof {
            let rest = s.subrange(i as int, s.len() as int);
            assert(rest[0] == s[i as int]);
            assert(rest.drop_first() =~= s.subrange(i as int + 1, s.len() as int));
            reveal_strlit("&amp;");
            reveal_strlit("&lt;");
            reveal_strlit("&gt;");
            reveal_strlit("&quot;");
            reveal_strlit("&#39;");
        }
        let c = v[i];
        if c == '&' {
            out.append("&amp;");
        } else if c == '<' {
            out.append("&lt;");
        } else if c == '>' {
            out.append("&gt;");
        } else if c == '"' {
            out.append("&quot;");
        } else if c == '\'' {
            out.append("&#39;");
        } else {
            push_char(out, c);
        }
        i = i + 1;
        proof {
            assert(old(out)@ + html_esc(s) =~= out@ + html_esc(
                s.subrange(i as int, s.len() as int),
            ));
        }
    }
    proof {
        assert(html_esc(s.subrange(i as int, s.len() as int)).len() == 0);
        assert(final (out)@ =~= old(out)@ + html_esc(text@));
    }
}

// ---------------------------------------------------------------------------
// HTML
// ---------------------------------------------------------------------------

/// The heading rank the HTML renderer writes: fixed for the shorthand
/// aliases, the block's own level clamped to six for `Section`.
pub open spec fn html_heading_rank(t: TypeV, level: nat) -> nat {
    match t {
        TypeV::H1 => 1nat,
        TypeV::H2 => 2nat,
        TypeV::H3 => 3nat,
        TypeV::H4 => 4nat,
        TypeV::H5 => 5nat,
        TypeV::H6 => 6nat,
        _ => if level < 6 {
            level
        } else {
            6nat
        },
    }
}

/// The attribute value under `key`, or empty text.
pub open spec fn attr_or_empty(attrs: Seq<AttrV>, key: Seq<char>) -> Seq<char> {
    match lookup(attrs, key) {
        Some(v) => v,
        None => Seq::empty(),
    }
}

/// The cells of one table line rendered with the given tag.
pub open spec fn html_cells(
    acc: Seq<char>,
    cells: Seq<Seq<char>>,
    i: int,
    ind: Seq<char>,
    open_tag: Seq<char>,
    close_tag: Seq<char>,
) -> Seq<char>
    decreases cells.len() - i,
{
    if i < 0 || i >= cells.len() {
        acc
    } else {
        html_cells(
            acc + ind + open_tag + html_esc(trim_spec(cells[i])) + close_tag + seq!['\n'],
            cells,
            i + 1,
            ind,
            open_tag,
            close_tag,
        )
    }
}

/// The `<li>` lines of a List block: one per content line that is not
/// blank once trimmed.
pub open spec fn html_list_items(acc: Seq<char>, lines: Seq<Seq<char>>, i: int, ind: Seq<char>) -> Seq<
    char,
>
    decreases lines.len() - i,
{
    if i < 0 || i >= lines.len() {
        acc
    } else if trim_spec(lines[i]).len() == 0 {
        html_list_items(acc, lines, i + 1, ind)
    } else {
        html_list_items(
            acc + ind + "  <li>"@ + html_esc(trim_spec(lines[i])) + "</li>\n"@,
            lines,
            i + 1,
            ind,
        )
    }
}

/// The `<tbody>` rows of a Table block: one per line after the first that
/// is not blank once trimmed.
pub open spec fn html_body_rows(acc: Seq<char>, lines: Seq<Seq<char>>, i: int, ind: Seq<char>) -> Seq<
    char,
>
    decreases lines.len() - i,
{
    if i < 0 || i >= lines.len() {
        acc
    } else if trim_spec(lines[i]).len() == 0 {
        html_body_rows(acc, lines, i + 1, ind)
    } else {
        let row = html_cells(
            acc + ind + "    <tr>\n"@,
            split_on(lines[i], '|'),
            0,
            ind,
            "      <td>"@,
            "</td>"@,
        ) + ind + "    </tr>\n"@;
        html_body_rows(row, lines, i + 1, ind)
    }
}

/// A Table block's own HTML: the `<table>` shell, an optional caption,
/// the first content line as the head row, the remaining non-blank lines
/// as body rows.
pub open spec fn html_table_own(acc: Seq<char>, b: BlockV, ind: Seq<char>) -> Seq<char> {
    let t0 = acc + ind + "<table>\n"@;
    let t1 = match lookup(b.attributes, "caption"@) {
        Some(c) => t0 + ind + "  <caption>"@ + html_esc(c) + "</caption>\n"@,
        None => t0,
    };
    let lines = lines_spec(b.content);
    let t2 = if lines.len() > 0 {
        let hd = html_cells(
            t1 + ind + "  <thead>\n"@ + ind + "    <tr>\n"@,
            split_on(lines[0], '|'),
            0,
            ind,
            "      <th>"@,
            "</th>"@,
        ) + ind + "    </tr>\n"@ + ind + "  </thead>\n"@;
        if lines.len() > 1 {
            html_body_rows(hd + ind + "  <tbody>\n"@, lines, 1, ind) + ind + "  </tbody>\n"@
        } else {
            hd
        }
    } else {
        t1
    };
    t2 + ind + "</table>\n"@
}

/// One block rendered to HTML after `acc`, then its children one depth
/// deeper.
pub open spec fn html_block(acc: Seq<char>, b: BlockV, depth: nat) -> Seq<char>
    decreases b, 0nat,
{
    let ind = repeat_char(' ', 2 * depth);
    let own: Seq<char> = match b.block_type {
        TypeV::Section | TypeV::H1 | TypeV::H2 | TypeV::H3 | TypeV::H4 | TypeV::H5 | TypeV::H6 => {
            let n = html_heading_rank(b.block_type, b.level);
            let title = attr_or_empty(b.attributes, "title"@);
            let h = acc + ind + "<h"@ + dec_str(n) + ">"@ + html_esc(title) + "</h"@ + dec_str(n)
                + ">\n"@;
            if b.content.len() > 0 {
                h + ind + "<p>"@ + html_esc(b.content) + "</p>\n"@
            } else {
                h
            }
        },
        TypeV::Paragraph | TypeV::P => acc + ind + "<p>"@ + html_esc(b.content) + "</p>\n"@,
        TypeV::Code | TypeV::C => {
            let lang = attr_or_empty(b.attributes, "lang"@);
            let cls: Seq<char> = if lang.len() == 0 {
                Seq::empty()
            } else {
                " class=\"language-"@ + lang + "\""@
            };
            acc + ind + "<pre><code"@ + cls + ">"@ + html_esc(b.content) + "</code></pre>\n"@
        },
        TypeV::Quote | TypeV::Q => {
            let q = acc + ind + "<blockquote>\n"@ + ind + "  <p>"@ + html_esc(b.content)
                + "</p>\n"@;
            let q2 = match lookup(b.attributes, "author"@) {
                Some(author) => q + ind + "  <cite>"@ + html_esc(author) + "</cite>\n"@,
                None => q,
            };
            q2 + ind + "</blockquote>\n"@
        },
        TypeV::Image | TypeV::Img => {
            let src = attr_or_empty(b.attributes, "src"@);
            let alt = attr_or_empty(b.attributes, "alt"@);
            let a0 = "src=\""@ + html_esc(src) + "\" alt=\""@ + html_esc(alt) + "\""@;
            let a1 = match lookup(b.attributes, "width"@) {
                Some(w) => a0 + " width=\""@ + html_esc(w) + "\""@,
                None => a0,
            };
            let a2 = match lookup(b.attributes, "height"@) {
                Some(h) => a1 + " height=\""@ + html_esc(h) + "\""@,
                None => a1,
            };
            acc + ind + "<img "@ + a2 + " />\n"@
        },
        TypeV::List => {
            html_list_items(acc + ind + "<ul>\n"@, lines_spec(b.content), 0, ind) + ind
                + "</ul>\n"@
        },
        TypeV::Table | TypeV::Tbl => html_table_own(acc, b, ind),
        TypeV::Math | TypeV::M => {
            acc + ind + "<div class=\"math\">\n"@ + ind + "  $$"@ + b.content + "$$\n"@ + ind
                + "</div>\n"@
        },
        _ => {
            let d0 = acc + ind + "<div class=\""@ + type_to_str_spec(b.block_type) + "\">\n"@;
            let d1 = if b.content.len() > 0 {
                d0 + ind + "  "@ + html_esc(b.content) + seq!['\n']
            } else {
                d0
            };
            d1 + ind + "</div>\n"@
        },
    };
    html_blocks(own, b.children, 0, next_level(depth))
}

/// A block sequence rendered to HTML from index `i` on.
pub open spec fn html_blocks(acc: Seq<char>, blocks: Seq<BlockV>, i: int, depth: nat) -> Seq<char>
    decreases blocks, blocks.len() - i,
{
    if i < 0 || i >= blocks.len() {
        acc
    } else {
        html_blocks(html_block(acc, blocks[i], depth), blocks, i + 1, depth)
    }
}

/// A whole document rendered to HTML: the shell, an optional title from
/// metadata, then the blocks.
pub open spec fn html_doc(d: DocV) -> Seq<char> {
    let head0 = "<!DOCTYPE html>\n<html>\n<head>\n<meta charset=\"UTF-8\">\n"@;
    let head1 = match lookup(d.metadata, "title"@) {
        Some(t) => head0 + "<title>"@ + html_esc(t) + "</title>\n"@,
        None => head0,
    };
    html_blocks(head1 + "</head>\n<body>\n"@, d.blocks, 0, 0nat) + "</body>\n</html>"@
}

// ---------------------------------------------------------------------------
// Markdown
// ---------------------------------------------------------------------------

/// The heading rank the Markdown renderer writes: fixed for the shorthand
/// aliases, the block's own level unclamped for `Section`.
pub open spec fn md_heading_rank(t: TypeV, level: nat) -> nat {
    match t {
        TypeV::H1 => 1nat,
        TypeV::H2 => 2nat,
        TypeV::H3 => 3nat,
        TypeV::H4 => 4nat,
        TypeV::H5 => 5nat,
        TypeV::H6 => 6nat,
        _ => level,
    }
}

/// The `> `-prefixed lines of a quote.
pub open spec fn md_quote_lines(acc: Seq<char>, lines: Seq<Seq<char>>, i: int) -> Seq<char>
    decreases lines.len() - i,
{
    if i < 0 || i >= lines.len() {
        acc
    } else {
        md_quote_lines(acc + "> "@ + lines[i] + seq!['\n'], lines, i + 1)
    }
}

/// One block rendered to Markdown after `acc`, then its children.
pub open spec fn md_block(acc: Seq<char>, b: BlockV) -> Seq<char>
    decreases b, 0nat,
{
    let own: Seq<char> = match b.block_type {
        TypeV::Section | TypeV::H1 | TypeV::H2 | TypeV::H3 | TypeV::H4 | TypeV::H5 | TypeV::H6 => {
            let n = md_heading_rank(b.block_type, b.level);
            let title = attr_or_empty(b.attributes, "title"@);
            let h = acc + repeat_char('#', n) + seq![' '] + title + seq!['\n'];
            if b.content.len() > 0 {
                h + seq!['\n'] + b.content + seq!['\n']
            } else {
                h
            }
        },
        TypeV::Paragraph | TypeV::P => acc + b.content + seq!['\n'],
        TypeV::Code | TypeV::C => {
            let lang = attr_or_empty(b.attributes, "lang"@);
            acc + "```"@ + lang + seq!['\n'] + b.content + "\n```\n"@
        },
        TypeV::Quote | TypeV::Q => {
            let q = md_quote_lines(acc, lines_spec(b.content), 0);
            match lookup(b.attributes, "author"@) {
                Some(author) => q + "> \n> \u{2014} "@ + author + seq!['\n'],
                None => q,
            }
        },
        TypeV::Image | TypeV::Img => {
            let src = attr_or_empty(b.attributes, "src"@);
            let alt = attr_or_empty(b.attributes, "alt"@);
            acc + "!["@ + alt + "]("@ + src + ")\n"@
        },
        _ => acc + b.content + seq!['\n'],
    };
    md_blocks(own, b.children, 0)
}

/// A block sequence rendered to Markdown from index `i` on.
pub open spec fn md_blocks(acc: Seq<char>, blocks: Seq<BlockV>, i: int) -> Seq<char>
    decreases blocks, blocks.len() - i,
{
    if i < 0 || i >= blocks.len() {
        acc
    } else {
        md_blocks(md_block(acc, blocks[i]), blocks, i + 1)
    }
}

/// A whole document rendered to Markdown: each root block followed by a
/// blank line.
pub open spec fn md_doc_blocks(acc: Seq<char>, blocks: Seq<BlockV>, i: int) -> Seq<char>
    decreases blocks.len() - i,
{
    if i < 0 || i >= blocks.len() {
        acc
    } else {
        md_doc_blocks(md_block(acc, blocks[i]) + seq!['\n'], blocks, i + 1)
    }
}

pub open spec fn md_doc(d: DocV) -> Seq<char> {
    md_doc_blocks(Seq::empty(), d.blocks, 0)
}

// ---------------------------------------------------------------------------
// Plain text
// ---------------------------------------------------------------------------

/// The content lines of one block, each indented.
pub open spec fn pt_lines(acc: Seq<char>, lines: Seq<Seq<char>>, i: int, ind: Seq<char>) -> Seq<
    char,
>
    decreases lines.len() - i,
{
    if i < 0 || i >= lines.len() {
        acc
    } else {
        pt_lines(acc + ind + lines[i] + seq!['\n'], lines, i + 1, ind)
    }
}

/// One block rendered to plain text after `acc`: its title if it has one,
/// its content lines, then its children one depth deeper.
pub open spec fn pt_block(acc: Seq<char>, b: BlockV, depth: nat) -> Seq<char>
    decreases b, 0nat,
{
    let ind = repeat_char(' ', 2 * depth);
    let t0 = match lookup(b.attributes, "title"@) {
        Some(title) => acc + ind + title + seq!['\n'],
        None => acc,
    };
    let t1 = if b.content.len() > 0 {
        pt_lines(t0, lines_spec(b.content), 0, ind)
    } else {
        t0
    };
    pt_blocks(t1, b.children, 0, next_level(depth))
}

/// A block sequence rendered to plain text from index `i` on.
pub open spec fn pt_blocks(acc: Seq<char>, blocks: Seq<BlockV>, i: int, depth: nat) -> Seq<char>
    decreases blocks, blocks.len() - i,
{
    if i < 0 || i >= blocks.len() {
        acc
    } else {
        pt_blocks(pt_block(acc, blocks[i], depth), blocks, i + 1, depth)
    }
}

/// A whole document rendered to plain text: each root block followed by a
/// blank line.
pub open spec fn pt_doc_blocks(acc: Seq<char>, blocks: Seq<BlockV>, i: int) -> Seq<char>
    decreases blocks.len() - i,
{
    if i < 0 || i >= blocks.len() {
        acc
    } else {
        pt_doc_blocks(pt_block(acc, blocks[i], 0nat) + seq!['\n'], blocks, i + 1)
    }
}

pub open spec fn pt_doc(d: DocV) -> Seq<char> {
    pt_doc_blocks(Seq::empty(), d.blocks, 0)
}

// ---------------------------------------------------------------------------
// The decoder
// ---------------------------------------------------------------------------

#[derive(Debug, Clone, PartialEq, Eq, Structural)]
pub enum OutputFormat {
    Html,
    Markdown,
    Json,
    PlainText,
}

/// What `decode` returns for each target format.
pub open spec fn decode_spec(d: DocV, format: OutputFormat) -> Seq<char> {
    match format {
        OutputFormat::Html => html_doc(d),
        OutputFormat::Markdown => md_doc(d),
        OutputFormat::Json => json_of_document(d),
        OutputFormat::PlainText => pt_doc(d),
    }
}

pub struct BloxDecoder {
    output_format: OutputFormat,
}

impl View for BloxDecoder {
    type V = OutputFormat;

    closed spec fn view(&self) -> OutputFormat {
        self.output_format
    }
}

impl BloxDecoder {
    /// A decoder for the given target format.
    pub fn new(format: OutputFormat) -> (r: BloxDecoder)
        ensures
            r@ == format,
    {
        BloxDecoder { output_format: format }
    }

    /// Render a document to this decoder's target format.
    pub fn decode(&self, document: &Document) -> (r: ParseResult<String>)
        ensures
            match r {
                Ok(s) => s@ == decode_spec(document@, self@),
                Err(_) => false,
            },
    {
        match self.output_format {
            OutputFormat::Html => self.to_html(document),
            OutputFormat::Markdown => self.to_markdown(document),
            OutputFormat::Json => self.to_json(document),
            OutputFormat::PlainText => self.to_plain_text(document),
        }
    }

    #[verifier::loop_isolation(false)]
    fn to_html(&self, document: &Document) -> (r: ParseResult<String>)
        ensures
            match r {
                Ok(s) => s@ == html_doc(document@),
                Err(_) => false,
            },
    {
        let mut output = String::new();
        output.append("<!DOCTYPE html>\n<html>\n<head>\n");
        output.append("<meta charset=\"UTF-8\">\n");
        proof {
            reveal_strlit("<!DOCTYPE html>\n<html>\n<head>\n");
            reveal_strlit("<meta charset=\"UTF-8\">\n");
            reveal_strlit("<!DOCTYPE html>\n<html>\n<head>\n<meta charset=\"UTF-8\">\n");
            assert(output@ =~= "<!DOCTYPE html>\n<html>\n<head>\n<meta charset=\"UTF-8\">\n"@);
        }
        match crate::ast::metadata_get(&document.metadata, "title") {
            Some(title) => {
                output.append("<title>");
                push_html_esc(&mut output, title);
                output.append("</title>\n");
            },
            None => {},
        }
        output.append("</head>\n<body>\n");
        let ghost head = output@;
        let ghost rbv = blocks_view(document.blocks@);
        proof {
            lemma_blocks_view_index(document.blocks@);
            assert(head == ({
                let head0 = "<!DOCTYPE html>\n<html>\n<head>\n<meta charset=\"UTF-8\">\n"@;
                let head1 = match lookup(document@.metadata, "title"@) {
                    Some(t) => head0 + "<title>"@ + html_esc(t) + "</title>\n"@,
                    None => head0,
                };
                head1 + "</head>\n<body>\n"@
            }));
        }
        let mut k: usize = 0;
        while k < document.blocks.len()
            invariant
                k <= document.blocks@.len(),
                html_blocks(head, rbv, 0, 0nat) == html_blocks(output@, rbv, k as int, 0nat),
            decreases document.blocks@.len() - k,
        {
            let r = self.block_to_html(&mut output, &document.blocks[k], 0);
            match r {
                Ok(_) => {},
                Err(_) => vstd::pervasive::unreached(),
            }
            proof {
                assert(rbv[k as int] == block_view(document.blocks@[k as int]));
            }
            k = k + 1;
        }
        output.append("</body>\n</html>");
        proof {
            assert(output@ =~= html_doc(document@));
        }
        Ok(output)
    }

    /// One block and its children as HTML.
    #[verifier::loop_isolation(false)]
    #[verifier::rlimit(100)]
    fn block_to_html(&self, output: &mut String, block: &Block, depth: usize) -> (r: ParseResult<
        (),
    >)
        ensures
            r is Ok,
            final (output)@ == html_block(old(output)@, block@, depth as nat),
        decreases *block,
    {
        let ghost accv = output@;
        let mut indent_full = String::new();
        let mut li: usize = 0;
        proof {
            assert(indent_full@ =~= repeat_char(' ', 2 * 0nat));
        }
        while li < depth
            invariant
                li <= depth,
                indent_full@ == repeat_char(' ', 2 * li as nat),
            decreases depth - li,
        {
            push_repeat(&mut indent_full, ' ', 2);
            proof {
                crate::text::lemma_repeat_add(' ', 2 * li as nat, 2nat);
            }
            li = li + 1;
        }
        let indent = indent_full;
        let ghost ind = indent@;
        let is_heading = match &block.block_type {
            BlockType::Section | BlockType::H1 | BlockType::H2 | BlockType::H3 | BlockType::H4
                | BlockType::H5 | BlockType::H6 => true,
            _ => false,
        };
        if is_heading {
            let rank: usize = match &block.block_type {
                BlockType::H1 => 1,
                BlockType::H2 => 2,
                BlockType::H3 => 3,
                BlockType::H4 => 4,
                BlockType::H5 => 5,
                BlockType::H6 => 6,
                _ => if block.level < 6 {
                    block.level
                } else {
                    6
                },
            };
            output.append(indent.as_str());
            output.append("<h");
            push_usize(output, rank);
            output.append(">");
            match block.get_attribute("title") {
                Some(title) => push_html_esc(output, title),
                None => {},
            }
            output.append("</h");
            push_usize(output, rank);
            output.append(">\n");
            if !block.content.as_str().is_empty() {
                output.append(indent.as_str());
                output.append("<p>");
                push_html_esc(output, block.content.as_str());
                output.append("</p>\n");
            }
            proof {
                assert(rank as nat == html_heading_rank(block@.block_type, block@.level));
                assert(output@ =~= ({
                    let n = html_heading_rank(block@.block_type, block@.level);
                    let title = attr_or_empty(block@.attributes, "title"@);
                    let h = accv + ind + "<h"@ + dec_str(n) + ">"@ + html_esc(title) + "</h"@
                        + dec_str(n) + ">\n"@;
                    if block@.content.len() > 0 {
                        h + ind + "<p>"@ + html_esc(block@.content) + "</p>\n"@
                    } else {
                        h
                    }
                }));
            }
        } else {
            let is_para = match &block.block_type {
                BlockType::Paragraph | BlockType::P => true,
                _ => false,
            };
            let is_code = match &block.block_type {
                BlockType::Code | BlockType::C => true,
                _ => false,
            };
            let is_quote = match &block.block_type {
                BlockType::Quote | BlockType::Q => true,
                _ => false,
            };
            let is_image = match &block.block_type {
                BlockType::Image | BlockType::Img => true,
                _ => false,
            };
            let is_list = match &block.block_type {
                BlockType::List => true,
                _ => false,
            };
            let is_table = match &block.block_type {
                BlockType::Table | BlockType::Tbl => true,
                _ => false,
            };
            let is_math = match &block.block_type {
                BlockType::Math | BlockType::M => true,
                _ => false,
            };
            if is_para {
                output.append(indent.as_str());
                output.append("<p>");
                push_html_esc(output, block.content.as_str());
                output.append("</p>\n");
                proof {
                    assert(output@ =~= accv + ind + "<p>"@ + html_esc(block@.content)
                        + "</p>\n"@);
                }
            } else if is_code {
                output.append(indent.as_str());
                output.append("<pre><code");
                match block.get_attribute("lang") {
                    Some(lang) => {
                        if !lang.is_empty() {
                            output.append(" class=\"language-");
                            output.append(lang);
                            output.append("\"");
                        }
                    },
                    None => {},
                }
                output.append(">");
                push_html_esc(output, block.content.as_str());
                output.append("</code></pre>\n");
                proof {
                    let lang = attr_or_empty(block@.attributes, "lang"@);
                    let cls: Seq<char> = if lang.len() == 0 {
                        Seq::<char>::empty()
                    } else {
                        " class=\"language-"@ + lang + "\""@
                    };
                    assert(output@ =~= accv + ind + "<pre><code"@ + cls + ">"@ + html_esc(
                        block@.content,
                    ) + "</code></pre>\n"@);
                }
            } else if is_quote {
                output.append(indent.as_str());
                output.append("<blockquote>\n");
                output.append(indent.as_str());
                output.append("  <p>");
                push_html_esc(output, block.content.as_str());
                output.append("</p>\n");
                match block.get_attribute("author") {
                    Some(author) => {
                        output.append(indent.as_str());
                        output.append("  <cite>");
                        push_html_esc(output, author);
                        output.append("</cite>\n");
                    },
                    None => {},
                }
                output.append(indent.as_str());
                output.append("</blockquote>\n");
                proof {
                    let q = accv + ind + "<blockquote>\n"@ + ind + "  <p>"@ + html_esc(
                        block@.content,
                    ) + "</p>\n"@;
                    let q2 = match lookup(block@.attributes, "author"@) {
                        Some(author) => q + ind + "  <cite>"@ + html_esc(author) + "</cite>\n"@,
                        None => q,
                    };
                    assert(output@ =~= q2 + ind + "</blockquote>\n"@);
                }
            } else if is_image {
                output.append(indent.as_str());
                output.append("<img ");
                output.append("src=\"");
                match block.get_attribute("src") {
                    Some(src) => push_html_esc(output, src),
                    None => {},
                }
                output.append("\" alt=\"");
                match block.get_attribute("alt") {
                    Some(alt) => push_html_esc(output, alt),
                    None => {},
                }
                output.append("\"");
                match block.get_attribute("width") {
                    Some(w) => {
                        output.append(" width=\"");
                        push_html_esc(output, w);
                        output.append("\"");
                    },
                    None => {},
                }
                match block.get_attribute("height") {
                    Some(h) => {
                        output.append(" height=\"");
                        push_html_esc(output, h);
                        output.append("\"");
                    },
                    None => {},
                }
                output.append(" />\n");
                proof {
                    let src = attr_or_empty(block@.attributes, "src"@);
                    let alt = attr_or_empty(block@.attributes, "alt"@);
                    let a0 = "src=\""@ + html_esc(src) + "\" alt=\""@ + html_esc(alt) + "\""@;
                    let a1 = match lookup(block@.attributes, "width"@) {
                        Some(w) => a0 + " width=\""@ + html_esc(w) + "\""@,
                        None => a0,
                    };
                    let a2 = match lookup(block@.attributes, "height"@) {
                        Some(h) => a1 + " height=\""@ + html_esc(h) + "\""@,
                        None => a1,
                    };
                    assert(output@ =~= accv + ind + "<img "@ + a2 + " />\n"@);
                }
            } else if is_list {
                output.append(indent.as_str());
                output.append("<ul>\n");
                let cv = chars_of(block.content.as_str());
                let lines = split_lines(cv.as_slice());
                let ghost ls = crate::text::seqs_of(lines@);
                let ghost l0 = output@;
                let mut i: usize = 0;
                while i < lines.len()
                    invariant
                        i <= lines@.len(),
                        html_list_items(l0, ls, 0, ind) == html_list_items(
                            output@,
                            ls,
                            i as int,
                            ind,
                        ),
                    decreases lines@.len() - i,
                {
                    let t = trim_of(lines[i].as_slice());
                    proof {
                        assert(ls[i as int] == lines@[i as int]@);
                    }
                    if t.len() > 0 {
                        let ghost before = output@;
                        output.append(indent.as_str());
                        output.append("  <li>");
                        let ts = string_of(t.as_slice());
                        push_html_esc(output, ts.as_str());
                        output.append("</li>\n");
                        proof {
                            assert(output@ =~= before + ind + "  <li>"@ + html_esc(
                                trim_spec(ls[i as int]),
                            ) + "</li>\n"@);
                        }
                    }
                    i = i + 1;
                }
                output.append(indent.as_str());
                output.append("</ul>\n");
                proof {
                    assert(html_list_items(output@.subrange(0, output@.len() as int), ls, i as int, ind)
                        == output@.subrange(0, output@.len() as int));
                    assert(output@ =~= html_list_items(l0, ls, 0, ind) + ind + "</ul>\n"@);
                    assert(output@ =~= html_list_items(
                        accv + ind + "<ul>\n"@,
                        lines_spec(block@.content),
                        0,
                        ind,
                    ) + ind + "</ul>\n"@);
                }
            } else if is_table {
                let r = self.table_to_html(output, block, &indent);
                proof {
                    assert(output@ =~= html_table_own(accv, block@, ind));
                }
            } else if is_math {
                output.append(indent.as_str());
                output.append("<div class=\"math\">\n");
                output.append(indent.as_str());
                output.append("  $$");
                output.append(block.content.as_str());
                output.append("$$\n");
                output.append(indent.as_str());
                output.append("</div>\n");
                proof {
                    assert(output@ =~= accv + ind + "<div class=\"math\">\n"@ + ind + "  $$"@
                        + block@.content + "$$\n"@ + ind + "</div>\n"@);
                }
            } else {
                output.append(indent.as_str());
                output.append("<div class=\"");
                let ts = block.block_type.to_str();
                output.append(ts);
                output.append("\">\n");
                if !block.content.as_str().is_empty() {
                    output.append(indent.as_str());
                    output.append("  ");
                    push_html_esc(output, block.content.as_str());
                    output.append("\n");
                }
                output.append(indent.as_str());
                output.append("</div>\n");
                proof {
                    reveal_strlit("\n");
                    let d0 = accv + ind + "<div class=\""@ + type_to_str_spec(block@.block_type)
                        + "\">\n"@;
                    let d1 = if block@.content.len() > 0 {
                        d0 + ind + "  "@ + html_esc(block@.content) + seq!['\n']
                    } else {
                        d0
                    };
                    assert(output@ =~= d1 + ind + "</div>\n"@);
                }
            }
        }
        let ghost own_done = output@;
        // Children, one depth deeper.
        let child_depth = if depth < usize::MAX {
            depth + 1
        } else {
            depth
        };
        let ghost cbv = blocks_view(block.children@);
        proof {
            lemma_blocks_view_index(block.children@);
        }
        let mut ci: usize = 0;
        while ci < block.children.len()
            invariant
                ci <= block.children@.len(),
                html_blocks(own_done, cbv, 0, child_depth as nat) == html_blocks(
                    output@,
                    cbv,
                    ci as int,
                    child_depth as nat,
                ),
            decreases block.children@.len() - ci,
        {
            let r = self.block_to_html(output, &block.children[ci], child_depth);
            match r {
                Ok(_) => {},
                Err(_) => vstd::pervasive::unreached(),
            }
            proof {
                assert(cbv[ci as int] == block_view(block.children@[ci as int]));
            }
            ci = ci + 1;
        }
        proof {
            assert(html_blocks(output@, cbv, ci as int, child_depth as nat) == output@);
            assert(next_level(depth as nat) == child_depth as nat);
            assert(output@ =~= html_block(accv, block@, depth as nat));
        }
        Ok(())
    }

    /// A Table block's own HTML.
    #[verifier::loop_isolation(false)]
    #[verifier::rlimit(100)]
    fn table_to_html(&self, output: &mut String, block: &Block, indent: &String) -> (r: ParseResult<
        (),
    >)
        ensures
            r is Ok,
            final (output)@ == html_table_own(old(output)@, block@, indent@),
    {
        let ghost ind = indent@;
        output.append(indent.as_str());
        output.append("<table>\n");
        match block.get_attribute("caption") {
            Some(c) => {
                output.append(indent.as_str());
                output.append("  <caption>");
                push_html_esc(output, c);
                output.append("</caption>\n");
            },
            None => {},
        }
        let cv = chars_of(block.content.as_str());
        let lines = split_lines(cv.as_slice());
        let ghost ls = crate::text::seqs_of(lines@);
        let ghost t1 = output@;
        if lines.len() > 0 {
            output.append(indent.as_str());
            output.append("  <thead>\n");
            output.append(indent.as_str());
            output.append("    <tr>\n");
            let cells = split_on_exec(lines[0].as_slice(), '|');
            let ghost cls = crate::text::seqs_of(cells@);
            let ghost h0 = output@;
            let mut c: usize = 0;
            while c < cells.len()
                invariant
                    c <= cells@.len(),
                    html_cells(h0, cls, 0, ind, "      <th>"@, "</th>"@) == html_cells(
                        output@,
                        cls,
                        c as int,
                        ind,
                        "      <th>"@,
                        "</th>"@,
                    ),
                decreases cells@.len() - c,
            {
                let ghost before = output@;
                output.append(indent.as_str());
                output.append("      <th>");
                let tc = trim_of(cells[c].as_slice());
                let tcs = string_of(tc.as_slice());
                push_html_esc(output, tcs.as_str());
                output.append("</th>");
                push_char(output, '\n');
                proof {
                    assert(cls[c as int] == cells@[c as int]@);
                    assert(output@ =~= before + ind + "      <th>"@ + html_esc(
                        trim_spec(cls[c as int]),
                    ) + "</th>"@ + seq!['\n']);
                }
                c = c + 1;
            }
            output.append(indent.as_str());
            output.append("    </tr>\n");
            output.append(indent.as_str());
            output.append("  </thead>\n");
            let ghost hd = output@;
            proof {
                assert(hd =~= html_cells(
                    t1 + ind + "  <thead>\n"@ + ind + "    <tr>\n"@,
                    split_on(ls[0], '|'),
                    0,
                    ind,
                    "      <th>"@,
                    "</th>"@,
                ) + ind + "    </tr>\n"@ + ind + "  </thead>\n"@);
            }
            if lines.len() > 1 {
                output.append(indent.as_str());
                output.append("  <tbody>\n");
                let ghost b0 = output@;
                let mut ri: usize = 1;
                while ri < lines.len()
                    invariant
                        1 <= ri <= lines@.len(),
                        html_body_rows(b0, ls, 1, ind) == html_body_rows(
                            output@,
                            ls,
                            ri as int,
                            ind,
                        ),
                    decreases lines@.len() - ri,
                {
                    let t = trim_of(lines[ri].as_slice());
                    proof {
                        assert(ls[ri as int] == lines@[ri as int]@);
                    }
                    if t.len() > 0 {
                        let ghost before = output@;
                        output.append(indent.as_str());
                        output.append("    <tr>\n");
                        let cells = split_on_exec(lines[ri].as_slice(), '|');
                        let ghost cls2 = crate::text::seqs_of(cells@);
                        let ghost r0 = output@;
                        let mut c: usize = 0;
                        while c < cells.len()
                            invariant
                                c <= cells@.len(),
                                html_cells(r0, cls2, 0, ind, "      <td>"@, "</td>"@)
                                    == html_cells(
                                    output@,
                                    cls2,
                                    c as int,
                                    ind,
                                    "      <td>"@,
                                    "</td>"@,
                                ),
                            decreases cells@.len() - c,
                        {
                            let ghost before2 = output@;
                            output.append(indent.as_str());
                            output.append("      <td>");
                            let tc = trim_of(cells[c].as_slice());
                            let tcs = string_of(tc.as_slice());
                            push_html_esc(output, tcs.as_str());
                            output.append("</td>");
                            push_char(output, '\n');
                            proof {
                                assert(cls2[c as int] == cells@[c as int]@);
                                assert(output@ =~= before2 + ind + "      <td>"@
                                    + html_esc(trim_spec(cls2[c as int])) + "</td>"@
                                    + seq!['\n']);
                            }
                            c = c + 1;
                        }
                        output.append(indent.as_str());
                        output.append("    </tr>\n");
                        proof {
                            assert(output@ =~= html_cells(
                                before + ind + "    <tr>\n"@,
                                split_on(ls[ri as int], '|'),
                                0,
                                ind,
                                "      <td>"@,
                                "</td>"@,
                            ) + ind + "    </tr>\n"@);
                        }
                    }
                    ri = ri + 1;
                }
                output.append(indent.as_str());
                output.append("  </tbody>\n");
                proof {
                    assert(output@ =~= html_body_rows(
                        hd + ind + "  <tbody>\n"@,
                        ls,
                        1,
                        ind,
                    ) + ind + "  </tbody>\n"@);
                }
            }
        }
        output.append(indent.as_str());
        output.append("</table>\n");
        proof {
            let t1s = ({
                let t0 = old(output)@ + ind + "<table>\n"@;
                match lookup(block@.attributes, "caption"@) {
                    Some(cp) => t0 + ind + "  <caption>"@ + html_esc(cp)
                        + "</caption>\n"@,
                    None => t0,
                }
            });
            assert(t1 == t1s);
            assert(output@ =~= ({
                let lines = lines_spec(block@.content);
                let t2 = if lines.len() > 0 {
                    let hd2 = html_cells(
                        t1s + ind + "  <thead>\n"@ + ind + "    <tr>\n"@,
                        split_on(lines[0], '|'),
                        0,
                        ind,
                        "      <th>"@,
                        "</th>"@,
                    ) + ind + "    </tr>\n"@ + ind + "  </thead>\n"@;
                    if lines.len() > 1 {
                        html_body_rows(hd2 + ind + "  <tbody>\n"@, lines, 1, ind) + ind
                            + "  </tbody>\n"@
                    } else {
                        hd2
                    }
                } else {
                    t1s
                };
                t2 + ind + "</table>\n"@
            }));
        }
        proof {
            assert(output@ =~= html_table_own(old(output)@, block@, ind));
        }
        Ok(())
    }

    #[verifier::loop_isolation(false)]
    fn to_markdown(&self, document: &Document) -> (r: ParseResult<String>)
        ensures
            match r {
                Ok(s) => s@ == md_doc(document@),
                Err(_) => false,
            },
    {
        let mut output = String::new();
        let ghost rbv = blocks_view(document.blocks@);
        proof {
            lemma_blocks_view_index(document.blocks@);
            assert(output@ =~= Seq::<char>::empty());
        }
        let mut k: usize = 0;
        while k < document.blocks.len()
            invariant
                k <= document.blocks@.len(),
                md_doc_blocks(Seq::empty(), rbv, 0) == md_doc_blocks(output@, rbv, k as int),
                rbv.len() == document.blocks@.len(),
                forall|j: int|
                    0 <= j < rbv.len() ==> rbv[j] == block_view(#[trigger] document.blocks@[j]),
            decreases document.blocks@.len() - k,
        {
            let ghost before = output@;
            let r = self.block_to_markdown(&mut output, &document.blocks[k]);
            match r {
                Ok(_) => {},
                Err(_) => vstd::pervasive::unreached(),
            }
            push_char(&mut output, '\n');
            proof {
                assert(output@ =~= md_block(before, rbv[k as int]) + seq!['\n']);
            }
            k = k + 1;
        }
        proof {
            assert(md_doc_blocks(output@, rbv, k as int) == output@);
        }
        Ok(output)
    }

    /// One block and its children as Markdown.
    #[verifier::loop_isolation(false)]
    fn block_to_markdown(&self, output: &mut String, block: &Block) -> (r: ParseResult<()>)
        ensures
            r is Ok,
            final (output)@ == md_block(old(output)@, block@),
        decreases *block,
    {
        let ghost accv = output@;
        let is_heading = match &block.block_type {
            BlockType::Section | BlockType::H1 | BlockType::H2 | BlockType::H3 | BlockType::H4
                | BlockType::H5 | BlockType::H6 => true,
            _ => false,
        };
        let is_para = match &block.block_type {
            BlockType::Paragraph | BlockType::P => true,
            _ => false,
        };
        let is_code = match &block.block_type {
            BlockType::Code | BlockType::C => true,
            _ => false,
        };
        let is_quote = match &block.block_type {
            BlockType::Quote | BlockType::Q => true,
            _ => false,
        };
        let is_image = match &block.block_type {
            BlockType::Image | BlockType::Img => true,
            _ => false,
        };
        if is_heading {
            let rank: usize = match &block.block_type {
                BlockType::H1 => 1,
                BlockType::H2 => 2,
                BlockType::H3 => 3,
                BlockType::H4 => 4,
                BlockType::H5 => 5,
                BlockType::H6 => 6,
                _ => block.level,
            };
            push_repeat(output, '#', rank);
            push_char(output, ' ');
            match block.get_attribute("title") {
                Some(title) => output.append(title),
                None => {},
            }
            push_char(output, '\n');
            if !block.content.as_str().is_empty() {
                push_char(output, '\n');
                output.append(block.content.as_str());
                push_char(output, '\n');
            }
            proof {
                assert(rank as nat == md_heading_rank(block@.block_type, block@.level));
                assert(output@ =~= ({
                    let n = md_heading_rank(block@.block_type, block@.level);
                    let title = attr_or_empty(block@.attributes, "title"@);
                    let h = accv + repeat_char('#', n) + seq![' '] + title + seq!['\n'];
                    if block@.content.len() > 0 {
                        h + seq!['\n'] + block@.content + seq!['\n']
                    } else {
                        h
                    }
                }));
            }
        } else if is_para {
            output.append(block.content.as_str());
            push_char(output, '\n');
            proof {
                assert(output@ =~= accv + block@.content + seq!['\n']);
            }
        } else if is_code {
            output.append("```");
            match block.get_attribute("lang") {
                Some(lang) => output.append(lang),
                None => {},
            }
            push_char(output, '\n');
            output.append(block.content.as_str());
            output.append("\n```\n");
            proof {
                let lang = attr_or_empty(block@.attributes, "lang"@);
                assert(output@ =~= accv + "```"@ + lang + seq!['\n'] + block@.content
                    + "\n```\n"@);
            }
        } else if is_quote {
            let cv = chars_of(block.content.as_str());
            let lines = split_lines(cv.as_slice());
            let ghost ls = crate::text::seqs_of(lines@);
            let mut i: usize = 0;
            while i < lines.len()
                invariant
                    i <= lines@.len(),
                    md_quote_lines(accv, ls, 0) == md_quote_lines(output@, ls, i as int),
                decreases lines@.len() - i,
            {
                let ghost before = output@;
                output.append("> ");
                let line = string_of(lines[i].as_slice());
                output.append(line.as_str());
                push_char(output, '\n');
                proof {
                    assert(ls[i as int] == lines@[i as int]@);
                    assert(output@ =~= before + "> "@ + ls[i as int] + seq!['\n']);
                }
                i = i + 1;
            }
            proof {
                assert(md_quote_lines(output@, ls, i as int) == output@);
            }
            match block.get_attribute("author") {
                Some(author) => {
                    let ghost before = output@;
                    output.append("> \n> \u{2014} ");
                    output.append(author);
                    push_char(output, '\n');
                    proof {
                        assert(output@ =~= before + "> \n> \u{2014} "@ + lookup(
                            block@.attributes,
                            "author"@,
                        )->0 + seq!['\n']);
                    }
                },
                None => {},
            }
            proof {
                assert(output@ =~= ({
                    let q = md_quote_lines(accv, lines_spec(block@.content), 0);
                    match lookup(block@.attributes, "author"@) {
                        Some(author) => q + "> \n> \u{2014} "@ + author + seq!['\n'],
                        None => q,
                    }
                }));
            }
        } else if is_image {
            output.append("![");
            match block.get_attribute("alt") {
                Some(alt) => output.append(alt),
                None => {},
            }
            output.append("](");
            match block.get_attribute("src") {
                Some(src) => output.append(src),
                None => {},
            }
            output.append(")\n");
            proof {
                let src = attr_or_empty(block@.attributes, "src"@);
                let alt = attr_or_empty(block@.attributes, "alt"@);
                assert(output@ =~= accv + "!["@ + alt + "]("@ + src + ")\n"@);
            }
        } else {
            output.append(block.content.as_str());
            push_char(output, '\n');
            proof {
                assert(output@ =~= accv + block@.content + seq!['\n']);
            }
        }
        let ghost own_done = output@;
        let ghost cbv = blocks_view(block.children@);
        proof {
            lemma_blocks_view_index(block.children@);
        }
        let mut ci: usize = 0;
        while ci < block.children.len()
            invariant
                ci <= block.children@.len(),
                md_blocks(own_done, cbv, 0) == md_blocks(output@, cbv, ci as int),
            decreases block.children@.len() - ci,
        {
            let r = self.block_to_markdown(output, &block.children[ci]);
            match r {
                Ok(_) => {},
                Err(_) => vstd::pervasive::unreached(),
            }
            proof {
                assert(cbv[ci as int] == block_view(block.children@[ci as int]));
            }
            ci = ci + 1;
        }
        proof {
            assert(md_blocks(output@, cbv, ci as int) == output@);
            assert(output@ =~= md_block(accv, block@));
        }
        Ok(())
    }

    fn to_json(&self, document: &Document) -> (r: ParseResult<String>)
        ensures
            match r {
                Ok(s) => s@ == json_of_document(document@),
                Err(_) => false,
            },
    {
        Ok(render_json_document(document))
    }

    #[verifier::loop_isolation(false)]
    fn to_plain_text(&self, document: &Document) -> (r: ParseResult<String>)
        ensures
            match r {
                Ok(s) => s@ == pt_doc(document@),
                Err(_) => false,
            },
    {
        let mut output = String::new();
        let ghost rbv = blocks_view(document.blocks@);
        proof {
            lemma_blocks_view_index(document.blocks@);
            assert(output@ =~= Seq::<char>::empty());
        }
        let mut k: usize = 0;
        while k < document.blocks.len()
            invariant
                k <= document.blocks@.len(),
                pt_doc_blocks(Seq::empty(), rbv, 0) == pt_doc_blocks(output@, rbv, k as int),
                rbv.len() == document.blocks@.len(),
                forall|j: int|
                    0 <= j < rbv.len() ==> rbv[j] == block_view(#[trigger] document.blocks@[j]),
            decreases document.blocks@.len() - k,
        {
            let ghost before = output@;
            self.block_to_plain_text(&mut output, &document.blocks[k], 0);
            push_char(&mut output, '\n');
            proof {
                assert(output@ =~= pt_block(before, rbv[k as int], 0nat) + seq!['\n']);
            }
            k = k + 1;
        }
        proof {
            assert(pt_doc_blocks(output@, rbv, k as int) == output@);
        }
        Ok(output)
    }

    /// One block and its children as plain text.
    #[verifier::loop_isolation(false)]
    fn block_to_plain_text(&self, output: &mut String, block: &Block, depth: usize)
        ensures
            final (output)@ == pt_block(old(output)@, block@, depth as nat),
        decreases *block,
    {
        let ghost accv = output@;
        let mut indent = String::new();
        let mut li: usize = 0;
        proof {
            assert(indent@ =~= repeat_char(' ', 2 * 0nat));
        }
        while li < depth
            invariant
                li <= depth,
                indent@ == repeat_char(' ', 2 * li as nat),
            decreases depth - li,
        {
            push_repeat(&mut indent, ' ', 2);
            proof {
                crate::text::lemma_repeat_add(' ', 2 * li as nat, 2nat);
            }
            li = li + 1;
        }
        let ghost ind = indent@;
        match block.get_attribute("title") {
            Some(title) => {
                output.append(indent.as_str());
                output.append(title);
                push_char(output, '\n');
            },
            None => {},
        }
        let ghost t0 = output@;
        proof {
            assert(t0 == (match lookup(block@.attributes, "title"@) {
                Some(title) => accv + ind + title + seq!['\n'],
                None => accv,
            }));
        }
        if !block.content.as_str().is_empty() {
            let cv = chars_of(block.content.as_str());
            let lines = split_lines(cv.as_slice());
            let ghost ls = crate::text::seqs_of(lines@);
            let mut i: usize = 0;
            while i < lines.len()
                invariant
                    i <= lines@.len(),
                    pt_lines(t0, ls, 0, ind) == pt_lines(output@, ls, i as int, ind),
                decreases lines@.len() - i,
            {
                let ghost before = output@;
                output.append(indent.as_str());
                let line = string_of(lines[i].as_slice());
                output.append(line.as_str());
                push_char(output, '\n');
                proof {
                    assert(ls[i as int] == lines@[i as int]@);
                    assert(output@ =~= before + ind + ls[i as int] + seq!['\n']);
                }
                i = i + 1;
            }
            proof {
                assert(pt_lines(output@, ls, i as int, ind) == output@);
            }
        }
        let ghost t1 = output@;
        let child_depth = if depth < usize::MAX {
            depth + 1
        } else {
            depth
        };
        let ghost cbv = blocks_view(block.children@);
        proof {
            lemma_blocks_view_index(block.children@);
        }
        let mut ci: usize = 0;
        while ci < block.children.len()
            invariant
                ci <= block.children@.len(),
                pt_blocks(t1, cbv, 0, child_depth as nat) == pt_blocks(
                    output@,
                    cbv,
                    ci as int,
                    child_depth as nat,
                ),
            decreases block.children@.len() - ci,
        {
            self.block_to_plain_text(output, &block.children[ci], child_depth);
            proof {
                assert(cbv[ci as int] == block_view(block.children@[ci as int]));
            }
            ci = ci + 1;
        }
        proof {
            assert(pt_blocks(output@, cbv, ci as int, child_depth as nat) == output@);
            assert(next_level(depth as nat) == child_depth as nat);
            assert(output@ =~= pt_block(accv, block@, depth as nat));
        }
    }
}

} // verus!
