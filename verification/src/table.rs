//! The table sub-parser: a Table block's content lines become rows of
//! trimmed cells split on `|`; with `header=true` the first line becomes
//! the header row.

use vstd::prelude::*;
use crate::ast::{Block, Table, TableCell, TableRow, cell_view, row_view, rows_view};
use crate::error::ParseResult;
use crate::model::{AttrV, BlockV, CellV, RowV, TableV, lookup};
use crate::text::{
    chars_of, eq_str, lines_spec, seqs_of, split_lines, split_on, split_on_exec, string_of,
    trim_of, trim_spec,
};

verus! {

/// The surviving table lines: each line trimmed, blank lines dropped.
pub open spec fn tline_list(lines: Seq<Seq<char>>) -> Seq<Seq<char>>
    decreases lines.len(),
{
    if lines.len() == 0 {
        Seq::empty()
    } else {
        let t = trim_spec(lines[0]);
        (if t.len() > 0 {
            seq![t]
        } else {
            Seq::<Seq<char>>::empty()
        }) + tline_list(lines.drop_first())
    }
}

/// The row a table line denotes: its cells split on `|` and trimmed;
/// spans are always one.
pub open spec fn row_of_line(line: Seq<char>, is_header: bool) -> RowV {
    RowV {
        cells: split_on(line, '|').map_values(
            |c: Seq<char>| CellV { content: trim_spec(c), colspan: 1, rowspan: 1, is_header },
        ),
    }
}

/// Whether the block's `header` attribute is exactly `true`.
pub open spec fn has_header_spec(attrs: Seq<AttrV>) -> bool {
    lookup(attrs, "header"@) == Some("true"@)
}

/// The table of a Table block: `None` when the content has no surviving
/// line, else the caption attribute, the optional header row and the data
/// rows.
pub open spec fn table_spec(content: Seq<char>, attrs: Seq<AttrV>) -> Option<TableV> {
    let tl = tline_list(lines_spec(content));
    if content.len() == 0 || tl.len() == 0 {
        None
    } else {
        let caption = lookup(attrs, "caption"@);
        if has_header_spec(attrs) {
            Some(
                TableV {
                    caption,
                    header: Some(row_of_line(tl[0], true)),
                    rows: tl.drop_first().map_values(|l: Seq<char>| row_of_line(l, false)),
                },
            )
        } else {
            Some(
                TableV {
                    caption,
                    header: None,
                    rows: tl.map_values(|l: Seq<char>| row_of_line(l, false)),
                },
            )
        }
    }
}

/// The row built from one surviving line.
fn row_of_line_exec(line: &[char], is_header: bool) -> (r: TableRow)
    ensures
        r@ == row_of_line(line@, is_header),
{
    let parts = split_on_exec(line, '|');
    let mut cells: Vec<TableCell> = Vec::new();
    let mut i: usize = 0;
    while i < parts.len()
        invariant
            i <= parts@.len(),
            cells@.len() == i,
            forall|j: int|
                0 <= j < i ==> cell_view(#[trigger] cells@[j]) == (CellV {
                    content: trim_spec(parts@[j]@),
                    colspan: 1nat,
                    rowspan: 1nat,
                    is_header,
                }),
        decreases parts@.len() - i,
    {
        let content = string_of(trim_of(parts[i].as_slice()).as_slice());
        cells.push(TableCell { content, colspan: 1, rowspan: 1, is_header });
        i = i + 1;
    }
    let r = TableRow { cells };
    proof {
        let want = row_of_line(line@, is_header);
        assert(seqs_of(parts@) == split_on(line@, '|'));
        assert(row_view(r).cells.len() == want.cells.len());
        assert forall|j: int| 0 <= j < want.cells.len() implies row_view(r).cells[j]
            == want.cells[j] by {
            assert(row_view(r).cells[j] == cell_view(r.cells@[j]));
            assert(seqs_of(parts@)[j] == parts@[j]@);
            assert(want.cells[j] == (CellV {
                content: trim_spec(split_on(line@, '|')[j]),
                colspan: 1nat,
                rowspan: 1nat,
                is_header,
            }));
        }
        assert(row_view(r) =~= want);
    }
    r
}

impl Block {
    /// Derive the table from this block's content; when no line survives,
    /// the block is left untouched.
    #[verifier::loop_isolation(false)]
    pub fn parse_table(&mut self) -> (r: ParseResult<()>)
        ensures
            r is Ok,
            match table_spec(old(self)@.content, old(self)@.attributes) {
                None => final (self)@ == old(self)@,
                Some(t) => final (self)@ == (BlockV { table: Some(t), ..old(self)@ }),
            },
    {
        if self.content.as_str().is_empty() {
            return Ok(());
        }
        let caption: Option<String> = match self.get_attribute("caption") {
            Some(s) => Some(s.to_owned()),
            None => None,
        };
        let has_header = match self.get_attribute("header") {
            Some(v) => {
                let vc = chars_of(v);
                eq_str(vc.as_slice(), "true")
            },
            None => false,
        };
        proof {
            assert(has_header == has_header_spec(old(self)@.attributes));
        }
        let cv = chars_of(self.content.as_str());
        let lines = split_lines(cv.as_slice());
        let ghost ls = seqs_of(lines@);
        let ghost tls = tline_list(ls);
        let mut tl: Vec<Vec<char>> = Vec::new();
        let mut i: usize = 0;
        proof {
            assert(ls.subrange(0, ls.len() as int) =~= ls);
            assert(tls =~= seqs_of(tl@) + tline_list(ls.subrange(0, ls.len() as int)));
        }
        while i < lines.len()
            invariant
                i <= lines@.len(),
                tls == seqs_of(tl@) + tline_list(ls.subrange(i as int, ls.len() as int)),
            decreases lines@.len() - i,
        {
            let t = trim_of(lines[i].as_slice());
            proof {
                let sub = ls.subrange(i as int, ls.len() as int);
                assert(sub[0] == ls[i as int]);
                assert(ls[i as int] == lines@[i as int]@);
                assert(sub.drop_first() =~= ls.subrange(i as int + 1, ls.len() as int));
            }
            if t.len() > 0 {
                let ghost prev = seqs_of(tl@);
                tl.push(t);
                proof {
                    assert(seqs_of(tl@) =~= prev.push(trim_spec(ls[i as int]))) by {
                        assert(forall|k: int|
                            0 <= k < tl@.len() ==> seqs_of(tl@)[k] == #[trigger] tl@[k]@);
                    };
                    assert(tls =~= seqs_of(tl@) + tline_list(
                        ls.subrange(i as int + 1, ls.len() as int),
                    ));
                }
            } else {
                proof {
                    assert(tls =~= seqs_of(tl@) + tline_list(
                        ls.subrange(i as int + 1, ls.len() as int),
                    ));
                }
            }
            i = i + 1;
        }
        proof {
            assert(ls.subrange(i as int, ls.len() as int).len() == 0);
            assert(seqs_of(tl@) =~= tls);
        }
        if tl.len() == 0 {
            return Ok(());
        }
        let mut rows: Vec<TableRow> = Vec::new();
        let mut header_row: Option<TableRow> = None;
        let start: usize = if has_header {
            header_row = Some(row_of_line_exec(tl[0].as_slice(), true));
            1
        } else {
            0
        };
        let mut k: usize = start;
        while k < tl.len()
            invariant
                start <= k <= tl@.len(),
                rows@.len() == k - start,
                forall|j: int|
                    0 <= j < rows@.len() ==> row_view(#[trigger] rows@[j]) == row_of_line(
                        tls[start + j],
                        false,
                    ),
            decreases tl@.len() - k,
        {
            proof {
                assert(tls[k as int] == tl@[k as int]@);
            }
            rows.push(row_of_line_exec(tl[k].as_slice(), false));
            k = k + 1;
        }
        let tab = Table { caption, header: header_row, rows };
        let ghost want = table_spec(old(self)@.content, old(self)@.attributes)->0;
        proof {
            if has_header {
                assert(tls.drop_first().len() == tls.len() - 1);
                assert forall|j: int| 0 <= j < rows@.len() implies rows_view(rows@)[j]
                    == want.rows[j] by {
                    assert(rows_view(rows@)[j] == row_view(rows@[j]));
                    assert(tls.drop_first()[j] == tls[1 + j]);
                    assert(want.rows[j] == row_of_line(tls.drop_first()[j], false));
                }
                assert(rows_view(rows@) =~= want.rows);
                assert(tls[0] == tl@[0]@);
            } else {
                assert forall|j: int| 0 <= j < rows@.len() implies rows_view(rows@)[j]
                    == want.rows[j] by {
                    assert(rows_view(rows@)[j] == row_view(rows@[j]));
                    assert(want.rows[j] == row_of_line(tls[j], false));
                }
                assert(rows_view(rows@) =~= want.rows);
            }
            assert(crate::ast::table_view(tab) =~= want);
        }
        self.table = Some(tab);
        proof {
            assert(self@ =~= (BlockV {
                table: Some(want),
                ..old(self)@
            }));
        }
        Ok(())
    }
}

} // verus!
