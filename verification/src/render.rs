//! The two textual renderings of a table: comma-separated rows, and a
//! box-drawn spreadsheet layout in which every cell is padded to its
//! column's widest entry under a chosen alignment.

use vstd::prelude::*;
use vstd::string::StrSliceExecFns;
use vstd::string::StringExecFns;

use crate::ext::ExtError;
use crate::ext::Table;
use crate::ext::lemma_grid_view;
use crate::ext::lemma_table_view;
use crate::ext::lemma_row_view;
use crate::text::join;
use crate::text::join_with;
use crate::text::lemma_join_push;
use crate::text::repeat_char;
use crate::text::repeat_piece;
use crate::text::str_eq_str;

verus! {

/// How cell text is placed within its column's width.
#[derive(Clone, Copy, Debug, PartialEq, Eq, Structural)]
pub enum Alignment {
    Left,
    Right,
    Center,
}

/// The alignment named by an external token; the long and the
/// one-letter spellings are accepted, any other token is refused.
pub open spec fn parse_alignment(s: Seq<char>) -> Option<Alignment> {
    if s == "Left"@ || s == "L"@ {
        Some(Alignment::Left)
    } else if s == "Right"@ || s == "R"@ {
        Some(Alignment::Right)
    } else if s == "Center"@ || s == "C"@ {
        Some(Alignment::Center)
    } else {
        None
    }
}

/// Message of the error reported for a token that names no alignment.
pub open spec fn unknown_alignment_msg(s: Seq<char>) -> Seq<char> {
    "Unknow alignment: "@ + s + "."@
}

impl Alignment {
    /// Parses an external alignment token once, at the boundary.
    pub fn from_token(s: &str) -> (r: Option<Alignment>)
        ensures
            r == parse_alignment(s@),
    {
        if str_eq_str(s, "Left") || str_eq_str(s, "L") {
            Some(Alignment::Left)
        } else if str_eq_str(s, "Right") || str_eq_str(s, "R") {
            Some(Alignment::Right)
        } else if str_eq_str(s, "Center") || str_eq_str(s, "C") {
            Some(Alignment::Center)
        } else {
            None
        }
    }
}

/// The widest cell among the first `n` rows of column `j`.
pub open spec fn col_width_upto(g: Seq<Seq<Seq<char>>>, j: int, n: int) -> nat
    decreases n,
{
    if n <= 0 {
        0
    } else {
        let prev = col_width_upto(g, j, n - 1);
        let cur = g[n - 1][j].len();
        if cur > prev {
            cur
        } else {
            prev
        }
    }
}

/// The widest cell of column `j`.
pub open spec fn col_width(g: Seq<Seq<Seq<char>>>, j: int) -> nat {
    col_width_upto(g, j, g.len() as int)
}

/// Per-column maximum cell widths.
pub open spec fn widths_of(g: Seq<Seq<Seq<char>>>) -> Seq<nat> {
    Seq::new(g[0].len(), |j: int| col_width(g, j))
}

/// No cell of the first `n` rows is wider than its column's width.
proof fn lemma_col_width_bound(g: Seq<Seq<Seq<char>>>, j: int, n: int, i: int)
    requires
        0 <= i < n,
    ensures
        g[i][j].len() <= col_width_upto(g, j, n),
    decreases n,
{
    if i < n - 1 {
        lemma_col_width_bound(g, j, n - 1, i);
    }
}

/// `cell` padded with spaces to width `w` under alignment `a`; text
/// already at least `w` wide stays as it is. When centering leaves an
/// odd remainder, the extra space goes to the right.
pub open spec fn pad_cell(cell: Seq<char>, w: nat, a: Alignment) -> Seq<char> {
    if cell.len() >= w {
        cell
    } else {
        let k = (w - cell.len()) as nat;
        match a {
            Alignment::Left => cell + repeat_char(' ', k),
            Alignment::Right => repeat_char(' ', k) + cell,
            Alignment::Center => repeat_char(' ', k / 2) + cell + repeat_char(
                ' ',
                (k - k / 2) as nat,
            ),
        }
    }
}

/// One dash run per column, each two wider than the column for the
/// single space of padding on either side of the cell text.
pub open spec fn border_cells(ws: Seq<nat>) -> Seq<Seq<char>> {
    Seq::new(ws.len(), |j: int| repeat_char('\u{2500}', ws[j] + 2))
}

/// A horizontal border: the dash runs joined by the junction glyph
/// `m`, between the corner glyphs `l` and `r`.
pub open spec fn border_line(ws: Seq<nat>, l: char, m: char, r: char) -> Seq<char> {
    seq![l] + join(border_cells(ws), seq![m]) + seq![r]
}

/// The cells of one row, each padded to its column's width.
pub open spec fn padded_row(row: Seq<Seq<char>>, ws: Seq<nat>, a: Alignment) -> Seq<Seq<char>> {
    Seq::new(row.len(), |j: int| pad_cell(row[j], ws[j], a))
}

/// One rendered table row: the padded cells joined by ` │ ` and
/// wrapped in `│ … │`.
pub open spec fn row_line(row: Seq<Seq<char>>, ws: Seq<nat>, a: Alignment) -> Seq<char> {
    seq!['\u{2502}', ' '] + join(padded_row(row, ws, a), seq![' ', '\u{2502}', ' ']) + seq![
        ' ',
        '\u{2502}',
    ]
}

/// Every line of the rendering, in order: the top border, then each
/// row followed by a separator, the last row's separator being the
/// bottom border.
pub open spec fn table_lines(g: Seq<Seq<Seq<char>>>, a: Alignment) -> Seq<Seq<char>> {
    let ws = widths_of(g);
    seq![border_line(ws, '\u{250c}', '\u{252c}', '\u{2510}')] + Seq::new(
        2 * g.len(),
        |k: int|
            if k % 2 == 0 {
                row_line(g[k / 2], ws, a)
            } else if k / 2 == g.len() - 1 {
                border_line(ws, '\u{2514}', '\u{2534}', '\u{2518}')
            } else {
                border_line(ws, '\u{251c}', '\u{253c}', '\u{2524}')
            },
    )
}

/// The whole box-drawn rendering: the lines joined by newlines.
pub open spec fn render_spec(g: Seq<Seq<Seq<char>>>, a: Alignment) -> Seq<char> {
    join(table_lines(g, a), seq!['\n'])
}

/// One table row as comma-separated text.
pub open spec fn csv_row(row: Seq<Seq<char>>) -> Seq<char> {
    join(row, seq![','])
}

/// The whole comma-separated rendering: each row's cells joined by
/// commas, the rows joined by newlines. Nothing is quoted or escaped.
pub open spec fn csv_spec(g: Seq<Seq<Seq<char>>>) -> Seq<char> {
    join(Seq::new(g.len(), |i: int| csv_row(g[i])), seq!['\n'])
}

/// The widths as abstract numbers.
pub open spec fn nat_widths(ws: Seq<usize>) -> Seq<nat> {
    ws.map_values(|w: usize| w as nat)
}

fn dash_cell(w: usize) -> (r: String)
    ensures
        r@ == repeat_char('\u{2500}', w as nat + 2),
{
    proof {
        reveal_strlit("\u{2500}");
        assert("\u{2500}"@ =~= seq!['\u{2500}']);
    }
    let mut r = repeat_piece("\u{2500}", w);
    r.append("\u{2500}");
    proof {
        assert(r@ =~= repeat_char('\u{2500}', w as nat + 1));
    }
    r.append("\u{2500}");
    proof {
        assert(r@ =~= repeat_char('\u{2500}', w as nat + 2));
    }
    r
}

fn border_line_exec(ws: &Vec<usize>, l: &str, m: &str, r: &str) -> (out: String)
    requires
        l@.len() == 1,
        m@.len() == 1,
        r@.len() == 1,
    ensures
        out@ == border_line(nat_widths(ws@), l@[0], m@[0], r@[0]),
{
    let ghost nws = nat_widths(ws@);
    let mut out = String::from_str(l);
    proof {
        assert(out@ =~= seq![l@[0]]);
        assert(border_cells(nws).take(0) =~= Seq::<Seq<char>>::empty());
    }
    let mut j: usize = 0;
    while j < ws.len()
        invariant
            j <= ws@.len(),
            nws == nat_widths(ws@),
            m@.len() == 1,
            out@ == seq![l@[0]] + join(border_cells(nws).take(j as int), seq![m@[0]]),
        decreases ws@.len() - j,
    {
        if j > 0 {
            out.append(m);
        }
        let cell = dash_cell(ws[j]);
        out.append(cell.as_str());
        proof {
            let parts = border_cells(nws).take(j as int);
            lemma_join_push(parts, seq![m@[0]], cell@);
            assert(border_cells(nws).take(j + 1) =~= parts.push(cell@));
            if j > 0 {
                assert(out@ =~= seq![l@[0]] + (join(parts, seq![m@[0]]) + seq![m@[0]] + cell@));
                assert(out@ =~= seq![l@[0]] + join(border_cells(nws).take(j + 1), seq![m@[0]]));
            } else {
                assert(out@ =~= seq![l@[0]] + join(border_cells(nws).take(j + 1), seq![m@[0]]));
            }
        }
        j += 1;
    }
    out.append(r);
    proof {
        assert(border_cells(nws).take(ws@.len() as int) =~= border_cells(nws));
        assert(out@ =~= border_line(nws, l@[0], m@[0], r@[0]));
    }
    out
}

fn pad_to(cell: &String, w: usize, a: Alignment) -> (r: String)
    requires
        cell@.len() <= w,
    ensures
        r@ == pad_cell(cell@, w as nat, a),
{
    proof {
        reveal_strlit(" ");
        assert(" "@ =~= seq![' ']);
    }
    let len = cell.as_str().unicode_len();
    let k = w - len;
    match a {
        Alignment::Left => {
            let mut r = cell.clone();
            let pad = repeat_piece(" ", k);
            r.append(pad.as_str());
            proof {
                assert(r@ =~= pad_cell(cell@, w as nat, a));
            }
            r
        },
        Alignment::Right => {
            let mut r = repeat_piece(" ", k);
            r.append(cell.as_str());
            proof {
                assert(r@ =~= pad_cell(cell@, w as nat, a));
            }
            r
        },
        Alignment::Center => {
            let mut r = repeat_piece(" ", k / 2);
            r.append(cell.as_str());
            let pad = repeat_piece(" ", k - k / 2);
            r.append(pad.as_str());
            proof {
                assert(r@ =~= pad_cell(cell@, w as nat, a));
            }
            r
        },
    }
}

fn row_line_exec(row: &Vec<String>, ws: &Vec<usize>, a: Alignment) -> (out: String)
    requires
        row@.len() == ws@.len(),
        forall|j: int| 0 <= j < row@.len() ==> (#[trigger] row@[j])@.len() <= ws@[j],
    ensures
        out@ == row_line(row.deep_view(), nat_widths(ws@), a),
{
    proof {
        reveal_strlit("\u{2502} ");
        reveal_strlit(" \u{2502} ");
        reveal_strlit(" \u{2502}");
        lemma_row_view(*row);
    }
    let ghost nws = nat_widths(ws@);
    let ghost cells = padded_row(row.deep_view(), nws, a);
    let mut out = String::from_str("\u{2502} ");
    proof {
        assert(out@ =~= seq!['\u{2502}', ' ']);
        assert(cells.take(0) =~= Seq::<Seq<char>>::empty());
    }
    let mut j: usize = 0;
    while j < row.len()
        invariant
            j <= row@.len(),
            row@.len() == ws@.len(),
            forall|i: int| 0 <= i < row@.len() ==> (#[trigger] row@[i])@.len() <= ws@[i],
            nws == nat_widths(ws@),
            cells == padded_row(row.deep_view(), nws, a),
            out@ == seq!['\u{2502}', ' '] + join(cells.take(j as int), seq![' ', '\u{2502}', ' ']),
        decreases row@.len() - j,
    {
        if j > 0 {
            out.append(" \u{2502} ");
            proof {
                reveal_strlit(" \u{2502} ");
                assert(" \u{2502} "@ =~= seq![' ', '\u{2502}', ' ']);
            }
        }
        let padded = pad_to(&row[j], ws[j], a);
        out.append(padded.as_str());
        proof {
            lemma_row_view(*row);
            assert(padded@ == cells[j as int]);
            lemma_join_push(cells.take(j as int), seq![' ', '\u{2502}', ' '], cells[j as int]);
            assert(cells.take(j + 1) =~= cells.take(j as int).push(cells[j as int]));
            assert(out@ =~= seq!['\u{2502}', ' '] + join(
                cells.take(j + 1),
                seq![' ', '\u{2502}', ' '],
            ));
        }
        j += 1;
    }
    out.append(" \u{2502}");
    proof {
        assert(" \u{2502}"@ =~= seq![' ', '\u{2502}']);
        assert(cells.take(row@.len() as int) =~= cells);
        assert(out@ =~= row_line(row.deep_view(), nws, a));
    }
    out
}

impl Table {
    /// Per-column maximum cell width, in characters.
    fn column_widths(&self) -> (ws: Vec<usize>)
        requires
            self.wf(),
        ensures
            nat_widths(ws@) == widths_of(self@),
    {
        proof {
            lemma_table_view(self);
            lemma_grid_view(self.TableVec);
        }
        let width = self.GetWidth();
        let rows = self.GetLength();
        let mut ws: Vec<usize> = Vec::new();
        let mut j: usize = 0;
        while j < width
            invariant
                j <= width,
                self.wf(),
                width == self@[0].len(),
                rows == self@.len(),
                ws@.len() == j,
                forall|k: int| 0 <= k < j ==> ws@[k] == col_width(self@, k),
            decreases width - j,
        {
            let mut best: usize = 0;
            let mut i: usize = 0;
            while i < rows
                invariant
                    i <= rows,
                    j < width,
                    self.wf(),
                    width == self@[0].len(),
                    rows == self@.len(),
                    best == col_width_upto(self@, j as int, i as int),
                decreases rows - i,
            {
                proof {
                    lemma_table_view(self);
            lemma_grid_view(self.TableVec);
                    assert(self@[i as int].len() == self@[0].len());
                }
                let l = self.TableVec[i][j].as_str().unicode_len();
                if l > best {
                    best = l;
                }
                i += 1;
            }
            ws.push(best);
            j += 1;
        }
        proof {
            assert(nat_widths(ws@) =~= widths_of(self@));
        }
        ws
    }

    /// Renders the table as a box-drawn spreadsheet under the given
    /// alignment token; a token naming no alignment is refused.
    pub fn Stringify(&self, alignment: String) -> (r: Result<String, ExtError>)
        requires
            self.wf(),
        ensures
            parse_alignment(alignment@) matches Some(a) ==> (r matches Ok(s) && s@ == render_spec(
                self@,
                a,
            )),
            parse_alignment(alignment@) is None ==> (r matches Err(e) && e matches
                ExtError::ValueError(m) && m@ == unknown_alignment_msg(alignment@)),
    {
        let a = match Alignment::from_token(alignment.as_str()) {
            Some(a) => a,
            None => {
                let mut msg = String::from_str("Unknow alignment: ");
                msg.append(alignment.as_str());
                msg.append(".");
                return Err(ExtError::ValueError(msg));
            },
        };
        let ws = self.column_widths();
        let ghost lines_spec = table_lines(self@, a);
        let rows = self.GetLength();
        let mut lines: Vec<String> = Vec::new();
        proof {
            reveal_strlit("\u{250c}");
            reveal_strlit("\u{252c}");
            reveal_strlit("\u{2510}");
        }
        let top = border_line_exec(&ws, "\u{250c}", "\u{252c}", "\u{2510}");
        lines.push(top);
        proof {
            lemma_row_view(lines);
            assert(lines.deep_view() =~= lines_spec.take(1));
        }
        let mut i: usize = 0;
        while i < rows
            invariant
                i <= rows,
                self.wf(),
                rows == self@.len(),
                nat_widths(ws@) == widths_of(self@),
                lines_spec == table_lines(self@, a),
                lines@.len() == 1 + 2 * i,
                lines.deep_view() == lines_spec.take(1 + 2 * i),
            decreases rows - i,
        {
            proof {
                lemma_table_view(self);
            lemma_grid_view(self.TableVec);
                assert(self@[i as int].len() == self@[0].len());
                assert forall|j: int| 0 <= j < self@[i as int].len() implies (#[trigger] self.TableVec@[i as int]@[j])@.len() <= ws@[j] by {
                    lemma_col_width_bound(self@, j, rows as int, i as int);
                    lemma_row_view(self.TableVec@[i as int]);
                    assert(self@[i as int][j].len() <= col_width_upto(self@, j, rows as int));
                    assert(widths_of(self@)[j] == col_width(self@, j));
                    assert(nat_widths(ws@)[j] == ws@[j] as nat);
                    assert(self.TableVec@[i as int]@[j]@ == self@[i as int][j]);
                }
            }
            let line = row_line_exec(&self.TableVec[i], &ws, a);
            proof {
                lemma_table_view(self);
            lemma_grid_view(self.TableVec);
            }
            lines.push(line);
            let sep = if i == rows - 1 {
                proof {
                    reveal_strlit("\u{2514}");
                    reveal_strlit("\u{2534}");
                    reveal_strlit("\u{2518}");
                }
                border_line_exec(&ws, "\u{2514}", "\u{2534}", "\u{2518}")
            } else {
                proof {
                    reveal_strlit("\u{251c}");
                    reveal_strlit("\u{253c}");
                    reveal_strlit("\u{2524}");
                }
                border_line_exec(&ws, "\u{251c}", "\u{253c}", "\u{2524}")
            };
            lines.push(sep);
            proof {
                lemma_row_view(lines);
                assert(lines.deep_view() =~= lines_spec.take(1 + 2 * (i + 1)));
            }
            i += 1;
        }
        proof {
            assert(lines_spec.take(1 + 2 * rows) =~= lines_spec);
        }
        let out = join_with(&lines, "\n");
        proof {
            reveal_strlit("\n");
            assert("\n"@ =~= seq!['\n']);
        }
        Ok(out)
    }

    /// Renders the table as comma-separated rows joined by newlines.
    pub fn CSVify(&self) -> (r: String)
        requires
            self.wf(),
        ensures
            r@ == csv_spec(self@),
    {
        proof {
            reveal_strlit(",");
            reveal_strlit("\n");
            assert(","@ =~= seq![',']);
            assert("\n"@ =~= seq!['\n']);
        }
        let rows = self.GetLength();
        let mut out_rows: Vec<String> = Vec::new();
        let mut i: usize = 0;
        while i < rows
            invariant
                i <= rows,
                self.wf(),
                rows == self@.len(),
                out_rows@.len() == i,
                forall|k: int| 0 <= k < i ==> (#[trigger] out_rows@[k])@ == csv_row(self@[k]),
            decreases rows - i,
        {
            proof {
                lemma_table_view(self);
            lemma_grid_view(self.TableVec);
            }
            let line = join_with(&self.TableVec[i], ",");
            proof {
                reveal_strlit(",");
                assert(","@ =~= seq![',']);
                assert(self.TableVec@[i as int].deep_view() == self@[i as int]);
                assert(join(self.TableVec@[i as int].deep_view(), ","@) == join(
                    self@[i as int],
                    seq![','],
                ));
            }
            out_rows.push(line);
            i += 1;
        }
        let r = join_with(&out_rows, "\n");
        proof {
            lemma_row_view(out_rows);
            assert(out_rows.deep_view() =~= Seq::new(self@.len(), |i: int| csv_row(self@[i])));
        }
        r
    }
}

} // verus!
