//! When the naive line path and the quote-aware scanner fill a table alike.
use vstd::prelude::*;
use crate::column::Cells;
use crate::dataframe::{apply_ops_spec, line_ops, lines_of, lines_ops, pad_ops, strip_cr, token_ops, token_ops_state};
use crate::lineparser::{csv_cells_spec, scan_prefix, scan_step, ScanState};
use crate::schema::{lemma_split_on_nonempty, split_on};
use crate::text::trimmed;

verus! {

/// The comma-separated pieces of a line.
pub open spec fn pieces_of(l: Seq<char>) -> Seq<Seq<char>> {
    split_on(l, seq![',', ',', ','])
}

/// One push per column: column `j` gets piece `j`, or empty text.
pub open spec fn row_ops(p: Seq<Seq<char>>, n: nat) -> Seq<(nat, Seq<char>)> {
    Seq::new(n, |j: int| (j as nat, if j < p.len() { p[j] } else { Seq::<char>::empty() }))
}

/// The pieces of each line.
pub open spec fn rows_of(ls: Seq<Seq<char>>) -> Seq<Seq<Seq<char>>> {
    ls.map_values(|l: Seq<char>| pieces_of(l))
}

/// `row_ops` for each row of pieces in turn.
pub open spec fn rows_ops(ps: Seq<Seq<Seq<char>>>, n: nat) -> Seq<(nat, Seq<char>)>
    decreases ps.len(),
{
    if ps.len() == 0 {
        Seq::empty()
    } else {
        rows_ops(ps.drop_last(), n) + row_ops(ps.last(), n)
    }
}

/// The pushes of `ops` that address one of `n` columns.
pub open spec fn keep_below(ops: Seq<(nat, Seq<char>)>, n: nat) -> Seq<(nat, Seq<char>)>
    decreases ops.len(),
{
    if ops.len() == 0 {
        Seq::empty()
    } else if ops.last().0 < n {
        keep_below(ops.drop_last(), n).push(ops.last())
    } else {
        keep_below(ops.drop_last(), n)
    }
}

proof fn lemma_apply_len<F: Fn(&str) -> Result<u32, String>>(cols: Seq<Cells>, ops: Seq<(nat, Seq<char>)>, f: &F)
    ensures
        apply_ops_spec(cols, ops, f).0.len() == cols.len(),
    decreases ops.len(),
{
    if ops.len() > 0 {
        lemma_apply_len(cols, ops.drop_last(), f);
    }
}

/// Pushes to columns that do not exist change nothing.
proof fn lemma_apply_keep<F: Fn(&str) -> Result<u32, String>>(cols: Seq<Cells>, ops: Seq<(nat, Seq<char>)>, f: &F)
    ensures
        apply_ops_spec(cols, ops, f).0 == apply_ops_spec(cols, keep_below(ops, cols.len()), f).0,
        apply_ops_spec(cols, ops, f).1 is Some <==> apply_ops_spec(cols, keep_below(ops, cols.len()), f).1 is Some,
    decreases ops.len(),
{
    if ops.len() > 0 {
        let n = cols.len();
        lemma_apply_keep(cols, ops.drop_last(), f);
        lemma_apply_len(cols, ops.drop_last(), f);
        let k = keep_below(ops.drop_last(), n);
        if ops.last().0 < n {
            assert(k.push(ops.last()).drop_last() =~= k);
        }
    }
}

proof fn lemma_keep_concat(a: Seq<(nat, Seq<char>)>, b: Seq<(nat, Seq<char>)>, n: nat)
    ensures
        keep_below(a + b, n) == keep_below(a, n) + keep_below(b, n),
    decreases b.len(),
{
    if b.len() == 0 {
        assert(a + b =~= a);
        assert(keep_below(a, n) + keep_below(b, n) =~= keep_below(a, n));
    } else {
        lemma_keep_concat(a, b.drop_last(), n);
        assert((a + b).drop_last() =~= a + b.drop_last());
        assert((a + b).last() == b.last());
        if b.last().0 < n {
            assert(keep_below(a, n) + keep_below(b.drop_last(), n).push(b.last()) =~= (keep_below(a, n) + keep_below(b.drop_last(), n)).push(b.last()));
        }
    }
}

proof fn lemma_keep_all_below(ops: Seq<(nat, Seq<char>)>, n: nat)
    requires
        forall|i: int| 0 <= i < ops.len() ==> (#[trigger] ops[i]).0 < n,
    ensures
        keep_below(ops, n) == ops,
    decreases ops.len(),
{
    if ops.len() > 0 {
        lemma_keep_all_below(ops.drop_last(), n);
        assert(ops.drop_last().push(ops.last()) =~= ops);
    }
}

/// Piece `j` of `p` pushed to column `j`, for every piece.
pub open spec fn cell_ops(p: Seq<Seq<char>>) -> Seq<(nat, Seq<char>)> {
    Seq::new(p.len(), |j: int| (j as nat, p[j]))
}

proof fn lemma_keep_cell_ops(p: Seq<Seq<char>>, n: nat)
    ensures
        keep_below(cell_ops(p), n) == cell_ops(p.subrange(0, if p.len() < n { p.len() as int } else { n as int })),
    decreases p.len(),
{
    if p.len() > 0 {
        lemma_keep_cell_ops(p.drop_last(), n);
        assert(cell_ops(p).drop_last() =~= cell_ops(p.drop_last()));
        if p.len() - 1 < n {
            assert(cell_ops(p.drop_last().subrange(0, p.len() - 1)).push(cell_ops(p).last())
                =~= cell_ops(p.subrange(0, p.len() as int)));
        } else {
            assert(p.drop_last().subrange(0, n as int) =~= p.subrange(0, n as int));
        }
    } else {
        assert(cell_ops(p) =~= Seq::empty());
        assert(cell_ops(p.subrange(0, 0)) =~= Seq::empty());
    }
}

/// A row's cells followed by the padding for its missing columns, once
/// pushes past the last column are dropped, are the row's pushes.
proof fn lemma_keep_row(p: Seq<Seq<char>>, n: nat)
    ensures
        keep_below(cell_ops(p) + pad_ops(p.len(), n), n) == row_ops(p, n),
{
    lemma_keep_concat(cell_ops(p), pad_ops(p.len(), n), n);
    lemma_keep_cell_ops(p, n);
    lemma_keep_all_below(pad_ops(p.len(), n), n);
    let m = if p.len() < n { p.len() as int } else { n as int };
    assert(cell_ops(p.subrange(0, m)) + pad_ops(p.len(), n) =~= row_ops(p, n));
}

/// A line split naively gives the row's pushes, when the line is not empty
/// and none of its pieces has whitespace to trim.
proof fn lemma_line_is_row(l: Seq<char>, n: nat)
    requires
        l.len() > 0,
        forall|j: int| 0 <= j < pieces_of(l).len() ==> trimmed(#[trigger] pieces_of(l)[j]) == pieces_of(l)[j],
    ensures
        line_ops(l, n) == row_ops(pieces_of(l), n),
{
    assert(line_ops(l, n) =~= row_ops(pieces_of(l), n));
}

proof fn lemma_lines_are_rows(ls: Seq<Seq<char>>, n: nat)
    requires
        forall|r: int| 0 <= r < ls.len() ==> (#[trigger] ls[r]).len() > 0,
        forall|r: int, j: int| 0 <= r < ls.len() && 0 <= j < pieces_of(ls[r]).len()
            ==> trimmed(#[trigger] pieces_of(ls[r])[j]) == pieces_of(ls[r])[j],
    ensures
        lines_ops(ls, n) == rows_ops(rows_of(ls), n),
    decreases ls.len(),
{
    if ls.len() > 0 {
        let last = ls.len() - 1;
        assert(ls.last() == ls[last]);
        assert(rows_of(ls).drop_last() =~= rows_of(ls.drop_last()));
        lemma_lines_are_rows(ls.drop_last(), n);
        assert forall|j: int| 0 <= j < pieces_of(ls.last()).len() implies trimmed(#[trigger] pieces_of(ls.last())[j]) == pieces_of(ls.last())[j] by {
            assert(pieces_of(ls[last])[j] == pieces_of(ls.last())[j]);
        }
        lemma_line_is_row(ls.last(), n);
    }
}

/// The cells of one row: piece `j` at row `r`, column `j`.
pub open spec fn row_cells(p: Seq<Seq<char>>, r: nat) -> Seq<(Seq<char>, nat, nat)> {
    Seq::new(p.len(), |j: int| (p[j], r, j as nat))
}

/// The cells of rows of pieces, row after row.
pub open spec fn cells_rows(ps: Seq<Seq<Seq<char>>>) -> Seq<(Seq<char>, nat, nat)>
    decreases ps.len(),
{
    if ps.len() == 0 {
        Seq::empty()
    } else {
        cells_rows(ps.drop_last()) + row_cells(ps.last(), (ps.len() - 1) as nat)
    }
}

/// The cells of the lines `ls`, row after row.
pub open spec fn all_cells(ls: Seq<Seq<char>>) -> Seq<(Seq<char>, nat, nat)> {
    cells_rows(rows_of(ls))
}

pub open spec fn newlines() -> Seq<char> {
    seq!['\n', '\n', '\n']
}

/// On text without quotes, the scanner's state after `i` characters
/// follows the lines and comma-separated pieces read so far.
proof fn lemma_scan_plain(s: Seq<char>, i: int)
    requires
        0 <= i <= s.len(),
        forall|k: int| 0 <= k < s.len() ==> s[k] != '"',
    ensures
        ({
            let ls = split_on(s.subrange(0, i), newlines());
            let st = scan_prefix(s, i, 0, 0);
            let p = pieces_of(ls.last());
            &&& ls.len() >= 1
            &&& p.len() >= 1
            &&& !st.quoted
            &&& st.row == ls.len() - 1
            &&& st.col == p.len() - 1
            &&& st.cur == p.last()
            &&& st.done == all_cells(ls.drop_last()) + row_cells(p.drop_last(), (ls.len() - 1) as nat)
        }),
    decreases i,
{
    let pre = s.subrange(0, i);
    lemma_split_on_nonempty(pre, newlines());
    let ls = split_on(pre, newlines());
    lemma_split_on_nonempty(ls.last(), seq![',', ',', ',']);
    if i == 0 {
        assert(pre =~= Seq::<char>::empty());
        assert(ls == seq![Seq::<char>::empty()]);
        assert(pieces_of(ls.last()) == seq![Seq::<char>::empty()]);
        assert(all_cells(ls.drop_last()) + row_cells(pieces_of(ls.last()).drop_last(), 0) =~= Seq::empty());
        return;
    }
    let j = i - 1;
    lemma_scan_plain(s, j);
    let prev = s.subrange(0, j);
    let c = s[j];
    assert(pre.drop_last() =~= prev);
    assert(pre.last() == c);
    let pls = split_on(prev, newlines());
    let pp = pieces_of(pls.last());
    let st = scan_prefix(s, j, 0, 0);
    let r = (pls.len() - 1) as nat;
    assert(newlines().contains(c) <==> c == '\n') by {
        if c == '\n' {
            assert(newlines()[0] == c);
        }
    }
    assert(seq![',', ',', ','].contains(c) <==> c == ',') by {
        if c == ',' {
            assert(seq![',', ',', ','][0] == c);
        }
    }
    assert(scan_prefix(s, i, 0, 0) == scan_step(st, c));
    if c == '\n' {
        assert(ls == pls.push(Seq::<char>::empty()));
        assert(ls.drop_last() =~= pls);
        assert(pieces_of(ls.last()) == seq![Seq::<char>::empty()]);
        assert(row_cells(pp.drop_last(), r).push((pp.last(), r, (pp.len() - 1) as nat)) =~= row_cells(pp, r));
        assert(rows_of(pls).drop_last() =~= rows_of(pls.drop_last()));
        assert(rows_of(pls).last() == pp);
        assert(all_cells(pls) == all_cells(pls.drop_last()) + row_cells(pp, r));
        assert(scan_step(st, c).done =~= all_cells(ls.drop_last()) + row_cells(pieces_of(ls.last()).drop_last(), (ls.len() - 1) as nat));
    } else if c == ',' {
        let line = pls.last().push(c);
        assert(ls == pls.update(pls.len() - 1, line));
        assert(line.drop_last() =~= pls.last());
        assert(pieces_of(line) == pp.push(Seq::<char>::empty()));
        assert(ls.drop_last() =~= pls.drop_last());
        assert(pieces_of(line).drop_last() =~= pp);
        assert(row_cells(pp.drop_last(), r).push((pp.last(), r, (pp.len() - 1) as nat)) =~= row_cells(pp, r));
        assert(scan_step(st, c).done =~= all_cells(ls.drop_last()) + row_cells(pieces_of(ls.last()).drop_last(), (ls.len() - 1) as nat));
    } else {
        let line = pls.last().push(c);
        assert(ls == pls.update(pls.len() - 1, line));
        assert(line.drop_last() =~= pls.last());
        assert(pieces_of(line) == pp.update(pp.len() - 1, pp.last().push(c)));
        assert(ls.drop_last() =~= pls.drop_last());
        assert(pieces_of(line).drop_last() =~= pp.drop_last());
    }
}

/// Text without quotes scans into the cells of its lines, except that an
/// empty last piece of a last line that no newline ends gives no cell.
proof fn lemma_cells_of_text(s: Seq<char>)
    requires
        forall|k: int| 0 <= k < s.len() ==> s[k] != '"',
    ensures
        ({
            let ls = split_on(s, newlines());
            let p = pieces_of(ls.last());
            &&& ls.len() >= 1
            &&& p.len() >= 1
            &&& csv_cells_spec(s, 0, 0) == all_cells(ls.drop_last()) + row_cells(p.drop_last(), (ls.len() - 1) as nat)
                + if p.last().len() > 0 { seq![(p.last(), (ls.len() - 1) as nat, (p.len() - 1) as nat)] } else { Seq::empty() }
            &&& (s.len() == 0 || s.last() == '\n') ==> ls.last() == Seq::<char>::empty()
            &&& (s.len() > 0 && s.last() != '\n') ==> ls.last().len() > 0
        }),
{
    lemma_scan_plain(s, s.len() as int);
    assert(s.subrange(0, s.len() as int) =~= s);
    let ls = split_on(s, newlines());
    let p = pieces_of(ls.last());
    let r = (ls.len() - 1) as nat;
    let tail: Seq<(Seq<char>, nat, nat)> = if p.last().len() > 0 { seq![(p.last(), r, (p.len() - 1) as nat)] } else { Seq::empty() };
    let base = all_cells(ls.drop_last()) + row_cells(p.drop_last(), r);
    if p.last().len() > 0 {
        assert(base.push((p.last(), r, (p.len() - 1) as nat)) =~= base + tail);
    } else {
        assert(base =~= base + tail);
    }
    if s.len() == 0 {
        assert(ls == seq![Seq::<char>::empty()]);
    } else if s.last() == '\n' {
        assert(newlines().contains(s.last())) by {
            assert(newlines()[0] == s.last());
        }
        assert(s.drop_last().push(s.last()) =~= s);
    } else {
        assert(!newlines().contains(s.last()));
        assert(s.drop_last().push(s.last()) =~= s);
        lemma_split_on_nonempty(s.drop_last(), newlines());
    }
}

/// Lines that no carriage return ends are kept as they are.
proof fn lemma_lines_plain(s: Seq<char>)
    requires
        forall|r: int| 0 <= r < split_on(s, newlines()).len() ==> strip_cr(#[trigger] split_on(s, newlines())[r])
            == split_on(s, newlines())[r],
    ensures
        lines_of(s) == if split_on(s, newlines()).last().len() == 0 {
            split_on(s, newlines()).drop_last()
        } else {
            split_on(s, newlines())
        },
{
    let p = split_on(s, newlines());
    lemma_split_on_nonempty(s, newlines());
    let q = if p.last().len() == 0 { p.drop_last() } else { p };
    assert forall|r: int| 0 <= r < q.len() implies strip_cr(#[trigger] q[r]) == q[r] by {
        assert(q[r] == p[r]);
    }
    assert(lines_of(s) =~= q);
}

/// The scanner's pushes for rows of pieces: each row's cells, then empty
/// text for the columns it lacks.
pub open spec fn full_ops(ps: Seq<Seq<Seq<char>>>, n: nat) -> Seq<(nat, Seq<char>)>
    decreases ps.len(),
{
    if ps.len() == 0 {
        Seq::empty()
    } else {
        full_ops(ps.drop_last(), n) + cell_ops(ps.last()) + pad_ops(ps.last().len(), n)
    }
}

/// Every row has a piece.
pub open spec fn rows_nonempty(ps: Seq<Seq<Seq<char>>>) -> bool {
    forall|r: int| 0 <= r < ps.len() ==> (#[trigger] ps[r]).len() >= 1
}

proof fn lemma_token_row(ps0: Seq<Seq<Seq<char>>>, p: Seq<Seq<char>>, n: nat, j: int)
    requires
        1 <= j <= p.len(),
        rows_nonempty(ps0),
        ps0.len() > 0 ==> token_ops_state(cells_rows(ps0), n) == (
            full_ops(ps0.drop_last(), n) + cell_ops(ps0.last()),
            (ps0.len() - 1) as nat,
            (ps0.last().len() - 1) as nat,
        ),
    ensures
        token_ops_state(cells_rows(ps0) + row_cells(p, ps0.len()).subrange(0, j), n) == (
            full_ops(ps0, n) + cell_ops(p).subrange(0, j),
            ps0.len(),
            (j - 1) as nat,
        ),
    decreases j,
{
    let c = cells_rows(ps0);
    let rc = row_cells(p, ps0.len());
    let cells = c + rc.subrange(0, j);
    assert(cells.drop_last() =~= c + rc.subrange(0, j - 1));
    assert(cells.last() == (p[j - 1], ps0.len(), (j - 1) as nat));
    if j == 1 {
        assert(c + rc.subrange(0, 0) =~= c);
        let prev = token_ops_state(c, n);
        let one = seq![(0nat, p[0])];
        assert(cell_ops(p).subrange(0, 1) =~= one);
        if ps0.len() > 0 {
            let pl = ps0.last();
            assert(ps0[ps0.len() - 1] == pl);
            assert(c.len() > 0);
            assert(cells.len() > 1);
            assert(prev.2 + 1 == pl.len());
            assert(token_ops_state(cells, n).0 == prev.0 + pad_ops(pl.len(), n) + one);
            assert(full_ops(ps0, n) == full_ops(ps0.drop_last(), n) + cell_ops(pl) + pad_ops(pl.len(), n));
        } else {
            assert(c =~= Seq::empty());
            assert(cells.len() == 1);
            assert(token_ops_state(cells, n).0 == prev.0 + Seq::<(nat, Seq<char>)>::empty() + one);
            assert(prev.0 =~= Seq::empty());
            assert(full_ops(ps0, n) =~= Seq::empty());
        }
        assert(token_ops_state(cells, n).0 =~= full_ops(ps0, n) + cell_ops(p).subrange(0, 1));
    } else {
        lemma_token_row(ps0, p, n, j - 1);
        assert(token_ops_state(cells, n).0 =~= full_ops(ps0, n) + cell_ops(p).subrange(0, j));
    }
}

proof fn lemma_token_rows(ps: Seq<Seq<Seq<char>>>, n: nat)
    requires
        ps.len() > 0,
        rows_nonempty(ps),
    ensures
        token_ops_state(cells_rows(ps), n) == (
            full_ops(ps.drop_last(), n) + cell_ops(ps.last()),
            (ps.len() - 1) as nat,
            (ps.last().len() - 1) as nat,
        ),
    decreases ps.len(),
{
    let ps0 = ps.drop_last();
    let p = ps.last();
    assert(ps[ps.len() - 1] == p);
    assert(rows_nonempty(ps0)) by {
        assert forall|r: int| 0 <= r < ps0.len() implies (#[trigger] ps0[r]).len() >= 1 by {
            assert(ps0[r] == ps[r]);
        }
    }
    if ps0.len() > 0 {
        lemma_token_rows(ps0, n);
    }
    lemma_token_row(ps0, p, n, p.len() as int);
    assert(row_cells(p, ps0.len()).subrange(0, p.len() as int) =~= row_cells(p, ps0.len()));
    assert(cell_ops(p).subrange(0, p.len() as int) =~= cell_ops(p));
}

proof fn lemma_token_ops_full(ps: Seq<Seq<Seq<char>>>, n: nat)
    requires
        rows_nonempty(ps),
    ensures
        token_ops(cells_rows(ps), n) == full_ops(ps, n),
{
    if ps.len() > 0 {
        lemma_token_rows(ps, n);
        let p = ps.last();
        assert(ps[ps.len() - 1] == p);
        assert(cells_rows(ps).len() > 0);
        assert(token_ops(cells_rows(ps), n) == full_ops(ps.drop_last(), n) + cell_ops(p) + pad_ops(p.len(), n));
    } else {
        assert(cells_rows(ps) =~= Seq::empty());
    }
}

proof fn lemma_keep_full(ps: Seq<Seq<Seq<char>>>, n: nat)
    ensures
        keep_below(full_ops(ps, n), n) == rows_ops(ps, n),
    decreases ps.len(),
{
    if ps.len() > 0 {
        let p = ps.last();
        lemma_keep_full(ps.drop_last(), n);
        lemma_keep_concat(full_ops(ps.drop_last(), n), cell_ops(p) + pad_ops(p.len(), n), n);
        assert(full_ops(ps, n) =~= full_ops(ps.drop_last(), n) + (cell_ops(p) + pad_ops(p.len(), n)));
        lemma_keep_row(p, n);
    }
}

proof fn lemma_rows_nonempty(ls: Seq<Seq<char>>)
    ensures
        rows_nonempty(rows_of(ls)),
{
    assert forall|r: int| 0 <= r < rows_of(ls).len() implies (#[trigger] rows_of(ls)[r]).len() >= 1 by {
        lemma_split_on_nonempty(ls[r], seq![',', ',', ',']);
    }
}

/// Appending a text line by line (each line split naively on commas) and
/// appending it through the quote-aware scanner give the same columns, and
/// fail together, for every text that has no quotes, no empty line, no
/// line ending in a carriage return, and no comma-separated piece with
/// surrounding whitespace.
pub proof fn lemma_line_and_scan_agree<F: Fn(&str) -> Result<u32, String>>(cols: Seq<Cells>, s: Seq<char>, f: &F)
    requires
        forall|k: int| 0 <= k < s.len() ==> s[k] != '"',
        forall|r: int| 0 <= r < split_on(s, newlines()).len() ==> strip_cr(#[trigger] split_on(s, newlines())[r])
            == split_on(s, newlines())[r],
        forall|r: int| 0 <= r < lines_of(s).len() ==> (#[trigger] lines_of(s)[r]).len() > 0,
        forall|r: int, j: int| 0 <= r < lines_of(s).len() && 0 <= j < pieces_of(lines_of(s)[r]).len()
            ==> trimmed(#[trigger] pieces_of(lines_of(s)[r])[j]) == pieces_of(lines_of(s)[r])[j],
    ensures
        apply_ops_spec(cols, lines_ops(lines_of(s), cols.len()), f).0
            == apply_ops_spec(cols, token_ops(csv_cells_spec(s, 0, 0), cols.len()), f).0,
        apply_ops_spec(cols, lines_ops(lines_of(s), cols.len()), f).1 is Some
            <==> apply_ops_spec(cols, token_ops(csv_cells_spec(s, 0, 0), cols.len()), f).1 is Some,
{
    let n = cols.len();
    lemma_cells_of_text(s);
    lemma_lines_plain(s);
    let ls = lines_of(s);
    let sp = split_on(s, newlines());
    let last = pieces_of(sp.last());
    let r = (sp.len() - 1) as nat;
    lemma_rows_nonempty(ls);
    lemma_lines_are_rows(ls, n);
    if sp.last().len() == 0 {
        // The text is empty or ends with a newline: every line is a full row.
        assert(last == seq![Seq::<char>::empty()]);
        assert(row_cells(last.drop_last(), r) =~= Seq::empty());
        assert(csv_cells_spec(s, 0, 0) =~= all_cells(ls));
        lemma_token_ops_full(rows_of(ls), n);
        lemma_apply_keep(cols, full_ops(rows_of(ls), n), f);
        lemma_keep_full(rows_of(ls), n);
    } else if last.last().len() > 0 {
        // The last line's last piece is read as a cell too.
        assert(ls == sp);
        assert(rows_of(ls).drop_last() =~= rows_of(sp.drop_last()));
        assert(rows_of(ls).last() == last);
        assert(row_cells(last.drop_last(), r).push((last.last(), r, (last.len() - 1) as nat)) =~= row_cells(last, r));
        assert(csv_cells_spec(s, 0, 0) =~= all_cells(ls));
        lemma_token_ops_full(rows_of(ls), n);
        lemma_apply_keep(cols, full_ops(rows_of(ls), n), f);
        lemma_keep_full(rows_of(ls), n);
    } else {
        // The last line ends with a comma: its empty last piece gives no
        // cell, and the padding pushes the same empty text instead.
        assert(ls == sp);
        let q = last.drop_last();
        let lr = (sp.len() - 1) as int;
        assert(ls[lr] == sp.last());
        assert(ls[lr].len() > 0);
        assert(last.len() >= 2) by {
            if last.len() == 1 {
                lemma_split_on_nonempty(sp.last().drop_last(), seq![',', ',', ',']);
            }
        }
        let ps = rows_of(ls);
        let ps2 = ps.update(ps.len() - 1, q);
        assert(ps2.drop_last() =~= ps.drop_last());
        assert(ps.drop_last() =~= rows_of(sp.drop_last()));
        assert(rows_nonempty(ps2)) by {
            assert forall|k: int| 0 <= k < ps2.len() implies (#[trigger] ps2[k]).len() >= 1 by {
                if k < ps2.len() - 1 {
                    assert(ps2[k] == ps[k]);
                }
            }
        }
        assert(csv_cells_spec(s, 0, 0) =~= cells_rows(ps2));
        lemma_token_ops_full(ps2, n);
        lemma_apply_keep(cols, full_ops(ps2, n), f);
        lemma_keep_full(ps2, n);
        assert(last.last() =~= Seq::<char>::empty());
        assert(last[last.len() - 1] == last.last());
        assert(row_ops(q, n) =~= row_ops(last, n));
        assert(ps.last() == last);
        assert(rows_ops(ps2, n) == rows_ops(ps, n));
    }
}

} // verus!
