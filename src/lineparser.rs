//! Quote-aware scanning of comma-separated text into cells.
use vstd::prelude::*;
use vstd::string::*;
use crate::text::{chars_of, push_char, string_of_range};

verus! {

/// Index of the first comma or newline at or after `i` that stands outside
/// quotes, given quoting state `q` at `i`; the length of `s` if there is none.
pub open spec fn cell_end(s: Seq<char>, i: int, q: bool) -> int
    decreases s.len() - i,
{
    if i >= s.len() {
        s.len() as int
    } else if !q && (s[i] == ',' || s[i] == '\n') {
        i
    } else {
        cell_end(s, i + 1, if s[i] == '"' { !q } else { q })
    }
}

/// Index of the first newline at or after `i` that stands outside quotes.
pub open spec fn line_end(s: Seq<char>, i: int, q: bool) -> int
    decreases s.len() - i,
{
    if i >= s.len() {
        s.len() as int
    } else if !q && s[i] == '\n' {
        i
    } else {
        line_end(s, i + 1, if s[i] == '"' { !q } else { q })
    }
}

proof fn lemma_cell_end_bounds(s: Seq<char>, i: int, q: bool)
    requires
        0 <= i <= s.len(),
    ensures
        i <= cell_end(s, i, q) <= s.len(),
    decreases s.len() - i,
{
    if i < s.len() && !(!q && (s[i] == ',' || s[i] == '\n')) {
        lemma_cell_end_bounds(s, i + 1, if s[i] == '"' { !q } else { q });
    }
}

proof fn lemma_line_end_bounds(s: Seq<char>, i: int, q: bool)
    requires
        0 <= i <= s.len(),
    ensures
        i <= line_end(s, i, q) <= s.len(),
    decreases s.len() - i,
{
    if i < s.len() && !(!q && s[i] == '\n') {
        lemma_line_end_bounds(s, i + 1, if s[i] == '"' { !q } else { q });
    }
}

/// Splits `text` before its first newline outside quotes: the line, and
/// the rest starting with that newline (empty if there is none).
pub fn take_line_str(text: &str) -> (r: (String, String))
    ensures
        r.0@ == text@.subrange(0, line_end(text@, 0, false)),
        r.1@ == text@.subrange(line_end(text@, 0, false), text@.len() as int),
{
    let cs = chars_of(text);
    let mut quote_on = false;
    let mut i: usize = 0;
    proof {
        lemma_line_end_bounds(cs@, 0, false);
    }
    while i < cs.len() && !(cs[i] == '\n' && !quote_on)
        invariant
            cs@ == text@,
            0 <= i <= cs@.len(),
            line_end(cs@, i as int, quote_on) == line_end(cs@, 0, false),
        decreases cs@.len() - i,
    {
        let c = cs[i];
        if c == '"' {
            quote_on = !quote_on;
        }
        i = i + 1;
    }
    assert(line_end(cs@, i as int, quote_on) == i);
    (string_of_range(&cs, 0, i), string_of_range(&cs, i, cs.len()))
}

/// Takes the first cell of `text`: its text, the rest after the delimiter
/// that ended it, and whether that delimiter was a newline.
pub fn take_cell_str(text: &str) -> (r: ((String, String), bool))
    ensures
        ({
            let e = cell_end(text@, 0, false);
            &&& r.0.0@ == text@.subrange(0, e)
            &&& r.0.1@ == if e < text@.len() { text@.subrange(e + 1, text@.len() as int) } else { Seq::empty() }
            &&& r.1 == (e < text@.len() && text@[e] == '\n')
        }),
{
    let cs = chars_of(text);
    let mut quote_on = false;
    let mut i: usize = 0;
    proof {
        lemma_cell_end_bounds(cs@, 0, false);
    }
    while i < cs.len() && !((cs[i] == ',' || cs[i] == '\n') && !quote_on)
        invariant
            cs@ == text@,
            0 <= i <= cs@.len(),
            cell_end(cs@, i as int, quote_on) == cell_end(cs@, 0, false),
        decreases cs@.len() - i,
    {
        let c = cs[i];
        if c == '"' {
            quote_on = !quote_on;
        }
        i = i + 1;
    }
    assert(cell_end(cs@, i as int, quote_on) == i);
    let cell = string_of_range(&cs, 0, i);
    if i < cs.len() {
        let rest = string_of_range(&cs, i + 1, cs.len());
        ((cell, rest), cs[i] == '\n')
    } else {
        let rest = String::new();
        ((cell, rest), false)
    }
}

/// State of the scanner after a prefix of the text: the cells finished so
/// far as (text, row, column), the cell being read, the quoting flag, and
/// the current row and column.
pub struct ScanState {
    pub done: Seq<(Seq<char>, nat, nat)>,
    pub cur: Seq<char>,
    pub quoted: bool,
    pub row: nat,
    pub col: nat,
}

/// One character: an unquoted comma ends the cell, an unquoted newline ends
/// the cell and the row, a quote flips the quoting flag; every other
/// character, quotes included, is kept in the cell.
pub open spec fn scan_step(st: ScanState, c: char) -> ScanState {
    if !st.quoted && c == ',' {
        ScanState {
            done: st.done.push((st.cur, st.row, st.col)),
            cur: Seq::empty(),
            quoted: false,
            row: st.row,
            col: st.col + 1,
        }
    } else if !st.quoted && c == '\n' {
        ScanState {
            done: st.done.push((st.cur, st.row, st.col)),
            cur: Seq::empty(),
            quoted: false,
            row: st.row + 1,
            col: 0,
        }
    } else {
        ScanState {
            done: st.done,
            cur: st.cur.push(c),
            quoted: if c == '"' { !st.quoted } else { st.quoted },
            row: st.row,
            col: st.col,
        }
    }
}

/// The scanner's state after the first `n` characters of `s`.
pub open spec fn scan_prefix(s: Seq<char>, n: int, row: nat, col: nat) -> ScanState
    decreases n,
{
    if n <= 0 {
        ScanState { done: Seq::empty(), cur: Seq::empty(), quoted: false, row, col }
    } else {
        scan_step(scan_prefix(s, n - 1, row, col), s[n - 1])
    }
}

/// The cells of `s`, as (text, row, column), numbered from `row` and `col`.
/// Text after the last delimiter forms a last cell; a delimiter at the very
/// end opens none.
pub open spec fn csv_cells_spec(s: Seq<char>, row: nat, col: nat) -> Seq<(Seq<char>, nat, nat)> {
    let st = scan_prefix(s, s.len() as int, row, col);
    if st.cur.len() > 0 {
        st.done.push((st.cur, st.row, st.col))
    } else {
        st.done
    }
}

/// One cell of comma-separated text, with its zero-based row and column.
#[derive(Debug, PartialEq)]
pub struct CsvStr {
    pub text: String,
    pub row: usize,
    pub col: usize,
}

impl CsvStr {
    pub open spec fn view(&self) -> (Seq<char>, nat, nat) {
        (self.text@, self.row as nat, self.col as nat)
    }

    pub fn new(text: &str, row: usize, col: usize) -> (r: CsvStr)
        ensures
            r.text@ == text@,
            r.row == row,
            r.col == col,
    {
        CsvStr { text: String::from_str(text), row, col }
    }

    /// The cells of this text, numbered from its row and column.
    pub fn cells(&self) -> (r: Vec<CsvStr>)
        requires
            self.row + self.text@.len() <= usize::MAX,
            self.col + self.text@.len() <= usize::MAX,
        ensures
            r@.len() == csv_cells_spec(self.text@, self.row as nat, self.col as nat).len(),
            forall|i: int| 0 <= i < r@.len() ==> #[trigger] r@[i].view() == csv_cells_spec(self.text@, self.row as nat, self.col as nat)[i],
    {
        csv_cells(self.text.as_str(), self.row, self.col)
    }
}

/// Scans `text` into its cells, numbered from `row` and `col`.
pub fn csv_cells(text: &str, row: usize, col: usize) -> (r: Vec<CsvStr>)
    requires
        row + text@.len() <= usize::MAX,
        col + text@.len() <= usize::MAX,
    ensures
        r@.len() == csv_cells_spec(text@, row as nat, col as nat).len(),
        forall|i: int| 0 <= i < r@.len() ==> #[trigger] r@[i].view() == csv_cells_spec(text@, row as nat, col as nat)[i],
{
    let cs = chars_of(text);
    csv_cells_of(&cs, row, col)
}

/// Scans the characters `cs` into their cells, numbered from `row` and `col`.
pub fn csv_cells_of(cs: &Vec<char>, row: usize, col: usize) -> (r: Vec<CsvStr>)
    requires
        row + cs@.len() <= usize::MAX,
        col + cs@.len() <= usize::MAX,
    ensures
        r@.len() == csv_cells_spec(cs@, row as nat, col as nat).len(),
        forall|i: int| 0 <= i < r@.len() ==> #[trigger] r@[i].view() == csv_cells_spec(cs@, row as nat, col as nat)[i],
{
    let ghost text = cs@;
    let mut out: Vec<CsvStr> = Vec::new();
    let mut cur = String::new();
    let mut quoted = false;
    let mut r: usize = row;
    let mut c: usize = col;
    let mut i: usize = 0;
    while i < cs.len()
        invariant
            cs@ == text,
            0 <= i <= cs@.len(),
            row + cs@.len() <= usize::MAX,
            col + cs@.len() <= usize::MAX,
            row <= r <= row + i,
            c <= col + i,
            ({
                let st = scan_prefix(cs@, i as int, row as nat, col as nat);
                &&& out@.len() == st.done.len()
                &&& forall|k: int| 0 <= k < out@.len() ==> #[trigger] out@[k].view() == st.done[k]
                &&& cur@ == st.cur
                &&& quoted == st.quoted
                &&& r as nat == st.row
                &&& c as nat == st.col
            }),
        decreases cs@.len() - i,
    {
        let ch = cs[i];
        let ghost st = scan_prefix(cs@, i as int, row as nat, col as nat);
        if !quoted && ch == ',' {
            out.push(CsvStr { text: cur, row: r, col: c });
            cur = String::new();
            c = c + 1;
        } else if !quoted && ch == '\n' {
            out.push(CsvStr { text: cur, row: r, col: c });
            cur = String::new();
            r = r + 1;
            c = 0;
        } else {
            push_char(&mut cur, ch);
            if ch == '"' {
                quoted = !quoted;
            }
        }
        i = i + 1;
        proof {
            let st2 = scan_prefix(cs@, i as int, row as nat, col as nat);
            assert(st2 == scan_step(st, ch));
            assert forall|k: int| 0 <= k < out@.len() implies #[trigger] out@[k].view() == st2.done[k] by {
                if k < st.done.len() {
                    assert(st2.done[k] == st.done[k]);
                }
            }
        }
    }
    let ghost st = scan_prefix(cs@, cs@.len() as int, row as nat, col as nat);
    if cur.as_str().unicode_len() > 0 {
        out.push(CsvStr { text: cur, row: r, col: c });
        proof {
            assert forall|k: int| 0 <= k < out@.len() implies #[trigger] out@[k].view() == csv_cells_spec(text, row as nat, col as nat)[k] by {
                if k < st.done.len() {
                    assert(st.done.push((st.cur, st.row, st.col))[k] == st.done[k]);
                }
            }
        }
    }
    out
}

} // verus!
