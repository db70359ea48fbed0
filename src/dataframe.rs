//! A table of typed columns built from a schema and filled from
//! comma-separated text, line by line or from a whole buffer.
use vstd::prelude::*;
use vstd::string::*;
use crate::column::{
    cell_ok, cell_pushed, cell_texts, col_error_text, empty_cells, float_format_ok, float_of, float_parser_ok, joined,
    Cells, CellParseError, ColError, ColErrorcode, Column, Dtype,
};
use crate::lineparser::{csv_cells_of, csv_cells_spec, CsvStr};
use crate::schema::{parse_schema, schema_spec, split_chars, split_on, ColumnSpec};
use crate::text::{chars_of, decimal_of, decimal_string, lowercase, lowered, push_all, string_of_range, trim_text, trimmed};

verus! {

/// A schema that could not be parsed, with one sub-error per malformed
/// descriptor.
#[derive(Debug)]
pub struct DFError {
    pub error_msg: String,
    pub sub_errors: Vec<ColError>,
}

/// How a schema error with sub-errors `subs` reads, after its summary.
pub open spec fn sub_errors_text(subs: Seq<(ColErrorcode, Seq<char>, nat)>) -> Seq<char>
    decreases subs.len(),
{
    if subs.len() == 0 {
        Seq::empty()
    } else {
        sub_errors_text(subs.drop_last()) + "\nsub error "@ + decimal_of((subs.len() - 1) as nat) + ": "@
            + col_error_text(subs.last())
    }
}

impl DFError {
    pub open spec fn subs(&self) -> Seq<(ColErrorcode, Seq<char>, nat)> {
        self.sub_errors@.map_values(|e: ColError| e@)
    }

    /// The error in words: its summary, then each sub-error on a line of
    /// its own, numbered from 0.
    pub fn to_message(&self) -> (r: String)
        ensures
            r@ == "dataframe error "@ + self.error_msg@ + sub_errors_text(self.subs()),
    {
        let mut m = String::new();
        push_all(&mut m, "dataframe error ");
        push_all(&mut m, self.error_msg.as_str());
        let ghost head = "dataframe error "@ + self.error_msg@;
        assert(m@ =~= head);
        let mut i: usize = 0;
        while i < self.sub_errors.len()
            invariant
                0 <= i <= self.sub_errors@.len(),
                m@ == head + sub_errors_text(self.subs().subrange(0, i as int)),
            decreases self.sub_errors@.len() - i,
        {
            let ghost before = m@;
            push_all(&mut m, "\nsub error ");
            let d = decimal_string(i);
            push_all(&mut m, d.as_str());
            push_all(&mut m, ": ");
            let e = self.sub_errors[i].to_message();
            push_all(&mut m, e.as_str());
            proof {
                let next = self.subs().subrange(0, i + 1);
                assert(next.drop_last() =~= self.subs().subrange(0, i as int));
                assert(next.last() == self.sub_errors@[i as int]@);
                assert(m@ =~= head + sub_errors_text(next));
            }
            i = i + 1;
        }
        assert(self.subs().subrange(0, self.sub_errors@.len() as int) =~= self.subs());
        m
    }
}

/// Why reading text into a new table failed.
#[derive(Debug)]
pub enum ReadError {
    Schema(DFError),
    Cell(CellParseError),
}

impl ReadError {
    /// The error in words: the schema's errors, or what the number parser
    /// said of the cell.
    pub fn to_message(&self) -> (r: String)
        ensures
            self matches ReadError::Cell(c) ==> r@ == c.message@,
            self matches ReadError::Schema(e) ==> r@ == "dataframe error "@ + e.error_msg@ + sub_errors_text(e.subs()),
    {
        match self {
            ReadError::Schema(e) => e.to_message(),
            ReadError::Cell(c) => c.message.clone(),
        }
    }
}

/// One push: the index of the column and the text for it.
pub open spec fn op_view(p: (usize, String)) -> (nat, Seq<char>) {
    (p.0 as nat, p.1@)
}

pub open spec fn ops_view(ops: Seq<(usize, String)>) -> Seq<(nat, Seq<char>)> {
    ops.map_values(|p: (usize, String)| op_view(p))
}

/// The columns after applying `ops` in order, and the index of the push
/// that failed, if one did: the pushes before it stay done, none after it
/// is made. A push to a column that does not exist is ignored.
pub open spec fn apply_ops_spec<F: Fn(&str) -> Result<u32, String>>(
    cols: Seq<Cells>,
    ops: Seq<(nat, Seq<char>)>,
    f: &F,
) -> (Seq<Cells>, Option<nat>)
    decreases ops.len(),
{
    if ops.len() == 0 {
        (cols, None)
    } else {
        let prev = apply_ops_spec(cols, ops.drop_last(), f);
        let k = ops.last().0 as int;
        let t = ops.last().1;
        if prev.1 is Some || k >= prev.0.len() {
            prev
        } else if cell_ok(prev.0[k], t, float_of(f, trimmed(t))) {
            (prev.0.update(k, cell_pushed(prev.0[k], t, float_of(f, trimmed(t)))), None)
        } else {
            (prev.0, Some((ops.len() - 1) as nat))
        }
    }
}

proof fn lemma_apply_stops<F: Fn(&str) -> Result<u32, String>>(
    cols: Seq<Cells>,
    ops: Seq<(nat, Seq<char>)>,
    f: &F,
    i: int,
)
    requires
        0 <= i <= ops.len(),
        apply_ops_spec(cols, ops.subrange(0, i), f).1 is Some,
    ensures
        apply_ops_spec(cols, ops, f) == apply_ops_spec(cols, ops.subrange(0, i), f),
    decreases ops.len() - i,
{
    if i < ops.len() {
        let next = ops.subrange(0, i + 1);
        assert(next.drop_last() =~= ops.subrange(0, i));
        lemma_apply_stops(cols, ops, f, i + 1);
    } else {
        assert(ops.subrange(0, i) =~= ops);
    }
}

/// `n` pushes of empty text to columns `from`, `from + 1`, ..., `n - 1`.
pub open spec fn pad_ops(from: nat, n: nat) -> Seq<(nat, Seq<char>)> {
    if from < n {
        Seq::new((n - from) as nat, |j: int| ((from + j) as nat, Seq::<char>::empty()))
    } else {
        Seq::empty()
    }
}

/// The pushes for the cells of a text, with the row and column of the last
/// cell: each cell goes to its column, and when a row ends before the last
/// column the columns after it get empty text first.
pub open spec fn token_ops_state(cells: Seq<(Seq<char>, nat, nat)>, n: nat) -> (Seq<(nat, Seq<char>)>, nat, nat)
    decreases cells.len(),
{
    if cells.len() == 0 {
        (Seq::empty(), 0, 0)
    } else {
        let prev = token_ops_state(cells.drop_last(), n);
        let c = cells.last();
        let pads = if cells.len() > 1 && c.1 != prev.1 { pad_ops(prev.2 + 1, n) } else { Seq::empty() };
        (prev.0 + pads + seq![(c.2, c.0)], c.1, c.2)
    }
}

/// The pushes for the cells of a text, the last row completed too.
pub open spec fn token_ops(cells: Seq<(Seq<char>, nat, nat)>, n: nat) -> Seq<(nat, Seq<char>)> {
    let st = token_ops_state(cells, n);
    if cells.len() > 0 {
        st.0 + pad_ops(st.2 + 1, n)
    } else {
        st.0
    }
}

/// The pushes for one line split naively on commas: one per column, each
/// with its trimmed piece, or empty text where the line has too few pieces;
/// none for an empty line.
pub open spec fn line_ops(line: Seq<char>, n: nat) -> Seq<(nat, Seq<char>)> {
    let pieces = split_on(line, seq![',', ',', ',']);
    if line.len() == 0 {
        Seq::empty()
    } else {
        Seq::new(n, |i: int| (i as nat, if i < pieces.len() { trimmed(pieces[i]) } else { Seq::<char>::empty() }))
    }
}

/// `s` without one trailing carriage return.
pub open spec fn strip_cr(s: Seq<char>) -> Seq<char> {
    if s.len() > 0 && s.last() == '\r' {
        s.drop_last()
    } else {
        s
    }
}

/// The lines of a text: cut at newlines, a final newline opening no line,
/// each line without a trailing carriage return.
pub open spec fn lines_of(s: Seq<char>) -> Seq<Seq<char>> {
    let p = split_on(s, seq!['\n', '\n', '\n']);
    let q = if p.last().len() == 0 { p.drop_last() } else { p };
    q.map_values(|l: Seq<char>| strip_cr(l))
}

/// The pushes for each of `lines` in turn.
pub open spec fn lines_ops(lines: Seq<Seq<char>>, n: nat) -> Seq<(nat, Seq<char>)>
    decreases lines.len(),
{
    if lines.len() == 0 {
        Seq::empty()
    } else {
        lines_ops(lines.drop_last(), n) + line_ops(lines.last(), n)
    }
}

/// The columns of a schema, each empty.
pub open spec fn empty_table(specs: Seq<(Option<Seq<char>>, Dtype)>) -> Seq<Cells> {
    Seq::new(specs.len(), |i: int| empty_cells(specs[i].1))
}

/// A table: typed columns, all of one length after every completed row.
#[derive(Debug)]
pub struct DataFrame {
    pub data: Vec<Column>,
}

impl DataFrame {
    /// The values of each column.
    pub open spec fn cols(&self) -> Seq<Cells> {
        self.data@.map_values(|c: Column| c.data@)
    }

    /// Name and data type of each column.
    pub open spec fn specs(&self) -> Seq<(Option<Seq<char>>, Dtype)> {
        self.data@.map_values(|c: Column| (c.name_view(), c.dtype))
    }

    pub open spec fn wf(&self) -> bool {
        forall|k: int| 0 <= k < self.data@.len() ==> #[trigger] self.data@[k].wf()
    }

    /// Builds the empty table that `schema` declares. The schema is read
    /// without regard to case; if any descriptor is malformed, the error
    /// lists them all and no table is built.
    pub fn new(schema: &str) -> (r: Result<DataFrame, DFError>)
        ensures
            r is Ok <==> schema_spec(lowered(schema@)) is Ok,
            r matches Ok(df) ==> {
                &&& df.wf()
                &&& df.specs() == schema_spec(lowered(schema@))->Ok_0
                &&& df.cols() == empty_table(schema_spec(lowered(schema@))->Ok_0)
            },
            r matches Err(e) ==> e.subs() == schema_spec(lowered(schema@))->Err_0,
            r matches Err(e) ==> e.error_msg@ == "failed to parse schema"@,
    {
        let lc = lowercase(schema);
        match parse_schema(lc.as_str()) {
            Err(errs) => {
                let mut msg = String::new();
                push_all(&mut msg, "failed to parse schema");
                assert(msg@ =~= "failed to parse schema"@);
                Err(DFError { error_msg: msg, sub_errors: errs })
            },
            Ok(specs) => {
                let ghost sv = specs@.map_values(|c: ColumnSpec| c@);
                let mut data: Vec<Column> = Vec::new();
                let mut i: usize = 0;
                while i < specs.len()
                    invariant
                        0 <= i <= specs@.len(),
                        sv == specs@.map_values(|c: ColumnSpec| c@),
                        data@.len() == i,
                        forall|k: int| 0 <= k < i ==> #[trigger] data@[k].wf(),
                        forall|k: int| 0 <= k < i ==> (#[trigger] data@[k]).name_view() == sv[k].0 && data@[k].dtype == sv[k].1,
                        forall|k: int| 0 <= k < i ==> #[trigger] data@[k].data@ == empty_cells(sv[k].1),
                    decreases specs@.len() - i,
                {
                    let name = match &specs[i].name {
                        Some(n) => Some(n.clone()),
                        None => None,
                    };
                    let col = Column::new(name, specs[i].dtype);
                    data.push(col);
                    i = i + 1;
                }
                let df = DataFrame { data };
                assert(df.specs() =~= sv);
                assert(df.cols() =~= empty_table(sv));
                Ok(df)
            },
        }
    }

    /// Applies the pushes in order, stopping at the first that fails.
    fn apply_ops<F: Fn(&str) -> Result<u32, String>>(&mut self, ops: &Vec<(usize, String)>, f: &F) -> (r: Result<(), CellParseError>)
        requires
            old(self).wf(),
            float_parser_ok(f),
        ensures
            final(self).wf(),
            final(self).specs() == old(self).specs(),
            final(self).cols() == apply_ops_spec(old(self).cols(), ops_view(ops@), f).0,
            r is Err <==> apply_ops_spec(old(self).cols(), ops_view(ops@), f).1 is Some,
            r matches Err(e) ==> e.text@ == ops_view(ops@)[apply_ops_spec(old(self).cols(), ops_view(ops@), f).1->Some_0 as int].1,
    {
        let ghost cols0 = self.cols();
        let ghost specs0 = self.specs();
        let ghost ov = ops_view(ops@);
        let mut i: usize = 0;
        while i < ops.len()
            invariant
                0 <= i <= ops@.len(),
                ov == ops_view(ops@),
                cols0 == old(self).cols(),
                specs0 == old(self).specs(),
                float_parser_ok(f),
                self.wf(),
                self.specs() == specs0,
                self.cols() == apply_ops_spec(cols0, ov.subrange(0, i as int), f).0,
                apply_ops_spec(cols0, ov.subrange(0, i as int), f).1 is None,
            decreases ops@.len() - i,
        {
            let k = ops[i].0;
            let ghost pre = ov.subrange(0, i as int);
            let ghost next = ov.subrange(0, i + 1);
            assert(next.drop_last() =~= pre);
            assert(next.last() == op_view(ops@[i as int]));
            if k < self.data.len() {
                let ghost before = self.data@;
                let ghost before_cols = self.cols();
                assert(self.data@[k as int].wf());
                let res = self.data[k].data.push_from_str(ops[i].1.as_str(), f);
                proof {
                    assert(self.data@[k as int].name == before[k as int].name);
                    assert(self.data@[k as int].dtype == before[k as int].dtype);
                    assert forall|j: int| 0 <= j < self.data@.len() implies #[trigger] self.data@[j].wf() by {
                        if j != k {
                            assert(self.data@[j] == before[j]);
                        }
                    }
                    assert(self.specs() =~= specs0);
                }
                match res {
                    Ok(()) => {
                        assert(self.cols() =~= apply_ops_spec(cols0, next, f).0);
                    },
                    Err(e) => {
                        proof {
                            assert(self.cols() =~= before_cols);
                            assert(ov[i as int] == (k as nat, ops@[i as int].1@));
                            assert(before_cols[k as int] == before[k as int].data@);
                            assert(apply_ops_spec(cols0, next, f).1 is Some);
                            lemma_apply_stops(cols0, ov, f, i + 1);
                        }
                        return Err(e);
                    },
                }
            }
            i = i + 1;
        }
        assert(ov.subrange(0, ops@.len() as int) =~= ov);
        Ok(())
    }

    /// Appends one line split naively on commas, with no regard to quotes:
    /// each column gets its trimmed piece, or empty text when the line has
    /// too few pieces; pieces beyond the last column are ignored, and an
    /// empty line adds nothing. Stops at the first cell that a strict
    /// numeric column cannot parse.
    pub fn append_line<F: Fn(&str) -> Result<u32, String>>(&mut self, i_line: &str, parse_float: &F) -> (r: Result<(), CellParseError>)
        requires
            old(self).wf(),
            float_parser_ok(parse_float),
        ensures
            final(self).wf(),
            final(self).specs() == old(self).specs(),
            final(self).cols() == apply_ops_spec(old(self).cols(), line_ops(i_line@, old(self).data@.len()), parse_float).0,
            r is Err <==> apply_ops_spec(old(self).cols(), line_ops(i_line@, old(self).data@.len()), parse_float).1 is Some,
    {
        let cs = chars_of(i_line);
        let ops = line_ops_exec(&cs, self.data.len());
        self.apply_ops(&ops, parse_float)
    }

    /// Appends a whole text through the quote-aware scanner: each cell goes
    /// to the column it stands in, a row with too few cells is completed
    /// with empty text, and cells beyond the last column are ignored. Stops
    /// at the first cell that a strict numeric column cannot parse.
    pub fn append_str<F: Fn(&str) -> Result<u32, String>>(&mut self, text: &str, parse_float: &F) -> (r: Result<(), CellParseError>)
        requires
            old(self).wf(),
            float_parser_ok(parse_float),
        ensures
            final(self).wf(),
            final(self).specs() == old(self).specs(),
            final(self).cols() == apply_ops_spec(old(self).cols(), token_ops(csv_cells_spec(text@, 0, 0), old(self).data@.len()), parse_float).0,
            r is Err <==> apply_ops_spec(old(self).cols(), token_ops(csv_cells_spec(text@, 0, 0), old(self).data@.len()), parse_float).1 is Some,
    {
        let cs = chars_of(text);
        let len = cs.len();
        assert(len == cs@.len());
        let cells = csv_cells_of(&cs, 0, 0);
        let ops = token_ops_exec(&cells, self.data.len());
        self.apply_ops(&ops, parse_float)
    }

    /// Makes room for `additional` more values in every column.
    pub fn reserve(&mut self, additional: usize)
        requires
            old(self).wf(),
        ensures
            final(self).wf(),
            final(self).specs() == old(self).specs(),
            final(self).cols() == old(self).cols(),
    {
        let ghost data0 = self.data@;
        let mut i: usize = 0;
        while i < self.data.len()
            invariant
                0 <= i <= self.data@.len(),
                self.data@.len() == data0.len(),
                self.wf(),
                forall|k: int| 0 <= k < data0.len() ==> (#[trigger] self.data@[k]).name == data0[k].name
                    && self.data@[k].dtype == data0[k].dtype && self.data@[k].data@ == data0[k].data@,
            decreases self.data@.len() - i,
        {
            let ghost before = self.data@;
            assert(self.data@[i as int].wf());
            self.data[i].data.reserve(additional);
            proof {
                assert forall|j: int| 0 <= j < self.data@.len() implies #[trigger] self.data@[j].wf() by {
                    if j != i {
                        assert(self.data@[j] == before[j]);
                    }
                }
            }
            i = i + 1;
        }
        assert(self.specs() =~= data0.map_values(|c: Column| (c.name_view(), c.dtype)));
        assert(self.cols() =~= data0.map_values(|c: Column| c.data@));
    }

    /// (rows, columns): rows are counted in the first column, 0 when there
    /// is none.
    pub fn shape(&self) -> (r: (usize, usize))
        ensures
            r.1 == self.data@.len(),
            r.0 == if self.data@.len() == 0 { 0 } else { self.cols()[0].len() },
    {
        let ncol = self.data.len();
        if ncol == 0 {
            (0, 0)
        } else {
            (self.data[0].data.len(), ncol)
        }
    }
}

/// What reading `text` into a new table of `schema` gives, where `ops`
/// makes the pushes for a table of `n` columns: the schema's errors, or
/// the filled table and whether a cell failed.
pub open spec fn read_ok<F: Fn(&str) -> Result<u32, String>>(schema: Seq<char>, ops: Seq<(nat, Seq<char>)>, f: &F) -> bool {
    &&& schema_spec(lowered(schema)) is Ok
    &&& apply_ops_spec(empty_table(schema_spec(lowered(schema))->Ok_0), ops, f).1 is None
}

/// Reads `csv_str` line by line, each line split naively on commas (see
/// `DataFrame::append_line`), into a new table of `schema_str`.
pub fn csv_read_str<F: Fn(&str) -> Result<u32, String>>(csv_str: &str, schema_str: &str, parse_float: &F) -> (r: Result<DataFrame, ReadError>)
    requires
        float_parser_ok(parse_float),
    ensures
        ({
            let sp = schema_spec(lowered(schema_str@));
            let ops = lines_ops(lines_of(csv_str@), sp->Ok_0.len());
            &&& r is Ok <==> read_ok(schema_str@, ops, parse_float)
            &&& r matches Ok(df) ==> df.wf() && df.specs() == sp->Ok_0
                && df.cols() == apply_ops_spec(empty_table(sp->Ok_0), ops, parse_float).0
            &&& r matches Err(ReadError::Schema(e)) ==> sp is Err && e.subs() == sp->Err_0
            &&& r matches Err(ReadError::Cell(_)) ==> sp is Ok
        }),
{
    let mut df = match DataFrame::new(schema_str) {
        Ok(df) => df,
        Err(e) => return Err(ReadError::Schema(e)),
    };
    let cs = chars_of(csv_str);
    let ops = lines_ops_exec(&cs, df.data.len());
    match df.apply_ops(&ops, parse_float) {
        Ok(()) => Ok(df),
        Err(e) => Err(ReadError::Cell(e)),
    }
}

/// Reads `csv_str` through the quote-aware scanner (see
/// `DataFrame::append_str`) into a new table of `schema_str`.
pub fn csv_read_str_iter<F: Fn(&str) -> Result<u32, String>>(csv_str: &str, schema_str: &str, parse_float: &F) -> (r: Result<DataFrame, ReadError>)
    requires
        float_parser_ok(parse_float),
    ensures
        ({
            let sp = schema_spec(lowered(schema_str@));
            let ops = token_ops(csv_cells_spec(csv_str@, 0, 0), sp->Ok_0.len());
            &&& r is Ok <==> read_ok(schema_str@, ops, parse_float)
            &&& r matches Ok(df) ==> df.wf() && df.specs() == sp->Ok_0
                && df.cols() == apply_ops_spec(empty_table(sp->Ok_0), ops, parse_float).0
            &&& r matches Err(ReadError::Schema(e)) ==> sp is Err && e.subs() == sp->Err_0
            &&& r matches Err(ReadError::Cell(_)) ==> sp is Ok
        }),
{
    let mut df = match DataFrame::new(schema_str) {
        Ok(df) => df,
        Err(e) => return Err(ReadError::Schema(e)),
    };
    match df.append_str(csv_str, parse_float) {
        Ok(()) => Ok(df),
        Err(e) => Err(ReadError::Cell(e)),
    }
}

/// The characters `v[0..hi]`.
fn take_chars(v: &Vec<char>, hi: usize) -> (r: Vec<char>)
    requires
        hi <= v@.len(),
    ensures
        r@ == v@.subrange(0, hi as int),
{
    let mut r: Vec<char> = Vec::new();
    let mut i: usize = 0;
    while i < hi
        invariant
            0 <= i <= hi <= v@.len(),
            r@ == v@.subrange(0, i as int),
        decreases hi - i,
    {
        r.push(v[i]);
        i = i + 1;
        assert(r@ =~= v@.subrange(0, i as int));
    }
    r
}

/// The pushes for every line of a text.
fn lines_ops_exec(cs: &Vec<char>, n: usize) -> (r: Vec<(usize, String)>)
    ensures
        ops_view(r@) == lines_ops(lines_of(cs@), n as nat),
{
    let pieces = split_chars(cs, '\n', '\n', '\n');
    let ghost p = split_on(cs@, seq!['\n', '\n', '\n']);
    proof {
        crate::schema::lemma_split_on_nonempty(cs@, seq!['\n', '\n', '\n']);
    }
    let ghost lines = lines_of(cs@);
    let m = if pieces[pieces.len() - 1].len() == 0 { pieces.len() - 1 } else { pieces.len() };
    assert(lines.len() == m);
    let mut ops: Vec<(usize, String)> = Vec::new();
    let mut j: usize = 0;
    assert(lines.subrange(0, 0) =~= Seq::<Seq<char>>::empty());
    while j < m
        invariant
            0 <= j <= m <= pieces@.len(),
            lines == lines_of(cs@),
            lines.len() == m,
            p == split_on(cs@, seq!['\n', '\n', '\n']),
            pieces@.len() == p.len(),
            forall|k: int| 0 <= k < pieces@.len() ==> #[trigger] pieces@[k]@ == p[k],
            forall|k: int| 0 <= k < m ==> #[trigger] lines[k] == strip_cr(p[k]),
            ops_view(ops@) == lines_ops(lines.subrange(0, j as int), n as nat),
        decreases m - j,
    {
        let piece = &pieces[j];
        let len = piece.len();
        let hi = if len > 0 && piece[len - 1] == '\r' { len - 1 } else { len };
        let line = take_chars(piece, hi);
        assert(line@ =~= strip_cr(p[j as int]));
        let mut more = line_ops_exec(&line, n);
        let ghost before = ops@;
        let ghost added = more@;
        ops.append(&mut more);
        proof {
            let next = lines.subrange(0, j + 1);
            assert(next.drop_last() =~= lines.subrange(0, j as int));
            assert(next.last() == lines[j as int]);
            assert(ops@ =~= before + added);
            assert(ops_view(ops@) =~= ops_view(before) + ops_view(added));
        }
        j = j + 1;
    }
    assert(lines.subrange(0, m as int) =~= lines);
    ops
}

/// How a column's name reads: the name, or `None` when it has none.
pub open spec fn name_text(c: Column) -> Seq<char> {
    match c.name_view() {
        Some(n) => n,
        None => "None"@,
    }
}

/// One line per column: its name, `": "`, then its values as text.
pub open spec fn frame_body<G: Fn(u32) -> String>(cols: Seq<Column>, g: &G) -> Seq<char>
    decreases cols.len(),
{
    if cols.len() == 0 {
        Seq::empty()
    } else {
        frame_body(cols.drop_last(), g) + name_text(cols.last()) + ": "@ + joined(cell_texts(cols.last().data@, g))
            + "\n"@
    }
}

impl DataFrame {
    /// The table as text: a `DataFrame` header line, then one line per
    /// column; floats are written by `show_float`.
    pub fn render<G: Fn(u32) -> String>(&self, show_float: &G) -> (r: String)
        requires
            self.wf(),
            float_format_ok(show_float),
        ensures
            r@ == "DataFrame\n"@ + frame_body(self.data@, show_float),
    {
        let mut out = String::new();
        push_all(&mut out, "DataFrame\n");
        let ghost head = "DataFrame\n"@;
        assert(out@ =~= head);
        let mut i: usize = 0;
        while i < self.data.len()
            invariant
                self.wf(),
                float_format_ok(show_float),
                0 <= i <= self.data@.len(),
                out@ == head + frame_body(self.data@.subrange(0, i as int), show_float),
            decreases self.data@.len() - i,
        {
            let col = &self.data[i];
            assert(self.data@[i as int].wf());
            match &col.name {
                Some(n) => push_all(&mut out, n.as_str()),
                None => push_all(&mut out, "None"),
            }
            push_all(&mut out, ": ");
            let body = col.data.render(show_float);
            push_all(&mut out, body.as_str());
            push_all(&mut out, "\n");
            proof {
                let next = self.data@.subrange(0, i + 1);
                assert(next.drop_last() =~= self.data@.subrange(0, i as int));
                assert(next.last() == self.data@[i as int]);
                assert(out@ =~= head + frame_body(next, show_float));
            }
            i = i + 1;
        }
        assert(self.data@.subrange(0, self.data@.len() as int) =~= self.data@);
        out
    }
}

impl Clone for DataFrame {
    /// A copy with the same columns, each with storage of its own.
    fn clone(&self) -> (r: DataFrame)
        ensures
            self.wf() ==> r.wf(),
            r.specs() == self.specs(),
            r.cols() == self.cols(),
    {
        let mut data: Vec<Column> = Vec::new();
        let mut i: usize = 0;
        while i < self.data.len()
            invariant
                0 <= i <= self.data@.len(),
                data@.len() == i,
                forall|k: int| 0 <= k < i ==> self.data@[k].wf() ==> #[trigger] data@[k].wf(),
                forall|k: int| 0 <= k < i ==> (#[trigger] data@[k]).name_view() == self.data@[k].name_view()
                    && data@[k].dtype == self.data@[k].dtype && data@[k].data@ == self.data@[k].data@,
            decreases self.data@.len() - i,
        {
            data.push(self.data[i].clone());
            i = i + 1;
        }
        let r = DataFrame { data };
        assert(r.specs() =~= self.specs());
        assert(r.cols() =~= self.cols());
        r
    }
}

/// The pushes for one line split naively on commas.
fn line_ops_exec(cs: &Vec<char>, n: usize) -> (r: Vec<(usize, String)>)
    ensures
        ops_view(r@) == line_ops(cs@, n as nat),
{
    let mut ops: Vec<(usize, String)> = Vec::new();
    if cs.len() == 0 {
        assert(ops_view(ops@) =~= line_ops(cs@, n as nat));
        return ops;
    }
    let pieces = split_chars(cs, ',', ',', ',');
    let ghost sp = split_on(cs@, seq![',', ',', ',']);
    let mut i: usize = 0;
    while i < n
        invariant
            cs@.len() > 0,
            sp == split_on(cs@, seq![',', ',', ',']),
            pieces@.len() == sp.len(),
            forall|k: int| 0 <= k < pieces@.len() ==> #[trigger] pieces@[k]@ == sp[k],
            0 <= i <= n,
            ops_view(ops@) == line_ops(cs@, n as nat).subrange(0, i as int),
        decreases n - i,
    {
        let text = if i < pieces.len() {
            let piece = string_of_range(&pieces[i], 0, pieces[i].len());
            assert(piece@ =~= sp[i as int]);
            String::from_str(trim_text(piece.as_str()))
        } else {
            String::new()
        };
        let ghost before = ops@;
        ops.push((i, text));
        i = i + 1;
        assert(ops_view(ops@) =~= line_ops(cs@, n as nat).subrange(0, i as int)) by {
            assert(ops_view(ops@) =~= ops_view(before).push(op_view(ops@[i - 1])));
        }
    }
    assert(line_ops(cs@, n as nat).subrange(0, n as int) =~= line_ops(cs@, n as nat));
    ops
}

/// Appends the pushes of empty text to columns `from`, ..., `n - 1`.
fn push_pads(ops: &mut Vec<(usize, String)>, from: usize, n: usize)
    ensures
        ops_view(final(ops)@) == ops_view(old(ops)@) + pad_ops(from as nat, n as nat),
{
    let ghost start = ops_view(ops@);
    let mut j: usize = from;
    while j < n
        invariant
            from <= n ==> from <= j <= n,
            from > n ==> j == from,
            ops_view(ops@) == start + pad_ops(from as nat, n as nat).subrange(0, j - from),
        decreases n - j,
    {
        let ghost before = ops@;
        ops.push((j, String::new()));
        j = j + 1;
        assert(ops_view(ops@) =~= start + pad_ops(from as nat, n as nat).subrange(0, j - from)) by {
            assert(ops_view(ops@) =~= ops_view(before).push(op_view(ops@[ops@.len() - 1])));
        }
    }
    if from < n {
        assert(pad_ops(from as nat, n as nat).subrange(0, n - from) =~= pad_ops(from as nat, n as nat));
    } else {
        assert(ops_view(ops@) =~= start + pad_ops(from as nat, n as nat));
    }
}

/// The pushes for the scanned cells of a text.
fn token_ops_exec(cells: &Vec<CsvStr>, n: usize) -> (r: Vec<(usize, String)>)
    ensures
        forall|s: Seq<(Seq<char>, nat, nat)>| s.len() == cells@.len() && (forall|i: int| 0 <= i < s.len() ==> #[trigger] s[i] == cells@[i]@)
            ==> ops_view(r@) == token_ops(s, n as nat),
{
    let ghost cv = cells@.map_values(|c: CsvStr| c@);
    let mut ops: Vec<(usize, String)> = Vec::new();
    let mut last_row: usize = 0;
    let mut last_col: usize = 0;
    let mut i: usize = 0;
    while i < cells.len()
        invariant
            0 <= i <= cells@.len(),
            cv == cells@.map_values(|c: CsvStr| c@),
            ({
                let st = token_ops_state(cv.subrange(0, i as int), n as nat);
                &&& ops_view(ops@) == st.0
                &&& last_row as nat == st.1
                &&& last_col as nat == st.2
            }),
        decreases cells@.len() - i,
    {
        let ghost pre = cv.subrange(0, i as int);
        let ghost next = cv.subrange(0, i + 1);
        assert(next.drop_last() =~= pre);
        assert(next.last() == cells@[i as int]@);
        if i > 0 && cells[i].row != last_row && last_col < n {
            push_pads(&mut ops, last_col + 1, n);
        } else if i > 0 && cells[i].row != last_row {
            assert(pad_ops((last_col + 1) as nat, n as nat) =~= Seq::empty());
        }
        let ghost before = ops@;
        ops.push((cells[i].col, cells[i].text.clone()));
        assert(ops_view(ops@) =~= ops_view(before).push(op_view(ops@[ops@.len() - 1])));
        last_row = cells[i].row;
        last_col = cells[i].col;
        proof {
            let st = token_ops_state(next, n as nat);
            assert(ops_view(ops@) =~= st.0);
        }
        i = i + 1;
    }
    assert(cv.subrange(0, cells@.len() as int) =~= cv);
    if cells.len() > 0 {
        if last_col < n {
            push_pads(&mut ops, last_col + 1, n);
        } else {
            assert(pad_ops((last_col + 1) as nat, n as nat) =~= Seq::empty());
            assert(ops_view(ops@) =~= ops_view(ops@) + pad_ops((last_col + 1) as nat, n as nat));
        }
    }
    assert forall|s: Seq<(Seq<char>, nat, nat)>| s.len() == cells@.len() && (forall|i: int| 0 <= i < s.len() ==> #[trigger] s[i] == cells@[i]@)
        implies ops_view(ops@) == token_ops(s, n as nat) by {
        assert(s =~= cv);
    }
    ops
}

} // verus!
