//! The schema mini-language: `[name:]dtype` descriptors separated by `,`,
//! `;` or newlines, with every malformed descriptor reported.
use vstd::prelude::*;
use vstd::string::*;
use crate::column::{dtype_spec, ColError, ColErrorcode, Dtype};
use crate::text::{chars_of, string_of_range};

verus! {

/// `s` cut at every character of `seps`: one piece more than there are
/// separators, empty pieces included.
pub open spec fn split_on(s: Seq<char>, seps: Seq<char>) -> Seq<Seq<char>>
    decreases s.len(),
{
    if s.len() == 0 {
        seq![Seq::empty()]
    } else {
        let r = split_on(s.drop_last(), seps);
        if seps.contains(s.last()) {
            r.push(Seq::empty())
        } else {
            r.update(r.len() - 1, r.last().push(s.last()))
        }
    }
}

pub proof fn lemma_split_on_nonempty(s: Seq<char>, seps: Seq<char>)
    ensures
        split_on(s, seps).len() >= 1,
    decreases s.len(),
{
    if s.len() > 0 {
        lemma_split_on_nonempty(s.drop_last(), seps);
    }
}

/// Cuts `v` at every occurrence of `a`, `b` or `c`.
pub fn split_chars(v: &Vec<char>, a: char, b: char, c: char) -> (r: Vec<Vec<char>>)
    ensures
        r@.len() == split_on(v@, seq![a, b, c]).len(),
        forall|i: int| 0 <= i < r@.len() ==> #[trigger] r@[i]@ == split_on(v@, seq![a, b, c])[i],
{
    let ghost seps = seq![a, b, c];
    let mut out: Vec<Vec<char>> = Vec::new();
    let mut cur: Vec<char> = Vec::new();
    let mut i: usize = 0;
    assert(v@.subrange(0, 0) =~= Seq::<char>::empty());
    while i < v.len()
        invariant
            0 <= i <= v@.len(),
            seps == seq![a, b, c],
            ({
                let sp = split_on(v@.subrange(0, i as int), seps);
                &&& sp.len() == out@.len() + 1
                &&& forall|k: int| 0 <= k < out@.len() ==> #[trigger] out@[k]@ == sp[k]
                &&& cur@ == sp.last()
            }),
        decreases v@.len() - i,
    {
        let ch = v[i];
        let ghost pre = v@.subrange(0, i as int);
        let ghost sp = split_on(pre, seps);
        let ghost next = v@.subrange(0, i + 1);
        assert(next.drop_last() =~= pre);
        assert(seps.contains(ch) <==> (ch == a || ch == b || ch == c)) by {
            if ch == a { assert(seps[0] == ch); }
            if ch == b { assert(seps[1] == ch); }
            if ch == c { assert(seps[2] == ch); }
        }
        if ch == a || ch == b || ch == c {
            out.push(cur);
            cur = Vec::new();
            proof {
                let sp2 = split_on(next, seps);
                assert forall|k: int| 0 <= k < out@.len() implies #[trigger] out@[k]@ == sp2[k] by {
                    if k < out@.len() - 1 {
                        assert(sp2[k] == sp[k]);
                    }
                }
                assert(cur@ =~= sp2.last());
            }
        } else {
            cur.push(ch);
            proof {
                let sp2 = split_on(next, seps);
                assert(sp2 == sp.update(sp.len() - 1, sp.last().push(ch)));
                assert forall|k: int| 0 <= k < out@.len() implies #[trigger] out@[k]@ == sp2[k] by {
                    assert(sp2[k] == sp[k]);
                }
            }
        }
        i = i + 1;
    }
    assert(v@.subrange(0, v@.len() as int) =~= v@);
    out.push(cur);
    out
}

/// One column of a parsed schema: an optional name and a data type.
#[derive(Clone, Debug)]
pub struct ColumnSpec {
    pub name: Option<String>,
    pub dtype: Dtype,
}

impl ColumnSpec {
    pub open spec fn view(&self) -> (Option<Seq<char>>, Dtype) {
        (
            match self.name {
                Some(n) => Some(n@),
                None => None,
            },
            self.dtype,
        )
    }
}

pub open spec fn col_seps() -> Seq<char> {
    seq![',', ';', '\n']
}

pub open spec fn token_seps() -> Seq<char> {
    seq![':', ':', ':']
}

/// What descriptor `d`, the `i`-th of the schema, declares. Its rightmost
/// token is the data type, an unknown one being a data-type error; one
/// token before it is the name; a third token from the right is a syntax
/// error.
pub open spec fn descr_spec(d: Seq<char>, i: nat) -> Result<(Option<Seq<char>>, Dtype), (ColErrorcode, Seq<char>, nat)> {
    let toks = split_on(d, token_seps());
    let ty = toks.last();
    match dtype_spec(ty) {
        None => Err((ColErrorcode::ParseDataType, ty, i)),
        Some(dt) => if toks.len() > 2 {
            Err((ColErrorcode::SchemaSyntax, toks[toks.len() - 3], i))
        } else {
            Ok((if toks.len() == 2 { Some(toks[0]) } else { None }, dt))
        },
    }
}

/// The descriptors of a schema and what each one declares.
pub open spec fn descr_results(s: Seq<char>) -> Seq<Result<(Option<Seq<char>>, Dtype), (ColErrorcode, Seq<char>, nat)>> {
    let ds = split_on(s, col_seps());
    Seq::new(ds.len(), |i: int| descr_spec(ds[i], i as nat))
}

/// The errors among `rs`, in order.
pub open spec fn errors_of(rs: Seq<Result<(Option<Seq<char>>, Dtype), (ColErrorcode, Seq<char>, nat)>>) -> Seq<(ColErrorcode, Seq<char>, nat)>
    decreases rs.len(),
{
    if rs.len() == 0 {
        Seq::empty()
    } else {
        match rs.last() {
            Err(e) => errors_of(rs.drop_last()).push(e),
            Ok(_) => errors_of(rs.drop_last()),
        }
    }
}

/// The columns among `rs`, in order.
pub open spec fn columns_of(rs: Seq<Result<(Option<Seq<char>>, Dtype), (ColErrorcode, Seq<char>, nat)>>) -> Seq<(Option<Seq<char>>, Dtype)>
    decreases rs.len(),
{
    if rs.len() == 0 {
        Seq::empty()
    } else {
        match rs.last() {
            Ok(c) => columns_of(rs.drop_last()).push(c),
            Err(_) => columns_of(rs.drop_last()),
        }
    }
}

/// A schema's columns, or every error in it.
pub open spec fn schema_spec(s: Seq<char>) -> Result<Seq<(Option<Seq<char>>, Dtype)>, Seq<(ColErrorcode, Seq<char>, nat)>> {
    let rs = descr_results(s);
    if errors_of(rs).len() > 0 {
        Err(errors_of(rs))
    } else {
        Ok(columns_of(rs))
    }
}

/// Parses one descriptor, the `i`-th of its schema.
pub fn parse_descriptor(d: &Vec<char>, i: usize) -> (r: Result<ColumnSpec, ColError>)
    ensures
        match r {
            Ok(c) => descr_spec(d@, i as nat) == Ok::<_, (ColErrorcode, Seq<char>, nat)>(c@),
            Err(e) => descr_spec(d@, i as nat) == Err::<(Option<Seq<char>>, Dtype), _>(e@),
        },
{
    let toks = split_chars(d, ':', ':', ':');
    proof {
        lemma_split_on_nonempty(d@, token_seps());
    }
    let n = toks.len();
    let ty = string_of_range(&toks[n - 1], 0, toks[n - 1].len());
    assert(ty@ =~= toks@[n - 1]@);
    match Dtype::from_str_to_res(ty.as_str()) {
        Err(_) => Err(ColError { errorcode: ColErrorcode::ParseDataType, error_msg: ty, i_col: i }),
        Ok(dt) => {
            if n > 2 {
                let third = string_of_range(&toks[n - 3], 0, toks[n - 3].len());
                assert(third@ =~= toks@[n - 3]@);
                Err(ColError { errorcode: ColErrorcode::SchemaSyntax, error_msg: third, i_col: i })
            } else if n == 2 {
                let name = string_of_range(&toks[0], 0, toks[0].len());
                assert(name@ =~= toks@[0]@);
                Ok(ColumnSpec { name: Some(name), dtype: dt })
            } else {
                Ok(ColumnSpec { name: None, dtype: dt })
            }
        },
    }
}

/// Parses a schema. Every descriptor is parsed; if any is malformed the
/// result is the list of all their errors, in order, else the list of all
/// columns.
pub fn parse_schema(schema: &str) -> (r: Result<Vec<ColumnSpec>, Vec<ColError>>)
    ensures
        match r {
            Ok(cs) => schema_spec(schema@) == Ok::<_, Seq<(ColErrorcode, Seq<char>, nat)>>(cs@.map_values(|c: ColumnSpec| c@)),
            Err(es) => schema_spec(schema@) == Err::<Seq<(Option<Seq<char>>, Dtype)>, _>(es@.map_values(|e: ColError| e@)),
        },
{
    let cs = chars_of(schema);
    let ds = split_chars(&cs, ',', ';', '\n');
    let ghost rs = descr_results(schema@);
    let mut oks: Vec<ColumnSpec> = Vec::new();
    let mut errs: Vec<ColError> = Vec::new();
    let mut i: usize = 0;
    while i < ds.len()
        invariant
            cs@ == schema@,
            rs == descr_results(schema@),
            ds@.len() == split_on(cs@, col_seps()).len(),
            forall|k: int| 0 <= k < ds@.len() ==> #[trigger] ds@[k]@ == split_on(cs@, col_seps())[k],
            0 <= i <= ds@.len(),
            oks@.map_values(|c: ColumnSpec| c@) == columns_of(rs.subrange(0, i as int)),
            errs@.map_values(|e: ColError| e@) == errors_of(rs.subrange(0, i as int)),
        decreases ds@.len() - i,
    {
        let r = parse_descriptor(&ds[i], i);
        let ghost pre = rs.subrange(0, i as int);
        let ghost next = rs.subrange(0, i + 1);
        assert(next.drop_last() =~= pre);
        assert(next.last() == rs[i as int]);
        assert(rs[i as int] == descr_spec(ds@[i as int]@, i as nat));
        match r {
            Ok(c) => {
                let ghost before = oks@;
                oks.push(c);
                assert(oks@.map_values(|c: ColumnSpec| c@) =~= before.map_values(|c: ColumnSpec| c@).push(c@));
            },
            Err(e) => {
                let ghost before = errs@;
                errs.push(e);
                assert(errs@.map_values(|e: ColError| e@) =~= before.map_values(|e: ColError| e@).push(e@));
            },
        }
        i = i + 1;
    }
    assert(rs.subrange(0, ds@.len() as int) =~= rs);
    if errs.len() > 0 {
        Err(errs)
    } else {
        Ok(oks)
    }
}

} // verus!
