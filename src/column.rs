//! Typed columns: a closed set of six payloads and how raw cell text is
//! parsed into each.
use vstd::prelude::*;
use vstd::string::*;
use crate::stringpool::StringPool;
use crate::text::{chars_of, decimal_of, decimal_string, i32_of, lowercase, lowered, parse_i32, push_all, push_char, trim_text, trimmed};

verus! {

/// Kinds of error found in a schema.
#[derive(Clone, Copy, Debug, PartialEq, Eq, Structural)]
pub enum ColErrorcode {
    /// A data-type token that names no data type.
    ParseDataType,
    /// A column descriptor with more than two tokens.
    SchemaSyntax,
}

/// One malformed column descriptor: what is wrong, the offending token and
/// the descriptor's index in the schema.
#[derive(Clone, Debug)]
pub struct ColError {
    pub errorcode: ColErrorcode,
    pub error_msg: String,
    pub i_col: usize,
}

/// How a schema error reads.
pub open spec fn col_error_text(e: (ColErrorcode, Seq<char>, nat)) -> Seq<char> {
    match e.0 {
        ColErrorcode::ParseDataType => "ColError: 'ParseDataType', do not recognize  \""@ + e.1 + "\" as datatype"@,
        ColErrorcode::SchemaSyntax => "ColError: 'SchemaSyntax' \"unexpected third token \""@ + e.1
            + "\" for column descr No. "@ + decimal_of(e.2) + "\""@,
    }
}

impl ColError {
    pub open spec fn view(&self) -> (ColErrorcode, Seq<char>, nat) {
        (self.errorcode, self.error_msg@, self.i_col as nat)
    }

    /// The error in words.
    pub fn to_message(&self) -> (r: String)
        ensures
            r@ == col_error_text(self@),
    {
        let mut m = String::new();
        match self.errorcode {
            ColErrorcode::ParseDataType => {
                push_all(&mut m, "ColError: 'ParseDataType', do not recognize  \"");
                push_all(&mut m, self.error_msg.as_str());
                push_all(&mut m, "\" as datatype");
            },
            ColErrorcode::SchemaSyntax => {
                push_all(&mut m, "ColError: 'SchemaSyntax' \"unexpected third token \"");
                push_all(&mut m, self.error_msg.as_str());
                push_all(&mut m, "\" for column descr No. ");
                let d = decimal_string(self.i_col);
                push_all(&mut m, d.as_str());
                push_all(&mut m, "\"");
            },
        }
        assert(m@ =~= col_error_text(self@));
        m
    }
}

/// A cell whose text a strict numeric column could not parse.
#[derive(Clone, Debug)]
pub struct CellParseError {
    /// The text as it reached the column.
    pub text: String,
    /// What the number parser said.
    pub message: String,
}

/// The data type of a column.
#[derive(Clone, Copy, Debug, PartialEq, Eq, Structural)]
pub enum Dtype {
    ColInt,
    ColDouble,
    ColIntNullable,
    ColDoubleNullable,
    ColString,
    ColStringPool,
}

/// The data type that a lower-case name stands for.
pub open spec fn dtype_of_name(s: Seq<char>) -> Option<Dtype> {
    if s == seq!['i', 'n', 't'] {
        Some(Dtype::ColInt)
    } else if s == seq!['i', 'n', 't', 'n', 'u', 'l', 'l', 'a', 'b', 'l', 'e'] {
        Some(Dtype::ColIntNullable)
    } else if s == seq!['d', 'o', 'u', 'b', 'l', 'e'] {
        Some(Dtype::ColDouble)
    } else if s == seq!['d', 'o', 'u', 'b', 'l', 'e', 'n', 'u', 'l', 'l', 'a', 'b', 'l', 'e'] {
        Some(Dtype::ColDoubleNullable)
    } else if s == seq!['s', 't', 'r', 'i', 'n', 'g'] {
        Some(Dtype::ColString)
    } else if s == seq!['s', 't', 'r', 'i', 'n', 'g', 'p', 'o', 'o', 'l'] {
        Some(Dtype::ColStringPool)
    } else {
        None
    }
}

/// The data type that a token names, compared without regard to case.
pub open spec fn dtype_spec(s: Seq<char>) -> Option<Dtype> {
    dtype_of_name(lowered(s))
}

fn same_chars(v: &Vec<char>, w: &[char]) -> (r: bool)
    ensures
        r == (v@ == w@),
{
    if v.len() != w.len() {
        return false;
    }
    let mut i: usize = 0;
    while i < v.len()
        invariant
            v@.len() == w@.len(),
            0 <= i <= v@.len(),
            forall|k: int| 0 <= k < i ==> v@[k] == w@[k],
        decreases v@.len() - i,
    {
        if v[i] != w[i] {
            return false;
        }
        i = i + 1;
    }
    assert(v@ =~= w@);
    true
}

/// The data type that a lower-case name stands for.
pub fn dtype_from_lower(s: &Vec<char>) -> (r: Option<Dtype>)
    ensures
        r == dtype_of_name(s@),
{
    if same_chars(s, &['i', 'n', 't']) {
        Some(Dtype::ColInt)
    } else if same_chars(s, &['i', 'n', 't', 'n', 'u', 'l', 'l', 'a', 'b', 'l', 'e']) {
        Some(Dtype::ColIntNullable)
    } else if same_chars(s, &['d', 'o', 'u', 'b', 'l', 'e']) {
        Some(Dtype::ColDouble)
    } else if same_chars(s, &['d', 'o', 'u', 'b', 'l', 'e', 'n', 'u', 'l', 'l', 'a', 'b', 'l', 'e']) {
        Some(Dtype::ColDoubleNullable)
    } else if same_chars(s, &['s', 't', 'r', 'i', 'n', 'g']) {
        Some(Dtype::ColString)
    } else if same_chars(s, &['s', 't', 'r', 'i', 'n', 'g', 'p', 'o', 'o', 'l']) {
        Some(Dtype::ColStringPool)
    } else {
        None
    }
}

/// How a data type reads.
pub open spec fn dtype_text(d: Dtype) -> Seq<char> {
    match d {
        Dtype::ColInt => "DType: ColInt"@,
        Dtype::ColDouble => "DType: ColDouble"@,
        Dtype::ColIntNullable => "DType: ColIntNullable"@,
        Dtype::ColDoubleNullable => "DType: ColDoubleNullable"@,
        Dtype::ColString => "DType: ColString"@,
        Dtype::ColStringPool => "DType: ColStringPool"@,
    }
}

impl Dtype {
    /// The data type in words.
    pub fn to_message(&self) -> (r: String)
        ensures
            r@ == dtype_text(*self),
    {
        let mut s = String::new();
        match self {
            Dtype::ColInt => push_all(&mut s, "DType: ColInt"),
            Dtype::ColDouble => push_all(&mut s, "DType: ColDouble"),
            Dtype::ColIntNullable => push_all(&mut s, "DType: ColIntNullable"),
            Dtype::ColDoubleNullable => push_all(&mut s, "DType: ColDoubleNullable"),
            Dtype::ColString => push_all(&mut s, "DType: ColString"),
            Dtype::ColStringPool => push_all(&mut s, "DType: ColStringPool"),
        }
        assert(s@ =~= dtype_text(*self));
        s
    }

    /// The data type that `s` names; `s` must name one.
    pub fn from_str(s: &str) -> (r: Dtype)
        requires
            dtype_spec(s@) is Some,
        ensures
            dtype_spec(s@) == Some(r),
    {
        let lc = chars_of(lowercase(s).as_str());
        match dtype_from_lower(&lc) {
            Some(d) => d,
            None => Dtype::ColInt,
        }
    }

    /// The data type that `s` names, or a data-type error carrying `s`.
    pub fn from_str_to_res(s: &str) -> (r: Result<Dtype, ColError>)
        ensures
            r is Ok <==> dtype_spec(s@) is Some,
            r matches Ok(d) ==> dtype_spec(s@) == Some(d),
            r matches Err(e) ==> e.errorcode == ColErrorcode::ParseDataType && e.error_msg@ == s@,
    {
        let lc = chars_of(lowercase(s).as_str());
        match dtype_from_lower(&lc) {
            Some(_) => Ok(Dtype::from_str(s)),
            None => Err(ColError { errorcode: ColErrorcode::ParseDataType, error_msg: String::from_str(s), i_col: 0 }),
        }
    }
}

/// The caller's float parser is total and gives the same answer for the
/// same text.
pub open spec fn float_parser_ok<F: Fn(&str) -> Result<u32, String>>(f: &F) -> bool {
    &&& forall|t: &str| #[trigger] f.requires((t,))
    &&& forall|t1: &str, t2: &str, r1: Result<u32, String>, r2: Result<u32, String>|
        t1@ == t2@ && #[trigger] f.ensures((t1,), r1) && #[trigger] f.ensures((t2,), r2) ==> r1 == r2
}

/// What the float parser answers for a text: the bits of an `f32`, or an
/// error message.
pub open spec fn float_of<F: Fn(&str) -> Result<u32, String>>(f: &F, s: Seq<char>) -> Result<u32, String> {
    choose|r: Result<u32, String>| parses_to(f, s, r)
}

/// The float parser may answer `r` for a text whose characters are `s`.
pub open spec fn parses_to<F: Fn(&str) -> Result<u32, String>>(f: &F, s: Seq<char>, r: Result<u32, String>) -> bool {
    exists|t: &str| t@ == s && #[trigger] f.ensures((t,), r)
}

/// Calls the float parser; its answer is the one `float_of` names.
pub fn call_float_parser<F: Fn(&str) -> Result<u32, String>>(f: &F, t: &str) -> (r: Result<u32, String>)
    requires
        float_parser_ok(f),
    ensures
        r == float_of(f, t@),
{
    let r = f(t);
    assert(parses_to(f, t@, r));
    r
}

/// Column of `i32`; unparsable text is an error.
#[derive(Clone, Debug, PartialEq, Eq, Default)]
pub struct ColInt {
    pub data: Vec<i32>,
}

/// Column of `i32` that may borrow its values.
#[derive(Debug)]
pub struct ColIntCow<'a> {
    pub data: std::borrow::Cow<'a, Vec<i32>>,
}

/// Column of 32-bit floats, each held as its bit pattern; unparsable text
/// is an error.
#[derive(Clone, Debug, PartialEq, Eq, Default)]
pub struct ColDouble {
    pub data: Vec<u32>,
}

/// Column of `i32` where unparsable text gives an absent value.
#[derive(Clone, Debug, PartialEq, Eq, Default)]
pub struct ColIntNullable {
    pub data: Vec<Option<i32>>,
}

/// Column of 32-bit floats (as bit patterns) where unparsable text gives an
/// absent value.
#[derive(Clone, Debug, PartialEq, Eq, Default)]
pub struct ColDoubleNullable {
    pub data: Vec<Option<u32>>,
}

/// Column of owned texts, kept verbatim.
#[derive(Clone, Debug, PartialEq, Eq, Default)]
pub struct ColString {
    pub data: Vec<String>,
}

/// Column of texts interned in a pool of its own.
#[derive(Debug)]
pub struct ColStringPool {
    pub data: StringPool,
}

impl Clone for ColStringPool {
    /// A copy with a pool of its own: same texts, same tickets.
    fn clone(&self) -> (r: ColStringPool)
        ensures
            self.data.wf() ==> r.data.wf(),
            r.data.view() == self.data.view(),
            r.data.strings() == self.data.strings(),
    {
        ColStringPool { data: self.data.clone() }
    }
}

/// The values of a column.
pub enum Cells {
    Int(Seq<i32>),
    Double(Seq<u32>),
    IntNullable(Seq<Option<i32>>),
    DoubleNullable(Seq<Option<u32>>),
    Str(Seq<Seq<char>>),
    Pool(Seq<Seq<char>>),
}

impl Cells {
    pub open spec fn len(self) -> nat {
        match self {
            Cells::Int(s) => s.len(),
            Cells::Double(s) => s.len(),
            Cells::IntNullable(s) => s.len(),
            Cells::DoubleNullable(s) => s.len(),
            Cells::Str(s) => s.len(),
            Cells::Pool(s) => s.len(),
        }
    }

    pub open spec fn dtype(self) -> Dtype {
        match self {
            Cells::Int(_) => Dtype::ColInt,
            Cells::Double(_) => Dtype::ColDouble,
            Cells::IntNullable(_) => Dtype::ColIntNullable,
            Cells::DoubleNullable(_) => Dtype::ColDoubleNullable,
            Cells::Str(_) => Dtype::ColString,
            Cells::Pool(_) => Dtype::ColStringPool,
        }
    }
}

/// No values, of the given type.
pub open spec fn empty_cells(d: Dtype) -> Cells {
    match d {
        Dtype::ColInt => Cells::Int(Seq::empty()),
        Dtype::ColDouble => Cells::Double(Seq::empty()),
        Dtype::ColIntNullable => Cells::IntNullable(Seq::empty()),
        Dtype::ColDoubleNullable => Cells::DoubleNullable(Seq::empty()),
        Dtype::ColString => Cells::Str(Seq::empty()),
        Dtype::ColStringPool => Cells::Pool(Seq::empty()),
    }
}

/// Whether appending `text` succeeds, `fl` being what the float parser
/// makes of the trimmed text: strict numeric columns need a number, all
/// other columns take anything.
pub open spec fn cell_ok(c: Cells, text: Seq<char>, fl: Result<u32, String>) -> bool {
    match c {
        Cells::Int(_) => i32_of(trimmed(text)) is Some,
        Cells::Double(_) => fl is Ok,
        _ => true,
    }
}

/// The values after appending `text` successfully: numeric columns parse
/// the trimmed text (absent where that fails, in the nullable ones), text
/// columns keep it verbatim.
pub open spec fn cell_pushed(c: Cells, text: Seq<char>, fl: Result<u32, String>) -> Cells {
    match c {
        Cells::Int(s) => Cells::Int(s.push(i32_of(trimmed(text))->Some_0)),
        Cells::Double(s) => Cells::Double(s.push(fl->Ok_0)),
        Cells::IntNullable(s) => Cells::IntNullable(s.push(i32_of(trimmed(text)))),
        Cells::DoubleNullable(s) => Cells::DoubleNullable(s.push(
            match fl {
                Ok(b) => Some(b),
                Err(_) => None,
            },
        )),
        Cells::Str(s) => Cells::Str(s.push(text)),
        Cells::Pool(s) => Cells::Pool(s.push(text)),
    }
}

/// The caller's float formatter is total and writes the same text for the
/// same bits.
pub open spec fn float_format_ok<G: Fn(u32) -> String>(g: &G) -> bool {
    &&& forall|b: u32| #[trigger] g.requires((b,))
    &&& forall|b: u32, r1: String, r2: String| #[trigger] g.ensures((b,), r1) && #[trigger] g.ensures((b,), r2) ==> r1@ == r2@
}

/// The float formatter may write `s` for the bits `b`.
pub open spec fn shows_as<G: Fn(u32) -> String>(g: &G, b: u32, s: Seq<char>) -> bool {
    exists|r: String| r@ == s && #[trigger] g.ensures((b,), r)
}

/// What the float formatter writes for the bits `b`.
pub open spec fn float_text<G: Fn(u32) -> String>(g: &G, b: u32) -> Seq<char> {
    choose|s: Seq<char>| shows_as(g, b, s)
}

/// Calls the float formatter; its text is the one `float_text` names.
pub fn call_float_format<G: Fn(u32) -> String>(g: &G, b: u32) -> (r: String)
    requires
        float_format_ok(g),
    ensures
        r@ == float_text(g, b),
{
    let r = g(b);
    assert(shows_as(g, b, r@));
    r
}

/// Decimal text of an `i32`, with a leading minus when negative.
pub open spec fn int_text(v: i32) -> Seq<char> {
    if v < 0 {
        seq!['-'] + decimal_of((-(v as int)) as nat)
    } else {
        decimal_of(v as nat)
    }
}

/// Writes `v` in decimal.
pub fn int_string(v: i32) -> (r: String)
    ensures
        r@ == int_text(v),
{
    if v < 0 {
        let mut s = String::new();
        push_char(&mut s, '-');
        let d = decimal_string((-(v as i64)) as usize);
        push_all(&mut s, d.as_str());
        assert(s@ =~= int_text(v));
        s
    } else {
        decimal_string(v as usize)
    }
}

/// The marker written for an absent value.
pub open spec fn na_text() -> Seq<char> {
    seq!['N', 'A']
}

/// The text of each value of a column.
pub open spec fn cell_texts<G: Fn(u32) -> String>(c: Cells, g: &G) -> Seq<Seq<char>> {
    match c {
        Cells::Int(s) => s.map_values(|v: i32| int_text(v)),
        Cells::Double(s) => s.map_values(|b: u32| float_text(g, b)),
        Cells::IntNullable(s) => s.map_values(
            |o: Option<i32>|
                match o {
                    Some(v) => int_text(v),
                    None => na_text(),
                },
        ),
        Cells::DoubleNullable(s) => s.map_values(
            |o: Option<u32>|
                match o {
                    Some(b) => float_text(g, b),
                    None => na_text(),
                },
        ),
        Cells::Str(s) => s,
        Cells::Pool(s) => s,
    }
}

/// Each text followed by `", "`.
pub open spec fn joined(ts: Seq<Seq<char>>) -> Seq<char>
    decreases ts.len(),
{
    if ts.len() == 0 {
        Seq::empty()
    } else {
        joined(ts.drop_last()) + ts.last() + ", "@
    }
}

/// What every column payload can do: take one more value from its text,
/// grow its storage, and report its type and length.
pub trait VectorData: Sized {
    /// The values held.
    spec fn values(&self) -> Cells;

    /// The payload's own invariant.
    spec fn well_formed(&self) -> bool;

    /// Appends the value that `x` denotes for this payload's type. Only the
    /// strict numeric payloads can fail, and then nothing is appended.
    fn push_from_str<F: Fn(&str) -> Result<u32, String>>(&mut self, x: &str, parse_float: &F) -> (r: Result<(), CellParseError>)
        requires
            old(self).well_formed(),
            float_parser_ok(parse_float),
        ensures
            final(self).well_formed(),
            r is Ok <==> cell_ok(old(self).values(), x@, float_of(parse_float, trimmed(x@))),
            r is Ok ==> final(self).values() == cell_pushed(old(self).values(), x@, float_of(parse_float, trimmed(x@))),
            r is Err ==> final(self).values() == old(self).values(),
            r matches Err(e) ==> e.text@ == x@,
    ;

    /// Makes room for `additional` more values; the values are unchanged.
    fn reserve(&mut self, additional: usize)
        requires
            old(self).well_formed(),
        ensures
            final(self).well_formed(),
            final(self).values() == old(self).values(),
    ;

    /// The data type of the payload.
    fn dtype(&self) -> (r: Dtype)
        ensures
            r == self.values().dtype(),
    ;

    /// Number of values.
    fn len(&self) -> (r: usize)
        ensures
            r == self.values().len(),
    ;

    /// An independent copy holding the same values.
    fn copy_values(&self) -> (r: Self)
        requires
            self.well_formed(),
        ensures
            r.well_formed(),
            r.values() == self.values(),
    ;
}

/// A copy of `v`, element by element.
fn copy_vec<T: Copy>(v: &Vec<T>) -> (r: Vec<T>)
    ensures
        r@ == v@,
{
    let mut r: Vec<T> = Vec::new();
    let mut i: usize = 0;
    while i < v.len()
        invariant
            0 <= i <= v@.len(),
            r@ == v@.subrange(0, i as int),
        decreases v@.len() - i,
    {
        r.push(v[i]);
        i = i + 1;
        assert(r@ =~= v@.subrange(0, i as int));
    }
    assert(r@ =~= v@);
    r
}

/// A copy of every text of `v`.
fn copy_strings(v: &Vec<String>) -> (r: Vec<String>)
    ensures
        r@.map_values(|s: String| s@) == v@.map_values(|s: String| s@),
{
    let mut r: Vec<String> = Vec::new();
    let mut i: usize = 0;
    while i < v.len()
        invariant
            0 <= i <= v@.len(),
            r@.len() == i,
            forall|k: int| 0 <= k < i ==> #[trigger] r@[k]@ == v@[k]@,
        decreases v@.len() - i,
    {
        r.push(v[i].clone());
        i = i + 1;
    }
    assert(r@.map_values(|s: String| s@) =~= v@.map_values(|s: String| s@));
    r
}

impl VectorData for ColInt {
    open spec fn values(&self) -> Cells {
        Cells::Int(self.data@)
    }

    open spec fn well_formed(&self) -> bool {
        true
    }

    fn push_from_str<F: Fn(&str) -> Result<u32, String>>(&mut self, x: &str, parse_float: &F) -> (r: Result<(), CellParseError>) {
        match parse_i32(trim_text(x)) {
            Ok(v) => {
                self.data.push(v);
                Ok(())
            },
            Err(message) => Err(CellParseError { text: String::from_str(x), message }),
        }
    }

    fn reserve(&mut self, additional: usize) {
        self.data.reserve(additional)
    }

    fn dtype(&self) -> (r: Dtype) {
        Dtype::ColInt
    }

    fn len(&self) -> (r: usize) {
        self.data.len()
    }

    fn copy_values(&self) -> (r: Self) {
        ColInt { data: copy_vec(&self.data) }
    }
}

impl VectorData for ColDouble {
    open spec fn values(&self) -> Cells {
        Cells::Double(self.data@)
    }

    open spec fn well_formed(&self) -> bool {
        true
    }

    fn push_from_str<F: Fn(&str) -> Result<u32, String>>(&mut self, x: &str, parse_float: &F) -> (r: Result<(), CellParseError>) {
        match call_float_parser(parse_float, trim_text(x)) {
            Ok(v) => {
                self.data.push(v);
                Ok(())
            },
            Err(message) => Err(CellParseError { text: String::from_str(x), message }),
        }
    }

    fn reserve(&mut self, additional: usize) {
        self.data.reserve(additional)
    }

    fn dtype(&self) -> (r: Dtype) {
        Dtype::ColDouble
    }

    fn len(&self) -> (r: usize) {
        self.data.len()
    }

    fn copy_values(&self) -> (r: Self) {
        ColDouble { data: copy_vec(&self.data) }
    }
}

impl VectorData for ColIntNullable {
    open spec fn values(&self) -> Cells {
        Cells::IntNullable(self.data@)
    }

    open spec fn well_formed(&self) -> bool {
        true
    }

    fn push_from_str<F: Fn(&str) -> Result<u32, String>>(&mut self, x: &str, parse_float: &F) -> (r: Result<(), CellParseError>) {
        let v = match parse_i32(trim_text(x)) {
            Ok(v) => Some(v),
            Err(_) => None,
        };
        self.data.push(v);
        Ok(())
    }

    fn reserve(&mut self, additional: usize) {
        self.data.reserve(additional)
    }

    fn dtype(&self) -> (r: Dtype) {
        Dtype::ColIntNullable
    }

    fn len(&self) -> (r: usize) {
        self.data.len()
    }

    fn copy_values(&self) -> (r: Self) {
        ColIntNullable { data: copy_vec(&self.data) }
    }
}

impl VectorData for ColDoubleNullable {
    open spec fn values(&self) -> Cells {
        Cells::DoubleNullable(self.data@)
    }

    open spec fn well_formed(&self) -> bool {
        true
    }

    fn push_from_str<F: Fn(&str) -> Result<u32, String>>(&mut self, x: &str, parse_float: &F) -> (r: Result<(), CellParseError>) {
        let v = match call_float_parser(parse_float, trim_text(x)) {
            Ok(v) => Some(v),
            Err(_) => None,
        };
        self.data.push(v);
        Ok(())
    }

    fn reserve(&mut self, additional: usize) {
        self.data.reserve(additional)
    }

    fn dtype(&self) -> (r: Dtype) {
        Dtype::ColDoubleNullable
    }

    fn len(&self) -> (r: usize) {
        self.data.len()
    }

    fn copy_values(&self) -> (r: Self) {
        ColDoubleNullable { data: copy_vec(&self.data) }
    }
}

impl VectorData for ColString {
    open spec fn values(&self) -> Cells {
        Cells::Str(self.data@.map_values(|s: String| s@))
    }

    open spec fn well_formed(&self) -> bool {
        true
    }

    fn push_from_str<F: Fn(&str) -> Result<u32, String>>(&mut self, x: &str, parse_float: &F) -> (r: Result<(), CellParseError>) {
        let ghost old_data = self.data@;
        self.data.push(String::from_str(x));
        assert(self.data@.map_values(|s: String| s@) =~= old_data.map_values(|s: String| s@).push(x@));
        Ok(())
    }

    fn reserve(&mut self, additional: usize) {
        self.data.reserve(additional)
    }

    fn dtype(&self) -> (r: Dtype) {
        Dtype::ColString
    }

    fn len(&self) -> (r: usize) {
        self.data.len()
    }

    fn copy_values(&self) -> (r: Self) {
        ColString { data: copy_strings(&self.data) }
    }
}

impl VectorData for ColStringPool {
    open spec fn values(&self) -> Cells {
        Cells::Pool(self.data.strings())
    }

    open spec fn well_formed(&self) -> bool {
        self.data.wf()
    }

    fn push_from_str<F: Fn(&str) -> Result<u32, String>>(&mut self, x: &str, parse_float: &F) -> (r: Result<(), CellParseError>) {
        self.data.add_str(x);
        Ok(())
    }

    fn reserve(&mut self, additional: usize) {
        self.data.reserve(additional)
    }

    fn dtype(&self) -> (r: Dtype) {
        Dtype::ColStringPool
    }

    fn len(&self) -> (r: usize) {
        self.data.len()
    }

    fn copy_values(&self) -> (r: Self) {
        self.clone()
    }
}

/// The payload of a column: one of the six typed vectors.
#[derive(Debug)]
pub enum ColumnData {
    Int(ColInt),
    Double(ColDouble),
    IntNullable(ColIntNullable),
    DoubleNullable(ColDoubleNullable),
    Str(ColString),
    Pool(ColStringPool),
}

impl ColumnData {
    pub open spec fn view(&self) -> Cells {
        match self {
            ColumnData::Int(c) => c.values(),
            ColumnData::Double(c) => c.values(),
            ColumnData::IntNullable(c) => c.values(),
            ColumnData::DoubleNullable(c) => c.values(),
            ColumnData::Str(c) => c.values(),
            ColumnData::Pool(c) => c.values(),
        }
    }

    pub open spec fn wf(&self) -> bool {
        match self {
            ColumnData::Pool(c) => c.well_formed(),
            _ => true,
        }
    }

    /// Empty payload of the given type.
    pub fn new(dtype: Dtype) -> (r: ColumnData)
        ensures
            r.wf(),
            r@ == empty_cells(dtype),
    {
        match dtype {
            Dtype::ColInt => ColumnData::Int(ColInt { data: Vec::new() }),
            Dtype::ColDouble => ColumnData::Double(ColDouble { data: Vec::new() }),
            Dtype::ColIntNullable => ColumnData::IntNullable(ColIntNullable { data: Vec::new() }),
            Dtype::ColDoubleNullable => ColumnData::DoubleNullable(ColDoubleNullable { data: Vec::new() }),
            Dtype::ColString => {
                let r = ColumnData::Str(ColString { data: Vec::new() });
                assert(r@ == empty_cells(dtype)) by {
                    assert(Seq::<String>::empty().map_values(|s: String| s@) =~= Seq::<Seq<char>>::empty());
                }
                r
            },
            Dtype::ColStringPool => {
                let p = StringPool::new();
                let r = ColumnData::Pool(ColStringPool { data: p });
                assert(p.strings() =~= Seq::<Seq<char>>::empty());
                r
            },
        }
    }

    /// The data type of the payload.
    pub fn dtype(&self) -> (r: Dtype)
        ensures
            r == self@.dtype(),
    {
        match self {
            ColumnData::Int(c) => c.dtype(),
            ColumnData::Double(c) => c.dtype(),
            ColumnData::IntNullable(c) => c.dtype(),
            ColumnData::DoubleNullable(c) => c.dtype(),
            ColumnData::Str(c) => c.dtype(),
            ColumnData::Pool(c) => c.dtype(),
        }
    }

    /// Number of values.
    pub fn len(&self) -> (r: usize)
        ensures
            r == self@.len(),
    {
        match self {
            ColumnData::Int(c) => c.len(),
            ColumnData::Double(c) => c.len(),
            ColumnData::IntNullable(c) => c.len(),
            ColumnData::DoubleNullable(c) => c.len(),
            ColumnData::Str(c) => c.len(),
            ColumnData::Pool(c) => c.len(),
        }
    }

    /// Makes room for `additional` more values; the values are unchanged.
    pub fn reserve(&mut self, additional: usize)
        requires
            old(self).wf(),
        ensures
            final(self).wf(),
            final(self)@ == old(self)@,
    {
        match self {
            ColumnData::Int(c) => c.reserve(additional),
            ColumnData::Double(c) => c.reserve(additional),
            ColumnData::IntNullable(c) => c.reserve(additional),
            ColumnData::DoubleNullable(c) => c.reserve(additional),
            ColumnData::Str(c) => c.reserve(additional),
            ColumnData::Pool(c) => c.reserve(additional),
        }
    }

    /// Appends the value that `x` denotes for this column's type. Only the
    /// strict numeric columns can fail, and then nothing is appended.
    pub fn push_from_str<F: Fn(&str) -> Result<u32, String>>(&mut self, x: &str, parse_float: &F) -> (r: Result<(), CellParseError>)
        requires
            old(self).wf(),
            float_parser_ok(parse_float),
        ensures
            final(self).wf(),
            r is Ok <==> cell_ok(old(self)@, x@, float_of(parse_float, trimmed(x@))),
            r is Ok ==> final(self)@ == cell_pushed(old(self)@, x@, float_of(parse_float, trimmed(x@))),
            r is Err ==> final(self)@ == old(self)@,
            r matches Err(e) ==> e.text@ == x@,
    {
        match self {
            ColumnData::Int(c) => c.push_from_str(x, parse_float),
            ColumnData::Double(c) => c.push_from_str(x, parse_float),
            ColumnData::IntNullable(c) => c.push_from_str(x, parse_float),
            ColumnData::DoubleNullable(c) => c.push_from_str(x, parse_float),
            ColumnData::Str(c) => c.push_from_str(x, parse_float),
            ColumnData::Pool(c) => c.push_from_str(x, parse_float),
        }
    }
}

impl ColumnData {
    /// The text of value `i`.
    pub fn cell_text<G: Fn(u32) -> String>(&self, i: usize, show_float: &G) -> (r: String)
        requires
            self.wf(),
            i < self@.len(),
            float_format_ok(show_float),
        ensures
            r@ == cell_texts(self@, show_float)[i as int],
    {
        match self {
            ColumnData::Int(c) => int_string(c.data[i]),
            ColumnData::Double(c) => call_float_format(show_float, c.data[i]),
            ColumnData::IntNullable(c) => match c.data[i] {
                Some(v) => int_string(v),
                None => {
                    let mut s = String::new();
                    push_all(&mut s, "NA");
                    proof {
                        reveal_strlit("NA");
                        assert(s@ =~= na_text());
                    }
                    s
                },
            },
            ColumnData::DoubleNullable(c) => match c.data[i] {
                Some(b) => call_float_format(show_float, b),
                None => {
                    let mut s = String::new();
                    push_all(&mut s, "NA");
                    proof {
                        reveal_strlit("NA");
                        assert(s@ =~= na_text());
                    }
                    s
                },
            },
            ColumnData::Str(c) => c.data[i].clone(),
            ColumnData::Pool(c) => String::from_str(c.data.get_str(i)),
        }
    }

    /// The values as text, each followed by `", "`; absent values read
    /// `NA`, floats are written by `show_float`.
    pub fn render<G: Fn(u32) -> String>(&self, show_float: &G) -> (r: String)
        requires
            self.wf(),
            float_format_ok(show_float),
        ensures
            r@ == joined(cell_texts(self@, show_float)),
    {
        let ghost ts = cell_texts(self@, show_float);
        let mut out = String::new();
        let mut i: usize = 0;
        let n = self.len();
        assert(ts.subrange(0, 0) =~= Seq::<Seq<char>>::empty());
        while i < n
            invariant
                self.wf(),
                float_format_ok(show_float),
                n == self@.len(),
                ts == cell_texts(self@, show_float),
                ts.len() == n,
                0 <= i <= n,
                out@ == joined(ts.subrange(0, i as int)),
            decreases n - i,
        {
            let t = self.cell_text(i, show_float);
            push_all(&mut out, t.as_str());
            push_all(&mut out, ", ");
            proof {
                let next = ts.subrange(0, i + 1);
                assert(next.drop_last() =~= ts.subrange(0, i as int));
                assert(next.last() == ts[i as int]);
                assert(out@ =~= joined(next));
            }
            i = i + 1;
        }
        assert(ts.subrange(0, n as int) =~= ts);
        out
    }
}

impl Clone for ColumnData {
    /// A copy with the same values; a pooled column gets a pool of its own.
    fn clone(&self) -> (r: ColumnData)
        ensures
            self.wf() ==> r.wf(),
            r@ == self@,
    {
        match self {
            ColumnData::Int(c) => ColumnData::Int(c.copy_values()),
            ColumnData::Double(c) => ColumnData::Double(c.copy_values()),
            ColumnData::IntNullable(c) => ColumnData::IntNullable(c.copy_values()),
            ColumnData::DoubleNullable(c) => ColumnData::DoubleNullable(c.copy_values()),
            ColumnData::Str(c) => ColumnData::Str(c.copy_values()),
            ColumnData::Pool(c) => ColumnData::Pool(c.clone()),
        }
    }
}

/// A column: an optional name and a typed payload.
#[derive(Debug)]
pub struct Column {
    pub name: Option<String>,
    pub dtype: Dtype,
    pub data: ColumnData,
}

impl Column {
    pub open spec fn name_view(&self) -> Option<Seq<char>> {
        match self.name {
            Some(n) => Some(n@),
            None => None,
        }
    }

    pub open spec fn wf(&self) -> bool {
        &&& self.data.wf()
        &&& self.data@.dtype() == self.dtype
    }

    /// An empty column of the given type.
    pub fn new(name: Option<String>, dtype: Dtype) -> (r: Column)
        ensures
            r.wf(),
            r.name == name,
            r.dtype == dtype,
            r.data@ == empty_cells(dtype),
    {
        Column { name, dtype, data: ColumnData::new(dtype) }
    }

    /// The column's data type.
    pub fn dtype(&self) -> (r: Dtype)
        ensures
            r == self.dtype,
    {
        self.dtype
    }
}

impl Clone for Column {
    /// A copy with the same name, type and values, and storage of its own.
    fn clone(&self) -> (r: Column)
        ensures
            self.wf() ==> r.wf(),
            r.name_view() == self.name_view(),
            r.dtype == self.dtype,
            r.data@ == self.data@,
    {
        let name = match &self.name {
            Some(n) => Some(n.clone()),
            None => None,
        };
        Column { name, dtype: self.dtype, data: self.data.clone() }
    }
}

} // verus!
