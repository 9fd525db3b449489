use vstd::prelude::*;
use vstd::string::*;

use crate::EstimateError;

verus! {

/// The bytes of an ASCII character sequence.
pub open spec fn bytes_of(s: Seq<char>) -> Seq<u8> {
    s.map_values(|c: char| c as u8)
}

/// The classes of bytes that the grammar reads in runs.
#[derive(Clone, Copy, Debug, PartialEq, Eq, Structural)]
pub enum ByteClass {
    /// Space, tab, carriage return or line feed.
    Blank,
    /// ASCII letters, digits and `_`.
    Ident,
    /// ASCII digits.
    Digit,
}

pub open spec fn is_digit(b: u8) -> bool {
    48 <= b <= 57
}

pub open spec fn in_class(c: ByteClass, b: u8) -> bool {
    match c {
        ByteClass::Blank => b == 32 || b == 9 || b == 10 || b == 13,
        ByteClass::Ident => is_digit(b) || (65 <= b <= 90) || (97 <= b <= 122) || b == 95,
        ByteClass::Digit => is_digit(b),
    }
}

/// The end of the longest run of bytes of class `c` that starts at `i`.
pub open spec fn run_end(t: Seq<u8>, i: int, c: ByteClass) -> int
    decreases t.len() - i,
{
    if 0 <= i < t.len() && in_class(c, t[i]) {
        run_end(t, i + 1, c)
    } else {
        i
    }
}

pub open spec fn skip_blank(t: Seq<u8>, i: int) -> int {
    run_end(t, i, ByteClass::Blank)
}

pub open spec fn lower(b: u8) -> u8 {
    if 65 <= b <= 90 {
        (b + 32) as u8
    } else {
        b
    }
}

/// The lower-case keyword `kw` stands at `i`, in any case.
pub open spec fn keyword_at(t: Seq<u8>, i: int, kw: Seq<u8>) -> bool {
    &&& 0 <= i
    &&& i + kw.len() <= t.len()
    &&& forall|k: int| 0 <= k < kw.len() ==> lower(#[trigger] t[i + k]) == kw[k]
}

pub open spec fn kw_select() -> Seq<u8> {
    seq![115u8, 101, 108, 101, 99, 116]
}

pub open spec fn kw_count() -> Seq<u8> {
    seq![99u8, 111, 117, 110, 116, 40, 42, 41]
}

pub open spec fn kw_from() -> Seq<u8> {
    seq![102u8, 114, 111, 109]
}

pub open spec fn kw_where() -> Seq<u8> {
    seq![119u8, 104, 101, 114, 101]
}

pub open spec fn kw_and() -> Seq<u8> {
    seq![97u8, 110, 100]
}

pub open spec fn is_comparator(b: u8) -> bool {
    b == 60 || b == 62 || b == 61
}

/// The end of a number that starts at `i`: digits, or optional digits, a
/// point and optional digits.
pub open spec fn number_end(t: Seq<u8>, i: int) -> Option<int> {
    let d = run_end(t, i, ByteClass::Digit);
    if 0 <= d < t.len() && t[d] == 46 {
        Some(run_end(t, d + 1, ByteClass::Digit))
    } else if d > i {
        Some(d)
    } else {
        None
    }
}

/// Where the parts of one condition `column comparator number` lie.
pub struct CondSpan {
    pub col_start: int,
    pub col_end: int,
    pub cmp: int,
    pub val_start: int,
    pub val_end: int,
    /// The first byte after the condition and the blanks that follow it.
    pub next: int,
}

pub open spec fn cond_span(t: Seq<u8>, i: int) -> Option<CondSpan> {
    let ce = run_end(t, i, ByteClass::Ident);
    let c = skip_blank(t, ce);
    if ce > i && 0 <= c < t.len() && is_comparator(t[c]) {
        let v = skip_blank(t, c + 1);
        match number_end(t, v) {
            Some(ve) => Some(
                CondSpan {
                    col_start: i,
                    col_end: ce,
                    cmp: c,
                    val_start: v,
                    val_end: ve,
                    next: skip_blank(t, ve),
                },
            ),
            None => None,
        }
    } else {
        None
    }
}

/// The parts of a parsed statement, as character sequences.
pub struct SelectModel {
    pub function: Seq<char>,
    pub table: Seq<char>,
    pub alias: Seq<char>,
    pub where_cond_column: Seq<char>,
    pub where_cond_comparator: Seq<char>,
    pub where_cond_value: Seq<char>,
    pub and_cond_column: Seq<char>,
    pub and_cond_comparator: Seq<char>,
    pub and_cond_value: Seq<char>,
}

pub open spec fn statement_model(
    s: Seq<char>,
    fn_start: int,
    fn_end: int,
    table_start: int,
    table_end: int,
    alias_start: int,
    alias_end: int,
    c1: CondSpan,
    c2: CondSpan,
) -> SelectModel {
    SelectModel {
        function: s.subrange(fn_start, fn_end),
        table: s.subrange(table_start, table_end),
        alias: s.subrange(alias_start, alias_end),
        where_cond_column: s.subrange(c1.col_start, c1.col_end),
        where_cond_comparator: s.subrange(c1.cmp, c1.cmp + 1),
        where_cond_value: s.subrange(c1.val_start, c1.val_end),
        and_cond_column: s.subrange(c2.col_start, c2.col_end),
        and_cond_comparator: s.subrange(c2.cmp, c2.cmp + 1),
        and_cond_value: s.subrange(c2.val_start, c2.val_end),
    }
}

/// The grammar of a statement, case-insensitive in its keywords, with blanks
/// free between tokens:
/// `SELECT [COUNT(*)] FROM table alias WHERE cond AND cond`, where a `cond` is
/// `column (<|>|=) number`. Nothing but blanks may follow the second condition.
pub open spec fn parse_spec(s: Seq<char>) -> Option<SelectModel> {
    let t = bytes_of(s);
    let i0 = skip_blank(t, 0);
    let i1 = skip_blank(t, i0 + kw_select().len());
    let has_fn = keyword_at(t, i1, kw_count());
    let fn_end = if has_fn { i1 + kw_count().len() } else { i1 };
    let i2 = skip_blank(t, fn_end);
    let i3 = skip_blank(t, i2 + kw_from().len());
    let e3 = run_end(t, i3, ByteClass::Ident);
    let i4 = skip_blank(t, e3);
    let e4 = run_end(t, i4, ByteClass::Ident);
    let i5 = skip_blank(t, e4);
    if !keyword_at(t, i0, kw_select()) || !keyword_at(t, i2, kw_from()) || e3 == i3 || e4 == i4
        || !keyword_at(t, i5, kw_where()) {
        None
    } else {
        match cond_span(t, skip_blank(t, i5 + kw_where().len())) {
            None => None,
            Some(c1) => if !keyword_at(t, c1.next, kw_and()) {
                None
            } else {
                match cond_span(t, skip_blank(t, c1.next + kw_and().len())) {
                    None => None,
                    Some(c2) => if c2.next != t.len() {
                        None
                    } else {
                        Some(statement_model(s, i1, fn_end, i3, e3, i4, e4, c1, c2))
                    },
                }
            },
        }
    }
}

/// A parsed statement: a count over one table, filtered by two conditions
/// joined by AND.
#[derive(Debug, PartialEq)]
pub struct SelectStatement {
    function: String,
    table: String,
    alias: String,
    where_cond_column: String,
    where_cond_comparator: String,
    where_cond_value: String,
    and_cond_column: String,
    and_cond_comparator: String,
    and_cond_value: String,
}

impl View for SelectStatement {
    type V = SelectModel;

    closed spec fn view(&self) -> SelectModel {
        SelectModel {
            function: self.function@,
            table: self.table@,
            alias: self.alias@,
            where_cond_column: self.where_cond_column@,
            where_cond_comparator: self.where_cond_comparator@,
            where_cond_value: self.where_cond_value@,
            and_cond_column: self.and_cond_column@,
            and_cond_comparator: self.and_cond_comparator@,
            and_cond_value: self.and_cond_value@,
        }
    }
}

impl SelectStatement {
    /// The aggregate function as written (`COUNT(*)`), or empty.
    pub fn function(&self) -> (r: &str)
        ensures
            r@ == self@.function,
    {
        self.function.as_str()
    }

    pub fn table(&self) -> (r: &str)
        ensures
            r@ == self@.table,
    {
        self.table.as_str()
    }

    pub fn alias(&self) -> (r: &str)
        ensures
            r@ == self@.alias,
    {
        self.alias.as_str()
    }

    pub fn where_cond_column(&self) -> (r: &str)
        ensures
            r@ == self@.where_cond_column,
    {
        self.where_cond_column.as_str()
    }

    pub fn where_cond_comparator(&self) -> (r: &str)
        ensures
            r@ == self@.where_cond_comparator,
    {
        self.where_cond_comparator.as_str()
    }

    pub fn where_cond_value(&self) -> (r: &str)
        ensures
            r@ == self@.where_cond_value,
    {
        self.where_cond_value.as_str()
    }

    pub fn and_cond_column(&self) -> (r: &str)
        ensures
            r@ == self@.and_cond_column,
    {
        self.and_cond_column.as_str()
    }

    pub fn and_cond_comparator(&self) -> (r: &str)
        ensures
            r@ == self@.and_cond_comparator,
    {
        self.and_cond_comparator.as_str()
    }

    pub fn and_cond_value(&self) -> (r: &str)
        ensures
            r@ == self@.and_cond_value,
    {
        self.and_cond_value.as_str()
    }
}

fn in_class_exec(c: ByteClass, b: u8) -> (r: bool)
    ensures
        r == in_class(c, b),
{
    match c {
        ByteClass::Blank => b == 32 || b == 9 || b == 10 || b == 13,
        ByteClass::Ident => (48 <= b && b <= 57) || (65 <= b && b <= 90) || (97 <= b && b <= 122)
            || b == 95,
        ByteClass::Digit => 48 <= b && b <= 57,
    }
}

fn class_end(t: &[u8], i: usize, c: ByteClass) -> (r: usize)
    requires
        i <= t@.len(),
    ensures
        r == run_end(t@, i as int, c),
        i <= r <= t@.len(),
{
    let mut j = i;
    while j < t.len() && in_class_exec(c, t[j])
        invariant
            i <= j <= t@.len(),
            run_end(t@, i as int, c) == run_end(t@, j as int, c),
        decreases t@.len() - j,
    {
        j += 1;
    }
    j
}

fn skip_blank_exec(t: &[u8], i: usize) -> (r: usize)
    requires
        i <= t@.len(),
    ensures
        r == skip_blank(t@, i as int),
        i <= r <= t@.len(),
{
    class_end(t, i, ByteClass::Blank)
}

fn lower_exec(b: u8) -> (r: u8)
    ensures
        r == lower(b),
{
    if 65 <= b && b <= 90 {
        b + 32
    } else {
        b
    }
}

fn keyword_at_exec(t: &[u8], i: usize, kw: &[u8]) -> (r: bool)
    requires
        i <= t@.len(),
    ensures
        r == keyword_at(t@, i as int, kw@),
        r ==> i + kw@.len() <= t@.len(),
{
    let n = t.len();
    if kw.len() > n - i {
        return false;
    }
    let mut j: usize = 0;
    while j < kw.len()
        invariant
            n == t@.len(),
            j <= kw@.len(),
            i + kw@.len() <= t@.len(),
            forall|k: int| 0 <= k < j ==> lower(#[trigger] t@[i + k]) == kw@[k],
        decreases kw@.len() - j,
    {
        if lower_exec(t[i + j]) != kw[j] {
            assert(lower(t@[i + j as int]) != kw@[j as int]);
            return false;
        }
        j += 1;
    }
    true
}

fn number_end_exec(t: &[u8], i: usize) -> (r: Option<usize>)
    requires
        i <= t@.len(),
    ensures
        r matches Some(e) ==> number_end(t@, i as int) == Some(e as int) && i <= e <= t@.len(),
        r is None ==> number_end(t@, i as int) is None,
{
    let d = class_end(t, i, ByteClass::Digit);
    if d < t.len() && t[d] == 46 {
        Some(class_end(t, d + 1, ByteClass::Digit))
    } else if d > i {
        Some(d)
    } else {
        None
    }
}

/// Positions of a condition, as `cond_span` gives them.
struct CondPos {
    col_start: usize,
    col_end: usize,
    cmp: usize,
    val_start: usize,
    val_end: usize,
    next: usize,
}

impl CondPos {
    spec fn span(&self) -> CondSpan {
        CondSpan {
            col_start: self.col_start as int,
            col_end: self.col_end as int,
            cmp: self.cmp as int,
            val_start: self.val_start as int,
            val_end: self.val_end as int,
            next: self.next as int,
        }
    }
}

fn cond_span_exec(t: &[u8], i: usize) -> (r: Option<CondPos>)
    requires
        i <= t@.len(),
    ensures
        r matches Some(p) ==> cond_span(t@, i as int) == Some(p.span()) && p.col_start <= p.col_end
            <= p.cmp < p.val_start <= p.val_end <= p.next <= t@.len(),
        r is None ==> cond_span(t@, i as int) is None,
{
    let ce = class_end(t, i, ByteClass::Ident);
    let c = skip_blank_exec(t, ce);
    if ce > i && c < t.len() && (t[c] == 60 || t[c] == 62 || t[c] == 61) {
        let v = skip_blank_exec(t, c + 1);
        match number_end_exec(t, v) {
            Some(ve) => {
                let next = skip_blank_exec(t, ve);
                Some(CondPos { col_start: i, col_end: ce, cmp: c, val_start: v, val_end: ve, next })
            },
            None => None,
        }
    } else {
        None
    }
}

fn piece(s: &str, from: usize, to: usize) -> (r: String)
    requires
        s.is_ascii(),
        from <= to <= s@.len(),
    ensures
        r@ == s@.subrange(from as int, to as int),
{
    s.substring_ascii(from, to).to_owned()
}

/// Parses a statement of the form
/// `SELECT COUNT(*) FROM lineitem l WHERE l_quantity > 10 AND l_quantity < 20`.
/// Fails with `SyntaxError` exactly when the text does not follow the grammar
/// of `parse_spec`, trailing text included.
pub fn parse_select_statement(input: &str) -> (r: Result<SelectStatement, EstimateError>)
    ensures
        r matches Ok(st) ==> is_ascii(input) && parse_spec(input@) == Some(st@),
        r matches Err(e) ==> e == EstimateError::SyntaxError && (!is_ascii(input) || parse_spec(
            input@,
        ) is None),
{
    broadcast use vstd::string::is_ascii_spec_bytes;

    if !input.is_ascii() {
        return Err(EstimateError::SyntaxError);
    }
    let t = input.as_bytes();
    let n = t.len();
    assert(t@ =~= bytes_of(input@));
    let ghost s = input@;
    let select_word: Vec<u8> = vec![115u8, 101, 108, 101, 99, 116];
    let count_word: Vec<u8> = vec![99u8, 111, 117, 110, 116, 40, 42, 41];
    let from_word: Vec<u8> = vec![102u8, 114, 111, 109];
    let where_word: Vec<u8> = vec![119u8, 104, 101, 114, 101];
    let and_word: Vec<u8> = vec![97u8, 110, 100];
    assert(select_word@ =~= kw_select());
    assert(count_word@ =~= kw_count());
    assert(from_word@ =~= kw_from());
    assert(where_word@ =~= kw_where());
    assert(and_word@ =~= kw_and());

    let i0 = skip_blank_exec(t, 0);
    if !keyword_at_exec(t, i0, select_word.as_slice()) {
        return Err(EstimateError::SyntaxError);
    }
    let i1 = skip_blank_exec(t, i0 + select_word.len());
    let has_fn = keyword_at_exec(t, i1, count_word.as_slice());
    let fn_end = if has_fn {
        i1 + count_word.len()
    } else {
        i1
    };
    let i2 = skip_blank_exec(t, fn_end);
    if !keyword_at_exec(t, i2, from_word.as_slice()) {
        return Err(EstimateError::SyntaxError);
    }
    let i3 = skip_blank_exec(t, i2 + from_word.len());
    let e3 = class_end(t, i3, ByteClass::Ident);
    let i4 = skip_blank_exec(t, e3);
    let e4 = class_end(t, i4, ByteClass::Ident);
    let i5 = skip_blank_exec(t, e4);
    if e3 == i3 || e4 == i4 || !keyword_at_exec(t, i5, where_word.as_slice()) {
        return Err(EstimateError::SyntaxError);
    }
    let c1 = match cond_span_exec(t, skip_blank_exec(t, i5 + where_word.len())) {
        Some(c) => c,
        None => {
            return Err(EstimateError::SyntaxError);
        },
    };
    if !keyword_at_exec(t, c1.next, and_word.as_slice()) {
        return Err(EstimateError::SyntaxError);
    }
    let c2 = match cond_span_exec(t, skip_blank_exec(t, c1.next + and_word.len())) {
        Some(c) => c,
        None => {
            return Err(EstimateError::SyntaxError);
        },
    };
    if c2.next != n {
        return Err(EstimateError::SyntaxError);
    }
    let st = SelectStatement {
        function: piece(input, i1, fn_end),
        table: piece(input, i3, e3),
        alias: piece(input, i4, e4),
        where_cond_column: piece(input, c1.col_start, c1.col_end),
        where_cond_comparator: piece(input, c1.cmp, c1.cmp + 1),
        where_cond_value: piece(input, c1.val_start, c1.val_end),
        and_cond_column: piece(input, c2.col_start, c2.col_end),
        and_cond_comparator: piece(input, c2.cmp, c2.cmp + 1),
        and_cond_value: piece(input, c2.val_start, c2.val_end),
    };
    assert(st@ == statement_model(s, i1 as int, fn_end as int, i3 as int, e3 as int, i4 as int, e4 as int, c1.span(), c2.span()));
    Ok(st)
}

} // verus!
