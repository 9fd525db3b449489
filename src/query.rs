use vstd::prelude::*;
use vstd::string::*;

use crate::numeral::{
    dec_eq, dec_equal, dec_less, dec_lt, lemma_numeric_value_in_range, numeric_value,
    numeric_value_of, Decimal,
};
use crate::parser::{SelectModel, SelectStatement};

verus! {

/// One named value of a row, as text.
#[derive(Debug)]
pub struct Field {
    pub name: String,
    pub value: String,
}

/// A table record: its fields in schema order.
#[derive(Debug)]
pub struct Row {
    pub fields: Vec<Field>,
}

/// The value of the first field of `fields` at or after `k` named `name`.
pub open spec fn find_from(fields: Seq<Field>, name: Seq<char>, k: int) -> Option<Seq<char>>
    decreases fields.len() - k,
{
    if k < 0 || k >= fields.len() {
        None
    } else if fields[k].name@ == name {
        Some(fields[k].value@)
    } else {
        find_from(fields, name, k + 1)
    }
}

/// The value of the first field named `name`.
pub open spec fn field_value(fields: Seq<Field>, name: Seq<char>) -> Option<Seq<char>> {
    find_from(fields, name, 0)
}

/// `x cmp bound`, where `cmp` is one of `<`, `>`, `=`; any other comparator fails.
pub open spec fn comparison_holds(x: Decimal, cmp: Seq<char>, bound: Decimal) -> bool {
    if cmp == seq!['<'] {
        dec_lt(x, bound)
    } else if cmp == seq!['>'] {
        dec_lt(bound, x)
    } else if cmp == seq!['='] {
        dec_eq(x, bound)
    } else {
        false
    }
}

/// 1 when the row meets both conditions, else 0. The conditions are read only
/// when both name the same column; the value of that column, and each bound,
/// counts as zero where it is no numeral.
pub open spec fn indicator(fields: Seq<Field>, st: SelectModel) -> i64 {
    if st.where_cond_column != st.and_cond_column {
        0
    } else {
        match field_value(fields, st.where_cond_column) {
            None => 0,
            Some(v) => {
                let x = numeric_value(v);
                if comparison_holds(x, st.where_cond_comparator, numeric_value(st.where_cond_value))
                    && comparison_holds(
                    x,
                    st.and_cond_comparator,
                    numeric_value(st.and_cond_value),
                ) {
                    1
                } else {
                    0
                }
            },
        }
    }
}

fn find_field<'a>(row: &'a Row, name: &str) -> (r: Option<&'a String>)
    ensures
        r matches Some(v) ==> field_value(row.fields@, name@) == Some(v@),
        r is None ==> field_value(row.fields@, name@) is None,
{
    let mut k: usize = 0;
    while k < row.fields.len()
        invariant
            k <= row.fields@.len(),
            field_value(row.fields@, name@) == find_from(row.fields@, name@, k as int),
        decreases row.fields@.len() - k,
    {
        let f = &row.fields[k];
        if str_equal(f.name.as_str(), name) {
            return Some(&f.value);
        }
        k += 1;
    }
    None
}

fn str_equal(a: &str, b: &str) -> (r: bool)
    ensures
        r == (a@ == b@),
{
    let n = a.unicode_len();
    if n != b.unicode_len() {
        return false;
    }
    let mut i: usize = 0;
    while i < n
        invariant
            n == a@.len() == b@.len(),
            i <= n,
            forall|k: int| 0 <= k < i ==> a@[k] == b@[k],
        decreases n - i,
    {
        if a.get_char(i) != b.get_char(i) {
            return false;
        }
        i += 1;
    }
    assert(a@ =~= b@);
    true
}

fn holds(x: Decimal, cmp: &str, bound: Decimal) -> (r: bool)
    requires
        crate::numeral::in_range(x),
        crate::numeral::in_range(bound),
    ensures
        r == comparison_holds(x, cmp@, bound),
{
    if cmp.unicode_len() != 1 {
        assert(cmp@ != seq!['<'] && cmp@ != seq!['>'] && cmp@ != seq!['=']);
        return false;
    }
    let c = cmp.get_char(0);
    if c == '<' {
        assert(cmp@ =~= seq!['<']);
        dec_less(x, bound)
    } else if c == '>' {
        assert(cmp@ =~= seq!['>']);
        dec_less(bound, x)
    } else if c == '=' {
        assert(cmp@ =~= seq!['=']);
        dec_equal(x, bound)
    } else {
        assert(cmp@ != seq!['<'] && cmp@ != seq!['>'] && cmp@ != seq!['=']);
        false
    }
}

fn row_indicator(row: &Row, select: &SelectStatement) -> (r: i64)
    ensures
        r == indicator(row.fields@, select@),
{
    let column = select.where_cond_column();
    if !str_equal(column, select.and_cond_column()) {
        return 0;
    }
    match find_field(row, column) {
        None => 0,
        Some(v) => {
            let x = numeric_value_of(v.as_str());
            let first = numeric_value_of(select.where_cond_value());
            let second = numeric_value_of(select.and_cond_value());
            proof {
                lemma_numeric_value_in_range(v@);
                lemma_numeric_value_in_range(select@.where_cond_value);
                lemma_numeric_value_in_range(select@.and_cond_value);
            }
            if holds(x, select.where_cond_comparator(), first) && holds(
                x,
                select.and_cond_comparator(),
                second,
            ) {
                1
            } else {
                0
            }
        },
    }
}

/// All values 0 or 1.
pub open spec fn is_indicator_seq(s: Seq<i64>) -> bool {
    forall|i: int| 0 <= i < s.len() ==> #[trigger] s[i] == 0 || s[i] == 1
}

/// The indicator of each row, in row order: 1 where the row meets the
/// statement's two conditions, else 0.
pub fn get_query_result(data: &Vec<Row>, select: &SelectStatement) -> (r: Vec<i64>)
    ensures
        r@.len() == data@.len(),
        forall|i: int| 0 <= i < data@.len() ==> #[trigger] r@[i] == indicator(data@[i].fields@, select@),
        is_indicator_seq(r@),
{
    let mut results: Vec<i64> = Vec::new();
    let mut i: usize = 0;
    while i < data.len()
        invariant
            i <= data@.len(),
            results@.len() == i,
            forall|k: int| 0 <= k < i ==> #[trigger] results@[k] == indicator(data@[k].fields@, select@),
        decreases data@.len() - i,
    {
        let v = row_indicator(&data[i], select);
        results.push(v);
        i += 1;
    }
    results
}

/// A copy of `row`, field by field.
pub fn copy_row(row: &Row) -> (r: Row)
    ensures
        r.fields@ == row.fields@,
{
    let mut fields: Vec<Field> = Vec::new();
    let mut k: usize = 0;
    while k < row.fields.len()
        invariant
            k <= row.fields@.len(),
            fields@ =~= row.fields@.take(k as int),
        decreases row.fields@.len() - k,
    {
        let f = &row.fields[k];
        fields.push(Field { name: f.name.clone(), value: f.value.clone() });
        k += 1;
    }
    assert(row.fields@.take(k as int) =~= row.fields@);
    Row { fields }
}

} // verus!
