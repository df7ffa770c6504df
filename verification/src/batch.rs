//! Columns of values, read out of rows of JSON.
use vstd::prelude::*;

use crate::columns::DataType;
use crate::json;
use crate::json::{JsonValue, Row};

verus! {

/// How close a hit is: a number as it is written (nothing counts as zero), whose
/// sign is changed where it is a distance.
#[derive(Debug)]
pub struct Score {
    pub number: Option<String>,
    pub negated: bool,
}

/// What a [`Score`] says.
pub struct ScoreModel {
    pub number: Option<Seq<char>>,
    pub negated: bool,
}

impl View for Score {
    type V = ScoreModel;

    open spec fn view(&self) -> ScoreModel {
        ScoreModel { number: crate::text::text_of(self.number), negated: self.negated }
    }
}

impl Score {
    /// A copy of the score.
    pub fn copy(&self) -> (r: Self)
        ensures
            r@ == self@,
    {
        Score { number: crate::text::copy_text(&self.number), negated: self.negated }
    }
}

/// The values of a column. Floats are held as they are written.
#[derive(Debug)]
pub enum ColumnData {
    Boolean(Vec<Option<bool>>),
    Int32(Vec<Option<i32>>),
    Int64(Vec<Option<i64>>),
    Float32(Vec<Option<String>>),
    Float64(Vec<Option<String>>),
    Utf8(Vec<Option<String>>),
    Scores(Vec<Score>),
}

/// What a [`ColumnData`] holds.
pub enum ColumnModel {
    Boolean(Seq<Option<bool>>),
    Int32(Seq<Option<i32>>),
    Int64(Seq<Option<i64>>),
    Float32(Seq<Option<Seq<char>>>),
    Float64(Seq<Option<Seq<char>>>),
    Utf8(Seq<Option<Seq<char>>>),
    Scores(Seq<ScoreModel>),
}

/// The texts of a list of optional texts.
pub open spec fn optional_texts(v: Seq<Option<String>>) -> Seq<Option<Seq<char>>> {
    Seq::new(v.len(), |i: int| crate::text::text_of(v[i]))
}

/// What a list of scores says.
pub open spec fn score_models(v: Seq<Score>) -> Seq<ScoreModel> {
    Seq::new(v.len(), |i: int| v[i]@)
}

impl View for ColumnData {
    type V = ColumnModel;

    open spec fn view(&self) -> ColumnModel {
        match *self {
            ColumnData::Boolean(v) => ColumnModel::Boolean(v@),
            ColumnData::Int32(v) => ColumnModel::Int32(v@),
            ColumnData::Int64(v) => ColumnModel::Int64(v@),
            ColumnData::Float32(v) => ColumnModel::Float32(optional_texts(v@)),
            ColumnData::Float64(v) => ColumnModel::Float64(optional_texts(v@)),
            ColumnData::Utf8(v) => ColumnModel::Utf8(optional_texts(v@)),
            ColumnData::Scores(v) => ColumnModel::Scores(score_models(v@)),
        }
    }
}

/// What a list of columns holds.
pub open spec fn column_models(v: Seq<ColumnData>) -> Seq<ColumnModel> {
    Seq::new(v.len(), |i: int| v[i]@)
}

/// The low 32 bits of `n`, as a signed integer.
pub open spec fn low_bits(n: i64) -> i32 {
    let m = (n as int) % 0x1_0000_0000;
    if m >= 0x8000_0000 {
        (m - 0x1_0000_0000) as i32
    } else {
        m as i32
    }
}

/// The low 32 bits of `n`, as a signed integer.
pub fn truncated(n: i64) -> (r: i32)
    ensures
        r == low_bits(n),
{
    let p: i64 = 0x1_0000_0000;
    let m: i64 = if n >= 0 {
        n % p
    } else {
        let k: i64 = -(n + 1);
        assert(k % p == k as int - p * (k as int / p as int)) by (nonlinear_arith)
            requires
                k >= 0,
                p == 0x1_0000_0000,
        ;
        proof {
            vstd::arithmetic::div_mod::lemma_fundamental_div_mod_converse(
                n as int,
                p as int,
                -(k as int / p as int) - 1,
                p - 1 - (k as int % p as int),
            );
        }
        p - 1 - k % p
    };
    if m >= 0x8000_0000 {
        (m - p) as i32
    } else {
        m as i32
    }
}

/// The integer that a value is.
pub open spec fn int_in(v: Option<JsonValue>) -> Option<i64> {
    match v {
        Some(j) => j.integer(),
        None => None,
    }
}

/// The low 32 bits of the integer that a value is.
pub open spec fn small_int_in(v: Option<JsonValue>) -> Option<i32> {
    match int_in(v) {
        Some(n) => Some(low_bits(n)),
        None => None,
    }
}

/// The number that a value is, as it is written.
pub open spec fn number_in(v: Option<JsonValue>) -> Option<Seq<char>> {
    match v {
        Some(j) => j.number(),
        None => None,
    }
}

/// The truth value that a value is.
pub open spec fn truth_in(v: Option<JsonValue>) -> Option<bool> {
    match v {
        Some(j) => j.truth(),
        None => None,
    }
}

/// A value as a text.
pub open spec fn text_in(v: Option<JsonValue>) -> Option<Seq<char>> {
    match v {
        Some(j) => j.shown(),
        None => None,
    }
}

/// Values read as a column of a type: what is not of the type is null, except that
/// anything can be read as a text.
pub open spec fn column(ty: DataType, values: Seq<Option<JsonValue>>) -> ColumnModel {
    match ty {
        DataType::Boolean => ColumnModel::Boolean(
            Seq::new(values.len(), |i: int| truth_in(values[i])),
        ),
        DataType::Int32 => ColumnModel::Int32(
            Seq::new(values.len(), |i: int| small_int_in(values[i])),
        ),
        DataType::Int64 => ColumnModel::Int64(Seq::new(values.len(), |i: int| int_in(values[i]))),
        DataType::Float32 => ColumnModel::Float32(
            Seq::new(values.len(), |i: int| number_in(values[i])),
        ),
        DataType::Float64 => ColumnModel::Float64(
            Seq::new(values.len(), |i: int| number_in(values[i])),
        ),
        DataType::Utf8 | DataType::Other(_) => ColumnModel::Utf8(
            Seq::new(values.len(), |i: int| text_in(values[i])),
        ),
    }
}

/// The value behind an optional reference.
pub open spec fn found(v: Option<&JsonValue>) -> Option<JsonValue> {
    match v {
        Some(j) => Some(*j),
        None => None,
    }
}

/// The values behind optional references.
pub open spec fn all_found(v: Seq<Option<&JsonValue>>) -> Seq<Option<JsonValue>> {
    Seq::new(v.len(), |i: int| found(v[i]))
}

fn truths(values: &Vec<Option<&JsonValue>>) -> (r: Vec<Option<bool>>)
    ensures
        r@ == Seq::new(values@.len(), |i: int| truth_in(found(values[i]))),
{
    let mut r: Vec<Option<bool>> = Vec::new();
    let mut i: usize = 0;
    while i < values.len()
        invariant
            i <= values.len(),
            r.len() == i,
            forall|k: int| 0 <= k < i ==> #[trigger] r[k] == truth_in(found(values[k])),
        decreases values.len() - i,
    {
        r.push(
            match values[i] {
                Some(v) => v.as_bool(),
                None => None,
            },
        );
        i += 1;
    }
    r
}

fn ints(values: &Vec<Option<&JsonValue>>) -> (r: Vec<Option<i64>>)
    ensures
        r@ == Seq::new(values@.len(), |i: int| int_in(found(values[i]))),
{
    let mut r: Vec<Option<i64>> = Vec::new();
    let mut i: usize = 0;
    while i < values.len()
        invariant
            i <= values.len(),
            r.len() == i,
            forall|k: int| 0 <= k < i ==> #[trigger] r[k] == int_in(found(values[k])),
        decreases values.len() - i,
    {
        r.push(
            match values[i] {
                Some(v) => v.as_i64(),
                None => None,
            },
        );
        i += 1;
    }
    r
}

fn small_ints(values: &Vec<Option<&JsonValue>>) -> (r: Vec<Option<i32>>)
    ensures
        r@ == Seq::new(values@.len(), |i: int| small_int_in(found(values[i]))),
{
    let mut r: Vec<Option<i32>> = Vec::new();
    let mut i: usize = 0;
    while i < values.len()
        invariant
            i <= values.len(),
            r.len() == i,
            forall|k: int| 0 <= k < i ==> #[trigger] r[k] == small_int_in(found(values[k])),
        decreases values.len() - i,
    {
        r.push(
            match values[i] {
                Some(v) => match v.as_i64() {
                    Some(n) => Some(truncated(n)),
                    None => None,
                },
                None => None,
            },
        );
        i += 1;
    }
    r
}

fn numbers(values: &Vec<Option<&JsonValue>>) -> (r: Vec<Option<String>>)
    ensures
        optional_texts(r@) == Seq::new(values@.len(), |i: int| number_in(found(values[i]))),
{
    let mut r: Vec<Option<String>> = Vec::new();
    let mut i: usize = 0;
    while i < values.len()
        invariant
            i <= values.len(),
            r.len() == i,
            forall|k: int|
                0 <= k < i ==> crate::text::text_of(#[trigger] r[k]) == number_in(found(values[k])),
        decreases values.len() - i,
    {
        r.push(
            match values[i] {
                Some(v) => v.as_number(),
                None => None,
            },
        );
        i += 1;
    }
    r
}

fn shown_values(values: &Vec<Option<&JsonValue>>) -> (r: Vec<Option<String>>)
    ensures
        optional_texts(r@) == Seq::new(values@.len(), |i: int| text_in(found(values[i]))),
{
    let mut r: Vec<Option<String>> = Vec::new();
    let mut i: usize = 0;
    while i < values.len()
        invariant
            i <= values.len(),
            r.len() == i,
            forall|k: int|
                0 <= k < i ==> crate::text::text_of(#[trigger] r[k]) == text_in(found(values[k])),
        decreases values.len() - i,
    {
        r.push(
            match values[i] {
                Some(v) => v.to_text(),
                None => None,
            },
        );
        i += 1;
    }
    r
}

/// Values read as a column of a type.
pub fn read_column(ty: DataType, values: &Vec<Option<&JsonValue>>) -> (r: ColumnData)
    ensures
        r@ == column(ty, all_found(values@)),
{
    let ghost vs = all_found(values@);
    match ty {
        DataType::Boolean => {
            let v = truths(values);
            assert(v@ == Seq::new(vs.len(), |i: int| truth_in(vs[i])));
            ColumnData::Boolean(v)
        },
        DataType::Int32 => {
            let v = small_ints(values);
            assert(v@ == Seq::new(vs.len(), |i: int| small_int_in(vs[i])));
            ColumnData::Int32(v)
        },
        DataType::Int64 => {
            let v = ints(values);
            assert(v@ == Seq::new(vs.len(), |i: int| int_in(vs[i])));
            ColumnData::Int64(v)
        },
        DataType::Float32 => {
            let v = numbers(values);
            assert(optional_texts(v@) == Seq::new(vs.len(), |i: int| number_in(vs[i])));
            ColumnData::Float32(v)
        },
        DataType::Float64 => {
            let v = numbers(values);
            assert(optional_texts(v@) == Seq::new(vs.len(), |i: int| number_in(vs[i])));
            ColumnData::Float64(v)
        },
        DataType::Utf8 | DataType::Other(_) => {
            let v = shown_values(values);
            assert(optional_texts(v@) == Seq::new(vs.len(), |i: int| text_in(vs[i])));
            ColumnData::Utf8(v)
        },
    }
}

/// The values that rows hold under a name.
pub open spec fn values_under(rows: Seq<Row>, name: Seq<char>) -> Seq<Option<JsonValue>> {
    Seq::new(rows.len(), |i: int| json::value(rows[i]@, name))
}

/// The values that rows hold under a name, read as a column of a type.
pub fn column_of_rows(ty: DataType, rows: &Vec<Row>, name: &str) -> (r: ColumnData)
    ensures
        r@ == column(ty, values_under(rows@, name@)),
{
    let mut values: Vec<Option<&JsonValue>> = Vec::new();
    let mut i: usize = 0;
    while i < rows.len()
        invariant
            i <= rows.len(),
            values.len() == i,
            forall|k: int|
                0 <= k < i ==> found(#[trigger] values[k]) == json::value(rows[k]@, name@),
        decreases rows.len() - i,
    {
        values.push(rows[i].get(name));
        i += 1;
    }
    assert(all_found(values@) == values_under(rows@, name@));
    read_column(ty, &values)
}

/// Columns of the same length. Without columns there is still a number of rows.
#[derive(Debug)]
pub struct Batch {
    pub columns: Vec<ColumnData>,
    pub rows: usize,
}

// ---------------------------------------------------------------------------
// What a column holds
// ---------------------------------------------------------------------------

/// `t` is the number `n` as it is written.
pub open spec fn is_number(t: Seq<char>, n: crate::json::JsonNumber) -> bool {
    match n {
        crate::json::JsonNumber::PosInt(k) => crate::numeral::numeral(t) == Some(k as nat),
        crate::json::JsonNumber::NegInt(k) => crate::predicate::is_numeral_of(t, k as int),
        crate::json::JsonNumber::Float(s) => t == s@,
    }
}

/// `t` is a value as a text: a text is itself, a null or a value that is missing is
/// null, any other value is as it is written.
pub open spec fn is_shown(t: Option<Seq<char>>, v: Option<JsonValue>) -> bool {
    match v {
        None => t is None,
        Some(JsonValue::Null) => t is None,
        Some(JsonValue::Text(s)) => t == Some(s@),
        Some(JsonValue::Bool(b)) => t == Some(
            if b {
                "true"@
            } else {
                "false"@
            },
        ),
        Some(JsonValue::Number(n)) => t matches Some(w) && is_number(w, n),
        Some(JsonValue::Array { items, rendering }) => t == Some(rendering@),
        Some(JsonValue::Object { rendering }) => t == Some(rendering@),
    }
}

/// `k` is the integer that a value is, if it is one that has 64 bits.
pub open spec fn is_integer(k: Option<i64>, v: Option<JsonValue>) -> bool {
    match v {
        Some(JsonValue::Number(crate::json::JsonNumber::PosInt(n))) => if n <= i64::MAX {
            k matches Some(m) && m == n
        } else {
            k is None
        },
        Some(JsonValue::Number(crate::json::JsonNumber::NegInt(n))) => k == Some(n),
        _ => k is None,
    }
}

/// Row `i` of the column `c` holds the value `v`, read by the type of the column; what
/// is not of the type is null.
pub open spec fn holds_value(c: ColumnModel, ty: DataType, i: int, v: Option<JsonValue>) -> bool {
    match (ty, c) {
        (DataType::Boolean, ColumnModel::Boolean(col)) => col[i] == match v {
            Some(JsonValue::Bool(b)) => Some(b),
            _ => None,
        },
        (DataType::Int64, ColumnModel::Int64(col)) => is_integer(col[i], v),
        (DataType::Int32, ColumnModel::Int32(col)) => exists|k: Option<i64>| #[trigger]
            is_integer(k, v) && match (k, col[i]) {
                (Some(n), Some(m)) => (n - m) % 0x1_0000_0000 == 0,
                (None, None) => true,
                _ => false,
            },
        (DataType::Float32, ColumnModel::Float32(col)) => match (v, col[i]) {
            (Some(JsonValue::Number(n)), Some(t)) => is_number(t, n),
            (Some(JsonValue::Number(_)), None) => false,
            (_, t) => t is None,
        },
        (DataType::Float64, ColumnModel::Float64(col)) => match (v, col[i]) {
            (Some(JsonValue::Number(n)), Some(t)) => is_number(t, n),
            (Some(JsonValue::Number(_)), None) => false,
            (_, t) => t is None,
        },
        (DataType::Utf8, ColumnModel::Utf8(col)) => is_shown(col[i], v),
        (DataType::Other(_), ColumnModel::Utf8(col)) => is_shown(col[i], v),
        _ => false,
    }
}

/// The number of rows of a column.
pub open spec fn rows_of(c: ColumnModel) -> nat {
    match c {
        ColumnModel::Boolean(v) => v.len(),
        ColumnModel::Int32(v) => v.len(),
        ColumnModel::Int64(v) => v.len(),
        ColumnModel::Float32(v) => v.len(),
        ColumnModel::Float64(v) => v.len(),
        ColumnModel::Utf8(v) => v.len(),
        ColumnModel::Scores(v) => v.len(),
    }
}

proof fn lemma_written(n: crate::json::JsonNumber)
    ensures
        is_number(n.written(), n),
{
    match n {
        crate::json::JsonNumber::PosInt(k) => {
            crate::numeral::law_numeral_round_trip(k as nat);
        },
        crate::json::JsonNumber::NegInt(k) => {
            if k < 0 {
                crate::numeral::law_numeral_round_trip((-k) as nat);
                assert(n.written().skip(1) =~= crate::numeral::decimal((-k) as nat));
            } else {
                crate::numeral::law_numeral_round_trip(k as nat);
            }
        },
        crate::json::JsonNumber::Float(s) => {},
    }
}

/// A column has a row for each value, and row `i` holds the value `i`.
pub proof fn law_columns_hold_the_values(ty: DataType, values: Seq<Option<JsonValue>>, i: int)
    requires
        0 <= i < values.len(),
    ensures
        rows_of(column(ty, values)) == values.len(),
        holds_value(column(ty, values), ty, i, values[i]),
{
    let v = values[i];
    if let Some(JsonValue::Number(n)) = v {
        lemma_written(n);
    }
    assert(is_integer(int_in(v), v));
    if let Some(n) = int_in(v) {
        let m = (n as int) % 0x1_0000_0000;
        assert((n - low_bits(n)) % 0x1_0000_0000 == 0);
    }
}

} // verus!
