//! The typed column-value model: declared data types, stored values, and the
//! type-strict equality and ordering between values.

use vstd::prelude::*;
use vstd::string::StrSliceExecFns;

use crate::error::{QlError, QlResult};

verus! {

/// The data type a table column is declared with.
#[derive(Clone, Copy, PartialEq, Eq, Structural, Debug)]
pub enum ColumnDataType {
    I8,
    I16,
    I32,
    I64,
    I128,
    U8,
    U16,
    U32,
    U64,
    U128,
    String,
}

/// The value held by one column of one row.
#[derive(Debug)]
pub enum ColumnValue {
    I8(i8),
    I16(i16),
    I32(i32),
    I64(i64),
    I128(i128),
    U8(u8),
    U16(u16),
    U32(u32),
    U64(u64),
    U128(u128),
    String(String),
    Null,
}

/// The mathematical model of a `ColumnValue`: each integer width keeps its own
/// variant (equality and ordering are type-strict), integers widen to `int`,
/// and text becomes its character sequence.
pub enum ValueModel {
    I8(int),
    I16(int),
    I32(int),
    I64(int),
    I128(int),
    U8(int),
    U16(int),
    U32(int),
    U64(int),
    U128(int),
    Text(Seq<char>),
    Null,
}

impl View for ColumnValue {
    type V = ValueModel;

    open spec fn view(&self) -> ValueModel {
        match self {
            ColumnValue::I8(v) => ValueModel::I8(*v as int),
            ColumnValue::I16(v) => ValueModel::I16(*v as int),
            ColumnValue::I32(v) => ValueModel::I32(*v as int),
            ColumnValue::I64(v) => ValueModel::I64(*v as int),
            ColumnValue::I128(v) => ValueModel::I128(*v as int),
            ColumnValue::U8(v) => ValueModel::U8(*v as int),
            ColumnValue::U16(v) => ValueModel::U16(*v as int),
            ColumnValue::U32(v) => ValueModel::U32(*v as int),
            ColumnValue::U64(v) => ValueModel::U64(*v as int),
            ColumnValue::U128(v) => ValueModel::U128(*v as int),
            ColumnValue::String(s) => ValueModel::Text(s@),
            ColumnValue::Null => ValueModel::Null,
        }
    }
}

impl Clone for ColumnValue {
    fn clone(&self) -> (r: Self)
        ensures
            r == *self,
    {
        match self {
            ColumnValue::I8(v) => ColumnValue::I8(*v),
            ColumnValue::I16(v) => ColumnValue::I16(*v),
            ColumnValue::I32(v) => ColumnValue::I32(*v),
            ColumnValue::I64(v) => ColumnValue::I64(*v),
            ColumnValue::I128(v) => ColumnValue::I128(*v),
            ColumnValue::U8(v) => ColumnValue::U8(*v),
            ColumnValue::U16(v) => ColumnValue::U16(*v),
            ColumnValue::U32(v) => ColumnValue::U32(*v),
            ColumnValue::U64(v) => ColumnValue::U64(*v),
            ColumnValue::U128(v) => ColumnValue::U128(*v),
            ColumnValue::String(s) => ColumnValue::String(s.clone()),
            ColumnValue::Null => ColumnValue::Null,
        }
    }
}

impl PartialEq for ColumnValue {
    fn eq(&self, other: &Self) -> (r: bool) {
        match (self, other) {
            (ColumnValue::I8(a), ColumnValue::I8(b)) => *a == *b,
            (ColumnValue::I16(a), ColumnValue::I16(b)) => *a == *b,
            (ColumnValue::I32(a), ColumnValue::I32(b)) => *a == *b,
            (ColumnValue::I64(a), ColumnValue::I64(b)) => *a == *b,
            (ColumnValue::I128(a), ColumnValue::I128(b)) => *a == *b,
            (ColumnValue::U8(a), ColumnValue::U8(b)) => *a == *b,
            (ColumnValue::U16(a), ColumnValue::U16(b)) => *a == *b,
            (ColumnValue::U32(a), ColumnValue::U32(b)) => *a == *b,
            (ColumnValue::U64(a), ColumnValue::U64(b)) => *a == *b,
            (ColumnValue::U128(a), ColumnValue::U128(b)) => *a == *b,
            (ColumnValue::String(a), ColumnValue::String(b)) => a.eq(b),
            (ColumnValue::Null, ColumnValue::Null) => true,
            _ => false,
        }
    }
}

impl vstd::std_specs::cmp::PartialEqSpecImpl for ColumnValue {
    open spec fn obeys_eq_spec() -> bool {
        true
    }

    open spec fn eq_spec(&self, other: &Self) -> bool {
        self@ == other@
    }
}

/// The three possible outcomes of an ordering comparison between two values
/// that admit one.
#[derive(Clone, Copy, PartialEq, Eq, Structural, Debug)]
pub enum ValueOrdering {
    Less,
    Equal,
    Greater,
}

/// Two value models admit an ordering comparison only when they are the same
/// numeric variant or both text; null admits none, not even against null.
pub open spec fn comparable(a: ValueModel, b: ValueModel) -> bool {
    match (a, b) {
        (ValueModel::I8(_), ValueModel::I8(_)) => true,
        (ValueModel::I16(_), ValueModel::I16(_)) => true,
        (ValueModel::I32(_), ValueModel::I32(_)) => true,
        (ValueModel::I64(_), ValueModel::I64(_)) => true,
        (ValueModel::I128(_), ValueModel::I128(_)) => true,
        (ValueModel::U8(_), ValueModel::U8(_)) => true,
        (ValueModel::U16(_), ValueModel::U16(_)) => true,
        (ValueModel::U32(_), ValueModel::U32(_)) => true,
        (ValueModel::U64(_), ValueModel::U64(_)) => true,
        (ValueModel::U128(_), ValueModel::U128(_)) => true,
        (ValueModel::Text(_), ValueModel::Text(_)) => true,
        _ => false,
    }
}

/// The integer payload of a numeric value model (zero elsewhere).
pub open spec fn numeric_of(v: ValueModel) -> int {
    match v {
        ValueModel::I8(n) => n,
        ValueModel::I16(n) => n,
        ValueModel::I32(n) => n,
        ValueModel::I64(n) => n,
        ValueModel::I128(n) => n,
        ValueModel::U8(n) => n,
        ValueModel::U16(n) => n,
        ValueModel::U32(n) => n,
        ValueModel::U64(n) => n,
        ValueModel::U128(n) => n,
        ValueModel::Text(_) => 0,
        ValueModel::Null => 0,
    }
}

/// The character sequence of a text value model (empty elsewhere).
pub open spec fn text_of(v: ValueModel) -> Seq<char> {
    match v {
        ValueModel::Text(s) => s,
        _ => Seq::empty(),
    }
}

/// Strict lexicographic order on character sequences, by Unicode scalar value.
pub open spec fn lex_lt(a: Seq<char>, b: Seq<char>) -> bool
    decreases a.len(),
{
    if b.len() == 0 {
        false
    } else if a.len() == 0 {
        true
    } else if a[0] == b[0] {
        lex_lt(a.drop_first(), b.drop_first())
    } else {
        (a[0] as u32) < (b[0] as u32)
    }
}

/// The ordering between two comparable value models: native numeric order for
/// the numeric variants, lexicographic order for text.
pub open spec fn spec_cmp(a: ValueModel, b: ValueModel) -> ValueOrdering
    recommends
        comparable(a, b),
{
    if a is Text {
        let x = text_of(a);
        let y = text_of(b);
        if x == y {
            ValueOrdering::Equal
        } else if lex_lt(x, y) {
            ValueOrdering::Less
        } else {
            ValueOrdering::Greater
        }
    } else {
        let x = numeric_of(a);
        let y = numeric_of(b);
        if x < y {
            ValueOrdering::Less
        } else if x == y {
            ValueOrdering::Equal
        } else {
            ValueOrdering::Greater
        }
    }
}

/// Whether a value model is allowed in a column declared with data type `dt`
/// and nullability `nullable`.
pub open spec fn value_fits(v: ValueModel, dt: ColumnDataType, nullable: bool) -> bool {
    match v {
        ValueModel::I8(_) => dt is I8,
        ValueModel::I16(_) => dt is I16,
        ValueModel::I32(_) => dt is I32,
        ValueModel::I64(_) => dt is I64,
        ValueModel::I128(_) => dt is I128,
        ValueModel::U8(_) => dt is U8,
        ValueModel::U16(_) => dt is U16,
        ValueModel::U32(_) => dt is U32,
        ValueModel::U64(_) => dt is U64,
        ValueModel::U128(_) => dt is U128,
        ValueModel::Text(_) => dt is String,
        ValueModel::Null => nullable,
    }
}

/// Comparability only looks at the variants, so it carries over any chain.
pub proof fn lemma_comparable_trans(a: ValueModel, b: ValueModel, c: ValueModel)
    requires
        comparable(a, b),
        comparable(b, c),
    ensures
        comparable(a, c),
{
}

/// Dropping an equal prefix of length `i` does not change how two character
/// sequences compare.
pub proof fn lemma_lex_skip(a: Seq<char>, b: Seq<char>, i: int)
    requires
        0 <= i <= a.len(),
        i <= b.len(),
        forall|j: int| 0 <= j < i ==> a[j] == b[j],
    ensures
        lex_lt(a, b) == lex_lt(a.skip(i), b.skip(i)),
    decreases i,
{
    if i > 0 {
        assert(a[0] == b[0]);
        assert(a.len() > 0 && b.len() > 0);
        assert(forall|j: int| 0 <= j < i - 1 ==> a.drop_first()[j] == b.drop_first()[j]);
        lemma_lex_skip(a.drop_first(), b.drop_first(), i - 1);
        assert(a.drop_first().skip(i - 1) =~= a.skip(i));
        assert(b.drop_first().skip(i - 1) =~= b.skip(i));
    } else {
        assert(a.skip(0) =~= a);
        assert(b.skip(0) =~= b);
    }
}

/// Lexicographic order is total: two sequences are equal, or one is strictly
/// below the other.
pub proof fn lemma_lex_total(a: Seq<char>, b: Seq<char>)
    ensures
        a == b || lex_lt(a, b) || lex_lt(b, a),
    decreases a.len(),
{
    if b.len() == 0 {
        if a.len() == 0 {
            assert(a =~= b);
        } else {
            assert(lex_lt(b, a));
        }
    } else if a.len() == 0 {
        assert(lex_lt(a, b));
    } else if a[0] == b[0] {
        lemma_lex_total(a.drop_first(), b.drop_first());
        if a.drop_first() == b.drop_first() {
            assert forall|i: int| 0 <= i < a.len() implies a[i] == b[i] by {
                if i > 0 {
                    assert(a[i] == a.drop_first()[i - 1]);
                    assert(b[i] == b.drop_first()[i - 1]);
                }
            }
            assert(a =~= b);
        } else if lex_lt(a.drop_first(), b.drop_first()) {
            assert(lex_lt(a, b));
        } else {
            assert(lex_lt(b, a));
        }
    } else {
        if (a[0] as u32) < (b[0] as u32) {
            assert(lex_lt(a, b));
        } else {
            assert((b[0] as u32) < (a[0] as u32)) by {
                vstd::utf8::char_u32_cast(a[0], a[0] as u32);
                vstd::utf8::char_u32_cast(b[0], b[0] as u32);
            }
            assert(lex_lt(b, a));
        }
    }
}

/// Strict lexicographic order is asymmetric, and never relates a sequence to
/// itself.
pub proof fn lemma_lex_asym(a: Seq<char>, b: Seq<char>)
    requires
        lex_lt(a, b),
    ensures
        !lex_lt(b, a),
        a != b,
    decreases a.len(),
{
    if a.len() > 0 && b.len() > 0 && a[0] == b[0] {
        lemma_lex_asym(a.drop_first(), b.drop_first());
    }
}

/// Strict lexicographic order is transitive.
pub proof fn lemma_lex_trans(a: Seq<char>, b: Seq<char>, c: Seq<char>)
    requires
        lex_lt(a, b),
        lex_lt(b, c),
    ensures
        lex_lt(a, c),
    decreases a.len(),
{
    if a.len() > 0 && c.len() > 0 {
        if a[0] == b[0] && b[0] == c[0] {
            lemma_lex_trans(a.drop_first(), b.drop_first(), c.drop_first());
        }
    }
}

/// Under comparability, the comparison is `Equal` exactly between equal
/// values, and flipping the operands flips `Less` and `Greater`.
pub proof fn lemma_cmp_basic(a: ValueModel, b: ValueModel)
    requires
        comparable(a, b),
    ensures
        spec_cmp(a, b) is Equal <==> a == b,
        spec_cmp(a, b) is Less <==> spec_cmp(b, a) is Greater,
        spec_cmp(a, b) is Greater <==> spec_cmp(b, a) is Less,
{
    if a is Text {
        let x = text_of(a);
        let y = text_of(b);
        lemma_lex_total(x, y);
        if lex_lt(x, y) {
            lemma_lex_asym(x, y);
        }
        if lex_lt(y, x) {
            lemma_lex_asym(y, x);
        }
    }
}

/// Under comparability, being strictly below is transitive.
pub proof fn lemma_cmp_trans(a: ValueModel, b: ValueModel, c: ValueModel)
    requires
        comparable(a, b),
        comparable(b, c),
        spec_cmp(a, b) is Less,
        spec_cmp(b, c) is Less,
    ensures
        comparable(a, c),
        spec_cmp(a, c) is Less,
{
    if a is Text {
        let x = text_of(a);
        let y = text_of(b);
        let z = text_of(c);
        lemma_lex_trans(x, y, z);
        lemma_lex_asym(x, z);
    }
}

/// Exact comparison of two strings: `Equal` iff the character sequences are
/// equal, else the lexicographic order decides.
fn compare_text(a: &String, b: &String) -> (r: ValueOrdering)
    ensures
        r == spec_cmp(ValueModel::Text(a@), ValueModel::Text(b@)),
{
    let a_str = a.as_str();
    let b_str = b.as_str();
    let a_len = a_str.unicode_len();
    let b_len = b_str.unicode_len();
    let n: usize = if a_len < b_len {
        a_len
    } else {
        b_len
    };
    let mut i: usize = 0;
    while i < n
        invariant
            a_str@ == a@,
            b_str@ == b@,
            a_len == a@.len(),
            b_len == b@.len(),
            n <= a_len && n <= b_len,
            0 <= i <= n,
            forall|j: int| 0 <= j < i ==> a@[j] == b@[j],
        decreases n - i,
    {
        let ca = a_str.get_char(i);
        let cb = b_str.get_char(i);
        if (ca as u32) < (cb as u32) {
            proof {
                lemma_lex_skip(a@, b@, i as int);
            }
            return ValueOrdering::Less;
        }
        if (ca as u32) > (cb as u32) {
            proof {
                lemma_lex_skip(a@, b@, i as int);
            }
            return ValueOrdering::Greater;
        }
        proof {
            assert(a@[i as int] == b@[i as int]);
        }
        i = i + 1;
    }
    if a_len == b_len {
        proof {
            assert(a@ =~= b@);
        }
        ValueOrdering::Equal
    } else if a_len < b_len {
        proof {
            lemma_lex_skip(a@, b@, n as int);
            assert(a@.skip(n as int).len() == 0);
            assert(b@.skip(n as int).len() > 0);
            assert(a@.len() != b@.len());
        }
        ValueOrdering::Less
    } else {
        proof {
            lemma_lex_skip(a@, b@, n as int);
            assert(b@.skip(n as int).len() == 0);
            assert(a@.skip(n as int).len() > 0);
            assert(a@.len() != b@.len());
        }
        ValueOrdering::Greater
    }
}

/// Ordering comparison between two stored values. Returns the ordering for
/// comparable values and `IncomparableValues` exactly when the two do not
/// admit one (different variants, or a null operand).
pub fn compare_values(a: &ColumnValue, b: &ColumnValue) -> (r: QlResult<ValueOrdering>)
    ensures
        comparable(a@, b@) ==> r == Ok::<ValueOrdering, QlError>(spec_cmp(a@, b@)),
        !comparable(a@, b@) ==> (r matches Err(e) && e is IncomparableValues),
{
    match (a, b) {
        (ColumnValue::I8(x), ColumnValue::I8(y)) => Ok(compare_ints(*x as i128, *y as i128)),
        (ColumnValue::I16(x), ColumnValue::I16(y)) => Ok(compare_ints(*x as i128, *y as i128)),
        (ColumnValue::I32(x), ColumnValue::I32(y)) => Ok(compare_ints(*x as i128, *y as i128)),
        (ColumnValue::I64(x), ColumnValue::I64(y)) => Ok(compare_ints(*x as i128, *y as i128)),
        (ColumnValue::I128(x), ColumnValue::I128(y)) => Ok(compare_ints(*x, *y)),
        (ColumnValue::U8(x), ColumnValue::U8(y)) => Ok(compare_uints(*x as u128, *y as u128)),
        (ColumnValue::U16(x), ColumnValue::U16(y)) => Ok(compare_uints(*x as u128, *y as u128)),
        (ColumnValue::U32(x), ColumnValue::U32(y)) => Ok(compare_uints(*x as u128, *y as u128)),
        (ColumnValue::U64(x), ColumnValue::U64(y)) => Ok(compare_uints(*x as u128, *y as u128)),
        (ColumnValue::U128(x), ColumnValue::U128(y)) => Ok(compare_uints(*x, *y)),
        (ColumnValue::String(x), ColumnValue::String(y)) => Ok(compare_text(x, y)),
        _ => Err(QlError::IncomparableValues),
    }
}

/// Native order on signed integers, widened to the largest width.
fn compare_ints(x: i128, y: i128) -> (r: ValueOrdering)
    ensures
        x < y ==> r is Less,
        x == y ==> r is Equal,
        x > y ==> r is Greater,
{
    if x < y {
        ValueOrdering::Less
    } else if x == y {
        ValueOrdering::Equal
    } else {
        ValueOrdering::Greater
    }
}

/// Native order on unsigned integers, widened to the largest width.
fn compare_uints(x: u128, y: u128) -> (r: ValueOrdering)
    ensures
        x < y ==> r is Less,
        x == y ==> r is Equal,
        x > y ==> r is Greater,
{
    if x < y {
        ValueOrdering::Less
    } else if x == y {
        ValueOrdering::Equal
    } else {
        ValueOrdering::Greater
    }
}

/// Whether a stored value is allowed in a column declared with `dt` and
/// `nullable`: the variant must match, and null needs permission.
pub fn check_value_fits(v: &ColumnValue, dt: &ColumnDataType, nullable: bool) -> (r: bool)
    ensures
        r == value_fits(v@, *dt, nullable),
{
    match v {
        ColumnValue::I8(_) => matches!(dt, ColumnDataType::I8),
        ColumnValue::I16(_) => matches!(dt, ColumnDataType::I16),
        ColumnValue::I32(_) => matches!(dt, ColumnDataType::I32),
        ColumnValue::I64(_) => matches!(dt, ColumnDataType::I64),
        ColumnValue::I128(_) => matches!(dt, ColumnDataType::I128),
        ColumnValue::U8(_) => matches!(dt, ColumnDataType::U8),
        ColumnValue::U16(_) => matches!(dt, ColumnDataType::U16),
        ColumnValue::U32(_) => matches!(dt, ColumnDataType::U32),
        ColumnValue::U64(_) => matches!(dt, ColumnDataType::U64),
        ColumnValue::U128(_) => matches!(dt, ColumnDataType::U128),
        ColumnValue::String(_) => matches!(dt, ColumnDataType::String),
        ColumnValue::Null => nullable,
    }
}

} // verus!
