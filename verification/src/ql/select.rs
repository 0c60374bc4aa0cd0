//! The `SELECT` query: its description, its validating builder, and its
//! execution engine, which resolves the table reference, snapshots the rows,
//! filters them through the constraint tree, stable-sorts them, and projects
//! the requested columns.

use vstd::prelude::*;
use vstd::string::{StrSliceExecFns, StringExecFns};

use crate::cache::{row_cells, row_lookup, same_contents, wf_schema, CacheSchema, CacheTableRow, QlCache};
use crate::conc_map::{rows_of, rows_snapshot, schemas_insert, schemas_take, tables_insert, tables_of, tables_take};
use crate::error::{QlError, QlResult, QueryError};
use crate::ql::constraints::{compute_node, node_matches, AndConstraint, BoxedConstraint, ConstraintNode, OrConstraint};
use crate::ql::sortby::{SortBy, SortOrdering};
use crate::ql::{Query, QueryKind};
use crate::value::{comparable, compare_values, lemma_cmp_basic, lemma_cmp_trans, lemma_comparable_trans, spec_cmp, ColumnValue, ValueModel, ValueOrdering};

verus! {

/// A `SELECT` query.
#[derive(Debug)]
pub struct Select {
    /// The table to select from: a plain table name looked up in `PUBLIC`, or
    /// a two-part `schema table` reference separated by a space.
    pub table_name: String,
    /// The columns the query projects.
    pub scope: SelectScope,
    /// The constraint retained rows must satisfy, if any.
    pub constraint: Option<BoxedConstraint>,
    /// How the retained rows are sorted, if at all.
    pub sort_by: Option<SortBy>,
}

/// The scope of a `SELECT` query: all columns, or a chosen list in a chosen
/// order.
#[derive(Debug)]
pub enum SelectScope {
    Everything,
    Fields(Vec<String>),
}

impl Select {
    /// Returns a builder for a `SELECT` query.
    pub(crate) fn builder() -> (r: SelectBuilder)
        ensures
            r.table_name is None,
            r.scope is None,
            r.constraint is None,
            r.sort_by is None,
    {
        SelectBuilder { table_name: None, scope: None, constraint: None, sort_by: None }
    }
}

/// A builder for a `Select`, constructing a `SELECT` query.
#[derive(Debug)]
pub struct SelectBuilder {
    /// The table to select from, once set.
    pub table_name: Option<String>,
    /// The columns to project, once set.
    pub scope: Option<SelectScope>,
    /// The constraint accumulated so far, if any.
    pub constraint: Option<BoxedConstraint>,
    /// The sort configuration, if any.
    pub sort_by: Option<SortBy>,
}

impl SelectBuilder {
    /// Sets the table name for the selection.
    pub fn table_name(self, table_name: String) -> (r: Self)
        ensures
            r.table_name == Some(table_name),
            r.scope == self.scope,
            r.constraint == self.constraint,
            r.sort_by == self.sort_by,
    {
        Self {
            table_name: Some(table_name),
            scope: self.scope,
            constraint: self.constraint,
            sort_by: self.sort_by,
        }
    }

    /// Sets the selection scope for the selection.
    pub fn scope(self, scope: SelectScope) -> (r: Self)
        ensures
            r.table_name == self.table_name,
            r.scope == Some(scope),
            r.constraint == self.constraint,
            r.sort_by == self.sort_by,
    {
        Self {
            table_name: self.table_name,
            scope: Some(scope),
            constraint: self.constraint,
            sort_by: self.sort_by,
        }
    }

    /// Sets a constraint for the selection, replacing any set before.
    pub fn constraint(self, constraint: BoxedConstraint) -> (r: Self)
        ensures
            r.table_name == self.table_name,
            r.scope == self.scope,
            r.constraint == Some(constraint),
            r.sort_by == self.sort_by,
    {
        Self {
            table_name: self.table_name,
            scope: self.scope,
            constraint: Some(constraint),
            sort_by: self.sort_by,
        }
    }

    /// Wraps the previously set constraint and the given one into an "and"
    /// constraint, the existing tree as the left operand. Fails exactly when
    /// no constraint was set before.
    pub fn and(self, constraint: BoxedConstraint) -> (r: QlResult<Self>)
        ensures
            self.constraint is None ==> (r matches Err(e) && e
                is NoFirstConstraintFoundBeforeAndOr),
            self.constraint matches Some(c) ==> (r matches Ok(b) && {
                &&& b.table_name == self.table_name
                &&& b.scope == self.scope
                &&& b.sort_by == self.sort_by
                &&& b.constraint matches Some(nc) && *nc matches ConstraintNode::And(a) && a.left
                    == c && a.right == constraint
            }),
    {
        match self.constraint {
            None => Err(QlError::NoFirstConstraintFoundBeforeAndOr),
            Some(exist_constraint) => Ok(
                Self {
                    table_name: self.table_name,
                    scope: self.scope,
                    constraint: Some(
                        Box::new(
                            ConstraintNode::And(AndConstraint::new(exist_constraint, constraint)),
                        ),
                    ),
                    sort_by: self.sort_by,
                },
            ),
        }
    }

    /// Wraps the previously set constraint and the given one into an "or"
    /// constraint, the existing tree as the left operand. Fails exactly when
    /// no constraint was set before.
    pub fn or(self, constraint: BoxedConstraint) -> (r: QlResult<Self>)
        ensures
            self.constraint is None ==> (r matches Err(e) && e
                is NoFirstConstraintFoundBeforeAndOr),
            self.constraint matches Some(c) ==> (r matches Ok(b) && {
                &&& b.table_name == self.table_name
                &&& b.scope == self.scope
                &&& b.sort_by == self.sort_by
                &&& b.constraint matches Some(nc) && *nc matches ConstraintNode::Or(o) && o.left
                    == c && o.right == constraint
            }),
    {
        match self.constraint {
            None => Err(QlError::NoFirstConstraintFoundBeforeAndOr),
            Some(exist_constraint) => Ok(
                Self {
                    table_name: self.table_name,
                    scope: self.scope,
                    constraint: Some(
                        Box::new(
                            ConstraintNode::Or(OrConstraint::new(exist_constraint, constraint)),
                        ),
                    ),
                    sort_by: self.sort_by,
                },
            ),
        }
    }

    /// Configures how results are sorted.
    pub fn sort_by(self, sort_by: SortBy) -> (r: Self)
        ensures
            r.table_name == self.table_name,
            r.scope == self.scope,
            r.constraint == self.constraint,
            r.sort_by == Some(sort_by),
    {
        Self {
            table_name: self.table_name,
            scope: self.scope,
            constraint: self.constraint,
            sort_by: Some(sort_by),
        }
    }

    /// Consumes the builder and returns a `SELECT` query. Succeeds exactly
    /// when the table name and the scope were both set, reporting the first
    /// missing one in that order.
    pub fn build(self) -> (r: QlResult<Query>)
        ensures
            r is Ok <==> (self.table_name is Some && self.scope is Some),
            r matches Ok(q) ==> q.query matches QueryKind::Select(s) && ({
                &&& Some(s.table_name) == self.table_name
                &&& Some(s.scope) == self.scope
                &&& s.constraint == self.constraint
                &&& s.sort_by == self.sort_by
            }),
            r matches Err(e) ==> e matches QlError::RequiredFieldIsNone { field_name } && (if (
            self.table_name is None) {
                field_name@ == "SelectBuilder.table_name"@
            } else {
                field_name@ == "SelectBuilder.scope"@
            }),
    {
        if self.table_name.is_none() {
            return Err(
                QlError::RequiredFieldIsNone {
                    field_name: String::from_str("SelectBuilder.table_name"),
                },
            );
        }
        if self.scope.is_none() {
            return Err(
                QlError::RequiredFieldIsNone {
                    field_name: String::from_str("SelectBuilder.scope"),
                },
            );
        }
        Ok(
            Query {
                query: QueryKind::Select(
                    Select {
                        table_name: self.table_name.unwrap(),
                        scope: self.scope.unwrap(),
                        constraint: self.constraint,
                        sort_by: self.sort_by,
                    },
                ),
            },
        )
    }
}

// ---------------------------------------------------------------------------
// Resolving the table reference.
/// The index of the first space in a table reference, or `-1` if it has none.
pub open spec fn first_space(s: Seq<char>) -> int
    decreases s.len(),
{
    if s.len() == 0 {
        -1
    } else if s[0] == ' ' {
        0
    } else {
        let r = first_space(s.drop_first());
        if r < 0 {
            -1
        } else {
            r + 1
        }
    }
}

/// `first_space` finds the first space, and `-1` means there is none.
proof fn lemma_first_space(s: Seq<char>)
    ensures
        -1 <= first_space(s) < s.len(),
        first_space(s) >= 0 ==> s[first_space(s)] == ' ',
        first_space(s) >= 0 ==> forall|j: int| 0 <= j < first_space(s) ==> s[j] != ' ',
        first_space(s) == -1 ==> forall|j: int| 0 <= j < s.len() ==> s[j] != ' ',
    decreases s.len(),
{
    if s.len() > 0 && s[0] != ' ' {
        lemma_first_space(s.drop_first());
        assert(forall|j: int| 1 <= j < s.len() ==> s[j] == s.drop_first()[j - 1]);
    }
}

/// The schema a table reference names: what stands before the first space, or
/// `PUBLIC` when the reference is a plain table name.
pub open spec fn ref_schema(s: Seq<char>) -> Seq<char> {
    if first_space(s) < 0 {
        "PUBLIC"@
    } else {
        s.take(first_space(s))
    }
}

/// The table a table reference names: what stands after the first space, or
/// the whole reference when it has none.
pub open spec fn ref_table(s: Seq<char>) -> Seq<char> {
    if first_space(s) < 0 {
        s
    } else {
        s.skip(first_space(s) + 1)
    }
}

/// Splits a table reference into its schema and table parts.
fn split_reference(name: &String) -> (r: (String, String))
    ensures
        r.0@ == ref_schema(name@),
        r.1@ == ref_table(name@),
{
    proof {
        lemma_first_space(name@);
    }
    let s = name.as_str();
    let n = s.unicode_len();
    let mut i: usize = 0;
    while i < n
        invariant
            0 <= i <= n,
            n == name@.len(),
            s@ == name@,
            forall|j: int| 0 <= j < i ==> name@[j] != ' ',
        decreases n - i,
    {
        let c = s.get_char(i);
        if c == ' ' {
            proof {
                lemma_first_space(name@);
                assert(first_space(name@) == i);
            }
            let schema = s.substring_char(0, i).to_owned();
            let table = s.substring_char(i + 1, n).to_owned();
            proof {
                assert(schema@ =~= name@.take(i as int));
                assert(table@ =~= name@.skip(i as int + 1));
            }
            return (schema, table);
        }
        i = i + 1;
    }
    proof {
        lemma_first_space(name@);
        assert(first_space(name@) == -1);
    }
    (String::from_str("PUBLIC"), name.clone())
}

// ---------------------------------------------------------------------------
// Ordering rows by the sort columns.
/// The views of a list of column names.
pub open spec fn col_views(cols: Seq<String>) -> Seq<Seq<char>> {
    cols.map_values(|c: String| c@)
}

/// The models of a list of rows.
pub open spec fn rows_model(rows: Seq<CacheTableRow>) -> Seq<Seq<(Seq<char>, ValueModel)>> {
    rows.map_values(|r: CacheTableRow| r@)
}

/// The value a row holds for a field, reading an absent field as null.
pub open spec fn key_at(row: Seq<(Seq<char>, ValueModel)>, field: Seq<char>) -> ValueModel {
    match row_lookup(row, field) {
        Some(v) => v,
        None => ValueModel::Null,
    }
}

/// The direction-adjusted ordering of two values.
pub open spec fn dir_cmp(ord: SortOrdering, a: ValueModel, b: ValueModel) -> ValueOrdering {
    match ord {
        SortOrdering::Ascending => spec_cmp(a, b),
        SortOrdering::Descending => spec_cmp(b, a),
    }
}

/// Whether row `a` sorts at or before row `b`: the first sort column whose
/// values differ decides, and a full tie counts as "at or before".
pub open spec fn row_le(
    cols: Seq<Seq<char>>,
    ord: SortOrdering,
    a: Seq<(Seq<char>, ValueModel)>,
    b: Seq<(Seq<char>, ValueModel)>,
) -> bool
    decreases cols.len(),
{
    if cols.len() == 0 {
        true
    } else {
        match dir_cmp(ord, key_at(a, cols[0]), key_at(b, cols[0])) {
            ValueOrdering::Less => true,
            ValueOrdering::Greater => false,
            ValueOrdering::Equal => row_le(cols.drop_first(), ord, a, b),
        }
    }
}

/// Whether two rows admit comparison on every sort column: both carry each
/// column, with mutually comparable values.
pub open spec fn pair_sortable(
    cols: Seq<Seq<char>>,
    a: Seq<(Seq<char>, ValueModel)>,
    b: Seq<(Seq<char>, ValueModel)>,
) -> bool {
    forall|k: int|
        0 <= k < cols.len() ==> {
            &&& row_lookup(a, #[trigger] cols[k]) is Some
            &&& row_lookup(b, cols[k]) is Some
            &&& comparable(key_at(a, cols[k]), key_at(b, cols[k]))
        }
}

/// Whether a set of rows can be sorted on the columns: every pair of
/// distinct rows admits comparison on every column.
pub open spec fn rows_sortable(cols: Seq<Seq<char>>, rows: Seq<Seq<(Seq<char>, ValueModel)>>) -> bool {
    forall|i: int, j: int|
        0 <= i < rows.len() && 0 <= j < rows.len() && i != j ==> pair_sortable(
            cols,
            #[trigger] rows[i],
            #[trigger] rows[j],
        )
}

/// Dropping leading tied columns does not change how two rows compare.
proof fn lemma_row_le_skip(
    cols: Seq<Seq<char>>,
    ord: SortOrdering,
    a: Seq<(Seq<char>, ValueModel)>,
    b: Seq<(Seq<char>, ValueModel)>,
    k: int,
)
    requires
        0 <= k <= cols.len(),
        forall|j: int| 0 <= j < k ==> dir_cmp(ord, key_at(a, #[trigger] cols[j]), key_at(b, cols[j])) is Equal,
    ensures
        row_le(cols, ord, a, b) == row_le(cols.skip(k), ord, a, b),
    decreases k,
{
    if k > 0 {
        assert(dir_cmp(ord, key_at(a, cols[0]), key_at(b, cols[0])) is Equal);
        assert(forall|j: int|
            0 <= j < k - 1 ==> #[trigger] cols.drop_first()[j] == cols[j + 1]);
        lemma_row_le_skip(cols.drop_first(), ord, a, b, k - 1);
        assert(cols.drop_first().skip(k - 1) =~= cols.skip(k));
    } else {
        assert(cols.skip(0) =~= cols);
    }
}

/// Evaluates `row_le` between two rows whose sort keys admit comparison.
fn row_le_exec(a: &CacheTableRow, b: &CacheTableRow, cols: &Vec<String>, ord: SortOrdering) -> (r:
    bool)
    requires
        pair_sortable(col_views(cols@), a@, b@),
    ensures
        r == row_le(col_views(cols@), ord, a@, b@),
{
    let ghost cv = col_views(cols@);
    let n = cols.len();
    let mut k: usize = 0;
    while k < n
        invariant
            0 <= k <= n,
            n == cols@.len(),
            cv == col_views(cols@),
            pair_sortable(cv, a@, b@),
            forall|j: int|
                0 <= j < k ==> dir_cmp(ord, key_at(a@, #[trigger] cv[j]), key_at(b@, cv[j])) is Equal,
        decreases n - k,
    {
        proof {
            assert(cv[k as int] == cols@[k as int]@);
        }
        let av = match a.get(&cols[k]) {
            Some(v) => v,
            None => {
                proof {
                    assert(false);
                }
                return true;
            },
        };
        let bv = match b.get(&cols[k]) {
            Some(v) => v,
            None => {
                proof {
                    assert(false);
                }
                return true;
            },
        };
        let cmp = match ord {
            SortOrdering::Ascending => compare_values(av, bv),
            SortOrdering::Descending => compare_values(bv, av),
        };
        match cmp {
            Ok(ValueOrdering::Less) => {
                proof {
                    lemma_row_le_skip(cv, ord, a@, b@, k as int);
                }
                return true;
            },
            Ok(ValueOrdering::Greater) => {
                proof {
                    lemma_row_le_skip(cv, ord, a@, b@, k as int);
                }
                return false;
            },
            Ok(ValueOrdering::Equal) => {},
            Err(_) => {
                proof {
                    assert(false);
                }
                return true;
            },
        }
        k = k + 1;
    }
    proof {
        lemma_row_le_skip(cv, ord, a@, b@, n as int);
        assert(cv.skip(n as int).len() == 0);
    }
    true
}

// ---------------------------------------------------------------------------
// Checking that the sort columns are usable across the retained rows.
/// How one sort column stands across the retained rows.
pub enum KeyCheck {
    /// Every row carries the column, with mutually comparable values.
    Usable,
    /// Some row does not carry the column.
    FieldMissing,
    /// Two rows carry values that admit no ordering comparison.
    Mixed,
}

/// Scans the rows from index `i` against the representative value of the
/// first row, reporting the first problem found.
pub open spec fn col_check_from(
    c: Seq<char>,
    rows: Seq<Seq<(Seq<char>, ValueModel)>>,
    rep: ValueModel,
    i: int,
) -> KeyCheck
    decreases rows.len() - i,
{
    if i < 0 || i >= rows.len() {
        KeyCheck::Usable
    } else {
        match row_lookup(rows[i], c) {
            None => KeyCheck::FieldMissing,
            Some(v) => if !comparable(rep, v) {
                KeyCheck::Mixed
            } else {
                col_check_from(c, rows, rep, i + 1)
            },
        }
    }
}

/// How one sort column stands across the rows, scanning them in order.
pub open spec fn col_check(c: Seq<char>, rows: Seq<Seq<(Seq<char>, ValueModel)>>) -> KeyCheck {
    if rows.len() == 0 {
        KeyCheck::Usable
    } else {
        match row_lookup(rows[0], c) {
            None => KeyCheck::FieldMissing,
            Some(rep) => col_check_from(c, rows, rep, 1),
        }
    }
}

/// How the sort columns stand across the rows: the first column with a
/// problem decides, and its name is reported with it.
pub open spec fn cols_check(
    cols: Seq<Seq<char>>,
    rows: Seq<Seq<(Seq<char>, ValueModel)>>,
) -> (KeyCheck, Seq<char>)
    decreases cols.len(),
{
    if cols.len() == 0 {
        (KeyCheck::Usable, Seq::empty())
    } else {
        let s = col_check(cols[0], rows);
        if s is Usable {
            cols_check(cols.drop_first(), rows)
        } else {
            (s, cols[0])
        }
    }
}

/// A clean scan from `i` means every later row carries the column with a
/// value comparable to the representative.
proof fn lemma_col_check_from(
    c: Seq<char>,
    rows: Seq<Seq<(Seq<char>, ValueModel)>>,
    rep: ValueModel,
    i: int,
)
    requires
        0 <= i <= rows.len(),
        col_check_from(c, rows, rep, i) is Usable,
    ensures
        forall|j: int|
            i <= j < rows.len() ==> row_lookup(#[trigger] rows[j], c) is Some && comparable(
                rep,
                key_at(rows[j], c),
            ),
    decreases rows.len() - i,
{
    if i < rows.len() {
        lemma_col_check_from(c, rows, rep, i + 1);
    }
}

/// A usable column is carried by every row, with pairwise comparable values.
proof fn lemma_col_check_usable(c: Seq<char>, rows: Seq<Seq<(Seq<char>, ValueModel)>>)
    requires
        col_check(c, rows) is Usable,
    ensures
        forall|i: int| 0 <= i < rows.len() ==> row_lookup(#[trigger] rows[i], c) is Some,
        forall|i: int, j: int|
            0 <= i < rows.len() && 0 <= j < rows.len() && i != j ==> comparable(
                key_at(#[trigger] rows[i], c),
                key_at(#[trigger] rows[j], c),
            ),
{
    if rows.len() > 0 {
        let rep = key_at(rows[0], c);
        lemma_col_check_from(c, rows, rep, 1);
        assert forall|i: int, j: int|
            0 <= i < rows.len() && 0 <= j < rows.len() && i != j implies comparable(
            key_at(#[trigger] rows[i], c),
            key_at(#[trigger] rows[j], c),
        ) by {
            let u = key_at(rows[i], c);
            let v = key_at(rows[j], c);
            if i == 0 {
                assert(comparable(rep, v));
            } else if j == 0 {
                assert(comparable(rep, u));
            } else {
                lemma_comparable_trans(u, rep, v);
            }
        }
    }
}

/// Usable sort columns make the rows sortable.
proof fn lemma_cols_check_usable(cols: Seq<Seq<char>>, rows: Seq<Seq<(Seq<char>, ValueModel)>>)
    requires
        cols_check(cols, rows).0 is Usable,
    ensures
        rows_sortable(cols, rows),
    decreases cols.len(),
{
    if cols.len() > 0 {
        lemma_col_check_usable(cols[0], rows);
        lemma_cols_check_usable(cols.drop_first(), rows);
        assert forall|i: int, j: int|
            0 <= i < rows.len() && 0 <= j < rows.len() && i != j implies pair_sortable(
            cols,
            #[trigger] rows[i],
            #[trigger] rows[j],
        ) by {
            assert(pair_sortable(cols.drop_first(), rows[i], rows[j]));
            assert forall|k: int| 0 <= k < cols.len() implies {
                &&& row_lookup(rows[i], #[trigger] cols[k]) is Some
                &&& row_lookup(rows[j], cols[k]) is Some
                &&& comparable(key_at(rows[i], cols[k]), key_at(rows[j], cols[k]))
            } by {
                if k > 0 {
                    assert(cols.drop_first()[k - 1] == cols[k]);
                }
            }
        }
    }
}

/// Checks one sort column across the rows, reporting the missing column or
/// the incomparable values exactly as the scan finds them.
fn check_sort_column(c: &String, rows: &Vec<CacheTableRow>) -> (r: QlResult<()>)
    ensures
        r is Ok <==> col_check(c@, rows_model(rows@)) is Usable,
        col_check(c@, rows_model(rows@)) is FieldMissing ==> (r matches Err(e) && e matches
            QlError::ColumnDoesNotExist { name } && name@ == c@),
        col_check(c@, rows_model(rows@)) is Mixed ==> (r matches Err(e) && e
            is IncomparableValues),
{
    let ghost rm = rows_model(rows@);
    if rows.len() == 0 {
        return Ok(());
    }
    let rep = match rows[0].get(c) {
        Some(v) => v,
        None => {
            return Err(QlError::ColumnDoesNotExist { name: c.clone() });
        },
    };
    let n = rows.len();
    let mut i: usize = 1;
    while i < n
        invariant
            1 <= i <= n,
            n == rows@.len(),
            rm == rows_model(rows@),
            rm.len() == n,
            row_lookup(rm[0], c@) == Some(rep@),
            col_check(c@, rm) == col_check_from(c@, rm, rep@, i as int),
        decreases n - i,
    {
        match rows[i].get(c) {
            None => {
                return Err(QlError::ColumnDoesNotExist { name: c.clone() });
            },
            Some(v) => {
                match compare_values(rep, v) {
                    Err(_) => {
                        return Err(QlError::IncomparableValues);
                    },
                    Ok(_) => {},
                }
            },
        }
        i = i + 1;
    }
    Ok(())
}

/// Checks every sort column across the rows, reporting the first problem in
/// column order.
fn check_sort_columns(cols: &Vec<String>, rows: &Vec<CacheTableRow>) -> (r: QlResult<()>)
    ensures
        r is Ok <==> cols_check(col_views(cols@), rows_model(rows@)).0 is Usable,
        ({
            let chk = cols_check(col_views(cols@), rows_model(rows@));
            &&& (chk.0 is FieldMissing ==> (r matches Err(e) && e matches
                QlError::ColumnDoesNotExist { name } && name@ == chk.1))
            &&& (chk.0 is Mixed ==> (r matches Err(e) && e is IncomparableValues))
        }),
{
    let ghost cv = col_views(cols@);
    let ghost rm = rows_model(rows@);
    let n = cols.len();
    let mut k: usize = 0;
    proof {
        assert(cv.skip(0) =~= cv);
    }
    while k < n
        invariant
            0 <= k <= n,
            n == cols@.len(),
            cv == col_views(cols@),
            rm == rows_model(rows@),
            cols_check(cv, rm) == cols_check(cv.skip(k as int), rm),
            forall|j: int| 0 <= j < k ==> col_check(#[trigger] cv[j], rm) is Usable,
        decreases n - k,
    {
        proof {
            assert(cv.skip(k as int)[0] == cv[k as int]);
            assert(cv[k as int] == cols@[k as int]@);
        }
        match check_sort_column(&cols[k], rows) {
            Err(e) => {
                return Err(e);
            },
            Ok(()) => {},
        }
        proof {
            assert(cv.skip(k as int).drop_first() =~= cv.skip(k as int + 1));
        }
        k = k + 1;
    }
    proof {
        assert(cv.skip(n as int).len() == 0);
    }
    Ok(())
}

// ---------------------------------------------------------------------------
// Stable sorting.
/// Inserts a row into an already sorted run, after every row at or before
/// it: a tie keeps the earlier row first.
pub open spec fn insert_sorted(
    x: CacheTableRow,
    s: Seq<CacheTableRow>,
    cols: Seq<Seq<char>>,
    ord: SortOrdering,
) -> Seq<CacheTableRow>
    decreases s.len(),
{
    if s.len() == 0 {
        seq![x]
    } else if row_le(cols, ord, s[0]@, x@) {
        seq![s[0]] + insert_sorted(x, s.drop_first(), cols, ord)
    } else {
        seq![x] + s
    }
}

/// The stable sort of a sequence of rows: each row in turn is inserted after
/// the rows that sort at or before it, so rows with equal sort keys keep
/// their original relative order.
pub open spec fn sort_spec(
    s: Seq<CacheTableRow>,
    cols: Seq<Seq<char>>,
    ord: SortOrdering,
) -> Seq<CacheTableRow>
    decreases s.len(),
{
    if s.len() == 0 {
        Seq::empty()
    } else {
        insert_sorted(s.last(), sort_spec(s.drop_last(), cols, ord), cols, ord)
    }
}

/// Inserting at the first position whose row does not sort at or before `x`
/// is what `insert_sorted` does.
proof fn lemma_insert_sorted_at(
    x: CacheTableRow,
    s: Seq<CacheTableRow>,
    cols: Seq<Seq<char>>,
    ord: SortOrdering,
    j: int,
)
    requires
        0 <= j <= s.len(),
        forall|m: int| 0 <= m < j ==> row_le(cols, ord, (#[trigger] s[m])@, x@),
        j < s.len() ==> !row_le(cols, ord, s[j]@, x@),
    ensures
        insert_sorted(x, s, cols, ord) == s.insert(j, x),
    decreases s.len(),
{
    if s.len() == 0 {
        assert(insert_sorted(x, s, cols, ord) =~= s.insert(0, x));
    } else if j == 0 {
        assert(insert_sorted(x, s, cols, ord) =~= s.insert(0, x));
    } else {
        assert(forall|m: int| 0 <= m < j - 1 ==> #[trigger] s.drop_first()[m] == s[m + 1]);
        lemma_insert_sorted_at(x, s.drop_first(), cols, ord, j - 1);
        assert(seq![s[0]] + s.drop_first().insert(j - 1, x) =~= s.insert(j, x));
    }
}

/// Whether a row occurs among the first `n` rows of a sequence.
pub open spec fn row_in_prefix(x: CacheTableRow, s: Seq<CacheTableRow>, n: int) -> bool {
    exists|idx: int| 0 <= idx < n && s[idx] == x
}

/// Stable insertion sort of the rows by the sort columns and direction.
fn sort_rows(rows: Vec<CacheTableRow>, cols: &Vec<String>, ord: SortOrdering) -> (r: Vec<
    CacheTableRow,
>)
    requires
        rows_sortable(col_views(cols@), rows_model(rows@)),
    ensures
        r@ == sort_spec(rows@, col_views(cols@), ord),
{
    let ghost orig = rows@;
    let ghost cv = col_views(cols@);
    let mut rest = rows;
    let mut out: Vec<CacheTableRow> = Vec::new();
    proof {
        assert(orig.skip(0) =~= orig);
        assert(orig.take(0) =~= Seq::<CacheTableRow>::empty());
    }
    while rest.len() > 0
        invariant
            out@.len() + rest@.len() == orig.len(),
            rest@ == orig.skip(out@.len() as int),
            out@ == sort_spec(orig.take(out@.len() as int), cv, ord),
            forall|m: int| 0 <= m < out@.len() ==> row_in_prefix(#[trigger] out@[m], orig, out@.len() as int),
            rows_sortable(cv, rows_model(orig)),
            cv == col_views(cols@),
        decreases rest.len(),
    {
        let ghost i = out@.len() as int;
        let x = rest.remove(0);
        proof {
            assert(orig.skip(i)[0] == orig[i]);
            assert(x == orig[i]);
            assert(orig.skip(i).remove(0) =~= orig.skip(i + 1));
        }
        let n = out.len();
        let mut j: usize = 0;
        while j < n
            invariant_except_break
                0 <= j <= n,
            invariant
                n == out@.len(),
                cv == col_views(cols@),
                rows_sortable(cv, rows_model(orig)),
                x == orig[i],
                0 <= i < orig.len(),
                forall|m: int|
                    0 <= m < out@.len() ==> row_in_prefix(#[trigger] out@[m], orig, i),
                forall|m: int| 0 <= m < j ==> row_le(cv, ord, (#[trigger] out@[m])@, x@),
            ensures
                0 <= j <= n,
                j < n ==> !row_le(cv, ord, out@[j as int]@, x@),
            decreases n - j,
        {
            proof {
                let idx = choose|idx: int| 0 <= idx < i && orig[idx] == out@[j as int];
                assert(rows_model(orig)[idx] == orig[idx]@);
                assert(rows_model(orig)[i] == orig[i]@);
                assert(pair_sortable(cv, out@[j as int]@, x@));
            }
            if row_le_exec(&out[j], &x, cols, ord) {
                j = j + 1;
            } else {
                break ;
            }
        }
        proof {
            lemma_insert_sorted_at(x, out@, cv, ord, j as int);
            out@.insert_ensures(j as int, x);
        }
        out.insert(j, x);
        proof {
            assert(orig.take(i + 1).drop_last() =~= orig.take(i));
            assert(orig.take(i + 1).last() == orig[i]);
            assert(out@ == sort_spec(orig.take(i + 1), cv, ord));
            assert forall|m: int|
                0 <= m < out@.len() implies row_in_prefix(#[trigger] out@[m], orig, i + 1) by {
                if m < j {
                    assert(out@[m] == sort_spec(orig.take(i), cv, ord)[m]);
                } else if m == j {
                    assert(out@[m] == x);
                }
            }
        }
    }
    proof {
        assert(orig.take(orig.len() as int) =~= orig);
    }
    out
}

// ---------------------------------------------------------------------------
// Filtering by the constraint tree.
/// Retains exactly the rows the constraint tree matches, keeping their order.
fn filter_rows(rows: Vec<CacheTableRow>, node: &ConstraintNode) -> (r: Vec<CacheTableRow>)
    ensures
        r@ == rows@.filter(|row: CacheTableRow| node_matches(*node, row@)),
{
    let ghost orig = rows@;
    let ghost pred = |row: CacheTableRow| node_matches(*node, row@);
    let mut rest = rows;
    let mut out: Vec<CacheTableRow> = Vec::new();
    proof {
        reveal(Seq::filter);
        assert(orig.skip(0) =~= orig);
        assert(orig.take(0).filter(pred) =~= Seq::<CacheTableRow>::empty());
    }
    while rest.len() > 0
        invariant
            rest@ == orig.skip(orig.len() - rest@.len()),
            0 <= orig.len() - rest@.len() <= orig.len(),
            out@ == orig.take(orig.len() - rest@.len()).filter(pred),
            pred == (|row: CacheTableRow| node_matches(*node, row@)),
        decreases rest.len(),
    {
        let ghost i = orig.len() - rest@.len();
        let row = rest.remove(0);
        proof {
            assert(orig.skip(i)[0] == orig[i]);
            assert(row == orig[i]);
            assert(orig.skip(i).remove(0) =~= orig.skip(i + 1));
            assert(orig.take(i + 1).drop_last() =~= orig.take(i));
            assert(orig.take(i + 1).last() == orig[i]);
            reveal(Seq::filter);
        }
        if compute_node(node, &row) {
            out.push(row);
        }
    }
    proof {
        assert(orig.take(orig.len() as int) =~= orig);
    }
    out
}

// ---------------------------------------------------------------------------
// Projection.
/// The index of the first projected field a row does not carry, or `-1`.
pub open spec fn row_missing_field(fields: Seq<Seq<char>>, row: Seq<(Seq<char>, ValueModel)>) -> int
    decreases fields.len(),
{
    if fields.len() == 0 {
        -1
    } else if row_lookup(row, fields[0]) is None {
        0
    } else {
        let r = row_missing_field(fields.drop_first(), row);
        if r < 0 {
            -1
        } else {
            r + 1
        }
    }
}

/// `row_missing_field` finds the first missing field, and `-1` means the row
/// carries them all.
proof fn lemma_row_missing_field(fields: Seq<Seq<char>>, row: Seq<(Seq<char>, ValueModel)>)
    ensures
        -1 <= row_missing_field(fields, row) < fields.len(),
        row_missing_field(fields, row) >= 0 ==> row_lookup(
            row,
            fields[row_missing_field(fields, row)],
        ) is None,
        row_missing_field(fields, row) >= 0 ==> forall|j: int|
            0 <= j < row_missing_field(fields, row) ==> row_lookup(row, #[trigger] fields[j]) is Some,
        row_missing_field(fields, row) == -1 ==> forall|j: int|
            0 <= j < fields.len() ==> row_lookup(row, #[trigger] fields[j]) is Some,
    decreases fields.len(),
{
    if fields.len() > 0 && row_lookup(row, fields[0]) is Some {
        lemma_row_missing_field(fields.drop_first(), row);
        assert(forall|j: int|
            1 <= j < fields.len() ==> #[trigger] fields[j] == fields.drop_first()[j - 1]);
    }
}

/// The reduction of one row to the projected fields, in the requested order.
pub open spec fn project_model(
    fields: Seq<Seq<char>>,
    row: Seq<(Seq<char>, ValueModel)>,
) -> Seq<(Seq<char>, ValueModel)> {
    fields.map_values(|f: Seq<char>| (f, key_at(row, f)))
}

/// The reduction of each row to the projected fields.
pub open spec fn project_all(
    fields: Seq<Seq<char>>,
    rows: Seq<Seq<(Seq<char>, ValueModel)>>,
) -> Seq<Seq<(Seq<char>, ValueModel)>> {
    rows.map_values(|row: Seq<(Seq<char>, ValueModel)>| project_model(fields, row))
}

/// The name of the first projected field some row does not carry, scanning
/// the rows in order, or nothing when projection cannot fail.
pub open spec fn proj_error(
    fields: Seq<Seq<char>>,
    rows: Seq<Seq<(Seq<char>, ValueModel)>>,
) -> Option<Seq<char>>
    decreases rows.len(),
{
    if rows.len() == 0 {
        None
    } else {
        let k = row_missing_field(fields, rows[0]);
        if k >= 0 {
            Some(fields[k])
        } else {
            proj_error(fields, rows.drop_first())
        }
    }
}

/// Reduces one row to the projected fields, in the requested order.
fn project_row(fields: &Vec<String>, row: &CacheTableRow) -> (r: QlResult<CacheTableRow>)
    ensures
        r is Ok <==> row_missing_field(col_views(fields@), row@) == -1,
        r matches Ok(p) ==> p@ == project_model(col_views(fields@), row@),
        r matches Err(e) ==> ({
            let k = row_missing_field(col_views(fields@), row@);
            &&& k >= 0
            &&& e matches QlError::ColumnDoesNotExist { name } && name@ == col_views(fields@)[k]
        }),
{
    let ghost fv = col_views(fields@);
    proof {
        lemma_row_missing_field(fv, row@);
    }
    let n = fields.len();
    let mut cells: Vec<(String, ColumnValue)> = Vec::new();
    let mut j: usize = 0;
    while j < n
        invariant
            0 <= j <= n,
            n == fields@.len(),
            fv == col_views(fields@),
            cells@.len() == j,
            forall|m: int| 0 <= m < j ==> row_lookup(row@, #[trigger] fv[m]) is Some,
            forall|m: int|
                0 <= m < j ==> (#[trigger] cells@[m]).0@ == fv[m] && cells@[m].1@ == key_at(
                    row@,
                    fv[m],
                ),
        decreases n - j,
    {
        proof {
            assert(fv[j as int] == fields@[j as int]@);
        }
        match row.get(&fields[j]) {
            None => {
                proof {
                    lemma_row_missing_field(fv, row@);
                    let k0 = row_missing_field(fv, row@);
                    if 0 <= k0 < j {
                        assert(row_lookup(row@, fv[k0]) is Some);
                        assert(false);
                    }
                    assert(k0 == j);
                }
                return Err(QlError::ColumnDoesNotExist { name: fields[j].clone() });
            },
            Some(v) => {
                let ghost cells0 = cells@;
                cells.push((fields[j].clone(), v.clone()));
                proof {
                    assert(cells@ =~= cells0.push((fields@[j as int], *v)));
                    assert(cells@[j as int].0@ == fv[j as int]);
                    assert(cells@[j as int].1@ == key_at(row@, fv[j as int]));
                }
            },
        }
        j = j + 1;
    }
    proof {
        lemma_row_missing_field(fv, row@);
        assert(row_missing_field(fv, row@) == -1);
        assert(row_cells(cells@) =~= project_model(fv, row@));
    }
    Ok(CacheTableRow { column_values: cells })
}

/// Reduces each row to the projected fields, scanning the rows in order.
fn project_rows(rows: Vec<CacheTableRow>, fields: &Vec<String>) -> (r: QlResult<Vec<CacheTableRow>>)
    ensures
        r is Ok <==> proj_error(col_views(fields@), rows_model(rows@)) is None,
        r matches Ok(v) ==> rows_model(v@) == project_all(col_views(fields@), rows_model(rows@)),
        r matches Err(e) ==> (proj_error(col_views(fields@), rows_model(rows@)) matches Some(nm)
            && e matches QlError::ColumnDoesNotExist { name } && name@ == nm),
{
    let ghost fv = col_views(fields@);
    let ghost rm = rows_model(rows@);
    let n = rows.len();
    let mut out: Vec<CacheTableRow> = Vec::new();
    let mut i: usize = 0;
    proof {
        assert(rm.skip(0) =~= rm);
    }
    while i < n
        invariant
            0 <= i <= n,
            n == rows@.len(),
            fv == col_views(fields@),
            rm == rows_model(rows@),
            rm.len() == n,
            out@.len() == i,
            proj_error(fv, rm) == proj_error(fv, rm.skip(i as int)),
            forall|m: int|
                0 <= m < i ==> (#[trigger] rows_model(out@)[m]) == project_model(fv, rm[m]),
        decreases n - i,
    {
        proof {
            assert(rm.skip(i as int)[0] == rm[i as int]);
            assert(rm[i as int] == rows@[i as int]@);
        }
        match project_row(fields, &rows[i]) {
            Err(e) => {
                return Err(e);
            },
            Ok(p) => {
                let ghost out0 = out@;
                out.push(p);
                proof {
                    assert(rows_model(out@) =~= rows_model(out0).push(p@));
                }
            },
        }
        proof {
            assert(rm.skip(i as int).drop_first() =~= rm.skip(i as int + 1));
        }
        i = i + 1;
    }
    proof {
        assert(rm.skip(n as int).len() == 0);
        assert(rows_model(out@) =~= project_all(fv, rm));
    }
    Ok(out)
}

// ---------------------------------------------------------------------------
// The whole query.
/// What the projection step hands back for the sorted, retained rows.
pub open spec fn scope_post(
    scope: SelectScope,
    rows: Seq<CacheTableRow>,
    r: QlResult<Vec<CacheTableRow>>,
) -> bool {
    match scope {
        SelectScope::Everything => r matches Ok(v) && v@ == rows,
        SelectScope::Fields(fs) => {
            let fv = col_views(fs@);
            match proj_error(fv, rows_model(rows)) {
                Some(nm) => r matches Err(e) && e matches QlError::ColumnDoesNotExist { name }
                    && name@ == nm,
                None => r matches Ok(v) && rows_model(v@) == project_all(fv, rows_model(rows)),
            }
        },
    }
}

/// What a `SELECT` hands back for one snapshot of the table's rows: the rows
/// the constraint retains, in snapshot order, stably sorted when asked, and
/// projected; a sort over a missing column or over values that admit no
/// ordering is the error instead.
pub open spec fn pipeline_post(
    q: Select,
    rows0: Seq<CacheTableRow>,
    r: QlResult<Vec<CacheTableRow>>,
) -> bool {
    let retained = match q.constraint {
        None => rows0,
        Some(c) => rows0.filter(|row: CacheTableRow| node_matches(*c, row@)),
    };
    match q.sort_by {
        None => scope_post(q.scope, retained, r),
        Some(sb) => {
            let cols = col_views(sb.columns@);
            let chk = cols_check(cols, rows_model(retained));
            if chk.0 is FieldMissing {
                r matches Err(e) && e matches QlError::ColumnDoesNotExist { name } && name@
                    == chk.1
            } else if chk.0 is Mixed {
                r matches Err(e) && e is IncomparableValues
            } else {
                scope_post(q.scope, sort_spec(retained, cols, sb.order), r)
            }
        },
    }
}

/// Whether a sequence of keyed rows enumerates exactly the entries of a row
/// map, each exactly once, in some order.
pub open spec fn enumerates(snap: Seq<(u64, CacheTableRow)>, rm: Map<u64, CacheTableRow>) -> bool {
    &&& forall|i: int| 0 <= i < snap.len() ==> rm.contains_pair((#[trigger] snap[i]).0, snap[i].1)
    &&& forall|i: int, j: int| 0 <= i < j < snap.len() ==> snap[i].0 != snap[j].0
    &&& forall|k: u64|
        #[trigger] rm.dom().contains(k) ==> exists|i: int|
            #![auto]
            0 <= i < snap.len() && snap[i].0 == k
}

/// What executing a `SELECT` does: an unresolved schema or table aborts the
/// whole query with an error naming the unresolved segment, and otherwise
/// the result answers for some snapshot of the table's rows.
pub open spec fn select_post(
    pre: Map<Seq<char>, CacheSchema>,
    q: Select,
    r: QlResult<Vec<CacheTableRow>>,
) -> bool {
    let sname = ref_schema(q.table_name@);
    let tname = ref_table(q.table_name@);
    if !pre.dom().contains(sname) {
        r matches Err(e) && e matches QlError::QueryError(qe) && qe matches
            QueryError::RelationDoesNotExist { name } && name@ == sname
    } else if !tables_of(pre[sname].tables).dom().contains(tname) {
        r matches Err(e) && e matches QlError::QueryError(qe) && qe matches
            QueryError::RelationDoesNotExist { name } && name@ == tname
    } else {
        exists|snap: Seq<(u64, CacheTableRow)>|
            #![auto]
            {
                &&& enumerates(snap, rows_of(tables_of(pre[sname].tables)[tname].rows))
                &&& pipeline_post(q, snap.map_values(|p: (u64, CacheTableRow)| p.1), r)
            }
    }
}


// ---------------------------------------------------------------------------
// Laws of the stable sort.
/// Whether two rows carry equal values on every sort column.
pub open spec fn same_keys(
    cols: Seq<Seq<char>>,
    a: Seq<(Seq<char>, ValueModel)>,
    b: Seq<(Seq<char>, ValueModel)>,
) -> bool {
    forall|k: int| 0 <= k < cols.len() ==> key_at(a, #[trigger] cols[k]) == key_at(b, cols[k])
}

/// The rows of a run that are tied with a given key witness, in run order.
pub open spec fn tied_filter(
    s: Seq<CacheTableRow>,
    cols: Seq<Seq<char>>,
    w: Seq<(Seq<char>, ValueModel)>,
) -> Seq<CacheTableRow> {
    s.filter(|r: CacheTableRow| same_keys(cols, r@, w))
}

/// A row sorts at or before any row it is tied with.
proof fn lemma_tied_row_le(
    cols: Seq<Seq<char>>,
    ord: SortOrdering,
    a: Seq<(Seq<char>, ValueModel)>,
    b: Seq<(Seq<char>, ValueModel)>,
)
    requires
        same_keys(cols, a, b),
    ensures
        row_le(cols, ord, a, b),
    decreases cols.len(),
{
    if cols.len() > 0 {
        assert(key_at(a, cols[0]) == key_at(b, cols[0]));
        assert(forall|k: int|
            0 <= k < cols.drop_first().len() ==> #[trigger] cols.drop_first()[k] == cols[k + 1]);
        assert(same_keys(cols.drop_first(), a, b));
        lemma_tied_row_le(cols.drop_first(), ord, a, b);
    }
}

/// Comparability on every column carries over to the remaining columns.
proof fn lemma_pair_sortable_drop(
    cols: Seq<Seq<char>>,
    a: Seq<(Seq<char>, ValueModel)>,
    b: Seq<(Seq<char>, ValueModel)>,
)
    requires
        cols.len() > 0,
        pair_sortable(cols, a, b),
    ensures
        pair_sortable(cols.drop_first(), a, b),
{
    assert forall|k: int| 0 <= k < cols.drop_first().len() implies {
        &&& row_lookup(a, #[trigger] cols.drop_first()[k]) is Some
        &&& row_lookup(b, cols.drop_first()[k]) is Some
        &&& comparable(key_at(a, cols.drop_first()[k]), key_at(b, cols.drop_first()[k]))
    } by {
        assert(cols.drop_first()[k] == cols[k + 1]);
    }
}

/// Under comparable keys, the row order is total.
proof fn lemma_row_le_total(
    cols: Seq<Seq<char>>,
    ord: SortOrdering,
    a: Seq<(Seq<char>, ValueModel)>,
    b: Seq<(Seq<char>, ValueModel)>,
)
    requires
        pair_sortable(cols, a, b),
    ensures
        row_le(cols, ord, a, b) || row_le(cols, ord, b, a),
    decreases cols.len(),
{
    if cols.len() > 0 {
        let u = key_at(a, cols[0]);
        let v = key_at(b, cols[0]);
        assert(comparable(u, v));
        lemma_cmp_basic(u, v);
        lemma_cmp_basic(v, u);
        if dir_cmp(ord, u, v) is Equal {
            lemma_pair_sortable_drop(cols, a, b);
            lemma_row_le_total(cols.drop_first(), ord, a, b);
        }
    }
}

/// Under comparable keys, the row order is transitive.
proof fn lemma_row_le_trans(
    cols: Seq<Seq<char>>,
    ord: SortOrdering,
    a: Seq<(Seq<char>, ValueModel)>,
    b: Seq<(Seq<char>, ValueModel)>,
    c: Seq<(Seq<char>, ValueModel)>,
)
    requires
        pair_sortable(cols, a, b),
        pair_sortable(cols, b, c),
        pair_sortable(cols, a, c),
        row_le(cols, ord, a, b),
        row_le(cols, ord, b, c),
    ensures
        row_le(cols, ord, a, c),
    decreases cols.len(),
{
    if cols.len() > 0 {
        let x = key_at(a, cols[0]);
        let y = key_at(b, cols[0]);
        let z = key_at(c, cols[0]);
        lemma_cmp_basic(x, y);
        lemma_cmp_basic(y, x);
        lemma_cmp_basic(y, z);
        lemma_cmp_basic(z, y);
        lemma_cmp_basic(x, z);
        lemma_cmp_basic(z, x);
        if dir_cmp(ord, x, y) is Equal && dir_cmp(ord, y, z) is Equal {
            lemma_pair_sortable_drop(cols, a, b);
            lemma_pair_sortable_drop(cols, b, c);
            lemma_pair_sortable_drop(cols, a, c);
            lemma_row_le_trans(cols.drop_first(), ord, a, b, c);
        } else if dir_cmp(ord, x, y) is Less && dir_cmp(ord, y, z) is Less {
            match ord {
                SortOrdering::Ascending => {
                    lemma_cmp_trans(x, y, z);
                },
                SortOrdering::Descending => {
                    lemma_cmp_trans(z, y, x);
                },
            }
        }
    }
}

/// The position `insert_sorted` inserts at: past every leading row at or
/// before the inserted one.
pub open spec fn insert_pos(
    x: CacheTableRow,
    s: Seq<CacheTableRow>,
    cols: Seq<Seq<char>>,
    ord: SortOrdering,
) -> int
    decreases s.len(),
{
    if s.len() == 0 {
        0
    } else if row_le(cols, ord, s[0]@, x@) {
        1 + insert_pos(x, s.drop_first(), cols, ord)
    } else {
        0
    }
}

/// `insert_sorted` inserts exactly at `insert_pos`: every row before the
/// position sorts at or before the inserted one, the row at the position
/// does not, and the result is the plain insertion there.
pub proof fn lemma_insert_pos(
    x: CacheTableRow,
    s: Seq<CacheTableRow>,
    cols: Seq<Seq<char>>,
    ord: SortOrdering,
)
    ensures
        ({
            let j = insert_pos(x, s, cols, ord);
            &&& 0 <= j <= s.len()
            &&& (forall|m: int| 0 <= m < j ==> row_le(cols, ord, (#[trigger] s[m])@, x@))
            &&& (j < s.len() ==> !row_le(cols, ord, s[j]@, x@))
            &&& insert_sorted(x, s, cols, ord) == s.insert(j, x)
        }),
    decreases s.len(),
{
    let j = insert_pos(x, s, cols, ord);
    if s.len() == 0 {
        s.insert_ensures(0, x);
        assert(insert_sorted(x, s, cols, ord) =~= s.insert(0, x));
    } else if row_le(cols, ord, s[0]@, x@) {
        lemma_insert_pos(x, s.drop_first(), cols, ord);
        assert(forall|m: int|
            0 <= m < s.drop_first().len() ==> #[trigger] s.drop_first()[m] == s[m + 1]);
        assert(1 <= j <= s.len());
        s.drop_first().insert_ensures(j - 1, x);
        s.insert_ensures(j, x);
        assert(seq![s[0]] + s.drop_first().insert(j - 1, x) =~= s.insert(j, x));
        assert(insert_sorted(x, s, cols, ord) == seq![s[0]] + insert_sorted(
            x,
            s.drop_first(),
            cols,
            ord,
        ));
        assert(insert_sorted(x, s, cols, ord) == s.insert(j, x));
        assert forall|m: int| 0 <= m < j implies row_le(cols, ord, (#[trigger] s[m])@, x@) by {
            if m > 0 {
                assert(s.drop_first()[m - 1] == s[m]);
                assert(row_le(cols, ord, (s.drop_first()[m - 1])@, x@));
            }
        }
        assert(j < s.len() ==> !row_le(cols, ord, s[j]@, x@));
    } else {
        s.insert_ensures(0, x);
        assert(insert_sorted(x, s, cols, ord) =~= s.insert(0, x));
        assert(j == 0);
        assert(j < s.len() ==> !row_le(cols, ord, s[j]@, x@));
    }
}

/// Sorting permutes the rows: the sorted run holds exactly the rows that
/// went in, with multiplicity.
pub proof fn lemma_sort_spec_permutes(s: Seq<CacheTableRow>, cols: Seq<Seq<char>>, ord: SortOrdering)
    ensures
        sort_spec(s, cols, ord).to_multiset() == s.to_multiset(),
    decreases s.len(),
{
    broadcast use vstd::seq_lib::group_to_multiset_ensures;

    if s.len() > 0 {
        lemma_sort_spec_permutes(s.drop_last(), cols, ord);
        let t = sort_spec(s.drop_last(), cols, ord);
        let x = s.last();
        lemma_insert_pos(x, t, cols, ord);
        let j = insert_pos(x, t, cols, ord);
        let sub0 = t.subrange(0, j);
        let sub1 = t.subrange(j, t.len() as int);
        vstd::seq_lib::lemma_multiset_commutative(sub0.push(x), sub1);
        vstd::seq_lib::lemma_multiset_commutative(sub0, sub1);
        assert(t =~= sub0 + sub1);
        assert(s =~= s.drop_last().push(x));
        assert(t.insert(j, x).to_multiset() =~= t.to_multiset().insert(x));
        assert(s.to_multiset() =~= s.drop_last().to_multiset().insert(x));
    }
}

/// Whether a run of rows is sorted: every earlier row sorts at or before
/// every later one.
pub open spec fn sorted_rows(cols: Seq<Seq<char>>, ord: SortOrdering, s: Seq<CacheTableRow>) -> bool {
    forall|p: int, q: int|
        0 <= p < q < s.len() ==> row_le(cols, ord, (#[trigger] s[p])@, (#[trigger] s[q])@)
}

/// Comparability of two rows found among sortable rows, defaulting to plain
/// equality when the two are the same row.
proof fn lemma_pair_from_prefix(
    s: Seq<CacheTableRow>,
    cols: Seq<Seq<char>>,
    u: CacheTableRow,
    v: CacheTableRow,
)
    requires
        rows_sortable(cols, rows_model(s)),
        row_in_prefix(u, s, s.len() as int),
        row_in_prefix(v, s, s.len() as int),
    ensures
        u == v || pair_sortable(cols, u@, v@),
{
    let iu = choose|iu: int| 0 <= iu < s.len() && s[iu] == u;
    let iv = choose|iv: int| 0 <= iv < s.len() && s[iv] == v;
    if iu != iv {
        assert(rows_model(s)[iu] == u@);
        assert(rows_model(s)[iv] == v@);
        assert(pair_sortable(cols, rows_model(s)[iu], rows_model(s)[iv]));
    } else {
        assert(u == v);
    }
}

/// Sorting sorts: with sortable rows, every earlier output row sorts at or
/// before every later one, and every output row came from the input.
pub proof fn lemma_sort_spec_sorted(s: Seq<CacheTableRow>, cols: Seq<Seq<char>>, ord: SortOrdering)
    requires
        rows_sortable(cols, rows_model(s)),
    ensures
        sorted_rows(cols, ord, sort_spec(s, cols, ord)),
        forall|m: int|
            0 <= m < sort_spec(s, cols, ord).len() ==> row_in_prefix(
                #[trigger] sort_spec(s, cols, ord)[m],
                s,
                s.len() as int,
            ),
    decreases s.len(),
{
    if s.len() > 0 {
        let prev = s.drop_last();
        assert(rows_model(prev) =~= rows_model(s).take(s.len() - 1));
        assert(rows_sortable(cols, rows_model(prev))) by {
            assert forall|i: int, j: int|
                0 <= i < prev.len() && 0 <= j < prev.len() && i != j implies pair_sortable(
                cols,
                #[trigger] rows_model(prev)[i],
                #[trigger] rows_model(prev)[j],
            ) by {
                assert(rows_model(prev)[i] == rows_model(s)[i]);
                assert(rows_model(prev)[j] == rows_model(s)[j]);
            }
        }
        lemma_sort_spec_sorted(prev, cols, ord);
        let t = sort_spec(prev, cols, ord);
        let x = s.last();
        lemma_insert_pos(x, t, cols, ord);
        let j = insert_pos(x, t, cols, ord);
        let out = t.insert(j, x);
        t.insert_ensures(j, x);
        assert(sort_spec(s, cols, ord) == out);
        // every output row came from the input
        assert forall|m: int|
            0 <= m < out.len() implies row_in_prefix(#[trigger] out[m], s, s.len() as int) by {
            if m < j {
                assert(out[m] == t[m]);
                let idx = choose|idx: int| 0 <= idx < prev.len() && prev[idx] == t[m];
                assert(s[idx] == out[m]);
            } else if m == j {
                assert(out[m] == x);
                assert(s[s.len() - 1] == x);
            } else {
                assert(out[m] == t[m - 1]);
                let idx = choose|idx: int| 0 <= idx < prev.len() && prev[idx] == t[m - 1];
                assert(s[idx] == out[m]);
            }
        }
        // membership of rows of t in s, for comparability
        assert forall|m: int|
            0 <= m < t.len() implies row_in_prefix(#[trigger] t[m], s, s.len() as int) by {
            let idx = choose|idx: int| 0 <= idx < prev.len() && prev[idx] == t[m];
            assert(s[idx] == t[m]);
        }
        assert(row_in_prefix(x, s, s.len() as int)) by {
            assert(s[s.len() - 1] == x);
        }
        // the inserted row sorts at or before everything past the position
        assert forall|q: int| j <= q < t.len() implies row_le(cols, ord, x@, (#[trigger] t[q])@) by {
            lemma_pair_from_prefix(s, cols, t[j], x);
            if t[j] == x {
                lemma_tied_row_le(cols, ord, x@, t[j]@);
            } else {
                lemma_row_le_total(cols, ord, t[j]@, x@);
            }
            assert(row_le(cols, ord, x@, t[j]@));
            if q > j {
                assert(row_le(cols, ord, t[j]@, t[q]@));
                lemma_pair_from_prefix(s, cols, t[j], t[q]);
                if t[j] == t[q] {
                    assert(row_le(cols, ord, x@, t[q]@));
                } else {
                    lemma_pair_from_prefix(s, cols, x, t[j]);
                    lemma_pair_from_prefix(s, cols, x, t[q]);
                    if x == t[j] {
                        assert(row_le(cols, ord, x@, t[q]@));
                    } else if x == t[q] {
                        lemma_tied_row_le(cols, ord, x@, t[q]@);
                    } else {
                        lemma_row_le_trans(cols, ord, x@, t[j]@, t[q]@);
                    }
                }
            }
        }
        assert forall|p: int, q: int|
            0 <= p < q < out.len() implies row_le(cols, ord, (#[trigger] out[p])@, (
        #[trigger] out[q])@) by {
            if q < j {
                assert(out[p] == t[p] && out[q] == t[q]);
            } else if q == j {
                assert(out[p] == t[p] && out[q] == x);
            } else {
                if p < j {
                    assert(out[p] == t[p] && out[q] == t[q - 1]);
                } else if p == j {
                    assert(out[p] == x && out[q] == t[q - 1]);
                } else {
                    assert(out[p] == t[p - 1] && out[q] == t[q - 1]);
                }
            }
        }
    }
}

/// A run none of whose rows satisfies the predicate filters to nothing.
proof fn lemma_filter_none(s: Seq<CacheTableRow>, pred: spec_fn(CacheTableRow) -> bool)
    requires
        forall|m: int| 0 <= m < s.len() ==> !pred(#[trigger] s[m]),
    ensures
        s.filter(pred) =~= Seq::<CacheTableRow>::empty(),
    decreases s.len(),
{
    reveal(Seq::filter);
    if s.len() > 0 {
        assert(forall|m: int| 0 <= m < s.drop_last().len() ==> s.drop_last()[m] == s[m]);
        lemma_filter_none(s.drop_last(), pred);
    }
}

/// Sorting is stable: for any key witness, the rows tied with it leave the
/// sort in exactly the relative order they entered it.
pub proof fn lemma_sort_stable(
    s: Seq<CacheTableRow>,
    cols: Seq<Seq<char>>,
    ord: SortOrdering,
    w: Seq<(Seq<char>, ValueModel)>,
)
    requires
        rows_sortable(cols, rows_model(s)),
    ensures
        tied_filter(sort_spec(s, cols, ord), cols, w) == tied_filter(s, cols, w),
    decreases s.len(),
{
    reveal(Seq::filter);
    let pred = |r: CacheTableRow| same_keys(cols, r@, w);
    if s.len() > 0 {
        let prev = s.drop_last();
        assert(rows_sortable(cols, rows_model(prev))) by {
            assert forall|i: int, j: int|
                0 <= i < prev.len() && 0 <= j < prev.len() && i != j implies pair_sortable(
                cols,
                #[trigger] rows_model(prev)[i],
                #[trigger] rows_model(prev)[j],
            ) by {
                assert(rows_model(prev)[i] == rows_model(s)[i]);
                assert(rows_model(prev)[j] == rows_model(s)[j]);
            }
        }
        lemma_sort_stable(prev, cols, ord, w);
        lemma_sort_spec_sorted(prev, cols, ord);
        let t = sort_spec(prev, cols, ord);
        let x = s.last();
        lemma_insert_pos(x, t, cols, ord);
        let j = insert_pos(x, t, cols, ord);
        let sub0 = t.subrange(0, j);
        let sub1 = t.subrange(j, t.len() as int);
        assert(sort_spec(s, cols, ord) == t.insert(j, x));
        Seq::filter_distributes_over_add(sub0.push(x), sub1, pred);
        Seq::filter_distributes_over_add(sub0, sub1, pred);
        assert(t =~= sub0 + sub1);
        assert(sub0.push(x).drop_last() =~= sub0);
        assert(sub0.push(x).filter(pred) == if pred(x) {
            sub0.filter(pred).push(x)
        } else {
            sub0.filter(pred)
        });
        // membership of rows of t in s, for comparability
        assert forall|m: int|
            0 <= m < t.len() implies row_in_prefix(#[trigger] t[m], s, s.len() as int) by {
            let idx = choose|idx: int| 0 <= idx < prev.len() && prev[idx] == t[m];
            assert(s[idx] == t[m]);
        }
        assert(row_in_prefix(x, s, s.len() as int)) by {
            assert(s[s.len() - 1] == x);
        }
        if pred(x) {
            // no row past the insertion position is tied with the witness
            assert forall|m: int| 0 <= m < sub1.len() implies !pred(#[trigger] sub1[m]) by {
                assert(sub1[m] == t[j + m]);
                if pred(t[j + m]) {
                    assert(same_keys(cols, t[j + m]@, x@));
                    lemma_tied_row_le(cols, ord, t[j + m]@, x@);
                    if m > 0 {
                        assert(row_le(cols, ord, t[j]@, t[j + m]@));
                        lemma_pair_from_prefix(s, cols, t[j], t[j + m]);
                        if t[j] == t[j + m] {
                            assert(row_le(cols, ord, t[j]@, x@));
                        } else {
                            lemma_pair_from_prefix(s, cols, t[j], x);
                            lemma_pair_from_prefix(s, cols, t[j + m], x);
                            if t[j] == x {
                                lemma_tied_row_le(cols, ord, t[j]@, x@);
                            } else if t[j + m] == x {
                                assert(row_le(cols, ord, t[j]@, x@));
                            } else {
                                lemma_row_le_trans(cols, ord, t[j]@, t[j + m]@, x@);
                            }
                        }
                    }
                    assert(row_le(cols, ord, t[j]@, x@));
                    assert(false);
                }
            }
            lemma_filter_none(sub1, pred);
            assert(t.insert(j, x).filter(pred) =~= sub0.filter(pred).push(x));
            assert(t.filter(pred) =~= sub0.filter(pred));
            assert(s.drop_last() == prev);
            assert(s.filter(pred) == prev.filter(pred).push(x));
            assert(tied_filter(sort_spec(s, cols, ord), cols, w) =~= tied_filter(s, cols, w));
        } else {
            assert(t.insert(j, x).filter(pred) =~= t.filter(pred));
            assert(s.filter(pred) == prev.filter(pred));
            assert(tied_filter(sort_spec(s, cols, ord), cols, w) =~= tied_filter(s, cols, w));
        }
    }
}

impl Select {
    /// Executes this query against the cache: resolves the table reference,
    /// takes a snapshot of the rows, filters, sorts, and projects.
    pub fn execute(self, cache: &mut QlCache) -> (r: QlResult<Vec<CacheTableRow>>)
        requires
            old(cache).wf(),
        ensures
            final(cache).wf(),
            same_contents(old(cache).schemas(), final(cache).schemas()),
            select_post(old(cache).schemas(), self, r),
    {
        let ghost pre = old(cache).schemas();
        let ghost q = self;
        let (schema_name, table_only) = split_reference(&self.table_name);
        let mut schema = match schemas_take(&mut cache.cache, &schema_name) {
            Some(s) => s,
            None => {
                return Err(
                    QlError::QueryError(QueryError::RelationDoesNotExist { name: schema_name }),
                );
            },
        };
        let table = match tables_take(&mut schema.tables, &table_only) {
            Some(t) => t,
            None => {
                let key = schema.name.clone();
                schemas_insert(&mut cache.cache, key, schema);
                proof {
                    assert(cache.schemas().dom() =~= pre.dom());
                    assert(same_contents(pre, cache.schemas()));
                    assert forall|n: Seq<char>|
                        #[trigger] cache.schemas().dom().contains(n) implies cache.schemas()[n].name@
                        == n && wf_schema(cache.schemas()[n]) by {
                        assert(pre.dom().contains(n));
                        if n == schema_name@ {
                            assert(tables_of(cache.schemas()[n].tables) == tables_of(
                                pre[n].tables,
                            ));
                        }
                    }
                }
                return Err(
                    QlError::QueryError(QueryError::RelationDoesNotExist { name: table_only }),
                );
            },
        };
        let snap = rows_snapshot(&table.rows);
        let ghost rm = rows_of(table.rows);
        let tkey = table.name.clone();
        tables_insert(&mut schema.tables, tkey, table);
        let skey = schema.name.clone();
        schemas_insert(&mut cache.cache, skey, schema);
        proof {
            assert(same_contents(pre, cache.schemas())) by {
                assert(tables_of(cache.schemas()[schema_name@].tables) =~= tables_of(
                    pre[schema_name@].tables,
                ));
                assert(cache.schemas().dom() =~= pre.dom());
            }
            assert forall|n: Seq<char>|
                #[trigger] cache.schemas().dom().contains(n) implies cache.schemas()[n].name@ == n
                && wf_schema(cache.schemas()[n]) by {
                assert(pre.dom().contains(n));
                if n == schema_name@ {
                    assert(tables_of(cache.schemas()[n].tables) =~= tables_of(pre[n].tables));
                }
            }
        }
        // the snapshot in hand, the rest of the query is pure computation
        let ghost snap0 = snap@;
        let mut pairs = snap;
        let mut rows: Vec<CacheTableRow> = Vec::new();
        proof {
            assert(snap0.skip(0) =~= snap0);
        }
        while pairs.len() > 0
            invariant
                rows@.len() + pairs@.len() == snap0.len(),
                pairs@ == snap0.skip(rows@.len() as int),
                rows@ == snap0.take(rows@.len() as int).map_values(
                    |p: (u64, CacheTableRow)| p.1,
                ),
            decreases pairs.len(),
        {
            let ghost i = rows@.len() as int;
            let p = pairs.remove(0);
            proof {
                assert(snap0.skip(i)[0] == snap0[i]);
                assert(snap0.skip(i).remove(0) =~= snap0.skip(i + 1));
            }
            rows.push(p.1);
            proof {
                assert(rows@ =~= snap0.take(i + 1).map_values(|p: (u64, CacheTableRow)| p.1));
            }
        }
        proof {
            assert(snap0.take(snap0.len() as int) =~= snap0);
        }
        let ghost rows0 = rows@;
        proof {
            assert(rows0 == snap0.map_values(|p: (u64, CacheTableRow)| p.1));
            assert(enumerates(snap0, rm));
        }
        let retained = match &self.constraint {
            None => rows,
            Some(c) => filter_rows(rows, c),
        };
        let ghost retained_spec = (match q.constraint {
            None => rows0,
            Some(c) => rows0.filter(|row: CacheTableRow| node_matches(*c, row@)),
        });
        proof {
            assert(retained@ == retained_spec);
        }
        let sorted = match &self.sort_by {
            None => retained,
            Some(sb) => {
                match check_sort_columns(&sb.columns, &retained) {
                    Err(e) => {
                        proof {
                            assert(pipeline_post(q, rows0, Err(e)));
                            assert(select_post(pre, q, Err(e)));
                        }
                        return Err(e);
                    },
                    Ok(()) => {
                        proof {
                            lemma_cols_check_usable(
                                col_views(sb.columns@),
                                rows_model(retained@),
                            );
                        }
                        sort_rows(retained, &sb.columns, sb.order)
                    },
                }
            },
        };
        let ghost sorted_spec = (match q.sort_by {
            None => retained_spec,
            Some(sb) => sort_spec(retained_spec, col_views(sb.columns@), sb.order),
        });
        proof {
            assert(sorted@ == sorted_spec);
        }
        let out = match self.scope {
            SelectScope::Everything => Ok(sorted),
            SelectScope::Fields(fs) => project_rows(sorted, &fs),
        };
        proof {
            assert(pipeline_post(q, rows0, out));
            assert(select_post(pre, q, out));
        }
        out
    }
}

} // verus!
