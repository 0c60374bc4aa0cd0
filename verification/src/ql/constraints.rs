//! Constraints for the query language: leaf comparisons over one field of a
//! row, composed into boolean trees with and, or, and not.

use vstd::prelude::*;
use vstd::string::StringExecFns;

use crate::cache::{row_lookup, CacheTableRow};
use crate::error::{QlError, QlResult};
use crate::value::{comparable, compare_values, spec_cmp, ColumnValue, ValueModel, ValueOrdering};

verus! {

/// A "constraint relational operator".
#[derive(Clone, Copy, PartialEq, Eq, Structural, Debug)]
pub enum ConstraintOp {
    /// `=`
    Eq,
    /// `<`
    Lt,
    /// `>`
    Gt,
    /// `<=`
    Le,
    /// `>=`
    Ge,
}

/// A leaf constraint: the value of the named field compared against a fixed
/// value.
#[derive(Debug)]
pub struct Constraint {
    /// The field the constraint reads.
    pub field_name: String,
    /// The comparison the constraint makes.
    pub op: ConstraintOp,
    /// The value the field is compared against.
    pub value: ColumnValue,
}

/// One node of a constraint tree. A composite exclusively owns its operand
/// subtrees, so a tree is a tree: no sharing and no cycles.
#[derive(Debug)]
pub enum ConstraintNode {
    /// A leaf comparison.
    Leaf(Constraint),
    /// Both subtrees must hold.
    And(AndConstraint),
    /// At least one subtree must hold.
    Or(OrConstraint),
    /// The subtree must not hold.
    Not(NotConstraint),
}

/// A boxed constraint tree, as the select builder stores it.
pub type BoxedConstraint = Box<ConstraintNode>;

/// An "and" constraint over two subtrees.
#[derive(Debug)]
pub struct AndConstraint {
    /// The left operand, evaluated first.
    pub left: BoxedConstraint,
    /// The right operand.
    pub right: BoxedConstraint,
}

/// An "or" constraint over two subtrees.
#[derive(Debug)]
pub struct OrConstraint {
    /// The left operand, evaluated first.
    pub left: BoxedConstraint,
    /// The right operand.
    pub right: BoxedConstraint,
}

/// A "not" constraint over one subtree.
#[derive(Debug)]
pub struct NotConstraint {
    /// The negated operand.
    pub inner: BoxedConstraint,
}

/// Whether one comparison holds between the actual value of a field and the
/// expected value of a leaf. Equality is type-strict, and a type-mismatched
/// ordering comparison is simply false, never an error: filtering stays total.
pub open spec fn op_matches(op: ConstraintOp, actual: ValueModel, expected: ValueModel) -> bool {
    match op {
        ConstraintOp::Eq => actual == expected,
        ConstraintOp::Lt => comparable(actual, expected) && spec_cmp(actual, expected) is Less,
        ConstraintOp::Gt => comparable(actual, expected) && spec_cmp(actual, expected) is Greater,
        ConstraintOp::Le => comparable(actual, expected) && !(spec_cmp(actual, expected)
            is Greater),
        ConstraintOp::Ge => comparable(actual, expected) && !(spec_cmp(actual, expected) is Less),
    }
}

/// Whether a leaf constraint holds of a row: a row without the named field
/// never matches.
pub open spec fn leaf_matches(
    field: Seq<char>,
    op: ConstraintOp,
    expected: ValueModel,
    row: Seq<(Seq<char>, ValueModel)>,
) -> bool {
    match row_lookup(row, field) {
        Option::None => false,
        Option::Some(actual) => op_matches(op, actual, expected),
    }
}

/// Whether a constraint tree holds of a row.
pub open spec fn node_matches(n: ConstraintNode, row: Seq<(Seq<char>, ValueModel)>) -> bool
    decreases n,
{
    match n {
        ConstraintNode::Leaf(c) => leaf_matches(c.field_name@, c.op, c.value@, row),
        ConstraintNode::And(a) => node_matches(*a.left, row) && node_matches(*a.right, row),
        ConstraintNode::Or(o) => node_matches(*o.left, row) || node_matches(*o.right, row),
        ConstraintNode::Not(m) => !node_matches(*m.inner, row),
    }
}

/// Evaluates a constraint tree against a row, left to right.
pub fn compute_node(n: &ConstraintNode, row: &CacheTableRow) -> (b: bool)
    ensures
        b == node_matches(*n, row@),
    decreases *n,
{
    match n {
        ConstraintNode::Leaf(c) => compute_leaf(c, row),
        ConstraintNode::And(a) => compute_node(&a.left, row) && compute_node(&a.right, row),
        ConstraintNode::Or(o) => compute_node(&o.left, row) || compute_node(&o.right, row),
        ConstraintNode::Not(m) => !compute_node(&m.inner, row),
    }
}

/// Evaluates a leaf constraint against a row.
fn compute_leaf(c: &Constraint, row: &CacheTableRow) -> (b: bool)
    ensures
        b == leaf_matches(c.field_name@, c.op, c.value@, row@),
{
    match row.get(&c.field_name) {
        Option::None => false,
        Option::Some(actual) => match c.op {
            ConstraintOp::Eq => *actual == c.value,
            _ => match compare_values(actual, &c.value) {
                Result::Err(_) => false,
                Result::Ok(o) => match c.op {
                    ConstraintOp::Eq => o == ValueOrdering::Equal,
                    ConstraintOp::Lt => o == ValueOrdering::Less,
                    ConstraintOp::Gt => o == ValueOrdering::Greater,
                    ConstraintOp::Le => !(o == ValueOrdering::Greater),
                    ConstraintOp::Ge => !(o == ValueOrdering::Less),
                },
            },
        },
    }
}

/// A computable constraint: the one capability every node of a constraint
/// tree exposes is to evaluate itself against a row.
pub trait ComputableConstraint {
    /// The constraint tree this value stands for.
    spec fn as_node(&self) -> ConstraintNode;

    /// Computes this constraint and returns whether the row satisfies it.
    fn compute(&self, row: &CacheTableRow) -> (b: bool)
        ensures
            b == node_matches(self.as_node(), row@),
    ;
}

impl ComputableConstraint for ConstraintNode {
    open spec fn as_node(&self) -> ConstraintNode {
        *self
    }

    fn compute(&self, row: &CacheTableRow) -> (b: bool) {
        compute_node(self, row)
    }
}

impl ComputableConstraint for Constraint {
    open spec fn as_node(&self) -> ConstraintNode {
        ConstraintNode::Leaf(*self)
    }

    fn compute(&self, row: &CacheTableRow) -> (b: bool) {
        compute_leaf(self, row)
    }
}

impl ComputableConstraint for AndConstraint {
    open spec fn as_node(&self) -> ConstraintNode {
        ConstraintNode::And(AndConstraint { left: self.left, right: self.right })
    }

    fn compute(&self, row: &CacheTableRow) -> (b: bool) {
        compute_node(&self.left, row) && compute_node(&self.right, row)
    }
}

impl ComputableConstraint for OrConstraint {
    open spec fn as_node(&self) -> ConstraintNode {
        ConstraintNode::Or(OrConstraint { left: self.left, right: self.right })
    }

    fn compute(&self, row: &CacheTableRow) -> (b: bool) {
        compute_node(&self.left, row) || compute_node(&self.right, row)
    }
}

impl ComputableConstraint for NotConstraint {
    open spec fn as_node(&self) -> ConstraintNode {
        ConstraintNode::Not(NotConstraint { inner: self.inner })
    }

    fn compute(&self, row: &CacheTableRow) -> (b: bool) {
        !compute_node(&self.inner, row)
    }
}

impl Constraint {
    /// Returns a builder for a `Constraint`.
    pub fn builder() -> (r: ConstraintBuilder)
        ensures
            r.field_name is None,
            r.op is None,
            r.value is None,
    {
        ConstraintBuilder { field_name: None, op: None, value: None }
    }
}

impl AndConstraint {
    /// Constructs a new "and" constraint from its two operands.
    pub fn new(left: BoxedConstraint, right: BoxedConstraint) -> (r: Self)
        ensures
            r.left == left,
            r.right == right,
    {
        Self { left, right }
    }
}

impl OrConstraint {
    /// Constructs a new "or" constraint from its two operands.
    pub fn new(left: BoxedConstraint, right: BoxedConstraint) -> (r: Self)
        ensures
            r.left == left,
            r.right == right,
    {
        Self { left, right }
    }
}

impl NotConstraint {
    /// Constructs a new "not" constraint from its operand.
    pub fn new(inner: BoxedConstraint) -> (r: Self)
        ensures
            r.inner == inner,
    {
        Self { inner }
    }
}

/// A builder for a `Constraint`: a pure accumulator of its three fields.
#[derive(Debug)]
pub struct ConstraintBuilder {
    /// The field name to compare, once set.
    pub field_name: Option<String>,
    /// The operator to compare with, once set.
    pub op: Option<ConstraintOp>,
    /// The value to compare against, once set.
    pub value: Option<ColumnValue>,
}

impl ConstraintBuilder {
    /// Sets the field name for the constraint.
    pub fn field_name(self, field_name: String) -> (r: Self)
        ensures
            r.field_name == Some(field_name),
            r.op == self.op,
            r.value == self.value,
    {
        Self { field_name: Some(field_name), op: self.op, value: self.value }
    }

    /// Sets the relational operator for the constraint.
    pub fn op(self, op: ConstraintOp) -> (r: Self)
        ensures
            r.field_name == self.field_name,
            r.op == Some(op),
            r.value == self.value,
    {
        Self { field_name: self.field_name, op: Some(op), value: self.value }
    }

    /// Sets the value to check against for the constraint.
    pub fn value(self, value: ColumnValue) -> (r: Self)
        ensures
            r.field_name == self.field_name,
            r.op == self.op,
            r.value == Some(value),
    {
        Self { field_name: self.field_name, op: self.op, value: Some(value) }
    }

    /// Consumes the builder and returns a `Constraint`. Succeeds exactly when
    /// every field was set; otherwise reports the first missing field, in the
    /// order field name, operator, value.
    pub fn build(self) -> (r: QlResult<Constraint>)
        ensures
            r is Ok <==> (self.field_name is Some && self.op is Some && self.value is Some),
            r matches Ok(c) ==> Some(c.field_name) == self.field_name && Some(c.op) == self.op
                && Some(c.value) == self.value,
            r matches Err(e) ==> e matches QlError::RequiredFieldIsNone { field_name } && (if (
            self.field_name is None) {
                field_name@ == "ConstraintBuilder.field_name"@
            } else if (self.op is None) {
                field_name@ == "ConstraintBuilder.op"@
            } else {
                field_name@ == "ConstraintBuilder.value"@
            }),
    {
        if self.field_name.is_none() {
            return Err(
                QlError::RequiredFieldIsNone {
                    field_name: String::from_str("ConstraintBuilder.field_name"),
                },
            );
        }
        if self.op.is_none() {
            return Err(
                QlError::RequiredFieldIsNone {
                    field_name: String::from_str("ConstraintBuilder.op"),
                },
            );
        }
        if self.value.is_none() {
            return Err(
                QlError::RequiredFieldIsNone {
                    field_name: String::from_str("ConstraintBuilder.value"),
                },
            );
        }
        Ok(
            Constraint {
                field_name: self.field_name.unwrap(),
                op: self.op.unwrap(),
                value: self.value.unwrap(),
            },
        )
    }
}

} // verus!
