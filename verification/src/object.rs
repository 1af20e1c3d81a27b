use vstd::prelude::*;
use std::sync::Arc;
use crate::errors::{ErrorView, GearsError};
use crate::text::append_str;

verus! {

/// A value, or the error of an operation.
pub type GearsResult = Result<GearsObject, GearsError>;

/// A shared value, or the error of a run.
pub type ArcGearsResult = Result<ArcGearsObject, GearsError>;

/// A value as the machine holds it: shared, never changed.
pub type ArcGearsObject = Arc<GearsObject>;

/// A run-time value. Text and lists live on the heap behind shared handles;
/// a value never changes once it is built.
#[derive(Debug, PartialEq, Clone)]
pub enum GearsObject {
    Str(String),
    Int(i64),
    Bool(bool),
    List(Vec<ArcGearsObject>),
    NoneValue,
}

/// A value as contracts see it.
pub enum Value {
    Str(Seq<char>),
    Int(i64),
    Bool(bool),
    List(Seq<Value>),
    NoneValue,
}

impl View for GearsObject {
    type V = Value;

    open spec fn view(&self) -> Value {
        self.model()
    }
}

impl GearsObject {
    /// The value that this object stands for.
    pub open spec fn model(&self) -> Value
        decreases self,
    {
        match self {
            GearsObject::Str(s) => Value::Str(s@),
            GearsObject::Int(i) => Value::Int(*i),
            GearsObject::Bool(b) => Value::Bool(*b),
            GearsObject::List(l) => Value::List(list_view(l@)),
            GearsObject::NoneValue => Value::NoneValue,
        }
    }
}

/// The values behind a sequence of handles.
pub open spec fn list_view(l: Seq<ArcGearsObject>) -> Seq<Value>
    decreases l,
{
    Seq::new(
        l.len(),
        |i: int|
            if 0 <= i < l.len() {
                l[i].model()
            } else {
                Value::NoneValue
            },
    )
}

/// The result of a value operation as contracts see it.
pub open spec fn result_view(r: GearsResult) -> Result<Value, ErrorView> {
    match r {
        Ok(v) => Ok(v@),
        Err(e) => Err(e@),
    }
}

/// The result of a run as contracts see it.
pub open spec fn arc_result_view(r: ArcGearsResult) -> Result<Value, ErrorView> {
    match r {
        Ok(v) => Ok(v@),
        Err(e) => Err(e@),
    }
}

impl Value {
    /// The name of the value's type tag, as messages show it.
    pub open spec fn tag_name(self) -> Seq<char> {
        match self {
            Value::Int(_) => "Integer"@,
            Value::Bool(_) => "Bool"@,
            Value::Str(_) => "String"@,
            Value::List(_) => "List"@,
            Value::NoneValue => "NoneType"@,
        }
    }

    /// Truthiness: a nonzero integer, a nonempty text or list, or `true`.
    pub open spec fn truthy(self) -> bool {
        match self {
            Value::Bool(b) => b,
            Value::Int(i) => i != 0,
            Value::Str(s) => s.len() > 0,
            Value::List(l) => l.len() > 0,
            Value::NoneValue => false,
        }
    }
}

/// The failure of a two-operand operation that is not defined for its operands.
pub open spec fn binary_type_error(op: Seq<char>, left: Value, right: Value) -> ErrorView {
    ErrorView::TypeError(
        "TypeError: Unable to perform "@ + op + " on "@ + left.tag_name() + " and "@
            + right.tag_name(),
    )
}

/// The failure of a one-operand operation that is not defined for its operand.
pub open spec fn unary_type_error(op: Seq<char>, left: Value) -> ErrorView {
    ErrorView::TypeError("TypeError: Unable to perform "@ + op + " on "@ + left.tag_name())
}

/// The failure of a division whose divisor is zero.
pub open spec fn division_by_zero() -> ErrorView {
    ErrorView::TypeError("ArithmeticError: Division by zero"@)
}

/// The quotient of `x` by a nonzero `d`, rounded toward zero.
pub open spec fn truncated_quotient(x: int, d: int) -> int {
    if x == 0 {
        0
    } else if x > 0 && d > 0 {
        x / d
    } else if x < 0 && d < 0 {
        (x * -1) / (d * -1)
    } else if x < 0 {
        ((x * -1) / d) * -1
    } else {
        (x / (d * -1)) * -1
    }
}

/// Integer sum, or concatenation of two texts. Integers wrap on overflow.
pub open spec fn value_add(left: Value, right: Value) -> Result<Value, ErrorView> {
    match (left, right) {
        (Value::Int(l), Value::Int(r)) => Ok(Value::Int(l.wrapping_add(r))),
        (Value::Str(l), Value::Str(r)) => Ok(Value::Str(l + r)),
        _ => Err(binary_type_error("add"@, left, right)),
    }
}

/// Integer difference, wrapping on overflow.
pub open spec fn value_sub(left: Value, right: Value) -> Result<Value, ErrorView> {
    match (left, right) {
        (Value::Int(l), Value::Int(r)) => Ok(Value::Int(l.wrapping_sub(r))),
        _ => Err(binary_type_error("sub"@, left, right)),
    }
}

/// Integer product, wrapping on overflow.
pub open spec fn value_mul(left: Value, right: Value) -> Result<Value, ErrorView> {
    match (left, right) {
        (Value::Int(l), Value::Int(r)) => Ok(Value::Int(l.wrapping_mul(r))),
        _ => Err(binary_type_error("mul"@, left, right)),
    }
}

/// Integer quotient rounded toward zero. A zero divisor is an error; the one
/// quotient that does not fit, the least integer by minus one, wraps to the
/// least integer.
pub open spec fn value_div(left: Value, right: Value) -> Result<Value, ErrorView> {
    match (left, right) {
        (Value::Int(l), Value::Int(r)) => if r == 0 {
            Err(division_by_zero())
        } else if truncated_quotient(l as int, r as int) > i64::MAX {
            Ok(Value::Int(i64::MIN))
        } else {
            Ok(Value::Int(truncated_quotient(l as int, r as int) as i64))
        },
        _ => Err(binary_type_error("div"@, left, right)),
    }
}

/// Structural equality; values of different tags are unequal.
pub open spec fn value_equal(left: Value, right: Value) -> Result<Value, ErrorView> {
    Ok(Value::Bool(left == right))
}

/// Whether `left` and `right` differ.
pub open spec fn value_nequal(left: Value, right: Value) -> Result<Value, ErrorView> {
    Ok(Value::Bool(left != right))
}

/// `left < right` on two integers; a type error on other values.
pub open spec fn value_less(left: Value, right: Value) -> Result<Value, ErrorView> {
    match (left, right) {
        (Value::Int(l), Value::Int(r)) => Ok(Value::Bool(l < r)),
        _ => Err(binary_type_error("<"@, left, right)),
    }
}

/// `left > right` on two integers; a type error on other values.
pub open spec fn value_greater(left: Value, right: Value) -> Result<Value, ErrorView> {
    match (left, right) {
        (Value::Int(l), Value::Int(r)) => Ok(Value::Bool(l > r)),
        _ => Err(binary_type_error(">"@, left, right)),
    }
}

/// `left <= right` on two integers; a type error on other values.
pub open spec fn value_less_eq(left: Value, right: Value) -> Result<Value, ErrorView> {
    match (left, right) {
        (Value::Int(l), Value::Int(r)) => Ok(Value::Bool(l <= r)),
        _ => Err(binary_type_error("<="@, left, right)),
    }
}

/// `left >= right` on two integers; a type error on other values.
pub open spec fn value_greater_eq(left: Value, right: Value) -> Result<Value, ErrorView> {
    match (left, right) {
        (Value::Int(l), Value::Int(r)) => Ok(Value::Bool(l >= r)),
        _ => Err(binary_type_error(">="@, left, right)),
    }
}

/// The integer plus one, wrapping on overflow.
pub open spec fn value_inc(left: Value) -> Result<Value, ErrorView> {
    match left {
        Value::Int(l) => Ok(Value::Int(l.wrapping_add(1))),
        _ => Err(unary_type_error("increment"@, left)),
    }
}

/// Another handle to the value behind `handle`. Wraps `Arc::clone`, which hands
/// out a new pointer to the same allocation and copies nothing.
#[verifier::external_body]
pub(crate) fn share(handle: &ArcGearsObject) -> (res: ArcGearsObject)
    ensures
        res == *handle,
{
    Arc::clone(handle)
}

fn create_type_error(op: &str, left: &GearsObject, right: &GearsObject) -> (e: GearsError)
    ensures
        e@ == binary_type_error(op@, left@, right@),
{
    let mut m = String::new();
    append_str(&mut m, "TypeError: Unable to perform ");
    append_str(&mut m, op);
    append_str(&mut m, " on ");
    append_str(&mut m, left.get_type_str());
    append_str(&mut m, " and ");
    append_str(&mut m, right.get_type_str());
    assert(m@ =~= "TypeError: Unable to perform "@ + op@ + " on "@ + left@.tag_name() + " and "@
        + right@.tag_name());
    GearsError::TypeError(m)
}

fn create_type_error_unary(op: &str, left: &GearsObject) -> (e: GearsError)
    ensures
        e@ == unary_type_error(op@, left@),
{
    let mut m = String::new();
    append_str(&mut m, "TypeError: Unable to perform ");
    append_str(&mut m, op);
    append_str(&mut m, " on ");
    append_str(&mut m, left.get_type_str());
    assert(m@ =~= "TypeError: Unable to perform "@ + op@ + " on "@ + left@.tag_name());
    GearsError::TypeError(m)
}

enum CompareDirection {
    LessThan,
    GreaterThan,
    LessThanEqual,
    GreaterThanEqual,
}

/// Whether two lists hold equal values, place by place.
fn list_equal(left: &Vec<ArcGearsObject>, right: &Vec<ArcGearsObject>) -> (r: bool)
    ensures
        r == (list_view(left@) == list_view(right@)),
    decreases left,
{
    if left.len() != right.len() {
        assert(list_view(left@).len() != list_view(right@).len());
        return false;
    }
    let mut i: usize = 0;
    while i < left.len()
        invariant
            i <= left.len(),
            left.len() == right.len(),
            forall|j: int| 0 <= j < i ==> left@[j].model() == right@[j].model(),
        decreases left.len() - i,
    {
        if !left[i]._equal(&right[i]) {
            assert(list_view(left@)[i as int] != list_view(right@)[i as int]);
            return false;
        }
        i += 1;
    }
    assert(list_view(left@) =~= list_view(right@));
    true
}

impl GearsObject {
    /// The integer plus one, wrapping; a type error on other values.
    pub fn inc(&self) -> (r: GearsResult)
        ensures
            result_view(r) == value_inc(self@),
    {
        match self {
            GearsObject::Int(l) => Ok(GearsObject::Int(l.wrapping_add(1))),
            _ => Err(create_type_error_unary("increment", &self)),
        }
    }

    /// The sum of two integers, wrapping, or two texts joined; a type error on
    /// other values.
    pub fn add(&self, other: &GearsObject) -> (r: GearsResult)
        ensures
            result_view(r) == value_add(self@, other@),
    {
        match self {
            GearsObject::Int(l) => match other {
                GearsObject::Int(r) => Ok(GearsObject::Int(l.wrapping_add(*r))),
                _ => Err(create_type_error("add", &self, &other)),
            },
            GearsObject::Str(l) => match other {
                GearsObject::Str(r) => {
                    let mut joined = l.clone();
                    append_str(&mut joined, r.as_str());
                    Ok(GearsObject::Str(joined))
                },
                _ => Err(create_type_error("add", &self, &other)),
            },
            _ => Err(create_type_error("add", &self, &other)),
        }
    }

    /// The difference of two integers, wrapping; a type error on other values.
    pub fn sub(&self, other: &GearsObject) -> (r: GearsResult)
        ensures
            result_view(r) == value_sub(self@, other@),
    {
        match self {
            GearsObject::Int(l) => match other {
                GearsObject::Int(r) => Ok(GearsObject::Int(l.wrapping_sub(*r))),
                _ => Err(create_type_error("sub", &self, &other)),
            },
            _ => Err(create_type_error("sub", &self, &other)),
        }
    }

    /// The product of two integers, wrapping; a type error on other values.
    pub fn mul(&self, other: &GearsObject) -> (r: GearsResult)
        ensures
            result_view(r) == value_mul(self@, other@),
    {
        match self {
            GearsObject::Int(l) => match other {
                GearsObject::Int(r) => Ok(GearsObject::Int(l.wrapping_mul(*r))),
                _ => Err(create_type_error("mul", &self, &other)),
            },
            _ => Err(create_type_error("mul", &self, &other)),
        }
    }

    /// The quotient of two integers, rounded towards zero and wrapping; a type
    /// error on other values and on a division by zero.
    pub fn div(&self, other: &GearsObject) -> (r: GearsResult)
        ensures
            result_view(r) == value_div(self@, other@),
    {
        match self {
            GearsObject::Int(l) => match other {
                GearsObject::Int(r) => {
                    if *r == 0 {
                        let mut m = String::new();
                        append_str(&mut m, "ArithmeticError: Division by zero");
                        Err(GearsError::TypeError(m))
                    } else {
                        match l.checked_div(*r) {
                            Some(q) => Ok(GearsObject::Int(q)),
                            None => Ok(GearsObject::Int(i64::MIN)),
                        }
                    }
                },
                _ => Err(create_type_error("div", &self, &other)),
            },
            _ => Err(create_type_error("div", &self, &other)),
        }
    }

    /// Structural equality of the two values.
    pub fn _equal(&self, other: &GearsObject) -> (r: bool)
        ensures
            r == (self@ == other@),
        decreases self,
    {
        match self {
            GearsObject::Int(l) => match other {
                GearsObject::Int(r) => *l == *r,
                _ => false,
            },
            GearsObject::Bool(l) => match other {
                GearsObject::Bool(r) => *l == *r,
                _ => false,
            },
            GearsObject::Str(l) => match other {
                GearsObject::Str(r) => *l == *r,
                _ => false,
            },
            GearsObject::List(l) => match other {
                GearsObject::List(r) => list_equal(l, r),
                _ => false,
            },
            GearsObject::NoneValue => match other {
                GearsObject::NoneValue => true,
                _ => false,
            },
        }
    }

    /// Whether the two values are equal, as a `Bool`.
    pub fn equal(&self, other: &GearsObject) -> (r: GearsResult)
        ensures
            result_view(r) == value_equal(self@, other@),
    {
        Ok(GearsObject::Bool(self._equal(other)))
    }

    /// Whether the two values differ, as a `Bool`.
    pub fn nequal(&self, other: &GearsObject) -> (r: GearsResult)
        ensures
            result_view(r) == value_nequal(self@, other@),
    {
        Ok(GearsObject::Bool(!self._equal(other)))
    }

    fn compare(&self, other: &GearsObject, dir: CompareDirection, op: &str) -> (r: GearsResult)
        ensures
            result_view(r) == match (self@, other@) {
                (Value::Int(l), Value::Int(r)) => Ok::<Value, ErrorView>(
                    Value::Bool(
                        match dir {
                            CompareDirection::LessThan => l < r,
                            CompareDirection::GreaterThan => l > r,
                            CompareDirection::LessThanEqual => l <= r,
                            CompareDirection::GreaterThanEqual => l >= r,
                        },
                    ),
                ),
                _ => Err(binary_type_error(op@, self@, other@)),
            },
    {
        match self {
            GearsObject::Int(l) => match other {
                GearsObject::Int(r) => {
                    match dir {
                        CompareDirection::LessThan => Ok(GearsObject::Bool(*l < *r)),
                        CompareDirection::GreaterThan => Ok(GearsObject::Bool(*l > *r)),
                        CompareDirection::LessThanEqual => Ok(GearsObject::Bool(*l <= *r)),
                        CompareDirection::GreaterThanEqual => Ok(GearsObject::Bool(*l >= *r)),
                    }
                },
                _ => Err(create_type_error(op, &self, &other)),
            },
            _ => Err(create_type_error(op, &self, &other)),
        }
    }

    /// `self < other` on two integers; a type error on other values.
    pub fn less(&self, other: &GearsObject) -> (r: GearsResult)
        ensures
            result_view(r) == value_less(self@, other@),
    {
        self.compare(other, CompareDirection::LessThan, "<")
    }

    /// `self > other` on two integers; a type error on other values.
    pub fn greater(&self, other: &GearsObject) -> (r: GearsResult)
        ensures
            result_view(r) == value_greater(self@, other@),
    {
        self.compare(other, CompareDirection::GreaterThan, ">")
    }

    /// `self <= other` on two integers; a type error on other values.
    pub fn less_eq(&self, other: &GearsObject) -> (r: GearsResult)
        ensures
            result_view(r) == value_less_eq(self@, other@),
    {
        self.compare(other, CompareDirection::LessThanEqual, "<=")
    }

    /// `self >= other` on two integers; a type error on other values.
    pub fn greater_eq(&self, other: &GearsObject) -> (r: GearsResult)
        ensures
            result_view(r) == value_greater_eq(self@, other@),
    {
        self.compare(other, CompareDirection::GreaterThanEqual, ">=")
    }

    /// A copy of the value. The elements of a list are shared, not copied.
    pub fn duplicate(&self) -> (r: GearsObject)
        ensures
            r@ == self@,
    {
        match self {
            GearsObject::Str(s) => GearsObject::Str(s.clone()),
            GearsObject::Int(i) => GearsObject::Int(*i),
            GearsObject::Bool(b) => GearsObject::Bool(*b),
            GearsObject::List(l) => {
                let mut copy: Vec<ArcGearsObject> = Vec::new();
                let mut i: usize = 0;
                while i < l.len()
                    invariant
                        i <= l.len(),
                        copy.len() == i,
                        forall|j: int| 0 <= j < i ==> copy@[j] == l@[j],
                    decreases l.len() - i,
                {
                    copy.push(share(&l[i]));
                    i += 1;
                }
                assert(list_view(copy@) =~= list_view(l@));
                GearsObject::List(copy)
            },
            GearsObject::NoneValue => GearsObject::NoneValue,
        }
    }

    /// The name of the value's type.
    pub fn get_type_str(&self) -> (s: &'static str)
        ensures
            s@ == self@.tag_name(),
    {
        match self {
            GearsObject::Int(_) => "Integer",
            GearsObject::Bool(_) => "Bool",
            GearsObject::Str(_) => "String",
            GearsObject::List(_) => "List",
            GearsObject::NoneValue => "NoneType",
        }
    }

    /// Whether the value counts as true in a condition.
    pub fn as_bool(&self) -> (b: bool)
        ensures
            b == self@.truthy(),
    {
        match self {
            GearsObject::Bool(b) => *b,
            GearsObject::Int(i) => *i != 0,
            GearsObject::Str(s) => !s.as_str().is_empty(),
            GearsObject::List(l) => l.len() > 0,
            GearsObject::NoneValue => false,
        }
    }
}

/// A handle to the value `true`.
pub fn true_obj() -> (v: ArcGearsObject)
    ensures
        v@ == Value::Bool(true),
{
    Arc::new(GearsObject::Bool(true))
}

/// A handle to the value `false`.
pub fn false_obj() -> (v: ArcGearsObject)
    ensures
        v@ == Value::Bool(false),
{
    Arc::new(GearsObject::Bool(false))
}

/// A handle to the value `none`.
pub fn none_obj() -> (v: ArcGearsObject)
    ensures
        v@ == Value::NoneValue,
{
    Arc::new(GearsObject::NoneValue)
}

impl vstd::std_specs::convert::FromSpecImpl<i64> for GearsObject {
    open spec fn obeys_from_spec() -> bool {
        true
    }

    open spec fn from_spec(i: i64) -> GearsObject {
        GearsObject::Int(i)
    }
}

impl From<i64> for GearsObject {
    fn from(i: i64) -> (r: GearsObject) {
        GearsObject::Int(i)
    }
}

impl vstd::std_specs::convert::FromSpecImpl<bool> for GearsObject {
    open spec fn obeys_from_spec() -> bool {
        true
    }

    open spec fn from_spec(b: bool) -> GearsObject {
        GearsObject::Bool(b)
    }
}

impl From<bool> for GearsObject {
    fn from(b: bool) -> (r: GearsObject) {
        GearsObject::Bool(b)
    }
}

impl<'a> vstd::std_specs::convert::FromSpecImpl<&'a str> for GearsObject {
    open spec fn obeys_from_spec() -> bool {
        false
    }

    open spec fn from_spec(s: &'a str) -> GearsObject {
        arbitrary()
    }
}

impl<'a> From<&'a str> for GearsObject {
    fn from(s: &'a str) -> (r: GearsObject)
        ensures
            r@ == Value::Str(s@),
    {
        GearsObject::Str(String::from_str(s))
    }
}

impl vstd::std_specs::convert::FromSpecImpl<Vec<ArcGearsObject>> for GearsObject {
    open spec fn obeys_from_spec() -> bool {
        true
    }

    open spec fn from_spec(v: Vec<ArcGearsObject>) -> GearsObject {
        GearsObject::List(v)
    }
}

impl From<Vec<ArcGearsObject>> for GearsObject {
    fn from(v: Vec<ArcGearsObject>) -> (r: GearsObject) {
        GearsObject::List(v)
    }
}

} // verus!
