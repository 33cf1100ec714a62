//! The bytecode path's values. Numbers carry their IEEE double encodings;
//! text lifted straight from the source is kept apart from text built at
//! runtime, though the two kinds compare equal by their characters.
use vstd::prelude::*;
use crate::number::{f64_cmp, NumCmp};

verus! {

/// A runtime value of the bytecode path.
#[derive(Debug, PartialEq)]
pub enum Value {
    Number(u64),
    Bool(bool),
    ConstString(String),
    String(String),
    Nil,
}

/// The mathematical picture of a value; both kinds of text stand for their
/// characters, marked by where they came from.
pub enum VmV {
    N(u64),
    B(bool),
    CS(Seq<char>),
    S(Seq<char>),
    Nil,
}

/// What a value stands for.
pub open spec fn vm_view(v: Value) -> VmV {
    match v {
        Value::Number(b) => VmV::N(b),
        Value::Bool(b) => VmV::B(b),
        Value::ConstString(s) => VmV::CS(s@),
        Value::String(s) => VmV::S(s@),
        Value::Nil => VmV::Nil,
    }
}

/// The characters a value of either text kind holds.
pub open spec fn vm_chars(v: VmV) -> Seq<char> {
    match v {
        VmV::CS(s) => s,
        VmV::S(s) => s,
        _ => Seq::empty(),
    }
}

/// Whether a value is text.
pub open spec fn vm_is_str(v: VmV) -> bool {
    v is CS || v is S
}

/// Language equality on the bytecode path: numbers by IEEE equality, text of
/// either kind by characters, booleans and nil by themselves, and values of
/// different kinds unequal.
pub open spec fn spec_vm_eq(a: VmV, b: VmV) -> bool {
    match (a, b) {
        (VmV::N(x), VmV::N(y)) => f64_cmp(x, y) == NumCmp::Equal,
        (VmV::B(x), VmV::B(y)) => x == y,
        (VmV::Nil, VmV::Nil) => true,
        _ => if vm_is_str(a) && vm_is_str(b) {
            vm_chars(a) == vm_chars(b)
        } else {
            false
        },
    }
}

/// How a value prints: numbers per the number module, text as itself.
pub open spec fn spec_vm_display(v: VmV) -> Seq<char> {
    match v {
        VmV::N(b) => crate::number::spec_num_str(b),
        VmV::B(x) => if x {
            "true"@
        } else {
            "false"@
        },
        VmV::CS(s) => s,
        VmV::S(s) => s,
        VmV::Nil => "nil"@,
    }
}

impl Value {
    /// Copies a value, keeping what it stands for.
    pub fn dup(&self) -> (r: Value)
        ensures
            vm_view(r) == vm_view(*self),
    {
        match self {
            Value::Number(b) => Value::Number(*b),
            Value::Bool(b) => Value::Bool(*b),
            Value::ConstString(s) => Value::ConstString(s.clone()),
            Value::String(s) => Value::String(s.clone()),
            Value::Nil => Value::Nil,
        }
    }

    /// Everything is truthy but `nil` and `false`.
    pub fn is_truthy(&self) -> (r: bool)
        ensures
            r == spec_vm_truthy(vm_view(*self)),
    {
        !(matches!(self, Value::Nil | Value::Bool(false)))
    }

    /// Decides language equality.
    pub fn equals(&self, other: &Value) -> (r: bool)
        ensures
            r == spec_vm_eq(vm_view(*self), vm_view(*other)),
    {
        match (self, other) {
            (Value::Number(x), Value::Number(y)) => matches!(
                crate::number::cmp_bits(*x, *y),
                NumCmp::Equal
            ),
            (Value::Bool(x), Value::Bool(y)) => x == y,
            (Value::Nil, Value::Nil) => true,
            (Value::ConstString(x), Value::ConstString(y)) => crate::text::str_eq(
                x.as_str(),
                y.as_str(),
            ),
            (Value::ConstString(x), Value::String(y)) => crate::text::str_eq(
                x.as_str(),
                y.as_str(),
            ),
            (Value::String(x), Value::ConstString(y)) => crate::text::str_eq(
                x.as_str(),
                y.as_str(),
            ),
            (Value::String(x), Value::String(y)) => crate::text::str_eq(x.as_str(), y.as_str()),
            _ => false,
        }
    }

    /// Prints a value as the language prints it.
    pub fn display(&self) -> (r: String)
        ensures
            r@ == spec_vm_display(vm_view(*self)),
    {
        match self {
            Value::Number(b) => crate::number::num_str_bits(*b),
            Value::Bool(x) => if *x {
                <String as vstd::string::StringExecFns>::from_str("true")
            } else {
                <String as vstd::string::StringExecFns>::from_str("false")
            },
            Value::ConstString(s) => s.clone(),
            Value::String(s) => s.clone(),
            Value::Nil => <String as vstd::string::StringExecFns>::from_str("nil"),
        }
    }
}

/// Everything is truthy but `nil` and `false`.
pub open spec fn spec_vm_truthy(v: VmV) -> bool {
    !(v is Nil || v == VmV::B(false))
}


impl Value {
    /// The negated number; only numbers can be negated.
    pub fn negate(&self) -> (r: Value)
        requires
            self is Number,
        ensures
            vm_view(r) == VmV::N(crate::number::spec_negated(self->Number_0)),
    {
        match self {
            Value::Number(b) => Value::Number(crate::number::negate_bits(*b)),
            _ => Value::Nil,
        }
    }

    /// The sum of two numbers, or the joined text when either side is text.
    pub fn add(&self, other: &Value) -> (r: Value)
        requires
            (self is Number && other is Number) || vm_is_str(vm_view(*self)) || vm_is_str(
                vm_view(*other),
            ),
        ensures
            self is Number && other is Number ==> vm_view(r) == VmV::N(
                crate::number::f64_add(self->Number_0, other->Number_0),
            ),
            !(self is Number && other is Number) ==> vm_view(r) == VmV::S(
                spec_vm_display(vm_view(*self)) + spec_vm_display(vm_view(*other)),
            ),
    {
        match (self, other) {
            (Value::Number(a), Value::Number(b)) => Value::Number(
                crate::number::add_bits(*a, *b),
            ),
            _ => Value::String(self.display().concat(other.display().as_str())),
        }
    }

    /// The difference of two numbers.
    pub fn subtract(&self, other: &Value) -> (r: Value)
        requires
            self is Number && other is Number,
        ensures
            vm_view(r) == VmV::N(crate::number::f64_sub(self->Number_0, other->Number_0)),
    {
        match (self, other) {
            (Value::Number(a), Value::Number(b)) => Value::Number(
                crate::number::sub_bits(*a, *b),
            ),
            _ => Value::Nil,
        }
    }

    /// The product of two numbers.
    pub fn multiply(&self, other: &Value) -> (r: Value)
        requires
            self is Number && other is Number,
        ensures
            vm_view(r) == VmV::N(crate::number::f64_mul(self->Number_0, other->Number_0)),
    {
        match (self, other) {
            (Value::Number(a), Value::Number(b)) => Value::Number(
                crate::number::mul_bits(*a, *b),
            ),
            _ => Value::Nil,
        }
    }

    /// The quotient of two numbers, following the machine's own division —
    /// dividing by zero gives its infinities and not-a-number values.
    pub fn divide(&self, other: &Value) -> (r: Value)
        requires
            self is Number && other is Number,
        ensures
            vm_view(r) == VmV::N(crate::number::f64_div(self->Number_0, other->Number_0)),
    {
        match (self, other) {
            (Value::Number(a), Value::Number(b)) => Value::Number(
                crate::number::div_bits(*a, *b),
            ),
            _ => Value::Nil,
        }
    }

    /// Whether one number exceeds another; false when a not-a-number value
    /// is involved.
    pub fn greater(&self, other: &Value) -> (r: Value)
        requires
            self is Number && other is Number,
        ensures
            vm_view(r) == VmV::B(
                crate::number::f64_cmp(self->Number_0, other->Number_0)
                    == crate::number::NumCmp::Greater,
            ),
    {
        match (self, other) {
            (Value::Number(a), Value::Number(b)) => Value::Bool(
                matches!(crate::number::cmp_bits(*a, *b), NumCmp::Greater),
            ),
            _ => Value::Nil,
        }
    }

    /// Whether one number falls below another; false when a not-a-number
    /// value is involved.
    pub fn less(&self, other: &Value) -> (r: Value)
        requires
            self is Number && other is Number,
        ensures
            vm_view(r) == VmV::B(
                crate::number::f64_cmp(self->Number_0, other->Number_0)
                    == crate::number::NumCmp::Less,
            ),
    {
        match (self, other) {
            (Value::Number(a), Value::Number(b)) => Value::Bool(
                matches!(crate::number::cmp_bits(*a, *b), NumCmp::Less),
            ),
            _ => Value::Nil,
        }
    }
}

} // verus!
