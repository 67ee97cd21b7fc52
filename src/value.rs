use vstd::prelude::*;

verus! {

/// The declared type of a variable.
#[derive(Debug, Clone, Copy, PartialEq, Eq)]
pub enum Type {
    Int,
    Float,
    Str,
    Var,
}

/// The result of evaluating a statement or an expression.
#[derive(Debug, Clone)]
pub enum Value {
    Int(i64),
    /// A number with a decimal point, as its literal was written.
    Float(String),
    Str(String),
    /// A statement that completed with nothing to show.
    Terminator,
    /// The session should stop.
    Exit,
    /// A token that the grammar cannot use, or arithmetic that overflowed.
    Error,
    SpecificError(String),
    NotImplementedError,
    /// A reference to a variable that holds no value.
    NameError,
}

/// The mathematical value of a `Value`.
pub enum ValueV {
    Int(i64),
    Float(Seq<char>),
    Str(Seq<char>),
    Terminator,
    Exit,
    Error,
    SpecificError(Seq<char>),
    NotImplementedError,
    NameError,
}

impl View for Value {
    type V = ValueV;

    open spec fn view(&self) -> ValueV {
        match self {
            Value::Int(v) => ValueV::Int(*v),
            Value::Float(s) => ValueV::Float(s@),
            Value::Str(s) => ValueV::Str(s@),
            Value::Terminator => ValueV::Terminator,
            Value::Exit => ValueV::Exit,
            Value::Error => ValueV::Error,
            Value::SpecificError(s) => ValueV::SpecificError(s@),
            Value::NotImplementedError => ValueV::NotImplementedError,
            Value::NameError => ValueV::NameError,
        }
    }
}

impl Value {
    /// A copy of this value.
    pub fn duplicate(&self) -> (r: Value)
        ensures
            r@ == self@,
    {
        match self {
            Value::Int(v) => Value::Int(*v),
            Value::Float(s) => Value::Float(s.clone()),
            Value::Str(s) => Value::Str(s.clone()),
            Value::Terminator => Value::Terminator,
            Value::Exit => Value::Exit,
            Value::Error => Value::Error,
            Value::SpecificError(s) => Value::SpecificError(s.clone()),
            Value::NotImplementedError => Value::NotImplementedError,
            Value::NameError => Value::NameError,
        }
    }
}

/// `b` to the power `e`.
pub open spec fn power(b: int, e: nat) -> int
    decreases e,
{
    if e == 0 {
        1
    } else {
        power(b, (e - 1) as nat) * b
    }
}

/// Integer exponentiation: none for a negative exponent or a result outside
/// 64 signed bits.
pub open spec fn int_power(b: i64, e: i64) -> Option<i64> {
    if e < 0 {
        None
    } else if i64::MIN <= power(b as int, e as nat) <= i64::MAX {
        Some(power(b as int, e as nat) as i64)
    } else {
        None
    }
}

/// The value of `base ** exp`: both must be integers, and the power must fit.
pub open spec fn power_value(base: ValueV, exp: ValueV) -> ValueV {
    match (base, exp) {
        (ValueV::Int(b), ValueV::Int(e)) => match int_power(b, e) {
            Some(p) => ValueV::Int(p),
            None => ValueV::Error,
        },
        _ => ValueV::Error,
    }
}

/// Integer `+`, `-`, `*` or truncating `/`; none where the result does not
/// fit or the divisor is zero.
pub open spec fn int_op(op: char, a: i64, b: i64) -> Option<i64> {
    if op == '+' {
        a.checked_add(b)
    } else if op == '-' {
        a.checked_sub(b)
    } else if op == '*' {
        a.checked_mul(b)
    } else {
        a.checked_div(b)
    }
}

/// A step of a left-to-right fold: two integers combine, an overflow or a
/// division by zero is an error, and any other pair leaves the running value
/// as it was.
pub open spec fn combine(op: char, acc: ValueV, rhs: ValueV) -> ValueV {
    match (acc, rhs) {
        (ValueV::Int(a), ValueV::Int(b)) => match int_op(op, a, b) {
            Some(v) => ValueV::Int(v),
            None => ValueV::Error,
        },
        _ => acc,
    }
}

/// Powers of a base of absolute value two or more at least double with
/// each step.
proof fn lemma_power_grows(b: int, n: nat, m: nat)
    requires
        b >= 2 || b <= -2,
        n < m,
    ensures
        abs_int(power(b, m)) >= 2 * abs_int(power(b, n)),
    decreases m - n,
{
    if m == n + 1 {
        assert(abs_int(power(b, n) * b) == abs_int(power(b, n)) * abs_int(b)) by (nonlinear_arith);
        assert(abs_int(power(b, n)) * abs_int(b) >= 2 * abs_int(power(b, n))) by (nonlinear_arith)
            requires
                abs_int(b) >= 2,
        ;
    } else {
        lemma_power_grows(b, n, (m - 1) as nat);
        let p = power(b, (m - 1) as nat);
        assert(abs_int(p * b) == abs_int(p) * abs_int(b)) by (nonlinear_arith);
        assert(abs_int(p) * abs_int(b) >= abs_int(p)) by (nonlinear_arith)
            requires
                abs_int(b) >= 2,
        ;
    }
}

/// The absolute value of `x`.
pub open spec fn abs_int(x: int) -> int {
    if x < 0 {
        -x
    } else {
        x
    }
}

/// The powers of 0, 1 and -1.
proof fn lemma_power_unit(b: int, e: nat)
    requires
        -1 <= b <= 1,
    ensures
        b == 0 ==> power(b, e) == if e == 0 {
            1int
        } else {
            0int
        },
        b == 1 ==> power(b, e) == 1,
        b == -1 ==> power(b, e) == if e % 2 == 0 {
            1int
        } else {
            -1int
        },
    decreases e,
{
    if e > 0 {
        lemma_power_unit(b, (e - 1) as nat);
    }
}

/// `b` to the power `e`, where it fits in 64 signed bits and `e` is not negative.
pub fn checked_power(b: i64, e: i64) -> (r: Option<i64>)
    ensures
        r == int_power(b, e),
{
    if e < 0 {
        return None;
    }
    if -1 <= b && b <= 1 {
        proof {
            lemma_power_unit(b as int, e as nat);
        }
        if b == 0 {
            return if e == 0 {
                Some(1)
            } else {
                Some(0)
            };
        } else if b == 1 {
            return Some(1);
        } else {
            return if e % 2 == 0 {
                Some(1)
            } else {
                Some(-1)
            };
        }
    }
    let mut acc: i64 = 1;
    let mut i: i64 = 0;
    while i < e
        invariant
            0 <= i <= e,
            b >= 2 || b <= -2,
            acc == power(b as int, i as nat),
        decreases e - i,
    {
        match acc.checked_mul(b) {
            Some(v) => {
                acc = v;
                i = i + 1;
            },
            None => {
                proof {
                    let next = power(b as int, (i + 1) as nat);
                    assert(next == acc * b);
                    if e > i + 1 {
                        lemma_power_grows(b as int, (i + 1) as nat, e as nat);
                    }
                }
                return None;
            },
        }
    }
    Some(acc)
}

/// The value of `base ** exp`.
pub fn power_of(base: &Value, exp: &Value) -> (r: Value)
    ensures
        r@ == power_value(base@, exp@),
{
    match (base, exp) {
        (Value::Int(b), Value::Int(e)) => match checked_power(*b, *e) {
            Some(p) => Value::Int(p),
            None => Value::Error,
        },
        _ => Value::Error,
    }
}

/// One step of the fold of `+`, `-`, `*` or `/` over a running value.
pub fn combine_values(op: char, acc: Value, rhs: &Value) -> (r: Value)
    ensures
        r@ == combine(op, acc@, rhs@),
{
    match (&acc, rhs) {
        (Value::Int(a), Value::Int(b)) => {
            let res = if op == '+' {
                a.checked_add(*b)
            } else if op == '-' {
                a.checked_sub(*b)
            } else if op == '*' {
                a.checked_mul(*b)
            } else {
                a.checked_div(*b)
            };
            match res {
                Some(v) => Value::Int(v),
                None => Value::Error,
            }
        },
        _ => acc,
    }
}

} // verus!
