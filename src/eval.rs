use vstd::prelude::*;
use crate::token::TokenV;
use crate::value::{combine, power_value, Type, ValueV};

verus! {

/// The variables of a session, by name: declared type and value.
pub type EnvV = Map<Seq<char>, (Type, ValueV)>;

/// How deeply parentheses and `**` may nest in one statement; past that
/// the evaluation yields an error instead of going deeper.
pub const MAX_NESTING: usize = 200;

/// The token under consideration: the first of `t`.
pub open spec fn cur(t: Seq<TokenV>) -> TokenV {
    if t.len() > 0 {
        t[0]
    } else {
        TokenV::EndOfInput
    }
}

/// `t` after its first token is taken; once nothing is left, `EndOfInput`
/// stays.
pub open spec fn adv(t: Seq<TokenV>) -> Seq<TokenV> {
    if t.len() > 1 {
        t.drop_first()
    } else {
        seq![TokenV::EndOfInput]
    }
}

/// A measure that taking a token other than `EndOfInput` lowers.
pub open spec fn weight(t: Seq<TokenV>) -> nat {
    t.len() + if cur(t) is EndOfInput {
        0nat
    } else {
        1nat
    }
}

/// The value a variable reference yields: the variable's value, or the
/// unknown-name error.
pub open spec fn lookup(env: EnvV, name: Seq<char>) -> ValueV {
    if env.contains_key(name) {
        env[name].1
    } else {
        ValueV::NameError
    }
}

/// `expr ::= term { ('+' | '-') term }`, folded from the left. The result
/// and the tokens left; `depth` is how much deeper parentheses and `**` may
/// still nest.
pub open spec fn eval_expr(t: Seq<TokenV>, env: EnvV, depth: nat) -> (ValueV, Seq<TokenV>)
    decreases weight(t), 6nat,
{
    let (v, t1) = eval_term(t, env, depth);
    if weight(t1) <= weight(t) {
        eval_expr_rest(v, t1, env, depth)
    } else {
        (v, t1)
    }
}

/// The `{ ('+' | '-') term }` part of `expr`, from the running value `acc`.
pub open spec fn eval_expr_rest(
    acc: ValueV,
    t: Seq<TokenV>,
    env: EnvV,
    depth: nat,
) -> (ValueV, Seq<TokenV>)
    decreases weight(t), 5nat,
{
    if cur(t) is Plus || cur(t) is Minus {
        let op = if cur(t) is Plus {
            '+'
        } else {
            '-'
        };
        let (r, t2) = eval_term(adv(t), env, depth);
        if weight(t2) <= weight(adv(t)) {
            eval_expr_rest(combine(op, acc, r), t2, env, depth)
        } else {
            (acc, t2)
        }
    } else {
        (acc, t)
    }
}

/// `term ::= power { ('*' | '/') power }`, folded from the left.
pub open spec fn eval_term(t: Seq<TokenV>, env: EnvV, depth: nat) -> (ValueV, Seq<TokenV>)
    decreases weight(t), 4nat,
{
    let (v, t1) = eval_power(t, env, depth);
    if weight(t1) <= weight(t) {
        eval_term_rest(v, t1, env, depth)
    } else {
        (v, t1)
    }
}

/// The `{ ('*' | '/') power }` part of `term`, from the running value `acc`.
pub open spec fn eval_term_rest(
    acc: ValueV,
    t: Seq<TokenV>,
    env: EnvV,
    depth: nat,
) -> (ValueV, Seq<TokenV>)
    decreases weight(t), 3nat,
{
    if cur(t) is Multiply || cur(t) is Divide {
        let op = if cur(t) is Multiply {
            '*'
        } else {
            '/'
        };
        let (r, t2) = eval_power(adv(t), env, depth);
        if weight(t2) <= weight(adv(t)) {
            eval_term_rest(combine(op, acc, r), t2, env, depth)
        } else {
            (acc, t2)
        }
    } else {
        (acc, t)
    }
}

/// `power ::= factor [ '**' power ]`: the exponent groups to the right. Past
/// the nesting bound the `**` is an error and is left in place.
pub open spec fn eval_power(t: Seq<TokenV>, env: EnvV, depth: nat) -> (ValueV, Seq<TokenV>)
    decreases weight(t), 2nat,
{
    let (f, t1) = eval_factor(t, env, depth);
    if cur(t1) is Exponent && weight(t1) <= weight(t) {
        if depth == 0 {
            (ValueV::Error, t1)
        } else {
            let (p, t2) = eval_power(adv(t1), env, (depth - 1) as nat);
            (power_value(f, p), t2)
        }
    } else {
        (f, t1)
    }
}

/// `factor ::= '(' expr ')' | INT | FLOAT | IDENT`. Any other token is an
/// error and is left in place, as is a `(` past the nesting bound. The token
/// after a parenthesised expression is taken as its `)`, whatever it is.
pub open spec fn eval_factor(t: Seq<TokenV>, env: EnvV, depth: nat) -> (ValueV, Seq<TokenV>)
    decreases weight(t), 1nat,
{
    match cur(t) {
        TokenV::OpenParen => if depth == 0 {
            (ValueV::Error, t)
        } else {
            let (v, t2) = eval_expr(adv(t), env, (depth - 1) as nat);
            (v, adv(t2))
        },
        TokenV::Int(n) => (ValueV::Int(n), adv(t)),
        TokenV::Float(s) => (ValueV::Float(s), adv(t)),
        TokenV::Variable(name) => (lookup(env, name), adv(t)),
        _ => (ValueV::Error, t),
    }
}

/// The type tag of a value that a variable can hold.
pub open spec fn type_of(v: ValueV) -> Type {
    if v is Float {
        Type::Float
    } else {
        Type::Int
    }
}

/// `statement ::= IDENT '=' expr | expr`: an identifier followed by `=` is an
/// assignment, which binds a number to the name (replacing what it held) and
/// yields `Terminator`; a value that is not a number is an error and binds
/// nothing. Any other statement is an expression. Where the tokens ran out
/// before the statement was complete, nothing is bound.
#[verifier::opaque]
pub open spec fn eval_statement(t: Seq<TokenV>, env: EnvV) -> (ValueV, Seq<TokenV>, EnvV) {
    if cur(t) is Variable && cur(adv(t)) is Equals {
        let (v, t3) = eval_expr(adv(adv(t)), env, MAX_NESTING as nat);
        if v is Int || v is Float {
            let env2 = if cur(t3) is EndOfInput {
                env
            } else {
                env.insert(cur(t)->Variable_0, (type_of(v), v))
            };
            (ValueV::Terminator, t3, env2)
        } else {
            (ValueV::Error, t3, env)
        }
    } else {
        let (v, t1) = eval_expr(t, env, MAX_NESTING as nat);
        (v, t1, env)
    }
}

} // verus!
