use vstd::prelude::*;
use crate::eval::{adv, cur, eval_expr, eval_factor, eval_statement, lookup, EnvV, MAX_NESTING};
use crate::parser::{run_spec, step_spec, StepV};
use crate::rules::lex_one;
use crate::scanner::{lemma_skip_fresh_no_space, lex_raw, skip_fresh, take_spec};
use crate::token::TokenV;
use crate::value::ValueV;

verus! {

/// A line whose remaining text no rule matches yields the lexical error, and
/// the rest of that line is dropped: the tokens after the error are those of
/// the lines that follow, from the start of the next one.
pub proof fn lemma_lexical_error_drops_line(text: Seq<char>, lines: Seq<Seq<char>>)
    requires
        text.len() > 0,
        lex_one(text).0 is SyntaxError,
    ensures
        lex_raw(text, lines) == seq![TokenV::SyntaxError] + lex_raw(Seq::empty(), lines),
        lines.len() > 0 ==> lex_raw(Seq::empty(), lines) == lex_raw(lines[0], lines.drop_first()),
        lines.len() == 0 ==> lex_raw(Seq::empty(), lines).len() == 0,
{
}

/// Peeking at the next token from an empty lookahead queue and then taking
/// it leaves the same token, text and waiting lines as taking it at once.
pub proof fn lemma_peek_then_take(text: Seq<char>, lines: Seq<Seq<char>>)
    ensures
        ({
            let (r, text2, lines2) = skip_fresh(text, lines, true);
            !(r is EndOfInput) ==> take_spec(seq![r], text2, lines2, true) == take_spec(
                Seq::empty(),
                text,
                lines,
                true,
            )
        }),
{
    lemma_skip_fresh_no_space(text, lines);
    let (r, text2, lines2) = skip_fresh(text, lines, true);
    assert(seq![r].drop_first() =~= Seq::<TokenV>::empty());
}

/// `exit` at the start of a statement stops the session and takes no token
/// after it; once stopped, the session takes nothing more, whatever follows.
pub proof fn lemma_exit_halts(u: Seq<TokenV>, env: EnvV)
    requires
        u.len() > 0,
        u[0] is Exit,
    ensures
        step_spec(u, env) == (StepV::Halt, u.drop_first(), env),
        run_spec(u, env, false) == (seq![StepV::Halt], u.drop_first(), env, true),
        run_spec(u.drop_first(), env, true) == (seq![StepV::Halt], u.drop_first(), env, true),
{
}

/// Assigning to a name replaces whatever it held: after the assignment the
/// name holds the new value, and a reference to it yields that value and no
/// earlier one.
pub proof fn lemma_assignment_replaces(
    t: Seq<TokenV>,
    env: EnvV,
    rest: Seq<TokenV>,
    depth: nat,
)
    requires
        cur(t) is Variable,
        cur(adv(t)) is Equals,
        eval_expr(adv(adv(t)), env, MAX_NESTING as nat).0 is Int || eval_expr(adv(adv(t)), env, MAX_NESTING as nat).0 is Float,
        !(cur(eval_expr(adv(adv(t)), env, MAX_NESTING as nat).1) is EndOfInput),
    ensures
        ({
            let name = cur(t)->Variable_0;
            let v = eval_expr(adv(adv(t)), env, MAX_NESTING as nat).0;
            let env2 = eval_statement(t, env).2;
            &&& eval_statement(t, env).0 == ValueV::Terminator
            &&& env2.contains_key(name)
            &&& lookup(env2, name) == v
            &&& eval_factor(seq![TokenV::Variable(name)] + rest, env2, depth).0 == v
        }),
{
    reveal(eval_statement);
    let name = cur(t)->Variable_0;
    assert((seq![TokenV::Variable(name)] + rest)[0] == TokenV::Variable(name));
}

} // verus!
