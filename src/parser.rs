use vstd::prelude::*;
use crate::env::{Data, State};
use crate::eval::{
    adv, cur, eval_expr, eval_expr_rest, eval_factor, eval_power, eval_statement, eval_term,
    eval_term_rest, lookup, weight, EnvV, MAX_NESTING,
};
use crate::scanner::{line_tokens, Input};
use crate::token::{Token, TokenV};
use crate::value::{combine_values, power_of, Type, Value, ValueV};

verus! {

/// What one turn of the session loop comes to.
pub enum Step {
    /// A fresh line is needed before the next statement can be completed;
    /// nothing was taken.
    NeedLine,
    /// An empty statement: a bare line end, or `del`.
    Skip,
    /// The `state` command: show the variables and the unread text.
    Dump,
    /// A statement's result, to be shown.
    Show(Value),
    /// The session has stopped.
    Halt,
}

pub enum StepV {
    NeedLine,
    Skip,
    Dump,
    Show(ValueV),
    Halt,
}

impl View for Step {
    type V = StepV;

    open spec fn view(&self) -> StepV {
        match self {
            Step::NeedLine => StepV::NeedLine,
            Step::Skip => StepV::Skip,
            Step::Dump => StepV::Dump,
            Step::Show(v) => StepV::Show(v@),
            Step::Halt => StepV::Halt,
        }
    }
}

/// One turn of the session loop on the tokens to come `u`: the outcome, the
/// tokens left, and the variables after it. `exit` stops the session, taking
/// nothing more; `state` asks for a dump; a line end or `del` alone is an
/// empty statement; anything else is a statement, whose value is shown. Where
/// the tokens run out before the statement is complete, nothing is taken and
/// a fresh line is asked for.
pub open spec fn step_spec(u: Seq<TokenV>, env: EnvV) -> (StepV, Seq<TokenV>, EnvV) {
    let t = if u.len() > 0 {
        u
    } else {
        seq![TokenV::EndOfInput]
    };
    match cur(t) {
        TokenV::EndOfInput => (StepV::NeedLine, u, env),
        TokenV::Exit => (StepV::Halt, u.drop_first(), env),
        TokenV::State => (StepV::Dump, u.drop_first(), env),
        TokenV::NewLine => (StepV::Skip, u.drop_first(), env),
        TokenV::Del => (StepV::Skip, u.drop_first(), env),
        _ => {
            let (v, t2, env2) = eval_statement(t, env);
            if cur(t2) is EndOfInput {
                (StepV::NeedLine, u, env)
            } else if v is Exit {
                (StepV::Halt, t2.drop_first(), env2)
            } else {
                (StepV::Show(v), t2.drop_first(), env2)
            }
        },
    }
}

/// The session loop run on the tokens to come `u` until it needs a fresh
/// line or stops: the outcomes in order (the request for a line left out),
/// the tokens left, the variables, and whether it stopped. A stopped session
/// only reports that it stopped.
pub open spec fn run_spec(u: Seq<TokenV>, env: EnvV, halted: bool) -> (
    Seq<StepV>,
    Seq<TokenV>,
    EnvV,
    bool,
)
    decreases u.len(),
{
    if halted {
        (seq![StepV::Halt], u, env, true)
    } else {
        let (s, u2, env2) = step_spec(u, env);
        if s is NeedLine {
            (Seq::empty(), u, env, false)
        } else if s is Halt {
            (seq![StepV::Halt], u2, env2, true)
        } else if u2.len() < u.len() {
            let (rest, u3, env3, h3) = run_spec(u2, env2, false);
            (seq![s] + rest, u3, env3, h3)
        } else {
            (seq![s], u2, env2, false)
        }
    }
}

/// Whether a factor that starts with `t` takes it whatever follows: a name
/// or a number.
pub open spec fn operand_start(t: TokenV) -> bool {
    t is Variable || t is Int || t is Float
}

/// The evaluator: the input cursor, the variables, and whether the session
/// has stopped.
pub struct Parser {
    pub input: Input,
    pub state: State,
    pub halted: bool,
}

impl Parser {
    /// The current token, then every token still to come, without spaces.
    pub open spec fn tokens(&self) -> Seq<TokenV> {
        seq![self.input.current@] + self.input.upcoming()
    }

    /// The variables are bound once each, and nothing is lexed ahead between
    /// statements.
    pub open spec fn wf(&self) -> bool {
        &&& self.state.wf()
        &&& self.input.history@.len() == 0
    }

    /// What an evaluation routine may change: the tokens, which it takes
    /// from the front, and the lookahead queue, which it empties once it takes
    /// a name or a number.
    pub open spec fn moved_on(&self, after: &Parser) -> bool {
        &&& after.state == self.state
        &&& after.halted == self.halted
        &&& after.input.history@.len() <= self.input.history@.len()
        &&& self.input.history@.len() == 0 ==> after.input.history@.len() == 0
        &&& self.input.history@.len() <= 1 && operand_start(cur(self.tokens()))
            ==> after.input.history@.len() == 0
        &&& weight(after.tokens()) <= weight(self.tokens())
    }

    /// A session with no variable and no text.
    pub fn build_new() -> (r: Parser)
        ensures
            r.wf(),
            !r.halted,
            r.input.upcoming().len() == 0,
            r.input.current@ is NewLine,
            r.input.stream@.len() == 0,
            r.input.history@.len() == 0,
            r.input.pending@.len() == 0,
            r.state.vars@.len() == 0,
            r.state@ == Map::<Seq<char>, (Type, ValueV)>::empty(),
    {
        let parser = Parser { input: Input::new(), state: State::new(), halted: false };
        assert(parser.input.history_view() =~= Seq::<TokenV>::empty());
        assert(parser.input.pending_view() =~= Seq::<Seq<char>>::empty());
        assert(parser.input.raw_upcoming() =~= Seq::<TokenV>::empty());
        parser
    }

    /// Hands in one more line of text: its tokens come after all those still
    /// to come.
    pub fn feed_line(&mut self, line: String)
        requires
            old(self).wf(),
        ensures
            final(self).wf(),
            final(self).input.upcoming() == old(self).input.upcoming() + line_tokens(line@),
            final(self).state == old(self).state,
            final(self).halted == old(self).halted,
    {
        self.input.feed_line(line);
    }

    /// One turn of the session loop: takes the next token and acts on it,
    /// evaluating a statement where it starts one. A stopped session takes
    /// nothing and reports that it stopped.
    pub fn step(&mut self) -> (r: Step)
        requires
            old(self).wf(),
        ensures
            final(self).wf(),
            old(self).halted ==> {
                &&& r@ is Halt
                &&& final(self).halted
                &&& final(self).input.upcoming() == old(self).input.upcoming()
                &&& final(self).state@ == old(self).state@
            },
            !old(self).halted ==> {
                &&& (r@, final(self).input.upcoming(), final(self).state@) == step_spec(
                    old(self).input.upcoming(),
                    old(self).state@,
                )
                &&& final(self).halted == r@ is Halt
                &&& !(r@ is NeedLine) ==> final(self).input.upcoming().len()
                    < old(self).input.upcoming().len()
            },
    {
        if self.halted {
            return Step::Halt;
        }
        let ghost u = self.input.upcoming();
        let saved = self.input.duplicate();
        self.advance();
        assert(u.len() > 0 ==> self.tokens() =~= u);
        if let Token::EndOfInput = self.input.current {
            self.input = saved;
            return Step::NeedLine;
        }
        assert(self.input.upcoming() =~= u.drop_first());
        if let Token::Exit = self.input.current {
            self.halted = true;
            return Step::Halt;
        }
        if let Token::State = self.input.current {
            return Step::Dump;
        }
        if let Token::NewLine = self.input.current {
            return Step::Skip;
        }
        if let Token::Del = self.input.current {
            return Step::Skip;
        }
        self.statement_step(saved)
    }

    /// The turn of the session loop that evaluates a statement; `saved` is
    /// the cursor before the turn took its first token, to go back to where
    /// the statement cannot be completed.
    fn statement_step(&mut self, saved: Input) -> (r: Step)
        requires
            old(self).wf(),
            !old(self).halted,
            saved.history@.len() == 0,
            ({
                let u = saved.upcoming();
                &&& u.len() > 0
                &&& old(self).tokens() == u
                &&& !(cur(u) is EndOfInput || cur(u) is Exit || cur(u) is State || cur(u) is NewLine
                    || cur(u) is Del)
            }),
        ensures
            final(self).wf(),
            (r@, final(self).input.upcoming(), final(self).state@) == step_spec(
                saved.upcoming(),
                old(self).state@,
            ),
            final(self).halted == r@ is Halt,
            !(r@ is NeedLine) ==> final(self).input.upcoming().len() < saved.upcoming().len(),
    {
        reveal(eval_statement);
        let value = self.parse_statement();
        if let Token::EndOfInput = self.input.current {
            self.input = saved;
            return Step::NeedLine;
        }
        assert(self.input.upcoming() =~= self.tokens().drop_first());
        if let Value::Exit = value {
            self.halted = true;
            Step::Halt
        } else {
            Step::Show(value)
        }
    }

    /// Runs the session loop until it needs a fresh line or stops, and
    /// returns what each turn came to, the request for a line left out.
    pub fn parse_program(&mut self) -> (r: Vec<Step>)
        requires
            old(self).wf(),
        ensures
            final(self).wf(),
            run_spec(old(self).input.upcoming(), old(self).state@, old(self).halted) == (
                r@.map_values(|s: Step| s@),
                final(self).input.upcoming(),
                final(self).state@,
                final(self).halted,
            ),
    {
        let mut out: Vec<Step> = Vec::new();
        loop
            invariant_except_break
                self.wf(),
                ({
                    let rest = run_spec(self.input.upcoming(), self.state@, self.halted);
                    run_spec(old(self).input.upcoming(), old(self).state@, old(self).halted) == (
                        out@.map_values(|s: Step| s@) + rest.0,
                        rest.1,
                        rest.2,
                        rest.3,
                    )
                }),
            ensures
                self.wf(),
                run_spec(old(self).input.upcoming(), old(self).state@, old(self).halted) == (
                    out@.map_values(|s: Step| s@),
                    self.input.upcoming(),
                    self.state@,
                    self.halted,
                ),
            decreases self.input.upcoming().len() + if self.halted {
                0int
            } else {
                1int
            },
        {
            let ghost u = self.input.upcoming();
            let ghost e = self.state@;
            let ghost h = self.halted;
            let ghost before = out@.map_values(|s: Step| s@);
            let s = self.step();
            let ghost sv = s@;
            match s {
                Step::NeedLine => {
                    assert(before + Seq::<StepV>::empty() =~= before);
                    break ;
                },
                Step::Halt => {
                    out.push(s);
                    assert(out@.map_values(|s: Step| s@) =~= before + seq![sv]);
                    break ;
                },
                _ => {
                    out.push(s);
                    let ghost rest = run_spec(self.input.upcoming(), self.state@, self.halted);
                    assert(out@.map_values(|s: Step| s@) =~= before + seq![sv]);
                    assert(before + (seq![sv] + rest.0) =~= before + seq![sv] + rest.0);
                },
            }
        }
        out
    }

    /// `statement ::= IDENT '=' expr | expr`: one token of lookahead after an
    /// identifier tells an assignment from an expression.
    fn parse_statement(&mut self) -> (r: Value)
        requires
            old(self).wf(),
        ensures
            final(self).wf(),
            final(self).halted == old(self).halted,
            (r@, final(self).tokens(), final(self).state@) == eval_statement(
                old(self).tokens(),
                old(self).state@,
            ),
            weight(final(self).tokens()) <= weight(old(self).tokens()),
    {
        reveal(eval_statement);
        if let Token::Variable(_) = self.input.current {
            assert(self.input.history_view() =~= Seq::<TokenV>::empty());
            let next = self.input.look_ahead(true);
            assert(self.input.upcoming() =~= old(self).input.upcoming());
            assert(self.tokens() =~= old(self).tokens());
            if let Token::Equals = next {
                return self.parse_assign();
            }
        }
        self.parse_expression(MAX_NESTING)
    }

    /// `IDENT '=' expr`: binds the value of the expression to the name.
    fn parse_assign(&mut self) -> (r: Value)
        requires
            old(self).state.wf(),
            old(self).input.history@.len() <= 1,
            cur(old(self).tokens()) is Variable,
            cur(adv(old(self).tokens())) is Equals,
        ensures
            final(self).wf(),
            final(self).halted == old(self).halted,
            (r@, final(self).tokens(), final(self).state@) == eval_statement(
                old(self).tokens(),
                old(self).state@,
            ),
            weight(final(self).tokens()) <= weight(old(self).tokens()),
    {
        reveal(eval_statement);
        let var_name = match &self.input.current {
            Token::Variable(var) => var.clone(),
            _ => return Value::Error,
        };
        self.advance();
        self.advance();
        let var_value = self.parse_expression(MAX_NESTING);
        let var_type = match &var_value {
            Value::Int(_) => Type::Int,
            Value::Float(_) => Type::Float,
            _ => return Value::Error,
        };
        if let Token::EndOfInput = self.input.current {
        } else {
            self.state.insert(var_name, Data { type_meta: var_type, value_meta: var_value });
        }
        Value::Terminator
    }

    /// Takes the next token, passing over spaces.
    fn advance(&mut self)
        ensures
            final(self).tokens() == adv(old(self).tokens()),
            final(self).state == old(self).state,
            final(self).halted == old(self).halted,
            final(self).input.history@.len() < old(self).input.history@.len()
                || final(self).input.history@.len() == 0,
            old(self).input.history@.len() == 0 ==> final(self).input.history@.len() == 0,
    {
        let ghost u = self.input.upcoming();
        self.input.get_next_token(true);
        assert(self.tokens() =~= adv(seq![old(self).input.current@] + u));
    }

    /// `expr ::= term { ('+' | '-') term }`.
    fn parse_expression(&mut self, depth: usize) -> (r: Value)
        requires
            old(self).state.wf(),
        ensures
            old(self).moved_on(final(self)),
            (r@, final(self).tokens()) == eval_expr(old(self).tokens(), old(self).state@, depth as nat),
        decreases weight(self.tokens()), 6nat,
    {
        let mut return_value = self.parse_term(depth);
        loop
            invariant
                old(self).state.wf(),
                old(self).moved_on(self),
                eval_expr(old(self).tokens(), old(self).state@, depth as nat) == eval_expr_rest(
                    return_value@,
                    self.tokens(),
                    self.state@,
                    depth as nat,
                ),
            ensures
                old(self).moved_on(self),
                eval_expr(old(self).tokens(), old(self).state@, depth as nat) == (
                    return_value@,
                    self.tokens(),
                ),
            decreases weight(self.tokens()),
        {
            let op = match &self.input.current {
                Token::Plus => '+',
                Token::Minus => '-',
                _ => break,
            };
            self.advance();
            let parsed = self.parse_term(depth);
            return_value = combine_values(op, return_value, &parsed);
        }
        return_value
    }

    /// `term ::= power { ('*' | '/') power }`.
    fn parse_term(&mut self, depth: usize) -> (r: Value)
        requires
            old(self).state.wf(),
        ensures
            old(self).moved_on(final(self)),
            (r@, final(self).tokens()) == eval_term(old(self).tokens(), old(self).state@, depth as nat),
        decreases weight(self.tokens()), 4nat,
    {
        let mut return_value = self.parse_power(depth);
        loop
            invariant
                old(self).state.wf(),
                old(self).moved_on(self),
                eval_term(old(self).tokens(), old(self).state@, depth as nat) == eval_term_rest(
                    return_value@,
                    self.tokens(),
                    self.state@,
                    depth as nat,
                ),
            ensures
                old(self).moved_on(self),
                eval_term(old(self).tokens(), old(self).state@, depth as nat) == (
                    return_value@,
                    self.tokens(),
                ),
            decreases weight(self.tokens()),
        {
            let op = match &self.input.current {
                Token::Multiply => '*',
                Token::Divide => '/',
                _ => break,
            };
            self.advance();
            let parsed = self.parse_power(depth);
            return_value = combine_values(op, return_value, &parsed);
        }
        return_value
    }

    /// `power ::= factor [ '**' power ]`.
    fn parse_power(&mut self, depth: usize) -> (r: Value)
        requires
            old(self).state.wf(),
        ensures
            old(self).moved_on(final(self)),
            (r@, final(self).tokens()) == eval_power(old(self).tokens(), old(self).state@, depth as nat),
        decreases weight(self.tokens()), 2nat,
    {
        let factor = self.parse_factor(depth);
        if let Token::Exponent = self.input.current {
            if depth == 0 {
                return Value::Error;
            }
            self.advance();
            let power = self.parse_power(depth - 1);
            power_of(&factor, &power)
        } else {
            factor
        }
    }

    /// `factor ::= '(' expr ')' | INT | FLOAT | IDENT`.
    fn parse_factor(&mut self, depth: usize) -> (r: Value)
        requires
            old(self).state.wf(),
        ensures
            old(self).moved_on(final(self)),
            (r@, final(self).tokens()) == eval_factor(old(self).tokens(), old(self).state@, depth as nat),
        decreases weight(self.tokens()), 1nat,
    {
        match &self.input.current {
            Token::OpenParen => if depth == 0 {
                Value::Error
            } else {
                self.parse_parens(depth)
            },
            Token::Int(_) | Token::Float(_) => self.parse_number(),
            Token::Variable(_) => self.parse_var_ref(),
            _ => Value::Error,
        }
    }

    /// A variable reference: the variable's value, or the unknown-name error.
    fn parse_var_ref(&mut self) -> (r: Value)
        requires
            old(self).state.wf(),
        ensures
            old(self).moved_on(final(self)),
            final(self).tokens() == adv(old(self).tokens()),
            old(self).input.current@ matches TokenV::Variable(name) ==> r@ == lookup(
                old(self).state@,
                name,
            ),
            !(old(self).input.current@ is Variable) ==> r@ is SpecificError,
    {
        let var = self.input.current.duplicate();
        match var {
            Token::Variable(name) => {
                self.advance();
                match self.state.get(&name) {
                    Some(value) => value,
                    None => Value::NameError,
                }
            },
            _ => {
                self.advance();
                Value::SpecificError(String::from_str("Unknown error: parsing var ref"))
            },
        }
    }

    /// `number ::= INT | FLOAT`.
    fn parse_number(&mut self) -> (r: Value)
        requires
            old(self).state.wf(),
        ensures
            old(self).moved_on(final(self)),
            final(self).tokens() == adv(old(self).tokens()),
            old(self).input.current@ matches TokenV::Int(n) ==> r@ == ValueV::Int(n),
            old(self).input.current@ matches TokenV::Float(s) ==> r@ == ValueV::Float(s),
            !(old(self).input.current@ is Int || old(self).input.current@ is Float) ==> r@ is Error,
    {
        match &self.input.current {
            Token::Int(_) => self.parse_int(),
            Token::Float(_) => self.parse_float(),
            _ => {
                self.advance();
                Value::Error
            },
        }
    }

    fn parse_int(&mut self) -> (r: Value)
        requires
            old(self).state.wf(),
        ensures
            old(self).moved_on(final(self)),
            final(self).tokens() == adv(old(self).tokens()),
            old(self).input.current@ matches TokenV::Int(n) ==> r@ == ValueV::Int(n),
            !(old(self).input.current@ is Int) ==> r@ is Error,
    {
        if let Token::Int(val) = self.input.current {
            self.advance();
            Value::Int(val)
        } else {
            self.advance();
            Value::Error
        }
    }

    fn parse_float(&mut self) -> (r: Value)
        requires
            old(self).state.wf(),
        ensures
            old(self).moved_on(final(self)),
            final(self).tokens() == adv(old(self).tokens()),
            old(self).input.current@ matches TokenV::Float(s) ==> r@ == ValueV::Float(s),
            !(old(self).input.current@ is Float) ==> r@ is Error,
    {
        let val = match &self.input.current {
            Token::Float(s) => Some(s.clone()),
            _ => None,
        };
        self.advance();
        match val {
            Some(s) => Value::Float(s),
            None => Value::Error,
        }
    }

    /// `'(' expr ')'`: the token after the expression is taken as its `)`.
    fn parse_parens(&mut self, depth: usize) -> (r: Value)
        requires
            old(self).state.wf(),
            old(self).input.current@ is OpenParen,
            depth > 0,
        ensures
            old(self).moved_on(final(self)),
            (r@, final(self).tokens()) == eval_factor(old(self).tokens(), old(self).state@, depth as nat),
        decreases weight(self.tokens()), 0nat,
    {
        self.advance();
        let value = self.parse_expression(depth - 1);
        self.advance();
        value
    }
}

} // verus!
