use vstd::prelude::*;
use crate::pattern::{anchored_match, find_anchored, is_anchored};
use crate::token::{Token, TokenV};
use vstd::string::StrSliceExecFns;

verus! {

/// The number of rules in the lexer's table.
pub const RULE_COUNT: usize = 17;

/// The pattern of each rule of the lexer's table, in the order the rules are
/// tried: line end, spaces, the keywords, identifiers, operators and
/// punctuation, and numbers. Keywords come before identifiers, `**` before `*`,
/// and a literal with a decimal point before one without.
pub open spec fn rule_pattern(rule: nat) -> Seq<char> {
    if rule == 0 {
        "^\n"@
    } else if rule == 1 {
        "^[ ]+"@
    } else if rule == 2 {
        "^del[\n ]"@
    } else if rule == 3 {
        "^exit[\n ]"@
    } else if rule == 4 {
        "^state[\n ]"@
    } else if rule == 5 {
        "^None[\n ]"@
    } else if rule == 6 {
        "^[A-Za-z][A-Za-z0-9]*"@
    } else if rule == 7 {
        "^\\+"@
    } else if rule == 8 {
        "^-"@
    } else if rule == 9 {
        "^\\*\\*"@
    } else if rule == 10 {
        "^\\*"@
    } else if rule == 11 {
        "^/"@
    } else if rule == 12 {
        "^\\("@
    } else if rule == 13 {
        "^\\)"@
    } else if rule == 14 {
        "^="@
    } else if rule == 15 {
        "^[0-9]+\\.[0-9]*"@
    } else {
        "^[0-9]+"@
    }
}

/// The pattern of a rule, as text to compile.
fn pattern_text(rule: usize) -> (p: &'static str)
    requires
        rule < RULE_COUNT,
    ensures
        p@ == rule_pattern(rule as nat),
        is_anchored(p@),
{
    if rule == 0 {
        proof {
            reveal_strlit("^\n");
        }
        "^\n"
    } else if rule == 1 {
        proof {
            reveal_strlit("^[ ]+");
        }
        "^[ ]+"
    } else if rule == 2 {
        proof {
            reveal_strlit("^del[\n ]");
        }
        "^del[\n ]"
    } else if rule == 3 {
        proof {
            reveal_strlit("^exit[\n ]");
        }
        "^exit[\n ]"
    } else if rule == 4 {
        proof {
            reveal_strlit("^state[\n ]");
        }
        "^state[\n ]"
    } else if rule == 5 {
        proof {
            reveal_strlit("^None[\n ]");
        }
        "^None[\n ]"
    } else if rule == 6 {
        proof {
            reveal_strlit("^[A-Za-z][A-Za-z0-9]*");
        }
        "^[A-Za-z][A-Za-z0-9]*"
    } else if rule == 7 {
        proof {
            reveal_strlit("^\\+");
        }
        "^\\+"
    } else if rule == 8 {
        proof {
            reveal_strlit("^-");
        }
        "^-"
    } else if rule == 9 {
        proof {
            reveal_strlit("^\\*\\*");
        }
        "^\\*\\*"
    } else if rule == 10 {
        proof {
            reveal_strlit("^\\*");
        }
        "^\\*"
    } else if rule == 11 {
        proof {
            reveal_strlit("^/");
        }
        "^/"
    } else if rule == 12 {
        proof {
            reveal_strlit("^\\(");
        }
        "^\\("
    } else if rule == 13 {
        proof {
            reveal_strlit("^\\)");
        }
        "^\\)"
    } else if rule == 14 {
        proof {
            reveal_strlit("^=");
        }
        "^="
    } else if rule == 15 {
        proof {
            reveal_strlit("^[0-9]+\\.[0-9]*");
        }
        "^[0-9]+\\.[0-9]*"
    } else {
        proof {
            reveal_strlit("^[0-9]+");
        }
        "^[0-9]+"
    }
}


/// What each rule of the table matches at the start of `text`, in table order.
pub open spec fn rule_matches(text: Seq<char>) -> Seq<Option<Seq<char>>> {
    Seq::new(RULE_COUNT as nat, |i: int| anchored_match(rule_pattern(i as nat), text))
}

/// The first position, from `from` on, whose match is not empty.
pub open spec fn first_nonempty(ms: Seq<Option<Seq<char>>>, from: nat) -> Option<nat>
    decreases ms.len() - from,
{
    if from >= ms.len() {
        None
    } else if ms[from as int] is Some && ms[from as int]->0.len() > 0 {
        Some(from)
    } else {
        first_nonempty(ms, from + 1)
    }
}

/// The token that the matches `ms` of the rules, in table order, select, and
/// the number of characters it takes: the first rule with a match that is not
/// empty builds it. Where there is none, or the match is an integer too large,
/// it is the lexical error, which takes nothing.
pub open spec fn select_token(ms: Seq<Option<Seq<char>>>) -> (TokenV, nat) {
    match first_nonempty(ms, 0) {
        Some(rule) => {
            let m = ms[rule as int]->0;
            match rule_token(rule, m) {
                Some(t) => (t, m.len()),
                None => (TokenV::SyntaxError, 0),
            }
        },
        None => (TokenV::SyntaxError, 0),
    }
}

/// The value of a decimal digit.
pub open spec fn digit_value(c: char) -> int {
    c as int - '0' as int
}

/// Whether `s` is one or more decimal digits.
pub open spec fn is_digits(s: Seq<char>) -> bool {
    s.len() > 0 && forall|i: int| 0 <= i < s.len() ==> '0' <= #[trigger] s[i] <= '9'
}

/// The number that the decimal digits `s` denote.
pub open spec fn decimal_value(s: Seq<char>) -> int
    decreases s.len(),
{
    if s.len() == 0 {
        0
    } else {
        decimal_value(s.drop_last()) * 10 + digit_value(s.last())
    }
}

/// The integer that a literal denotes, when it fits in 64 signed bits.
pub open spec fn int_literal(s: Seq<char>) -> Option<i64> {
    if is_digits(s) && decimal_value(s) <= i64::MAX {
        Some(decimal_value(s) as i64)
    } else {
        None
    }
}

/// The token that a rule builds from its match; none for an integer literal
/// too large for 64 bits.
pub open spec fn rule_token(rule: nat, m: Seq<char>) -> Option<TokenV> {
    if rule == 0 {
        Some(TokenV::NewLine)
    } else if rule == 1 {
        Some(TokenV::WhiteSpace(m.len()))
    } else if rule == 2 {
        Some(TokenV::Del)
    } else if rule == 3 {
        Some(TokenV::Exit)
    } else if rule == 4 {
        Some(TokenV::State)
    } else if rule == 5 {
        Some(TokenV::NoneT)
    } else if rule == 6 {
        Some(TokenV::Variable(m))
    } else if rule == 7 {
        Some(TokenV::Plus)
    } else if rule == 8 {
        Some(TokenV::Minus)
    } else if rule == 9 {
        Some(TokenV::Exponent)
    } else if rule == 10 {
        Some(TokenV::Multiply)
    } else if rule == 11 {
        Some(TokenV::Divide)
    } else if rule == 12 {
        Some(TokenV::OpenParen)
    } else if rule == 13 {
        Some(TokenV::CloseParen)
    } else if rule == 14 {
        Some(TokenV::Equals)
    } else if rule == 15 {
        Some(TokenV::Float(m))
    } else {
        match int_literal(m) {
            Some(v) => Some(TokenV::Int(v)),
            None => None,
        }
    }
}

/// The token at the start of `text` and the number of characters it takes,
/// as the rules of the table select it.
pub open spec fn lex_one(text: Seq<char>) -> (TokenV, nat) {
    select_token(rule_matches(text))
}

/// Decimal digits denote a number that is not negative.
proof fn lemma_decimal_nonneg(s: Seq<char>)
    requires
        forall|i: int| 0 <= i < s.len() ==> '0' <= #[trigger] s[i] <= '9',
    ensures
        decimal_value(s) >= 0,
    decreases s.len(),
{
    if s.len() > 0 {
        lemma_decimal_nonneg(s.drop_last());
        assert('0' <= s[s.len() - 1] <= '9');
    }
}

/// The integer that the literal `s` denotes; none where `s` is not all
/// decimal digits or the number does not fit in 64 signed bits.
pub fn parse_int_literal(s: &str) -> (r: Option<i64>)
    ensures
        r == int_literal(s@),
{
    let n = s.unicode_len();
    if n == 0 {
        return None;
    }
    let mut acc: i64 = 0;
    let mut fits = true;
    let mut i: usize = 0;
    while i < n
        invariant
            n == s@.len(),
            0 <= i <= n,
            forall|k: int| 0 <= k < i ==> '0' <= #[trigger] s@[k] <= '9',
            fits ==> acc == decimal_value(s@.subrange(0, i as int)),
            !fits ==> decimal_value(s@.subrange(0, i as int)) > i64::MAX,
        decreases n - i,
    {
        let c = s.get_char(i);
        if c < '0' || c > '9' {
            assert(!is_digits(s@));
            return None;
        }
        let d = (c as u32 - '0' as u32) as i64;
        let ghost p = s@.subrange(0, i + 1);
        assert(p.drop_last() =~= s@.subrange(0, i as int));
        proof {
            lemma_decimal_nonneg(s@.subrange(0, i as int));
        }
        if fits {
            match acc.checked_mul(10) {
                Some(t) => match t.checked_add(d) {
                    Some(v) => {
                        acc = v;
                    },
                    None => {
                        fits = false;
                    },
                },
                None => {
                    fits = false;
                },
            }
        }
        i = i + 1;
    }
    assert(s@.subrange(0, n as int) =~= s@);
    if fits {
        Some(acc)
    } else {
        None
    }
}

/// The token that rule `rule` builds from its match `m`.
pub fn build_token(rule: usize, m: String) -> (r: Option<Token>)
    requires
        rule < RULE_COUNT,
    ensures
        match r {
            Some(t) => rule_token(rule as nat, m@) == Some(t@),
            None => rule_token(rule as nat, m@) is None,
        },
{
    if rule == 0 {
        Some(Token::NewLine)
    } else if rule == 1 {
        Some(Token::WhiteSpace(m.as_str().unicode_len()))
    } else if rule == 2 {
        Some(Token::Del)
    } else if rule == 3 {
        Some(Token::Exit)
    } else if rule == 4 {
        Some(Token::State)
    } else if rule == 5 {
        Some(Token::NoneT)
    } else if rule == 6 {
        Some(Token::Variable(m))
    } else if rule == 7 {
        Some(Token::Plus)
    } else if rule == 8 {
        Some(Token::Minus)
    } else if rule == 9 {
        Some(Token::Exponent)
    } else if rule == 10 {
        Some(Token::Multiply)
    } else if rule == 11 {
        Some(Token::Divide)
    } else if rule == 12 {
        Some(Token::OpenParen)
    } else if rule == 13 {
        Some(Token::CloseParen)
    } else if rule == 14 {
        Some(Token::Equals)
    } else if rule == 15 {
        Some(Token::Float(m))
    } else {
        match parse_int_literal(m.as_str()) {
            Some(v) => Some(Token::Int(v)),
            None => None,
        }
    }
}

/// The views of a list of matches.
pub open spec fn matches_view(ms: Seq<Option<String>>) -> Seq<Option<Seq<char>>> {
    ms.map_values(|m: Option<String>| match m {
        Some(x) => Some(x@),
        None => None,
    })
}

/// Selects the token from the matches of the rules, given in table order:
/// the first rule whose match is not empty builds it, with the number of
/// characters of that match.
pub fn select_rule(matches: Vec<Option<String>>) -> (r: (Token, usize))
    requires
        matches@.len() <= RULE_COUNT,
    ensures
        r.0@ == select_token(matches_view(matches@)).0,
        r.1 == select_token(matches_view(matches@)).1,
{
    let ghost ms = matches_view(matches@);
    let mut i: usize = 0;
    while i < matches.len()
        invariant
            i <= matches@.len() <= RULE_COUNT,
            ms == matches_view(matches@),
            first_nonempty(ms, 0) == first_nonempty(ms, i as nat),
        decreases matches@.len() - i,
    {
        if let Some(m) = &matches[i] {
            let n = m.as_str().unicode_len();
            if n > 0 {
                assert(ms[i as int] == Some(m@));
                return match build_token(i, m.clone()) {
                    Some(t) => (t, n),
                    None => (Token::SyntaxError, 0),
                };
            }
        }
        i = i + 1;
    }
    (Token::SyntaxError, 0)
}

/// Tries the rules in table order on the start of `text` and builds the token
/// of the first that matches, with the number of characters it takes. A name
/// or a number holds the text it was lexed from.
pub fn match_first_rule(text: &str) -> (r: (Token, usize))
    ensures
        r.0@ == lex_one(text@).0,
        r.1 == lex_one(text@).1,
        r.1 <= text@.len(),
        !(r.0@ is SyntaxError) ==> r.1 > 0,
        r.0@ matches TokenV::Variable(n) ==> n == text@.subrange(0, r.1 as int),
        r.0@ matches TokenV::Float(n) ==> n == text@.subrange(0, r.1 as int),
{
    let ghost full = rule_matches(text@);
    let mut matches: Vec<Option<String>> = Vec::new();
    let mut rule: usize = 0;
    while rule < RULE_COUNT
        invariant
            rule <= RULE_COUNT,
            full == rule_matches(text@),
            matches@.len() == rule,
            matches_view(matches@) =~= full.take(rule as int),
            first_nonempty(full, 0) == first_nonempty(full, rule as nat),
            first_nonempty(matches_view(matches@), 0) == first_nonempty(
                matches_view(matches@),
                rule as nat,
            ),
        decreases RULE_COUNT - rule,
    {
        let p = pattern_text(rule);
        let found = find_anchored(p, text);
        let ghost before = matches_view(matches@);
        match found {
            Some((m, rest)) => {
                let n = m.as_str().unicode_len();
                let ghost mv = m@;
                assert(mv =~= text@.subrange(0, n as int));
                matches.push(Some(m));
                let ghost after = matches_view(matches@);
                assert(full[rule as int] == Some(mv));
                assert(after[rule as int] == Some(mv));
                assert(after =~= full.take(rule + 1));
                if n > 0 {
                    assert(first_nonempty(after, rule as nat) == Some(rule as nat));
                    assert(first_nonempty(full, rule as nat) == Some(rule as nat));
                    assert(first_nonempty(after, 0) == Some(rule as nat)) by {
                        lemma_first_nonempty_extend(before, after, 0);
                    }
                    assert(first_nonempty(full, 0) == Some(rule as nat));
                    let r = select_rule(matches);
                    return r;
                }
                proof {
                    lemma_first_nonempty_extend(before, after, 0);
                }
            },
            None => {
                matches.push(None);
                let ghost after = matches_view(matches@);
                assert(full[rule as int] is None);
                assert(after[rule as int] is None);
                assert(after =~= full.take(rule + 1));
                proof {
                    lemma_first_nonempty_extend(before, after, 0);
                }
            },
        }
        rule = rule + 1;
    }
    assert(full.take(RULE_COUNT as int) =~= full);
    select_rule(matches)
}

/// Adding a match after the others does not change which of them comes
/// first among those that are not empty, where one of them already does.
proof fn lemma_first_nonempty_extend(
    before: Seq<Option<Seq<char>>>,
    after: Seq<Option<Seq<char>>>,
    from: nat,
)
    requires
        after.len() == before.len() + 1,
        forall|i: int| 0 <= i < before.len() ==> #[trigger] after[i] == before[i],
        from <= before.len(),
    ensures
        first_nonempty(before, from) is Some ==> first_nonempty(after, from) == first_nonempty(
            before,
            from,
        ),
        first_nonempty(before, from) is None ==> first_nonempty(after, from) == first_nonempty(
            after,
            before.len(),
        ),
    decreases before.len() - from,
{
    if from < before.len() {
        lemma_first_nonempty_extend(before, after, from + 1);
    }
}

} // verus!
