use crate::flags::GameFlags;
use crate::text::{alphanumeric, chars_of};
use vstd::prelude::*;

verus! {

/// A lexical token of a condition.
#[derive(Debug)]
pub enum Token {
    /// `!`
    Not,
    /// `&&`
    And,
    /// `||`
    Or,
    /// A maximal run of letters, digits and underscores: the name of a flag.
    Ident(String),
}

/// What a [`Token`] stands for in specifications.
pub enum Lexeme {
    Not,
    And,
    Or,
    Ident(Seq<char>),
}

impl View for Token {
    type V = Lexeme;

    open spec fn view(&self) -> Lexeme {
        match self {
            Token::Not => Lexeme::Not,
            Token::And => Lexeme::And,
            Token::Or => Lexeme::Or,
            Token::Ident(name) => Lexeme::Ident(name@),
        }
    }
}

/// The lexemes that a sequence of tokens stands for.
pub open spec fn lexemes(tokens: Seq<Token>) -> Seq<Lexeme> {
    tokens.map_values(|t: Token| t@)
}

/// The characters that flag names are made of.
pub open spec fn ident_char(c: char) -> bool {
    alphanumeric(c) || c == '_'
}

/// The length of the longest run of identifier characters that `s` starts with.
pub open spec fn ident_len(s: Seq<char>) -> nat
    decreases s.len(),
{
    if s.len() > 0 && ident_char(s[0]) {
        1 + ident_len(s.skip(1))
    } else {
        0
    }
}

/// The run of identifier characters at the start of `s` lies within `s`, and
/// is not empty when `s` starts with an identifier character.
pub proof fn lemma_ident_len_bounds(s: Seq<char>)
    ensures
        ident_len(s) <= s.len(),
        s.len() > 0 && ident_char(s[0]) ==> ident_len(s) >= 1,
    decreases s.len(),
{
    if s.len() > 0 && ident_char(s[0]) {
        lemma_ident_len_bounds(s.skip(1));
    }
}

/// The tokens of a condition, left to right. `!` is a token by itself, `&&`
/// and `||` are tokens of two characters, a maximal run of identifier
/// characters is one identifier, and every other character is skipped, a
/// single `&` or `|` included.
pub open spec fn tokens_of(s: Seq<char>) -> Seq<Lexeme>
    decreases s.len(),
    via tokens_of_decreases
{
    if s.len() == 0 {
        Seq::empty()
    } else if s[0] == '!' {
        seq![Lexeme::Not] + tokens_of(s.skip(1))
    } else if s[0] == '&' {
        if s.len() >= 2 && s[1] == '&' {
            seq![Lexeme::And] + tokens_of(s.skip(2))
        } else {
            tokens_of(s.skip(1))
        }
    } else if s[0] == '|' {
        if s.len() >= 2 && s[1] == '|' {
            seq![Lexeme::Or] + tokens_of(s.skip(2))
        } else {
            tokens_of(s.skip(1))
        }
    } else if ident_char(s[0]) {
        seq![Lexeme::Ident(s.take(ident_len(s) as int))] + tokens_of(s.skip(ident_len(s) as int))
    } else {
        tokens_of(s.skip(1))
    }
}

#[via_fn]
proof fn tokens_of_decreases(s: Seq<char>) {
    lemma_ident_len_bounds(s);
}

/// One operand: any number of `!`, then a flag name, which holds when the
/// flag is set. Returns the value and the tokens that follow the operand. A
/// missing operand is `false`: at the end of the tokens nothing is consumed,
/// and an operator that stands where an operand should is consumed.
pub open spec fn spec_unary(toks: Seq<Lexeme>, flags: Set<Seq<char>>) -> (bool, Seq<Lexeme>)
    decreases toks.len(),
{
    if toks.len() == 0 {
        (false, toks)
    } else {
        match toks[0] {
            Lexeme::Not => {
                let r = spec_unary(toks.skip(1), flags);
                (!r.0, r.1)
            },
            Lexeme::Ident(name) => (flags.contains(name), toks.skip(1)),
            _ => (false, toks.skip(1)),
        }
    }
}

/// What is left after an operand is a suffix of what was there before it.
pub proof fn lemma_unary_rest(toks: Seq<Lexeme>, flags: Set<Seq<char>>)
    ensures
        spec_unary(toks, flags).1.len() <= toks.len(),
        spec_unary(toks, flags).1 == toks.skip(toks.len() - spec_unary(toks, flags).1.len()),
    decreases toks.len(),
{
    if toks.len() > 0 {
        if toks[0] is Not {
            lemma_unary_rest(toks.skip(1), flags);
            let r = spec_unary(toks.skip(1), flags).1;
            assert(r =~= toks.skip(toks.len() - r.len()));
        } else {
            assert(toks.skip(1) =~= toks.skip(toks.len() - toks.skip(1).len()));
        }
    } else {
        assert(toks =~= toks.skip(0));
    }
}

/// Each further `&& operand` after a conjunction whose value so far is `acc`.
pub open spec fn spec_and_rest(acc: bool, toks: Seq<Lexeme>, flags: Set<Seq<char>>) -> (
    bool,
    Seq<Lexeme>,
)
    decreases toks.len(),
    via spec_and_rest_decreases
{
    if toks.len() > 0 && toks[0] == Lexeme::And {
        let r = spec_unary(toks.skip(1), flags);
        spec_and_rest(acc && r.0, r.1, flags)
    } else {
        (acc, toks)
    }
}

#[via_fn]
proof fn spec_and_rest_decreases(acc: bool, toks: Seq<Lexeme>, flags: Set<Seq<char>>) {
    if toks.len() > 0 {
        lemma_unary_rest(toks.skip(1), flags);
    }
}

/// A conjunction: `operand ("&&" operand)*`.
pub open spec fn spec_and(toks: Seq<Lexeme>, flags: Set<Seq<char>>) -> (bool, Seq<Lexeme>) {
    let r = spec_unary(toks, flags);
    spec_and_rest(r.0, r.1, flags)
}

/// What is left after the rest of a conjunction is a suffix of what was there.
pub proof fn lemma_and_rest_rest(acc: bool, toks: Seq<Lexeme>, flags: Set<Seq<char>>)
    ensures
        spec_and_rest(acc, toks, flags).1.len() <= toks.len(),
        spec_and_rest(acc, toks, flags).1 == toks.skip(
            toks.len() - spec_and_rest(acc, toks, flags).1.len(),
        ),
    decreases toks.len(),
{
    if toks.len() > 0 && toks[0] == Lexeme::And {
        lemma_unary_rest(toks.skip(1), flags);
        let r = spec_unary(toks.skip(1), flags);
        lemma_and_rest_rest(acc && r.0, r.1, flags);
        let out = spec_and_rest(acc, toks, flags).1;
        assert(out =~= toks.skip(toks.len() - out.len()));
    } else {
        assert(toks =~= toks.skip(0));
    }
}

/// What is left after a conjunction is a suffix of what was there before it.
pub proof fn lemma_and_rest(toks: Seq<Lexeme>, flags: Set<Seq<char>>)
    ensures
        spec_and(toks, flags).1.len() <= toks.len(),
        spec_and(toks, flags).1 == toks.skip(toks.len() - spec_and(toks, flags).1.len()),
{
    lemma_unary_rest(toks, flags);
    let r = spec_unary(toks, flags);
    lemma_and_rest_rest(r.0, r.1, flags);
    let out = spec_and(toks, flags).1;
    assert(out =~= toks.skip(toks.len() - out.len()));
}

/// Each further `|| conjunction` after a disjunction whose value so far is `acc`.
pub open spec fn spec_or_rest(acc: bool, toks: Seq<Lexeme>, flags: Set<Seq<char>>) -> (
    bool,
    Seq<Lexeme>,
)
    decreases toks.len(),
    via spec_or_rest_decreases
{
    if toks.len() > 0 && toks[0] == Lexeme::Or {
        let r = spec_and(toks.skip(1), flags);
        spec_or_rest(acc || r.0, r.1, flags)
    } else {
        (acc, toks)
    }
}

#[via_fn]
proof fn spec_or_rest_decreases(acc: bool, toks: Seq<Lexeme>, flags: Set<Seq<char>>) {
    if toks.len() > 0 {
        lemma_and_rest(toks.skip(1), flags);
    }
}

/// A disjunction: `conjunction ("||" conjunction)*`.
pub open spec fn spec_or(toks: Seq<Lexeme>, flags: Set<Seq<char>>) -> (bool, Seq<Lexeme>) {
    let r = spec_and(toks, flags);
    spec_or_rest(r.0, r.1, flags)
}

/// Whether a condition holds under a set of flags. A condition without
/// tokens is no gate and holds; otherwise the value is that of the
/// disjunction that the tokens start with, and what follows it is ignored.
pub open spec fn condition_holds(condition: Seq<char>, flags: Set<Seq<char>>) -> bool {
    tokens_of(condition).len() == 0 || spec_or(tokens_of(condition), flags).0
}

/// Whether an optional condition lets its text or choice through: an absent
/// condition always does.
pub open spec fn gate_open(condition: Option<Seq<char>>, flags: Set<Seq<char>>) -> bool {
    match condition {
        Some(c) => condition_holds(c, flags),
        None => true,
    }
}

/// A run of `n` identifier characters at the start of `s` that ends with `s`
/// or before another character is the longest one.
pub proof fn lemma_ident_run(s: Seq<char>, n: int)
    requires
        0 <= n <= s.len(),
        forall|k: int| 0 <= k < n ==> ident_char(s[k]),
        n == s.len() || !ident_char(s[n]),
    ensures
        ident_len(s) == n,
    decreases n,
{
    if n > 0 {
        let t = s.skip(1);
        assert forall|k: int| 0 <= k < n - 1 implies ident_char(t[k]) by {
            assert(t[k] == s[k + 1]);
        }
        lemma_ident_run(t, n - 1);
    }
}

/// Whether `c` may stand in a flag name.
pub fn is_ident_char(c: char) -> (yes: bool)
    ensures
        yes == ident_char(c),
{
    c.is_alphanumeric() || c == '_'
}

/// Splits a condition into its tokens.
pub fn tokenize_condition(condition: &str) -> (tokens: Vec<Token>)
    ensures
        lexemes(tokens@) == tokens_of(condition@),
{
    let chars = chars_of(condition);
    let n = chars.len();
    let mut tokens: Vec<Token> = Vec::new();
    let mut i: usize = 0;
    assert(chars@.skip(0) =~= chars@);
    assert(lexemes(tokens@) =~= Seq::<Lexeme>::empty());
    while i < n
        invariant
            n == chars.len(),
            chars@ == condition@,
            i <= n,
            lexemes(tokens@) + tokens_of(chars@.skip(i as int)) == tokens_of(chars@),
        decreases n - i,
    {
        let c = chars[i];
        let ghost rest = chars@.skip(i as int);
        let ghost done = lexemes(tokens@);
        assert(rest.len() == n - i && rest[0] == c);
        if c == '!' {
            tokens.push(Token::Not);
            i += 1;
            proof {
                assert(rest.skip(1) =~= chars@.skip(i as int));
                assert(lexemes(tokens@) =~= done.push(Lexeme::Not));
                assert(done.push(Lexeme::Not) + tokens_of(rest.skip(1)) =~= done + (seq![
                    Lexeme::Not,
                ] + tokens_of(rest.skip(1))));
            }
        } else if c == '&' {
            if i + 1 < n && chars[i + 1] == '&' {
                tokens.push(Token::And);
                i += 2;
                proof {
                    assert(rest[1] == '&');
                    assert(rest.skip(2) =~= chars@.skip(i as int));
                    assert(lexemes(tokens@) =~= done.push(Lexeme::And));
                    assert(done.push(Lexeme::And) + tokens_of(rest.skip(2)) =~= done + (seq![
                        Lexeme::And,
                    ] + tokens_of(rest.skip(2))));
                }
            } else {
                i += 1;
                proof {
                    assert(rest.len() >= 2 ==> rest[1] == chars@[i as int]);
                    assert(rest.skip(1) =~= chars@.skip(i as int));
                }
            }
        } else if c == '|' {
            if i + 1 < n && chars[i + 1] == '|' {
                tokens.push(Token::Or);
                i += 2;
                proof {
                    assert(rest[1] == '|');
                    assert(rest.skip(2) =~= chars@.skip(i as int));
                    assert(lexemes(tokens@) =~= done.push(Lexeme::Or));
                    assert(done.push(Lexeme::Or) + tokens_of(rest.skip(2)) =~= done + (seq![
                        Lexeme::Or,
                    ] + tokens_of(rest.skip(2))));
                }
            } else {
                i += 1;
                proof {
                    assert(rest.len() >= 2 ==> rest[1] == chars@[i as int]);
                    assert(rest.skip(1) =~= chars@.skip(i as int));
                }
            }
        } else if is_ident_char(c) {
            let start = i;
            i += 1;
            while i < n && is_ident_char(chars[i])
                invariant
                    n == chars.len(),
                    start < i <= n,
                    forall|k: int| start <= k < i ==> ident_char(#[trigger] chars@[k]),
                decreases n - i,
            {
                i += 1;
            }
            let name = condition.substring_char(start, i).to_owned();
            tokens.push(Token::Ident(name));
            proof {
                let len = i - start;
                assert forall|k: int| 0 <= k < len implies ident_char(rest[k]) by {
                    assert(rest[k] == chars@[start + k]);
                }
                assert(len == rest.len() || !ident_char(rest[len])) by {
                    if len < rest.len() {
                        assert(rest[len] == chars@[i as int]);
                    }
                }
                lemma_ident_run(rest, len);
                assert(rest.take(len) =~= condition@.subrange(start as int, i as int));
                assert(rest.skip(len) =~= chars@.skip(i as int));
                assert(lexemes(tokens@) =~= done.push(Lexeme::Ident(name@)));
                assert(done.push(Lexeme::Ident(name@)) + tokens_of(rest.skip(len)) =~= done + (seq![
                    Lexeme::Ident(name@),
                ] + tokens_of(rest.skip(len))));
            }
        } else {
            i += 1;
            proof {
                assert(rest.skip(1) =~= chars@.skip(i as int));
            }
        }
    }
    assert(tokens_of(chars@.skip(i as int)) =~= Seq::<Lexeme>::empty());
    assert(lexemes(tokens@) + Seq::<Lexeme>::empty() =~= lexemes(tokens@));
    tokens
}

impl GameFlags {
    /// Whether an optional condition lets its text or choice through.
    pub fn check(&self, condition: Option<&str>) -> (open: bool)
        ensures
            match condition {
                Some(c) => open == condition_holds(c@, self@),
                None => open,
            },
    {
        match condition {
            Some(c) => evaluate(c, self),
            None => true,
        }
    }

    /// Reads a disjunction from `tokens` at `*index` and leaves `*index`
    /// behind it. An index beyond the tokens reads as `false` and stays.
    pub fn parse_or(&self, tokens: &[Token], index: &mut usize) -> (value: bool)
        ensures
            *old(index) <= *final(index),
            *old(index) <= tokens@.len() ==> {
                &&& *final(index) <= tokens@.len()
                &&& value == spec_or(lexemes(tokens@).skip(*old(index) as int), self@).0
                &&& lexemes(tokens@).skip(*final(index) as int) == spec_or(
                    lexemes(tokens@).skip(*old(index) as int),
                    self@,
                ).1
            },
            *old(index) > tokens@.len() ==> !value && *final(index) == *old(index),
    {
        let ghost all = lexemes(tokens@);
        let mut result = self.parse_and(tokens, index);
        while *index < tokens.len() && matches!(tokens[*index], Token::Or)
            invariant
                all == lexemes(tokens@),
                *old(index) <= *index,
                *old(index) <= tokens@.len() ==> {
                    &&& *index <= tokens@.len()
                    &&& spec_or_rest(result, all.skip(*index as int), self@) == spec_or(
                        all.skip(*old(index) as int),
                        self@,
                    )
                },
                *old(index) > tokens@.len() ==> !result && *index == *old(index),
            decreases tokens@.len() - *index,
        {
            let ghost here = all.skip(*index as int);
            assert(here[0] == tokens@[*index as int]@);
            *index += 1;
            assert(here.skip(1) =~= all.skip(*index as int));
            let right = self.parse_and(tokens, index);
            result = result || right;
        }
        proof {
            let here = all.skip(*index as int);
            if *index < tokens@.len() {
                assert(here[0] == tokens@[*index as int]@);
            }
        }
        result
    }

    /// Reads a conjunction from `tokens` at `*index` and leaves `*index`
    /// behind it. An index beyond the tokens reads as `false` and stays.
    pub fn parse_and(&self, tokens: &[Token], index: &mut usize) -> (value: bool)
        ensures
            *old(index) <= *final(index),
            *old(index) <= tokens@.len() ==> {
                &&& *final(index) <= tokens@.len()
                &&& value == spec_and(lexemes(tokens@).skip(*old(index) as int), self@).0
                &&& lexemes(tokens@).skip(*final(index) as int) == spec_and(
                    lexemes(tokens@).skip(*old(index) as int),
                    self@,
                ).1
            },
            *old(index) > tokens@.len() ==> !value && *final(index) == *old(index),
    {
        let ghost all = lexemes(tokens@);
        let mut result = self.parse_unary(tokens, index);
        while *index < tokens.len() && matches!(tokens[*index], Token::And)
            invariant
                all == lexemes(tokens@),
                *old(index) <= *index,
                *old(index) <= tokens@.len() ==> {
                    &&& *index <= tokens@.len()
                    &&& spec_and_rest(result, all.skip(*index as int), self@) == spec_and(
                        all.skip(*old(index) as int),
                        self@,
                    )
                },
                *old(index) > tokens@.len() ==> !result && *index == *old(index),
            decreases tokens@.len() - *index,
        {
            let ghost here = all.skip(*index as int);
            assert(here[0] == tokens@[*index as int]@);
            *index += 1;
            assert(here.skip(1) =~= all.skip(*index as int));
            let right = self.parse_unary(tokens, index);
            result = result && right;
        }
        proof {
            let here = all.skip(*index as int);
            if *index < tokens@.len() {
                assert(here[0] == tokens@[*index as int]@);
            }
        }
        result
    }

    /// Reads one operand from `tokens` at `*index` and leaves `*index` behind
    /// it. An index beyond the tokens reads as `false` and stays.
    pub fn parse_unary(&self, tokens: &[Token], index: &mut usize) -> (value: bool)
        ensures
            *old(index) <= *final(index),
            *old(index) <= tokens@.len() ==> {
                &&& *final(index) <= tokens@.len()
                &&& value == spec_unary(lexemes(tokens@).skip(*old(index) as int), self@).0
                &&& lexemes(tokens@).skip(*final(index) as int) == spec_unary(
                    lexemes(tokens@).skip(*old(index) as int),
                    self@,
                ).1
            },
            *old(index) > tokens@.len() ==> !value && *final(index) == *old(index),
        decreases tokens@.len() - *old(index),
    {
        let ghost all = lexemes(tokens@);
        let ghost here = all.skip(*index as int);
        if *index < tokens.len() {
            assert(here[0] == tokens@[*index as int]@);
            let at = *index;
            *index += 1;
            assert(here.skip(1) =~= all.skip(*index as int));
            match &tokens[at] {
                Token::Not => !self.parse_unary(tokens, index),
                Token::Ident(name) => self.contains(name.as_str()),
                _ => false,
            }
        } else {
            false
        }
    }
}

/// Whether `condition` holds under `flags`.
pub fn evaluate(condition: &str, flags: &GameFlags) -> (holds: bool)
    ensures
        holds == condition_holds(condition@, flags@),
{
    let tokens = tokenize_condition(condition);
    if tokens.len() == 0 {
        return true;
    }
    let mut index: usize = 0;
    assert(lexemes(tokens@).skip(0) =~= lexemes(tokens@));
    flags.parse_or(tokens.as_slice(), &mut index)
}

} // verus!
