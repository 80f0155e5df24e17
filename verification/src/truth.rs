use crate::condition::{
    condition_holds, ident_char, lemma_ident_run, spec_and, spec_and_rest, spec_or,
    spec_or_rest, spec_unary, tokens_of, Lexeme,
};
use vstd::prelude::*;

verus! {

/// A flag name with any number of `!` before it.
pub struct Literal {
    pub negations: nat,
    pub name: Seq<char>,
}

/// A flag name as the tokenizer reads one: not empty, identifier characters
/// only.
pub open spec fn valid_name(name: Seq<char>) -> bool {
    name.len() > 0 && forall|i: int| 0 <= i < name.len() ==> ident_char(#[trigger] name[i])
}

/// A condition in disjunctive form: at least one clause, each of at least one
/// literal, each literal with a valid name.
pub open spec fn valid_form(form: Seq<Seq<Literal>>) -> bool {
    &&& form.len() > 0
    &&& forall|i: int| 0 <= i < form.len() ==> valid_clause(#[trigger] form[i])
}

pub open spec fn valid_clause(clause: Seq<Literal>) -> bool {
    &&& clause.len() > 0
    &&& forall|i: int| 0 <= i < clause.len() ==> valid_name((#[trigger] clause[i]).name)
}

/// `n` times `!`.
pub open spec fn bangs(n: nat) -> Seq<char>
    decreases n,
{
    if n == 0 {
        Seq::empty()
    } else {
        seq!['!'] + bangs((n - 1) as nat)
    }
}

/// A literal as it is written: `!!name`.
pub open spec fn literal_text(literal: Literal) -> Seq<char> {
    bangs(literal.negations) + literal.name
}

/// A clause as it is written: its literals with ` && ` between them.
pub open spec fn clause_text(clause: Seq<Literal>) -> Seq<char>
    decreases clause.len(),
{
    if clause.len() == 0 {
        Seq::empty()
    } else if clause.len() == 1 {
        literal_text(clause[0])
    } else {
        literal_text(clause[0]) + seq![' ', '&', '&', ' '] + clause_text(clause.skip(1))
    }
}

/// A disjunctive form as it is written: its clauses with ` || ` between them.
pub open spec fn form_text(form: Seq<Seq<Literal>>) -> Seq<char>
    decreases form.len(),
{
    if form.len() == 0 {
        Seq::empty()
    } else if form.len() == 1 {
        clause_text(form[0])
    } else {
        clause_text(form[0]) + seq![' ', '|', '|', ' '] + form_text(form.skip(1))
    }
}

/// The truth table of a literal: the flag is set, negated once for each `!`.
pub open spec fn literal_value(literal: Literal, flags: Set<Seq<char>>) -> bool {
    if literal.negations % 2 == 0 {
        flags.contains(literal.name)
    } else {
        !flags.contains(literal.name)
    }
}

/// The truth table of a clause: every literal holds.
pub open spec fn clause_value(clause: Seq<Literal>, flags: Set<Seq<char>>) -> bool {
    forall|i: int| 0 <= i < clause.len() ==> literal_value(#[trigger] clause[i], flags)
}

/// The truth table of a disjunctive form: some clause holds.
pub open spec fn form_value(form: Seq<Seq<Literal>>, flags: Set<Seq<char>>) -> bool {
    exists|i: int| 0 <= i < form.len() && clause_value(#[trigger] form[i], flags)
}

/// The tokens of a literal.
pub open spec fn literal_tokens(literal: Literal) -> Seq<Lexeme>
    decreases literal.negations,
{
    if literal.negations == 0 {
        seq![Lexeme::Ident(literal.name)]
    } else {
        seq![Lexeme::Not] + literal_tokens(
            Literal { negations: (literal.negations - 1) as nat, name: literal.name },
        )
    }
}

/// The tokens of a clause.
pub open spec fn clause_tokens(clause: Seq<Literal>) -> Seq<Lexeme>
    decreases clause.len(),
{
    if clause.len() == 0 {
        Seq::empty()
    } else if clause.len() == 1 {
        literal_tokens(clause[0])
    } else {
        literal_tokens(clause[0]) + seq![Lexeme::And] + clause_tokens(clause.skip(1))
    }
}

/// The tokens of a disjunctive form.
pub open spec fn form_tokens(form: Seq<Seq<Literal>>) -> Seq<Lexeme>
    decreases form.len(),
{
    if form.len() == 0 {
        Seq::empty()
    } else if form.len() == 1 {
        clause_tokens(form[0])
    } else {
        clause_tokens(form[0]) + seq![Lexeme::Or] + form_tokens(form.skip(1))
    }
}

/// Text that an identifier before it does not run into.
pub open spec fn ends_identifier(rest: Seq<char>) -> bool {
    rest.len() == 0 || !ident_char(rest[0])
}

/// A written literal is read back as its tokens.
proof fn lemma_tokens_of_literal(literal: Literal, rest: Seq<char>)
    requires
        valid_name(literal.name),
        ends_identifier(rest),
    ensures
        tokens_of(literal_text(literal) + rest) == literal_tokens(literal) + tokens_of(rest),
    decreases literal.negations,
{
    let s = literal_text(literal) + rest;
    if literal.negations == 0 {
        let name = literal.name;
        assert(bangs(0) =~= Seq::<char>::empty());
        assert(s =~= name + rest);
        assert(s[0] == name[0]);
        assert(ident_char(s[0]));
        assert forall|k: int| 0 <= k < name.len() implies ident_char(s[k]) by {
            assert(s[k] == name[k]);
        }
        assert(name.len() == s.len() || !ident_char(s[name.len() as int])) by {
            if name.len() < s.len() {
                assert(s[name.len() as int] == rest[0]);
            }
        }
        lemma_ident_run(s, name.len() as int);
        assert(s.take(name.len() as int) =~= name);
        assert(s.skip(name.len() as int) =~= rest);
    } else {
        let inner = Literal { negations: (literal.negations - 1) as nat, name: literal.name };
        lemma_tokens_of_literal(inner, rest);
        assert(s[0] == '!');
        assert(s.skip(1) =~= literal_text(inner) + rest);
        assert(seq![Lexeme::Not] + (literal_tokens(inner) + tokens_of(rest)) =~= literal_tokens(
            literal,
        ) + tokens_of(rest));
    }
}

/// ` && ` is read as the token `&&`.
proof fn lemma_tokens_of_and(rest: Seq<char>)
    ensures
        tokens_of(seq![' ', '&', '&', ' '] + rest) == seq![Lexeme::And] + tokens_of(rest),
{
    let s = seq![' ', '&', '&', ' '] + rest;
    let s1 = s.skip(1);
    let s3 = s1.skip(2);
    assert(s[0] == ' ');
    assert(s1[0] == '&' && s1[1] == '&');
    assert(s3[0] == ' ');
    assert(s3.skip(1) =~= rest);
    assert(tokens_of(s3) == tokens_of(rest));
    assert(tokens_of(s1) == seq![Lexeme::And] + tokens_of(s3));
    assert(tokens_of(s) == tokens_of(s1));
}

/// ` || ` is read as the token `||`.
proof fn lemma_tokens_of_or(rest: Seq<char>)
    ensures
        tokens_of(seq![' ', '|', '|', ' '] + rest) == seq![Lexeme::Or] + tokens_of(rest),
{
    let s = seq![' ', '|', '|', ' '] + rest;
    let s1 = s.skip(1);
    let s3 = s1.skip(2);
    assert(s[0] == ' ');
    assert(s1[0] == '|' && s1[1] == '|');
    assert(s3[0] == ' ');
    assert(s3.skip(1) =~= rest);
    assert(tokens_of(s3) == tokens_of(rest));
    assert(tokens_of(s1) == seq![Lexeme::Or] + tokens_of(s3));
    assert(tokens_of(s) == tokens_of(s1));
}

/// A written clause is read back as its tokens.
proof fn lemma_tokens_of_clause(clause: Seq<Literal>, rest: Seq<char>)
    requires
        valid_clause(clause),
        ends_identifier(rest),
    ensures
        tokens_of(clause_text(clause) + rest) == clause_tokens(clause) + tokens_of(rest),
    decreases clause.len(),
{
    if clause.len() == 1 {
        lemma_tokens_of_literal(clause[0], rest);
    } else {
        let tail = clause.skip(1);
        let sep = seq![' ', '&', '&', ' '];
        assert(valid_clause(tail)) by {
            assert forall|i: int| 0 <= i < tail.len() implies valid_name(
                (#[trigger] tail[i]).name,
            ) by {
                assert(tail[i] == clause[i + 1]);
            }
        }
        lemma_tokens_of_clause(tail, rest);
        let after = clause_text(tail) + rest;
        lemma_tokens_of_and(after);
        assert((sep + after)[0] == ' ');
        lemma_tokens_of_literal(clause[0], sep + after);
        assert(clause_text(clause) + rest =~= literal_text(clause[0]) + (sep + after));
        assert(literal_tokens(clause[0]) + (seq![Lexeme::And] + (clause_tokens(tail) + tokens_of(
            rest,
        ))) =~= clause_tokens(clause) + tokens_of(rest));
    }
}

/// A written disjunctive form is read back as its tokens.
pub proof fn lemma_tokens_of_form(form: Seq<Seq<Literal>>)
    requires
        valid_form(form),
    ensures
        tokens_of(form_text(form)) == form_tokens(form),
    decreases form.len(),
{
    let none = Seq::<char>::empty();
    if form.len() == 1 {
        lemma_tokens_of_clause(form[0], none);
        assert(clause_text(form[0]) + none =~= clause_text(form[0]));
        assert(clause_tokens(form[0]) + tokens_of(none) =~= clause_tokens(form[0]));
    } else {
        let tail = form.skip(1);
        let sep = seq![' ', '|', '|', ' '];
        assert(valid_form(tail)) by {
            assert forall|i: int| 0 <= i < tail.len() implies valid_clause(#[trigger] tail[i]) by {
                assert(tail[i] == form[i + 1]);
            }
        }
        lemma_tokens_of_form(tail);
        let after = form_text(tail);
        lemma_tokens_of_or(after);
        assert((sep + after)[0] == ' ');
        lemma_tokens_of_clause(form[0], sep + after);
        assert(form_text(form) =~= clause_text(form[0]) + (sep + after));
        assert(clause_tokens(form[0]) + (seq![Lexeme::Or] + form_tokens(tail)) =~= form_tokens(
            form,
        ));
    }
}

/// The tokens of a literal are never empty, and the first is no operator of
/// two operands.
proof fn lemma_literal_tokens_head(literal: Literal)
    ensures
        literal_tokens(literal).len() > 0,
        literal_tokens(literal)[0] != Lexeme::And,
        literal_tokens(literal)[0] != Lexeme::Or,
{
}

/// The parser gives a literal its truth-table value and stops behind it.
proof fn lemma_unary_of_literal(literal: Literal, rest: Seq<Lexeme>, flags: Set<Seq<char>>)
    ensures
        spec_unary(literal_tokens(literal) + rest, flags) == (literal_value(literal, flags), rest),
    decreases literal.negations,
{
    let toks = literal_tokens(literal) + rest;
    if literal.negations == 0 {
        assert(toks[0] == Lexeme::Ident(literal.name));
        assert(toks.skip(1) =~= rest);
    } else {
        let inner = Literal { negations: (literal.negations - 1) as nat, name: literal.name };
        lemma_unary_of_literal(inner, rest, flags);
        assert(toks[0] == Lexeme::Not);
        assert(toks.skip(1) =~= literal_tokens(inner) + rest);
    }
}

/// A clause holds when its first literal and the clause of the others hold.
proof fn lemma_clause_value_unfold(clause: Seq<Literal>, flags: Set<Seq<char>>)
    requires
        clause.len() > 0,
    ensures
        clause_value(clause, flags) == (literal_value(clause[0], flags) && clause_value(
            clause.skip(1),
            flags,
        )),
{
    let tail = clause.skip(1);
    if clause_value(clause, flags) {
        assert forall|i: int| 0 <= i < tail.len() implies literal_value(#[trigger] tail[i], flags) by {
            assert(tail[i] == clause[i + 1]);
        }
    }
    if literal_value(clause[0], flags) && clause_value(tail, flags) {
        assert forall|i: int| 0 <= i < clause.len() implies literal_value(
            #[trigger] clause[i],
            flags,
        ) by {
            if i > 0 {
                assert(clause[i] == tail[i - 1]);
            }
        }
    }
}

/// A form holds when its first clause or the form of the others holds.
proof fn lemma_form_value_unfold(form: Seq<Seq<Literal>>, flags: Set<Seq<char>>)
    requires
        form.len() > 0,
    ensures
        form_value(form, flags) == (clause_value(form[0], flags) || form_value(
            form.skip(1),
            flags,
        )),
{
    let tail = form.skip(1);
    if form_value(form, flags) {
        let i = choose|i: int| 0 <= i < form.len() && clause_value(#[trigger] form[i], flags);
        if i > 0 {
            assert(tail[i - 1] == form[i]);
        }
    }
    if form_value(tail, flags) {
        let i = choose|i: int| 0 <= i < tail.len() && clause_value(#[trigger] tail[i], flags);
        assert(form[i + 1] == tail[i]);
    }
}

/// Tokens that a conjunction before them does not run into.
pub open spec fn ends_conjunction(rest: Seq<Lexeme>) -> bool {
    rest.len() == 0 || rest[0] != Lexeme::And
}

/// The parser gives a clause its truth-table value and stops behind it.
proof fn lemma_and_of_clause(clause: Seq<Literal>, rest: Seq<Lexeme>, flags: Set<Seq<char>>)
    requires
        clause.len() > 0,
        ends_conjunction(rest),
    ensures
        spec_and(clause_tokens(clause) + rest, flags) == (clause_value(clause, flags), rest),
        forall|acc: bool|
            spec_and_rest(acc, seq![Lexeme::And] + clause_tokens(clause) + rest, flags) == (
                acc && clause_value(clause, flags),
                rest,
            ),
    decreases clause.len(),
{
    let first = clause[0];
    let tail = clause.skip(1);
    lemma_clause_value_unfold(clause, flags);
    if clause.len() == 1 {
        assert(clause_value(tail, flags));
        lemma_unary_of_literal(first, rest, flags);
        assert(spec_and_rest(literal_value(first, flags), rest, flags) == (
            literal_value(first, flags),
            rest,
        ));
    } else {
        lemma_and_of_clause(tail, rest, flags);
        let more = seq![Lexeme::And] + clause_tokens(tail) + rest;
        lemma_unary_of_literal(first, more, flags);
        assert(clause_tokens(clause) + rest =~= literal_tokens(first) + more);
    }
    assert forall|acc: bool|
        spec_and_rest(acc, seq![Lexeme::And] + clause_tokens(clause) + rest, flags) == (
            acc && clause_value(clause, flags),
            rest,
        ) by {
        let toks = seq![Lexeme::And] + clause_tokens(clause) + rest;
        assert(toks[0] == Lexeme::And);
        assert(toks.skip(1) =~= clause_tokens(clause) + rest);
        if clause.len() == 1 {
            assert(spec_and_rest(acc && literal_value(first, flags), rest, flags) == (
                acc && literal_value(first, flags),
                rest,
            ));
        } else {
            let more = seq![Lexeme::And] + clause_tokens(tail) + rest;
            assert(clause_tokens(clause) + rest =~= literal_tokens(first) + more);
            assert(spec_and_rest(acc && literal_value(first, flags), more, flags) == (
                acc && literal_value(first, flags) && clause_value(tail, flags),
                rest,
            ));
        }
    }
}

/// The tokens of a clause are never empty.
proof fn lemma_clause_tokens_head(clause: Seq<Literal>)
    requires
        clause.len() > 0,
    ensures
        clause_tokens(clause).len() > 0,
{
    lemma_literal_tokens_head(clause[0]);
}

/// The parser gives a disjunctive form its truth-table value.
proof fn lemma_or_of_form(form: Seq<Seq<Literal>>, flags: Set<Seq<char>>)
    requires
        valid_form(form),
    ensures
        spec_or(form_tokens(form), flags).0 == form_value(form, flags),
        forall|acc: bool|
            spec_or_rest(acc, seq![Lexeme::Or] + form_tokens(form), flags).0 == (acc || form_value(
                form,
                flags,
            )),
    decreases form.len(),
{
    let first = form[0];
    let tail = form.skip(1);
    let none = Seq::<Lexeme>::empty();
    lemma_form_value_unfold(form, flags);
    assert(valid_clause(first));
    if form.len() == 1 {
        assert(!form_value(tail, flags));
        lemma_and_of_clause(first, none, flags);
        assert(clause_tokens(first) + none =~= form_tokens(form));
    } else {
        assert(valid_form(tail)) by {
            assert forall|i: int| 0 <= i < tail.len() implies valid_clause(#[trigger] tail[i]) by {
                assert(tail[i] == form[i + 1]);
            }
        }
        lemma_or_of_form(tail, flags);
        let more = seq![Lexeme::Or] + form_tokens(tail);
        lemma_and_of_clause(first, more, flags);
        assert(form_tokens(form) =~= clause_tokens(first) + more);
    }
    assert forall|acc: bool|
        spec_or_rest(acc, seq![Lexeme::Or] + form_tokens(form), flags).0 == (acc || form_value(
            form,
            flags,
        )) by {
        let toks = seq![Lexeme::Or] + form_tokens(form);
        assert(toks[0] == Lexeme::Or);
        assert(toks.skip(1) =~= form_tokens(form));
        if form.len() == 1 {
            assert(clause_tokens(first) + none =~= form_tokens(form));
            assert(spec_or_rest(acc || clause_value(first, flags), none, flags) == (
                acc || clause_value(first, flags),
                none,
            ));
        } else {
            let more = seq![Lexeme::Or] + form_tokens(tail);
            assert(form_tokens(form) =~= clause_tokens(first) + more);
            assert(spec_and(form_tokens(form), flags) == (clause_value(first, flags), more));
            assert(spec_or_rest(acc || clause_value(first, flags), more, flags).0 == (acc
                || clause_value(first, flags) || form_value(tail, flags)));
        }
    }
}

/// The tokens of a disjunctive form are never empty.
proof fn lemma_form_tokens_head(form: Seq<Seq<Literal>>)
    requires
        valid_form(form),
    ensures
        form_tokens(form).len() > 0,
{
    assert(valid_clause(form[0]));
    lemma_clause_tokens_head(form[0]);
}

/// A condition written from flag names, `!`, `&&` and `||` holds exactly when
/// its truth table says so: some clause has all its literals true, where a
/// literal is true when its flag is set, negated once for each `!`.
pub proof fn lemma_condition_matches_truth_table(form: Seq<Seq<Literal>>, flags: Set<Seq<char>>)
    requires
        valid_form(form),
    ensures
        condition_holds(form_text(form), flags) == form_value(form, flags),
{
    lemma_tokens_of_form(form);
    lemma_form_tokens_head(form);
    lemma_or_of_form(form, flags);
}

/// A bare flag name holds exactly when the flag is set, and with `!` before
/// it exactly when the flag is not set.
pub proof fn lemma_bare_flag(name: Seq<char>, flags: Set<Seq<char>>)
    requires
        valid_name(name),
    ensures
        condition_holds(name, flags) == flags.contains(name),
        condition_holds(seq!['!'] + name, flags) == !flags.contains(name),
{
    let plain = Literal { negations: 0, name };
    let negated = Literal { negations: 1, name };
    lemma_condition_matches_truth_table(seq![seq![plain]], flags);
    lemma_condition_matches_truth_table(seq![seq![negated]], flags);
    assert(bangs(0) =~= Seq::<char>::empty());
    assert(bangs(1) =~= seq!['!']) by {
        assert(bangs(1) == seq!['!'] + bangs(0));
    }
    assert(form_text(seq![seq![plain]]) =~= name);
    assert(form_text(seq![seq![negated]]) =~= seq!['!'] + name);
    assert(seq![seq![plain]][0] == seq![plain]);
    assert(seq![seq![negated]][0] == seq![negated]);
    assert(seq![plain][0] == plain);
    assert(seq![negated][0] == negated);
}

/// The empty condition holds under every set of flags.
pub proof fn lemma_empty_condition_holds(flags: Set<Seq<char>>)
    ensures
        condition_holds(Seq::<char>::empty(), flags),
{
}

/// A condition without any character of a token holds under every set of
/// flags: blanks alone are no gate.
pub proof fn lemma_blank_condition_holds(condition: Seq<char>, flags: Set<Seq<char>>)
    requires
        forall|i: int|
            0 <= i < condition.len() ==> {
                let c = #[trigger] condition[i];
                c != '!' && c != '&' && c != '|' && !ident_char(c)
            },
    ensures
        tokens_of(condition).len() == 0,
        condition_holds(condition, flags),
    decreases condition.len(),
{
    if condition.len() > 0 {
        let tail = condition.skip(1);
        assert forall|i: int| 0 <= i < tail.len() implies {
            let c = #[trigger] tail[i];
            c != '!' && c != '&' && c != '|' && !ident_char(c)
        } by {
            assert(tail[i] == condition[i + 1]);
        }
        lemma_blank_condition_holds(tail, flags);
        let c = condition[0];
        assert(c != '!' && c != '&' && c != '|' && !ident_char(c));
    }
}

} // verus!
