//! What running a rule over an input means: ordered choice with full
//! backtracking, as mathematical functions. Every level of nesting (a rule
//! call, a group, a repetition) spends one unit of a depth budget, so that
//! every evaluation ends.
use vstd::prelude::*;
use crate::model::{find_name, rule_names, Action, GrammarDefinition, Pattern, RepeatKind, RuleVariant};
use crate::value::ValueModel;

verus! {

/// The primitives that a rule call may name when no rule has that name.
#[derive(Clone, Copy, Debug, PartialEq, Eq, Structural)]
pub enum Builtin {
    /// `identifier`: a letter or `_`, then letters, digits and `_`.
    Identifier,
    /// `digits`: one or more decimal digits.
    Digits,
    /// `string`: text between double quotes, without the quotes.
    StringLit,
    /// `whitespace`: any run of spaces, tabs and line breaks, possibly empty.
    Whitespace,
}

/// Sets of characters that the primitives scan over.
#[derive(Clone, Copy, Debug, PartialEq, Eq, Structural)]
pub enum CharClass {
    IdentStart,
    IdentRest,
    Digit,
    Space,
    NotQuote,
}

pub open spec fn in_class(c: char, k: CharClass) -> bool {
    let u = c as u32;
    match k {
        CharClass::IdentStart => (97 <= u <= 122) || (65 <= u <= 90) || u == 95,
        CharClass::IdentRest => (97 <= u <= 122) || (65 <= u <= 90) || u == 95 || (48 <= u <= 57),
        CharClass::Digit => 48 <= u <= 57,
        CharClass::Space => u == 32 || u == 9 || u == 10 || u == 13,
        CharClass::NotQuote => u != 34,
    }
}

/// The primitive that `name` stands for, if any.
pub open spec fn builtin_of(name: Seq<char>) -> Option<Builtin> {
    if name == "identifier"@ {
        Some(Builtin::Identifier)
    } else if name == "digits"@ {
        Some(Builtin::Digits)
    } else if name == "string"@ {
        Some(Builtin::StringLit)
    } else if name == "whitespace"@ {
        Some(Builtin::Whitespace)
    } else {
        None
    }
}

/// The end of the run of characters of class `k` that starts at `pos`.
pub open spec fn span(input: Seq<char>, pos: int, k: CharClass) -> int
    decreases input.len() - pos,
{
    if 0 <= pos < input.len() && in_class(input[pos], k) {
        span(input, pos + 1, k)
    } else {
        pos
    }
}

/// Where the next token starts: past any whitespace when the grammar skips
/// it implicitly, at `pos` otherwise.
pub open spec fn skip(implicit_whitespace: bool, input: Seq<char>, pos: int) -> int {
    if implicit_whitespace {
        span(input, pos, CharClass::Space)
    } else {
        pos
    }
}

/// The deepest failure seen so far, if any: its offset and what was
/// expected there.
pub open spec fn deeper(a: Option<(int, Seq<char>)>, b: Option<(int, Seq<char>)>) -> Option<
    (int, Seq<char>),
> {
    match b {
        None => a,
        Some(y) => match a {
            None => b,
            Some(x) => if y.0 > x.0 {
                b
            } else {
                a
            },
        },
    }
}

/// The failure to report when an attempt fails at `q` expecting `x`, after
/// the failures `far`: the deeper of the two, the earlier one on a tie.
pub open spec fn fail_after(far: Option<(int, Seq<char>)>, q: int, x: Seq<char>) -> Step {
    let d = deeper(far, Some((q, x)))->Some_0;
    Step::Failed(d.0, d.1)
}

/// The outcome of matching one pattern.
pub ghost enum Step {
    /// The value produced, the offset where the match ends, and the deepest
    /// failing attempt made on the way, if any.
    Matched(ValueModel, int, Option<(int, Seq<char>)>),
    /// The deepest offset that a failing attempt reached, and what was
    /// expected there.
    Failed(int, Seq<char>),
}

/// The outcome of matching a sequence of patterns.
pub ghost enum SeqStep {
    /// The bindings produced, in order, the offset where the match ends, and
    /// the deepest failing attempt made on the way.
    Matched(Seq<(Seq<char>, ValueModel)>, int, Option<(int, Seq<char>)>),
    Failed(int, Seq<char>),
}

pub open spec fn eval_builtin(b: Builtin, input: Seq<char>, p: int) -> Step {
    match b {
        Builtin::Identifier => if 0 <= p < input.len() && in_class(input[p], CharClass::IdentStart) {
            let e = span(input, p + 1, CharClass::IdentRest);
            Step::Matched(ValueModel::Text(input.subrange(p, e)), e, None)
        } else {
            Step::Failed(p, "identifier"@)
        },
        Builtin::Digits => {
            let e = span(input, p, CharClass::Digit);
            if e > p {
                Step::Matched(ValueModel::Text(input.subrange(p, e)), e, None)
            } else {
                Step::Failed(p, "digits"@)
            }
        },
        Builtin::StringLit => if 0 <= p < input.len() && input[p] == '"' {
            let e = span(input, p + 1, CharClass::NotQuote);
            if e < input.len() {
                Step::Matched(ValueModel::Text(input.subrange(p + 1, e)), e + 1, None)
            } else {
                Step::Failed(e, "\""@)
            }
        } else {
            Step::Failed(p, "string"@)
        },
        Builtin::Whitespace => Step::Matched(ValueModel::Unit, span(input, p, CharClass::Space), None),
    }
}

/// The name under which a pattern binds its value, if any.
pub open spec fn binding_of(p: Pattern) -> Option<Seq<char>> {
    match p {
        Pattern::RuleCall { binding, .. } => match binding {
            Some(n) => Some(n@),
            None => None,
        },
        Pattern::Repeat { binding, .. } => match binding {
            Some(n) => Some(n@),
            None => None,
        },
        _ => None,
    }
}

pub open spec fn bind(env: Seq<(Seq<char>, ValueModel)>, p: Pattern, v: ValueModel) -> Seq<
    (Seq<char>, ValueModel),
> {
    match binding_of(p) {
        Some(n) => env.push((n, v)),
        None => env,
    }
}

pub open spec fn env_names(env: Seq<(Seq<char>, ValueModel)>) -> Seq<Seq<char>> {
    env.map_values(|b: (Seq<char>, ValueModel)| b.0)
}

/// The value of the first binding named `n`; absent if there is none.
pub open spec fn env_get(env: Seq<(Seq<char>, ValueModel)>, n: Seq<char>) -> ValueModel {
    match find_name(env_names(env), n) {
        Some(i) => env[i].1,
        None => ValueModel::Absent,
    }
}

/// The value an action builds from the bindings of its sequence.
pub open spec fn eval_action(a: Action, env: Seq<(Seq<char>, ValueModel)>) -> ValueModel {
    match a {
        Action::Unit => ValueModel::Unit,
        Action::Ref(n) => env_get(env, n@),
        Action::Prepend(h, t) => match env_get(env, t@) {
            ValueModel::List(xs) => ValueModel::List(seq![env_get(env, h@)] + xs),
            _ => ValueModel::List(seq![env_get(env, h@)]),
        },
        Action::Node(tag, names) => ValueModel::Node(
            tag@,
            names@.map_values(|n: String| env_get(env, n@)),
        ),
    }
}

/// Matches pattern `p` at `pos` with a depth budget of `fuel`.
pub open spec fn eval_pattern(
    g: GrammarDefinition,
    p: Pattern,
    input: Seq<char>,
    pos: int,
    fuel: nat,
) -> Step
    decreases fuel, 0int, 0int,
{
    if fuel == 0 {
        Step::Failed(pos, "recursion limit"@)
    } else {
        let f = (fuel - 1) as nat;
        match p {
            Pattern::Lit(s) => {
                let q = skip(g.implicit_whitespace, input, pos);
                let e = q + s@.len();
                if e <= input.len() && input.subrange(q, e) == s@ {
                    Step::Matched(ValueModel::Text(s@), e, None)
                } else {
                    Step::Failed(q, s@)
                }
            },
            Pattern::RuleCall { rule_name, .. } => match find_name(
                rule_names(g.rules@),
                rule_name@,
            ) {
                Some(i) => eval_rule(g, i, input, pos, f),
                None => match builtin_of(rule_name@) {
                    Some(Builtin::Whitespace) => eval_builtin(Builtin::Whitespace, input, pos),
                    Some(b) => eval_builtin(b, input, skip(g.implicit_whitespace, input, pos)),
                    None => Step::Failed(pos, rule_name@),
                },
            },
            Pattern::Repeat { pattern, kind, .. } => match kind {
                RepeatKind::Optional => match eval_pattern(g, *pattern, input, pos, f) {
                    Step::Matched(v, e, far) => Step::Matched(ValueModel::Present(Box::new(v)), e, far),
                    Step::Failed(q, x) => Step::Matched(ValueModel::Absent, pos, Some((q, x))),
                },
                _ => eval_repeat(
                    g,
                    *pattern,
                    kind == RepeatKind::OneOrMore,
                    input,
                    pos,
                    f,
                    Seq::empty(),
                    None,
                ),
            },
            Pattern::Group { patterns, action } => match eval_seq(
                g,
                patterns@,
                0,
                input,
                pos,
                f,
                Seq::empty(),
                None,
            ) {
                SeqStep::Matched(env, e, far) => Step::Matched(eval_action(action, env), e, far),
                SeqStep::Failed(q, x) => Step::Failed(q, x),
            },
        }
    }
}

/// Matches `inner` again and again from `pos`, after the items `acc` and
/// the failures `far`; stops at the first attempt that fails or does not
/// move forward.
pub open spec fn eval_repeat(
    g: GrammarDefinition,
    inner: Pattern,
    at_least_one: bool,
    input: Seq<char>,
    pos: int,
    fuel: nat,
    acc: Seq<ValueModel>,
    far: Option<(int, Seq<char>)>,
) -> Step
    decreases fuel, 1int, input.len() - pos,
{
    match eval_pattern(g, inner, input, pos, fuel) {
        Step::Matched(v, e, f) => if pos < e <= input.len() {
            eval_repeat(g, inner, at_least_one, input, e, fuel, acc.push(v), deeper(far, f))
        } else if at_least_one && acc.len() == 0 {
            Step::Failed(pos, "progress"@)
        } else {
            Step::Matched(ValueModel::List(acc), pos, deeper(far, f))
        },
        Step::Failed(q, x) => if at_least_one && acc.len() == 0 {
            Step::Failed(q, x)
        } else {
            Step::Matched(ValueModel::List(acc), pos, deeper(far, Some((q, x))))
        },
    }
}

/// Matches `ps[i..]` left to right from `pos`, after the bindings `env` and
/// the failures `far`.
pub open spec fn eval_seq(
    g: GrammarDefinition,
    ps: Seq<Pattern>,
    i: int,
    input: Seq<char>,
    pos: int,
    fuel: nat,
    env: Seq<(Seq<char>, ValueModel)>,
    far: Option<(int, Seq<char>)>,
) -> SeqStep
    decreases fuel, 1int, ps.len() - i,
{
    if i < 0 || i >= ps.len() {
        SeqStep::Matched(env, pos, far)
    } else {
        match eval_pattern(g, ps[i], input, pos, fuel) {
            Step::Matched(v, e, f) => eval_seq(
                g,
                ps,
                i + 1,
                input,
                e,
                fuel,
                bind(env, ps[i], v),
                deeper(far, f),
            ),
            Step::Failed(q, x) => {
                let d = deeper(far, Some((q, x)))->Some_0;
                SeqStep::Failed(d.0, d.1)
            },
        }
    }
}

/// Tries the variants `vs[i..]` in order at `pos`, after the failures
/// `best` of the earlier ones; the first that matches wins. When all fail,
/// the deepest failure is reported (the earliest of equally deep ones), or
/// the rule `name` at `pos` when none got past `pos`.
pub open spec fn eval_variants(
    g: GrammarDefinition,
    vs: Seq<RuleVariant>,
    i: int,
    input: Seq<char>,
    pos: int,
    fuel: nat,
    best: Option<(int, Seq<char>)>,
    name: Seq<char>,
) -> Step
    decreases fuel, 2int, vs.len() - i,
{
    if i < 0 || i >= vs.len() {
        match best {
            Some(b) => if b.0 > pos {
                Step::Failed(b.0, b.1)
            } else {
                Step::Failed(pos, name)
            },
            None => Step::Failed(pos, name),
        }
    } else {
        match eval_seq(g, vs[i].pattern@, 0, input, pos, fuel, Seq::empty(), None) {
            SeqStep::Matched(env, e, f) => Step::Matched(
                eval_action(vs[i].action, env),
                e,
                deeper(best, f),
            ),
            SeqStep::Failed(q, x) => eval_variants(
                g,
                vs,
                i + 1,
                input,
                pos,
                fuel,
                deeper(best, Some((q, x))),
                name,
            ),
        }
    }
}

/// Runs the rule at position `i` of the grammar at `pos`.
pub open spec fn eval_rule(g: GrammarDefinition, i: int, input: Seq<char>, pos: int, fuel: nat) -> Step
    decreases fuel, 3int, 0int,
{
    if 0 <= i < g.rules@.len() {
        eval_variants(g, g.rules@[i].variants@, 0, input, pos, fuel, None, g.rules@[i].name@)
    } else {
        Step::Failed(pos, Seq::empty())
    }
}

/// Calls the public rule `name` at `pos`. A name that is not a public rule
/// fails at `pos`, expecting that name.
pub open spec fn eval_call(g: GrammarDefinition, name: Seq<char>, input: Seq<char>, pos: int, fuel: nat) -> Step {
    match find_name(rule_names(g.rules@), name) {
        Some(i) => if g.rules@[i].is_pub {
            eval_rule(g, i, input, pos, fuel)
        } else {
            Step::Failed(pos, name)
        },
        None => Step::Failed(pos, name),
    }
}

/// Runs the public rule `name` over the whole input: the match must start at
/// offset 0 and, after any implicit whitespace, end at the end of the input;
/// when it ends earlier, the deepest failure is reported.
pub open spec fn eval_entry(g: GrammarDefinition, name: Seq<char>, input: Seq<char>, fuel: nat) -> Step {
    match eval_call(g, name, input, 0, fuel) {
        Step::Matched(v, e, far) => {
            let end = skip(g.implicit_whitespace, input, e);
            if end == input.len() {
                Step::Matched(v, end, far)
            } else {
                fail_after(far, end, "end of input"@)
            }
        },
        Step::Failed(q, x) => Step::Failed(q, x),
    }
}

/// Ordered choice: when variant `k` matches at `pos` and every variant
/// before it fails there, the rule's value and end are variant `k`'s,
/// whatever the later variants would match.
pub proof fn lemma_first_match_wins(
    g: GrammarDefinition,
    vs: Seq<RuleVariant>,
    i: int,
    input: Seq<char>,
    pos: int,
    fuel: nat,
    best: Option<(int, Seq<char>)>,
    name: Seq<char>,
    k: int,
)
    requires
        0 <= i <= k < vs.len(),
        forall|j: int| i <= j < k ==> #[trigger] eval_seq(g, vs[j].pattern@, 0, input, pos, fuel, Seq::empty(), None) is Failed,
        eval_seq(g, vs[k].pattern@, 0, input, pos, fuel, Seq::empty(), None) is Matched,
    ensures
        ({
            let m = eval_seq(g, vs[k].pattern@, 0, input, pos, fuel, Seq::empty(), None);
            let r = eval_variants(g, vs, i, input, pos, fuel, best, name);
            &&& r is Matched
            &&& r->Matched_0 == eval_action(vs[k].action, m->Matched_0)
            &&& r->Matched_1 == m->Matched_1
        }),
    decreases k - i,
{
    if i < k {
        let f = eval_seq(g, vs[i].pattern@, 0, input, pos, fuel, Seq::empty(), None);
        assert(f is Failed);
        lemma_first_match_wins(
            g,
            vs,
            i + 1,
            input,
            pos,
            fuel,
            deeper(best, Some((f->Failed_0, f->Failed_1))),
            name,
            k,
        );
    }
}

/// A rule whose first variant matches yields that variant's value and end,
/// even when a later variant would match the same input.
pub proof fn lemma_ordered_choice(g: GrammarDefinition, i: int, input: Seq<char>, pos: int, fuel: nat)
    requires
        0 <= i < g.rules@.len(),
        g.rules@[i].variants@.len() > 0,
        eval_seq(g, g.rules@[i].variants@[0].pattern@, 0, input, pos, fuel, Seq::empty(), None) is Matched,
    ensures
        ({
            let a = g.rules@[i].variants@[0];
            let m = eval_seq(g, a.pattern@, 0, input, pos, fuel, Seq::empty(), None);
            let r = eval_rule(g, i, input, pos, fuel);
            &&& r is Matched
            &&& r->Matched_0 == eval_action(a.action, m->Matched_0)
            &&& r->Matched_1 == m->Matched_1
        }),
{
    lemma_first_match_wins(g, g.rules@[i].variants@, 0, input, pos, fuel, None, g.rules@[i].name@, 0);
}

} // verus!
