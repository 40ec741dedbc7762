//! Why `compile` refuses every grammar whose repetitions could loop: the
//! nullable analysis reaches a fixpoint, and a pattern that matches without
//! consuming input is one the analysis marks.
use vstd::prelude::*;
use crate::compiler::{
    nullable_after, nullable_rules, nullable_step, pattern_nullable, pattern_repeats_safe,
    patterns_nullable, patterns_repeats_safe, repeats_safe, rule_nullable, rule_repeats_safe,
};
use crate::model::{find_name, rule_names, GrammarDefinition, Pattern, RepeatKind, RuleVariant};
use crate::semantics::{
    eval_pattern, eval_repeat, eval_rule, eval_seq, eval_variants, skip, span, CharClass, SeqStep,
    Step,
};
use crate::value::ValueModel;

verus! {

/// `a` marks no rule that `b` does not.
pub open spec fn below(a: Seq<bool>, b: Seq<bool>) -> bool {
    a.len() == b.len() && forall|i: int| 0 <= i < a.len() && #[trigger] a[i] ==> b[i]
}

proof fn lemma_span_forward(input: Seq<char>, pos: int, k: CharClass)
    ensures
        span(input, pos, k) >= pos,
    decreases input.len() - pos,
{
    if 0 <= pos < input.len() && crate::semantics::in_class(input[pos], k) {
        lemma_span_forward(input, pos + 1, k);
    }
}

proof fn lemma_pattern_nullable_monotone(g: GrammarDefinition, p: Pattern, a: Seq<bool>, b: Seq<bool>)
    requires
        below(a, b),
        pattern_nullable(g, p, a),
    ensures
        pattern_nullable(g, p, b),
    decreases p, 0int,
{
    match p {
        Pattern::Repeat { pattern, kind, .. } => {
            if kind == RepeatKind::OneOrMore {
                lemma_pattern_nullable_monotone(g, *pattern, a, b);
            }
        },
        Pattern::Group { patterns, .. } => {
            lemma_patterns_nullable_monotone(g, patterns@, 0, a, b);
        },
        _ => {},
    }
}

proof fn lemma_patterns_nullable_monotone(
    g: GrammarDefinition,
    ps: Seq<Pattern>,
    i: int,
    a: Seq<bool>,
    b: Seq<bool>,
)
    requires
        below(a, b),
        patterns_nullable(g, ps, i, a),
    ensures
        patterns_nullable(g, ps, i, b),
    decreases ps, ps.len() - i,
{
    if 0 <= i < ps.len() {
        lemma_pattern_nullable_monotone(g, ps[i], a, b);
        lemma_patterns_nullable_monotone(g, ps, i + 1, a, b);
    }
}

proof fn lemma_step_monotone(g: GrammarDefinition, a: Seq<bool>, b: Seq<bool>)
    requires
        below(a, b),
    ensures
        below(nullable_step(g, a), nullable_step(g, b)),
{
    assert forall|i: int|
        0 <= i < nullable_step(g, a).len() && #[trigger] nullable_step(g, a)[i] implies nullable_step(
        g,
        b,
    )[i] by {
        let r = g.rules@[i];
        let j = choose|j: int| 0 <= j < r.variants@.len() && patterns_nullable(g, #[trigger] r.variants@[j].pattern@, 0, a);
        lemma_patterns_nullable_monotone(g, r.variants@[j].pattern@, 0, a, b);
        assert(rule_nullable(g, r, b));
    }
}

proof fn lemma_after_grows(g: GrammarDefinition, k: nat)
    ensures
        below(nullable_after(g, k), nullable_after(g, k + 1)),
        nullable_after(g, k).len() == g.rules@.len(),
    decreases k,
{
    if k > 0 {
        lemma_after_grows(g, (k - 1) as nat);
        lemma_step_monotone(g, nullable_after(g, (k - 1) as nat), nullable_after(g, k));
    }
}

/// The number of marked rules.
pub open spec fn marked(s: Seq<bool>) -> nat
    decreases s.len(),
{
    if s.len() == 0 {
        0
    } else {
        marked(s.drop_last()) + if s.last() {
            1nat
        } else {
            0nat
        }
    }
}

proof fn lemma_marked_grows(a: Seq<bool>, b: Seq<bool>)
    requires
        below(a, b),
    ensures
        marked(a) <= marked(b),
        a != b ==> marked(a) < marked(b),
        marked(b) <= b.len(),
    decreases a.len(),
{
    if a.len() == 0 {
        assert(a =~= b);
    } else {
        let a0 = a.drop_last();
        let b0 = b.drop_last();
        assert(below(a0, b0)) by {
            assert forall|i: int| 0 <= i < a0.len() && #[trigger] a0[i] implies b0[i] by {
                assert(a[i] == a0[i]);
                assert(b[i] == b0[i]);
            }
        }
        lemma_marked_grows(a0, b0);
        assert(a.last() ==> b.last()) by {
            assert(a[a.len() - 1] == a.last());
        }
        assert(a =~= a0.push(a.last()));
        assert(b =~= b0.push(b.last()));
    }
}

proof fn lemma_all_marked(s: Seq<bool>)
    requires
        marked(s) >= s.len(),
    ensures
        forall|i: int| 0 <= i < s.len() ==> #[trigger] s[i],
    decreases s.len(),
{
    if s.len() > 0 {
        let s0 = s.drop_last();
        lemma_marked_grows(s0, s0);
        lemma_all_marked_helper(s0);
        if marked(s0) >= s0.len() {
            lemma_all_marked(s0);
        }
        assert forall|i: int| 0 <= i < s.len() implies #[trigger] s[i] by {
            if i < s0.len() {
                assert(s[i] == s0[i]);
            }
        }
    }
}

proof fn lemma_all_marked_helper(s: Seq<bool>)
    ensures
        marked(s) <= s.len(),
    decreases s.len(),
{
    if s.len() > 0 {
        lemma_all_marked_helper(s.drop_last());
    }
}

proof fn lemma_after_stays(g: GrammarDefinition, j: nat, k: nat)
    requires
        j <= k,
        nullable_after(g, j + 1) == nullable_after(g, j),
    ensures
        nullable_after(g, k) == nullable_after(g, j),
    decreases k - j,
{
    if j < k {
        lemma_after_stays(g, j, (k - 1) as nat);
        assert(nullable_after(g, k) == nullable_step(g, nullable_after(g, (k - 1) as nat)));
    }
}

proof fn lemma_progress(g: GrammarDefinition, k: nat)
    ensures
        (exists|j: nat| j < k && #[trigger] nullable_after(g, j + 1) == nullable_after(g, j)) || marked(
            nullable_after(g, k),
        ) >= k,
    decreases k,
{
    if k > 0 {
        let k0 = (k - 1) as nat;
        lemma_progress(g, k0);
        lemma_after_grows(g, k0);
        lemma_marked_grows(nullable_after(g, k0), nullable_after(g, k));
        if nullable_after(g, k0 + 1) == nullable_after(g, k0) {
            assert(nullable_after(g, k0 + 1) == nullable_after(g, k0));
        }
    }
}

/// After as many rounds as there are rules, the nullable analysis is
/// stable.
pub proof fn lemma_nullable_fixpoint(g: GrammarDefinition)
    ensures
        nullable_step(g, nullable_rules(g)) == nullable_rules(g),
{
    let n = g.rules@.len();
    lemma_progress(g, n);
    lemma_after_grows(g, n);
    if exists|j: nat| j < n && #[trigger] nullable_after(g, j + 1) == nullable_after(g, j) {
        let j = choose|j: nat| j < n && #[trigger] nullable_after(g, j + 1) == nullable_after(g, j);
        lemma_after_stays(g, j, n);
        lemma_after_stays(g, j, n + 1);
    } else {
        let s = nullable_after(g, n);
        lemma_all_marked(s);
        let t = nullable_after(g, n + 1);
        assert(t =~= s);
    }
}

proof fn lemma_repeat_forward(
    g: GrammarDefinition,
    inner: Pattern,
    at_least_one: bool,
    input: Seq<char>,
    pos: int,
    fuel: nat,
    acc: Seq<ValueModel>,
    far: Option<(int, Seq<char>)>,
)
    ensures
        ({
            let r = eval_repeat(g, inner, at_least_one, input, pos, fuel, acc, far);
            &&& r is Matched ==> r->Matched_1 >= pos
            &&& r is Matched && at_least_one && acc.len() == 0 ==> r->Matched_1 > pos
        }),
    decreases input.len() - pos,
{
    match eval_pattern(g, inner, input, pos, fuel) {
        Step::Matched(v, e, f) => {
            if pos < e <= input.len() {
                lemma_repeat_forward(
                    g,
                    inner,
                    at_least_one,
                    input,
                    e,
                    fuel,
                    acc.push(v),
                    crate::semantics::deeper(far, f),
                );
            }
        },
        Step::Failed(_, _) => {},
    }
}

proof fn lemma_pattern_sound(g: GrammarDefinition, p: Pattern, input: Seq<char>, pos: int, fuel: nat)
    ensures
        ({
            let r = eval_pattern(g, p, input, pos, fuel);
            &&& r is Matched ==> r->Matched_1 >= pos
            &&& r is Matched && r->Matched_1 == pos ==> pattern_nullable(g, p, nullable_rules(g))
        }),
    decreases fuel, 0int, 0int,
{
    if fuel > 0 {
        let f = (fuel - 1) as nat;
        let q = skip(g.implicit_whitespace, input, pos);
        lemma_span_forward(input, pos, CharClass::Space);
        match p {
            Pattern::RuleCall { rule_name, .. } => {
                match find_name(rule_names(g.rules@), rule_name@) {
                    Some(i) => {
                        lemma_rule_sound(g, i, input, pos, f);
                        lemma_after_grows(g, g.rules@.len() as nat);
                    },
                    None => {
                        lemma_span_forward(input, pos, CharClass::Space);
                        lemma_span_forward(input, q, CharClass::Digit);
                        lemma_span_forward(input, q + 1, CharClass::IdentRest);
                        lemma_span_forward(input, q + 1, CharClass::NotQuote);
                    },
                }
            },
            Pattern::Repeat { pattern, kind, .. } => {
                if kind == RepeatKind::Optional {
                    lemma_pattern_sound(g, *pattern, input, pos, f);
                } else {
                    lemma_repeat_forward(
                        g,
                        *pattern,
                        kind == RepeatKind::OneOrMore,
                        input,
                        pos,
                        f,
                        Seq::empty(),
                        None,
                    );
                }
            },
            Pattern::Group { patterns, .. } => {
                lemma_seq_sound(g, patterns@, 0, input, pos, f, Seq::empty(), None);
            },
            _ => {},
        }
    }
}

proof fn lemma_seq_sound(
    g: GrammarDefinition,
    ps: Seq<Pattern>,
    i: int,
    input: Seq<char>,
    pos: int,
    fuel: nat,
    env: Seq<(Seq<char>, ValueModel)>,
    far: Option<(int, Seq<char>)>,
)
    ensures
        ({
            let r = eval_seq(g, ps, i, input, pos, fuel, env, far);
            &&& r is Matched ==> r->Matched_1 >= pos
            &&& r is Matched && r->Matched_1 == pos ==> patterns_nullable(
                g,
                ps,
                i,
                nullable_rules(g),
            )
        }),
    decreases fuel, 1int, ps.len() - i,
{
    if 0 <= i < ps.len() {
        lemma_pattern_sound(g, ps[i], input, pos, fuel);
        match eval_pattern(g, ps[i], input, pos, fuel) {
            Step::Matched(v, e, f) => {
                lemma_seq_sound(
                    g,
                    ps,
                    i + 1,
                    input,
                    e,
                    fuel,
                    crate::semantics::bind(env, ps[i], v),
                    crate::semantics::deeper(far, f),
                );
            },
            Step::Failed(_, _) => {},
        }
    }
}

proof fn lemma_variants_sound(
    g: GrammarDefinition,
    vs: Seq<RuleVariant>,
    i: int,
    input: Seq<char>,
    pos: int,
    fuel: nat,
    best: Option<(int, Seq<char>)>,
    name: Seq<char>,
)
    ensures
        ({
            let r = eval_variants(g, vs, i, input, pos, fuel, best, name);
            &&& r is Matched ==> r->Matched_1 >= pos
            &&& r is Matched && r->Matched_1 == pos ==> exists|j: int|
                0 <= j < vs.len() && patterns_nullable(g, #[trigger] vs[j].pattern@, 0, nullable_rules(g))
        }),
    decreases fuel, 2int, vs.len() - i,
{
    if 0 <= i < vs.len() {
        lemma_seq_sound(g, vs[i].pattern@, 0, input, pos, fuel, Seq::empty(), None);
        match eval_seq(g, vs[i].pattern@, 0, input, pos, fuel, Seq::empty(), None) {
            SeqStep::Matched(_, _, _) => {},
            SeqStep::Failed(q, x) => {
                lemma_variants_sound(
                    g,
                    vs,
                    i + 1,
                    input,
                    pos,
                    fuel,
                    crate::semantics::deeper(best, Some((q, x))),
                    name,
                );
            },
        }
    }
}

proof fn lemma_rule_sound(g: GrammarDefinition, i: int, input: Seq<char>, pos: int, fuel: nat)
    ensures
        ({
            let r = eval_rule(g, i, input, pos, fuel);
            &&& r is Matched ==> r->Matched_1 >= pos
            &&& r is Matched && r->Matched_1 == pos ==> 0 <= i < nullable_rules(g).len()
                && nullable_rules(g)[i]
        }),
    decreases fuel, 3int, 0int,
{
    if 0 <= i < g.rules@.len() {
        let r = g.rules@[i];
        lemma_variants_sound(g, r.variants@, 0, input, pos, fuel, None, r.name@);
        lemma_nullable_fixpoint(g);
        lemma_after_grows(g, g.rules@.len() as nat);
        let res = eval_rule(g, i, input, pos, fuel);
        if res is Matched && res->Matched_1 == pos {
            assert(rule_nullable(g, r, nullable_rules(g)));
            assert(nullable_step(g, nullable_rules(g))[i]);
        }
    }
}

/// Repetition safety: when a `*` or `+` in a variant of `g` repeats a
/// pattern that, on some input, matches without consuming anything, `g`
/// fails the check that `compile` makes, so it is refused before anything
/// is parsed.
pub proof fn lemma_empty_match_refused(
    g: GrammarDefinition,
    i: int,
    j: int,
    k: int,
    input: Seq<char>,
    pos: int,
    fuel: nat,
)
    requires
        0 <= i < g.rules@.len(),
        0 <= j < g.rules@[i].variants@.len(),
        0 <= k < g.rules@[i].variants@[j].pattern@.len(),
        ({
            let p = g.rules@[i].variants@[j].pattern@[k];
            &&& p is Repeat
            &&& p->Repeat_kind != RepeatKind::Optional
            &&& eval_pattern(g, *p->Repeat_pattern, input, pos, fuel) is Matched
            &&& eval_pattern(g, *p->Repeat_pattern, input, pos, fuel)->Matched_1 == pos
        }),
    ensures
        !repeats_safe(g),
{
    let ps = g.rules@[i].variants@[j].pattern@;
    let p = ps[k];
    lemma_pattern_sound(g, *p->Repeat_pattern, input, pos, fuel);
    assert(!pattern_repeats_safe(g, p, nullable_rules(g)));
    if repeats_safe(g) {
        assert(rule_repeats_safe(g, g.rules@[i]));
        assert(patterns_repeats_safe(g, ps, 0, nullable_rules(g)));
        crate::compiler::lemma_patterns_repeats_safe_at(g, ps, 0, k, nullable_rules(g));
    }
}

} // verus!
