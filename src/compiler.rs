//! Checks a flattened grammar and turns it into a parser: every rule call
//! must name a rule or a primitive, and no `*` or `+` may repeat a pattern
//! that can match the empty input.
use vstd::prelude::*;
use crate::error::GrammarError;
use crate::model::{
    find_name, find_rule, rule_names, GrammarDefinition, GrammarOption, OptionValue, Pattern,
    RepeatKind, Rule,
};
use crate::parser::{builtin_named, same_text, Parser};
use crate::semantics::{builtin_of, Builtin};

verus! {

/// The depth budget of a grammar that sets no `recursion_limit`.
pub const DEFAULT_RECURSION_LIMIT: u64 = 256;

/// `name` is a rule of `g` or a primitive.
pub open spec fn is_known(g: GrammarDefinition, name: Seq<char>) -> bool {
    find_name(rule_names(g.rules@), name) is Some || builtin_of(name) is Some
}

pub open spec fn pattern_refs_known(g: GrammarDefinition, p: Pattern) -> bool
    decreases p, 0int,
{
    match p {
        Pattern::Lit(_) => true,
        Pattern::RuleCall { rule_name, .. } => is_known(g, rule_name@),
        Pattern::Repeat { pattern, .. } => pattern_refs_known(g, *pattern),
        Pattern::Group { patterns, .. } => patterns_refs_known(g, patterns@, 0),
    }
}

pub open spec fn patterns_refs_known(g: GrammarDefinition, ps: Seq<Pattern>, i: int) -> bool
    decreases ps, ps.len() - i,
{
    if i < 0 || i >= ps.len() {
        true
    } else {
        pattern_refs_known(g, ps[i]) && patterns_refs_known(g, ps, i + 1)
    }
}

/// Every rule call in rule `r` names something that exists.
pub open spec fn rule_refs_known(g: GrammarDefinition, r: Rule) -> bool {
    forall|j: int| 0 <= j < r.variants@.len() ==> patterns_refs_known(g, #[trigger] r.variants@[j].pattern@, 0)
}

/// Every rule call in `g` names something that exists.
pub open spec fn refs_known(g: GrammarDefinition) -> bool {
    forall|i: int| 0 <= i < g.rules@.len() ==> rule_refs_known(g, #[trigger] g.rules@[i])
}

/// Pattern `p` can match the empty input, when the rules marked in `nr` can.
pub open spec fn pattern_nullable(g: GrammarDefinition, p: Pattern, nr: Seq<bool>) -> bool
    decreases p, 0int,
{
    match p {
        Pattern::Lit(s) => s@.len() == 0,
        Pattern::RuleCall { rule_name, .. } => match find_name(rule_names(g.rules@), rule_name@) {
            Some(i) => 0 <= i < nr.len() && nr[i],
            None => builtin_of(rule_name@) == Some(Builtin::Whitespace),
        },
        Pattern::Repeat { pattern, kind, .. } => kind != RepeatKind::OneOrMore || pattern_nullable(
            g,
            *pattern,
            nr,
        ),
        Pattern::Group { patterns, .. } => patterns_nullable(g, patterns@, 0, nr),
    }
}

pub open spec fn patterns_nullable(g: GrammarDefinition, ps: Seq<Pattern>, i: int, nr: Seq<bool>) -> bool
    decreases ps, ps.len() - i,
{
    if i < 0 || i >= ps.len() {
        true
    } else {
        pattern_nullable(g, ps[i], nr) && patterns_nullable(g, ps, i + 1, nr)
    }
}

/// Some variant of `r` can match the empty input, when the rules marked in
/// `nr` can.
pub open spec fn rule_nullable(g: GrammarDefinition, r: Rule, nr: Seq<bool>) -> bool {
    exists|j: int| 0 <= j < r.variants@.len() && patterns_nullable(g, #[trigger] r.variants@[j].pattern@, 0, nr)
}

/// One round of the nullable analysis: which rules can match the empty input
/// when the rules marked in `nr` can.
pub open spec fn nullable_step(g: GrammarDefinition, nr: Seq<bool>) -> Seq<bool> {
    Seq::new(g.rules@.len(), |i: int| rule_nullable(g, g.rules@[i], nr))
}

/// The rules found able to match the empty input after `k` rounds, starting
/// from none.
pub open spec fn nullable_after(g: GrammarDefinition, k: nat) -> Seq<bool>
    decreases k,
{
    if k == 0 {
        Seq::new(g.rules@.len(), |i: int| false)
    } else {
        nullable_step(g, nullable_after(g, (k - 1) as nat))
    }
}

/// The rules that can match the empty input: the analysis run for as many
/// rounds as there are rules, by which time it is stable.
pub open spec fn nullable_rules(g: GrammarDefinition) -> Seq<bool> {
    nullable_after(g, g.rules@.len())
}

/// No `*` or `+` in `p` repeats a pattern that can match the empty input.
pub open spec fn pattern_repeats_safe(g: GrammarDefinition, p: Pattern, nr: Seq<bool>) -> bool
    decreases p, 0int,
{
    match p {
        Pattern::Repeat { pattern, kind, .. } => (kind == RepeatKind::Optional || !pattern_nullable(
            g,
            *pattern,
            nr,
        )) && pattern_repeats_safe(g, *pattern, nr),
        Pattern::Group { patterns, .. } => patterns_repeats_safe(g, patterns@, 0, nr),
        _ => true,
    }
}

pub open spec fn patterns_repeats_safe(g: GrammarDefinition, ps: Seq<Pattern>, i: int, nr: Seq<bool>) -> bool
    decreases ps, ps.len() - i,
{
    if i < 0 || i >= ps.len() {
        true
    } else {
        pattern_repeats_safe(g, ps[i], nr) && patterns_repeats_safe(g, ps, i + 1, nr)
    }
}

pub open spec fn rule_repeats_safe(g: GrammarDefinition, r: Rule) -> bool {
    forall|j: int|
        0 <= j < r.variants@.len() ==> patterns_repeats_safe(
            g,
            #[trigger] r.variants@[j].pattern@,
            0,
            nullable_rules(g),
        )
}

/// No rule of `g` repeats, with `*` or `+`, a pattern that can match the
/// empty input.
pub open spec fn repeats_safe(g: GrammarDefinition) -> bool {
    forall|i: int| 0 <= i < g.rules@.len() ==> rule_repeats_safe(g, #[trigger] g.rules@[i])
}

/// The value of the first `recursion_limit` option that holds an integer.
pub open spec fn option_limit(opts: Seq<GrammarOption>) -> Option<u64>
    decreases opts.len(),
{
    if opts.len() == 0 {
        None
    } else {
        match option_limit(opts.drop_last()) {
            Some(n) => Some(n),
            None => if opts.last().name@ == "recursion_limit"@ {
                match opts.last().value {
                    OptionValue::Int(n) => Some(n),
                    _ => None,
                }
            } else {
                None
            },
        }
    }
}

/// The depth budget of grammar `g`.
pub open spec fn recursion_limit_of(g: GrammarDefinition) -> u64 {
    match option_limit(g.options@) {
        Some(n) => n,
        None => DEFAULT_RECURSION_LIMIT,
    }
}

fn known_name(g: &GrammarDefinition, name: &String) -> (r: bool)
    ensures
        r == is_known(*g, name@),
{
    find_rule(&g.rules, name).is_some() || builtin_named(name).is_some()
}

fn unknown_in_pattern(g: &GrammarDefinition, p: &Pattern) -> (r: Option<String>)
    ensures
        match r {
            None => pattern_refs_known(*g, *p),
            Some(n) => !pattern_refs_known(*g, *p) && !is_known(*g, n@),
        },
    decreases p, 0int,
{
    match p {
        Pattern::Lit(_) => None,
        Pattern::RuleCall { rule_name, .. } => if known_name(g, rule_name) {
            None
        } else {
            Some(rule_name.clone())
        },
        Pattern::Repeat { pattern, .. } => unknown_in_pattern(g, pattern),
        Pattern::Group { patterns, .. } => unknown_in_patterns(g, patterns, 0),
    }
}

fn unknown_in_patterns(g: &GrammarDefinition, ps: &Vec<Pattern>, i: usize) -> (r: Option<String>)
    requires
        i <= ps@.len(),
    ensures
        match r {
            None => patterns_refs_known(*g, ps@, i as int),
            Some(n) => !patterns_refs_known(*g, ps@, i as int) && !is_known(*g, n@),
        },
    decreases ps, ps@.len() - i,
{
    if i >= ps.len() {
        None
    } else {
        match unknown_in_pattern(g, &ps[i]) {
            Some(n) => Some(n),
            None => unknown_in_patterns(g, ps, i + 1),
        }
    }
}

fn nullable(g: &GrammarDefinition, p: &Pattern, nr: &Vec<bool>) -> (r: bool)
    ensures
        r == pattern_nullable(*g, *p, nr@),
    decreases p, 0int,
{
    match p {
        Pattern::Lit(s) => s.as_str().unicode_len() == 0,
        Pattern::RuleCall { rule_name, .. } => match find_rule(&g.rules, rule_name) {
            Some(i) => i < nr.len() && nr[i],
            None => match builtin_named(rule_name) {
                Some(Builtin::Whitespace) => true,
                _ => false,
            },
        },
        Pattern::Repeat { pattern, kind, .. } => match kind {
            RepeatKind::OneOrMore => nullable(g, pattern, nr),
            _ => true,
        },
        Pattern::Group { patterns, .. } => all_nullable(g, patterns, 0, nr),
    }
}

fn all_nullable(g: &GrammarDefinition, ps: &Vec<Pattern>, i: usize, nr: &Vec<bool>) -> (r: bool)
    requires
        i <= ps@.len(),
    ensures
        r == patterns_nullable(*g, ps@, i as int, nr@),
    decreases ps, ps@.len() - i,
{
    if i >= ps.len() {
        true
    } else {
        nullable(g, &ps[i], nr) && all_nullable(g, ps, i + 1, nr)
    }
}

fn repeats_ok(g: &GrammarDefinition, p: &Pattern, nr: &Vec<bool>) -> (r: bool)
    ensures
        r == pattern_repeats_safe(*g, *p, nr@),
    decreases p, 0int,
{
    match p {
        Pattern::Repeat { pattern, kind, .. } => {
            let inner_ok = match kind {
                RepeatKind::Optional => true,
                _ => !nullable(g, pattern, nr),
            };
            inner_ok && repeats_ok(g, pattern, nr)
        },
        Pattern::Group { patterns, .. } => all_repeats_ok(g, patterns, 0, nr),
        _ => true,
    }
}

fn all_repeats_ok(g: &GrammarDefinition, ps: &Vec<Pattern>, i: usize, nr: &Vec<bool>) -> (r: bool)
    requires
        i <= ps@.len(),
    ensures
        r == patterns_repeats_safe(*g, ps@, i as int, nr@),
    decreases ps, ps@.len() - i,
{
    if i >= ps.len() {
        true
    } else {
        repeats_ok(g, &ps[i], nr) && all_repeats_ok(g, ps, i + 1, nr)
    }
}

fn step_nullable(g: &GrammarDefinition, nr: &Vec<bool>) -> (r: Vec<bool>)
    ensures
        r@ == nullable_step(*g, nr@),
{
    let mut out: Vec<bool> = Vec::new();
    let mut i: usize = 0;
    while i < g.rules.len()
        invariant
            0 <= i <= g.rules@.len(),
            out@.len() == i,
            forall|k: int| 0 <= k < i ==> out@[k] == rule_nullable(*g, #[trigger] g.rules@[k], nr@),
        decreases g.rules@.len() - i,
    {
        let rule = &g.rules[i];
        let mut found = false;
        let mut j: usize = 0;
        while j < rule.variants.len()
            invariant
                *rule == g.rules@[i as int],
                0 <= j <= rule.variants@.len(),
                found == exists|v: int| 0 <= v < j && patterns_nullable(*g, #[trigger] rule.variants@[v].pattern@, 0, nr@),
            decreases rule.variants@.len() - j,
        {
            if all_nullable(g, &rule.variants[j].pattern, 0, nr) {
                found = true;
            }
            j = j + 1;
        }
        out.push(found);
        i = i + 1;
    }
    assert(out@ =~= nullable_step(*g, nr@));
    out
}

fn nullable_table(g: &GrammarDefinition) -> (r: Vec<bool>)
    ensures
        r@ == nullable_rules(*g),
{
    let n = g.rules.len();
    let mut nr: Vec<bool> = Vec::new();
    let mut i: usize = 0;
    while i < n
        invariant
            n == g.rules@.len(),
            0 <= i <= n,
            nr@.len() == i,
            forall|k: int| 0 <= k < i ==> !nr@[k],
        decreases n - i,
    {
        nr.push(false);
        i = i + 1;
    }
    assert(nr@ =~= nullable_after(*g, 0));
    let mut k: usize = 0;
    while k < n
        invariant
            n == g.rules@.len(),
            0 <= k <= n,
            nr@ == nullable_after(*g, k as nat),
        decreases n - k,
    {
        nr = step_nullable(g, &nr);
        k = k + 1;
    }
    nr
}

fn limit_from(opts: &Vec<GrammarOption>) -> (r: u64)
    ensures
        r == match option_limit(opts@) {
            Some(n) => n,
            None => DEFAULT_RECURSION_LIMIT,
        },
{
    let mut i: usize = 0;
    while i < opts.len()
        invariant
            0 <= i <= opts@.len(),
            option_limit(opts@.take(i as int)) is None,
        decreases opts@.len() - i,
    {
        assert(opts@.take(i + 1).drop_last() =~= opts@.take(i as int));
        let o = &opts[i];
        if same_text(o.name.as_str(), "recursion_limit") {
            match o.value {
                OptionValue::Int(n) => {
                    proof {
                        lemma_option_limit_prefix(opts@, i + 1);
                    }
                    return n;
                },
                _ => {},
            }
        }
        i = i + 1;
    }
    assert(opts@.take(i as int) =~= opts@);
    DEFAULT_RECURSION_LIMIT
}

/// Once a prefix of the options fixes the limit, the whole list does.
proof fn lemma_option_limit_prefix(opts: Seq<GrammarOption>, k: int)
    requires
        0 <= k <= opts.len(),
        option_limit(opts.take(k)) is Some,
    ensures
        option_limit(opts) == option_limit(opts.take(k)),
    decreases opts.len() - k,
{
    if k < opts.len() {
        assert(opts.take(k + 1).drop_last() =~= opts.take(k));
        lemma_option_limit_prefix(opts, k + 1);
    } else {
        assert(opts.take(k) =~= opts);
    }
}

/// Checks a flattened grammar and builds its parser. The grammar is refused
/// when a rule calls a name that is neither a rule nor a primitive, or else
/// when a `*` or `+` repeats a pattern that can match the empty input.
pub fn compile(grammar: GrammarDefinition) -> (r: Result<Parser, GrammarError>)
    ensures
        r is Ok <==> refs_known(grammar) && repeats_safe(grammar),
        r is Ok ==> r->Ok_0.grammar() == grammar && r->Ok_0.depth_limit() == recursion_limit_of(
            grammar,
        ),
        !refs_known(grammar) ==> match r {
            Err(GrammarError::UnknownRuleReference { rule, referenced }) => !is_known(
                grammar,
                referenced@,
            ) && exists|i: int|
                0 <= i < grammar.rules@.len() && #[trigger] grammar.rules@[i].name@ == rule@
                    && !rule_refs_known(grammar, grammar.rules@[i]),
            _ => false,
        },
        refs_known(grammar) && !repeats_safe(grammar) ==> match r {
            Err(GrammarError::EmptyMatchRepetitionError { rule }) => exists|i: int|
                0 <= i < grammar.rules@.len() && #[trigger] grammar.rules@[i].name@ == rule@
                    && !rule_repeats_safe(grammar, grammar.rules@[i]),
            _ => false,
        },
{
    let g = &grammar;
    let mut i: usize = 0;
    while i < g.rules.len()
        invariant
            0 <= i <= g.rules@.len(),
            *g == grammar,
            forall|k: int| 0 <= k < i ==> rule_refs_known(*g, #[trigger] g.rules@[k]),
        decreases g.rules@.len() - i,
    {
        let rule = &g.rules[i];
        let mut j: usize = 0;
        while j < rule.variants.len()
            invariant
                *rule == g.rules@[i as int],
                *g == grammar,
                0 <= i < g.rules@.len(),
                0 <= j <= rule.variants@.len(),
                forall|v: int| 0 <= v < j ==> patterns_refs_known(*g, #[trigger] rule.variants@[v].pattern@, 0),
            decreases rule.variants@.len() - j,
        {
            match unknown_in_patterns(g, &rule.variants[j].pattern, 0) {
                Some(name) => {
                    assert(!rule_refs_known(*g, g.rules@[i as int]));
                    return Err(
                        GrammarError::UnknownRuleReference { rule: rule.name.clone(), referenced: name },
                    );
                },
                None => {},
            }
            j = j + 1;
        }
        i = i + 1;
    }
    let nr = nullable_table(g);
    let mut i: usize = 0;
    while i < g.rules.len()
        invariant
            0 <= i <= g.rules@.len(),
            *g == grammar,
            refs_known(*g),
            nr@ == nullable_rules(*g),
            forall|k: int| 0 <= k < i ==> rule_repeats_safe(*g, #[trigger] g.rules@[k]),
        decreases g.rules@.len() - i,
    {
        let rule = &g.rules[i];
        let mut j: usize = 0;
        while j < rule.variants.len()
            invariant
                *rule == g.rules@[i as int],
                *g == grammar,
                0 <= i < g.rules@.len(),
                refs_known(*g),
                nr@ == nullable_rules(*g),
                0 <= j <= rule.variants@.len(),
                forall|v: int|
                    0 <= v < j ==> patterns_repeats_safe(*g, #[trigger] rule.variants@[v].pattern@, 0, nr@),
            decreases rule.variants@.len() - j,
        {
            if !all_repeats_ok(g, &rule.variants[j].pattern, 0, &nr) {
                assert(!rule_repeats_safe(*g, g.rules@[i as int]));
                assert(grammar.rules@[i as int].name@ == rule.name@);
                return Err(GrammarError::EmptyMatchRepetitionError { rule: rule.name.clone() });
            }
            j = j + 1;
        }
        i = i + 1;
    }
    let recursion_limit = limit_from(&grammar.options);
    Ok(Parser::new_checked(grammar, recursion_limit))
}

pub(crate) proof fn lemma_patterns_repeats_safe_at(g: GrammarDefinition, ps: Seq<Pattern>, i: int, k: int, nr: Seq<bool>)
    requires
        0 <= i <= k < ps.len(),
        patterns_repeats_safe(g, ps, i, nr),
    ensures
        pattern_repeats_safe(g, ps[k], nr),
    decreases k - i,
{
    if i < k {
        lemma_patterns_repeats_safe_at(g, ps, i + 1, k, nr);
    }
}

/// Repetition safety: a grammar in which some variant repeats, with `*`, a
/// pattern that can match the empty input is refused by `compile`, before
/// any input is parsed.
pub proof fn lemma_empty_repetition_refused(g: GrammarDefinition, i: int, j: int, k: int)
    requires
        0 <= i < g.rules@.len(),
        0 <= j < g.rules@[i].variants@.len(),
        0 <= k < g.rules@[i].variants@[j].pattern@.len(),
        ({
            let p = g.rules@[i].variants@[j].pattern@[k];
            &&& p is Repeat
            &&& p->Repeat_kind == RepeatKind::ZeroOrMore
            &&& pattern_nullable(g, *p->Repeat_pattern, nullable_rules(g))
        }),
    ensures
        !repeats_safe(g),
{
    let ps = g.rules@[i].variants@[j].pattern@;
    if repeats_safe(g) {
        assert(rule_repeats_safe(g, g.rules@[i]));
        assert(patterns_repeats_safe(g, ps, 0, nullable_rules(g)));
        lemma_patterns_repeats_safe_at(g, ps, 0, k, nullable_rules(g));
    }
}

} // verus!
