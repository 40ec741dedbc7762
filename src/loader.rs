//! Reads grammar sources. The grammar format is itself described by a
//! grammar, which the interpreter runs; the value tree it yields is then
//! turned into a grammar definition.
//!
//! ```text
//! [pub] grammar Name [: Parent] {
//!     implicit_whitespace = true;      // required, exactly once
//!     option_name = 500;               // digits, true, false or "text"
//!     [pub] rule name -> Type = pattern* -> { action } | ...
//! }
//! pattern: [binding:] atom [? | * | +]
//!        | parenthesized(pattern*) | bracketed(pattern*) | braced(pattern*)
//! atom:    "literal" | rule_name | ( pattern* [-> { action }] )
//!
//! The wrappers are shorthand: `parenthesized(p q)` reads as `"(" p q ")"`.
//! action:  () | name | prepend(head, tail) | Tag(name, ...)
//! ```
use vstd::prelude::*;
use crate::error::GrammarError;
use crate::model::{
    Action, GrammarDefinition, GrammarOption, OptionValue, Pattern, RepeatKind, Rule, RuleVariant,
};
use crate::parser::{same_text, Parser};
use crate::semantics::{eval_entry, Step};
use crate::value::{lemma_models_index, lemma_models_len, model_of, models_of, Value, ValueModel};

verus! {

pub open spec fn node_is(v: ValueModel, tag: Seq<char>, n: int) -> bool {
    v is Node && v->Node_0 == tag && v->Node_1.len() == n
}

pub open spec fn arg(v: ValueModel, i: int) -> ValueModel {
    v->Node_1[i]
}

pub open spec fn opt_view(s: Option<String>) -> Option<Seq<char>> {
    match s {
        Some(t) => Some(t@),
        None => None,
    }
}

pub open spec fn texts(ns: Seq<String>) -> Seq<ValueModel> {
    ns.map_values(|n: String| ValueModel::Text(n@))
}

/// `v` describes action `a`.
pub open spec fn action_from(v: ValueModel, a: Action) -> bool {
    match a {
        Action::Unit => node_is(v, "Unit"@, 0),
        Action::Ref(n) => node_is(v, "Ref"@, 1) && arg(v, 0) == ValueModel::Text(n@),
        Action::Prepend(h, t) => node_is(v, "Prepend"@, 2) && arg(v, 0) == ValueModel::Text(h@)
            && arg(v, 1) == ValueModel::Text(t@),
        Action::Node(tag, names) => (names@.len() == 0 && node_is(v, "Node0"@, 1) && arg(v, 0)
            == ValueModel::Text(tag@)) || (node_is(v, "Node"@, 2) && arg(v, 0) == ValueModel::Text(
            tag@,
        ) && arg(v, 1) == ValueModel::List(texts(names@))),
    }
}

pub open spec fn kind_from(v: ValueModel, k: RepeatKind) -> bool {
    match k {
        RepeatKind::Optional => node_is(v, "Opt"@, 0),
        RepeatKind::ZeroOrMore => node_is(v, "Star"@, 0),
        RepeatKind::OneOrMore => node_is(v, "Plus"@, 0),
    }
}

/// `v` describes pattern `p`.
pub open spec fn pattern_from(v: ValueModel, p: Pattern) -> bool
    decreases v, 0int,
{
    if node_is(v, "Bound"@, 3) {
        match arg(v, 0) {
            ValueModel::Text(b) => item_from(Some(b), arg(v, 1), arg(v, 2), p),
            _ => false,
        }
    } else if node_is(v, "Plain"@, 2) {
        item_from(None, arg(v, 0), arg(v, 1), p)
    } else {
        false
    }
}

/// An atom with an optional binding and a suffix describes pattern `p`.
pub open spec fn item_from(b: Option<Seq<char>>, atom: ValueModel, suffix: ValueModel, p: Pattern) -> bool
    decreases atom, 1int,
{
    if node_is(suffix, "One"@, 0) {
        atom_from(atom, b, p)
    } else {
        match p {
            Pattern::Repeat { binding, pattern, kind } => opt_view(binding) == b && kind_from(
                suffix,
                kind,
            ) && atom_from(atom, None, *pattern),
            _ => false,
        }
    }
}

/// A literal, a rule call or a group, with binding `b`, describes pattern
/// `p`.
pub open spec fn atom_from(atom: ValueModel, b: Option<Seq<char>>, p: Pattern) -> bool
    decreases atom, 0int,
{
    match p {
        Pattern::Lit(s) => b is None && node_is(atom, "Lit"@, 1) && arg(atom, 0) == ValueModel::Text(s@),
        Pattern::RuleCall { binding, rule_name, args } => opt_view(binding) == b && args@.len() == 0
            && node_is(atom, "Call"@, 1) && arg(atom, 0) == ValueModel::Text(rule_name@),
        Pattern::Group { patterns, action } => b is None && node_is(atom, "Group"@, 2) && arg(
            atom,
            0,
        ) is List && sequence_from(arg(atom, 0)->List_0, patterns@) && action_from(
            arg(atom, 1),
            action,
        ),
        _ => false,
    }
}

/// The delimiters that a wrapper node stands for.
pub open spec fn delimiters(w: ValueModel) -> Option<(Seq<char>, Seq<char>)> {
    if node_is(w, "Paren"@, 0) {
        Some(("("@, ")"@))
    } else if node_is(w, "Bracket"@, 0) {
        Some(("["@, "]"@))
    } else if node_is(w, "Brace"@, 0) {
        Some(("{"@, "}"@))
    } else {
        None
    }
}

/// `v` is delimiter sugar: `parenthesized(...)`, `bracketed(...)` or
/// `braced(...)` around a list of pattern nodes.
pub open spec fn is_wrap(v: ValueModel) -> bool {
    node_is(v, "Wrap"@, 2) && arg(v, 1) is List && delimiters(arg(v, 0)) is Some
}

/// How many patterns node `v` stands for once its sugar is expanded.
pub open spec fn width(v: ValueModel) -> nat
    decreases v, 0int,
{
    if is_wrap(v) {
        2 + widths(arg(v, 1)->List_0, arg(v, 1)->List_0.len() as int)
    } else {
        1
    }
}

/// The widths of the first `n` nodes, added up.
pub open spec fn widths(vs: Seq<ValueModel>, n: int) -> nat
    decreases vs, n,
{
    if n <= 0 || n > vs.len() {
        0
    } else {
        widths(vs, n - 1) + width(vs[n - 1])
    }
}

pub open spec fn is_lit(p: Pattern, s: Seq<char>) -> bool {
    p is Lit && p->Lit_0@ == s
}

/// Node `v` describes the `width(v)` patterns from `ps[j]` on: sugar
/// stands for its opening literal, the patterns of its contents and its
/// closing literal; any other node describes one pattern.
pub open spec fn entry_from(v: ValueModel, ps: Seq<Pattern>, j: int) -> bool
    decreases v, 2int,
{
    if is_wrap(v) {
        let d = delimiters(arg(v, 0))->Some_0;
        let inner = arg(v, 1)->List_0;
        &&& 0 <= j
        &&& j + width(v) <= ps.len()
        &&& is_lit(ps[j], d.0)
        &&& entries_from(inner, 0, ps, j + 1)
        &&& is_lit(ps[j + 1 + widths(inner, inner.len() as int)], d.1)
    } else {
        0 <= j < ps.len() && pattern_from(v, ps[j])
    }
}

/// `vs[i..]` describe the patterns from `ps[j]` on, each node its width.
pub open spec fn entries_from(vs: Seq<ValueModel>, i: int, ps: Seq<Pattern>, j: int) -> bool
    decreases vs, vs.len() - i,
{
    if 0 <= i < vs.len() {
        entry_from(vs[i], ps, j) && entries_from(vs, i + 1, ps, j + width(vs[i]))
    } else {
        true
    }
}

/// The pattern nodes `vs` describe exactly the patterns `ps`.
pub open spec fn sequence_from(vs: Seq<ValueModel>, ps: Seq<Pattern>) -> bool
    decreases vs, vs.len() + 1,
{
    widths(vs, vs.len() as int) == ps.len() && entries_from(vs, 0, ps, 0)
}

pub open spec fn variant_from(v: ValueModel, rv: RuleVariant) -> bool {
    &&& node_is(v, "Variant"@, 2)
    &&& arg(v, 0) is List
    &&& sequence_from(arg(v, 0)->List_0, rv.pattern@)
    &&& action_from(arg(v, 1), rv.action)
}

pub open spec fn visibility_from(v: ValueModel, is_pub: bool) -> bool {
    if is_pub {
        node_is(v, "Pub"@, 0)
    } else {
        node_is(v, "Private"@, 0)
    }
}

pub open spec fn type_from(v: ValueModel, t: Seq<char>) -> bool {
    v == ValueModel::Text(t) || (node_is(v, "Unit"@, 0) && t == "()"@)
}

/// `v` describes rule `r`.
pub open spec fn rule_from(v: ValueModel, r: Rule) -> bool {
    &&& node_is(v, "Rule"@, 4)
    &&& visibility_from(arg(v, 0), r.is_pub)
    &&& arg(v, 1) == ValueModel::Text(r.name@)
    &&& type_from(arg(v, 2), r.return_type@)
    &&& arg(v, 3) is List
    &&& arg(v, 3)->List_0.len() == r.variants@.len()
    &&& forall|i: int|
        0 <= i < r.variants@.len() ==> variant_from(arg(v, 3)->List_0[i], #[trigger] r.variants@[i])
}

/// The number that a run of decimal digits spells.
pub open spec fn digits_value(s: Seq<char>) -> int
    decreases s.len(),
{
    if s.len() == 0 {
        0
    } else {
        digits_value(s.drop_last()) * 10 + (s.last() as u32 - 48)
    }
}

pub open spec fn option_value_from(v: ValueModel, val: OptionValue) -> bool {
    match val {
        OptionValue::Int(n) => node_is(v, "Int"@, 1) && arg(v, 0) is Text && digits_fit(
            arg(v, 0)->Text_0,
        ) && digits_value(arg(v, 0)->Text_0) == n,
        OptionValue::Bool(b) => if b {
            node_is(v, "True"@, 0)
        } else {
            node_is(v, "False"@, 0)
        },
        OptionValue::Str(s) => node_is(v, "Str"@, 1) && arg(v, 0) == ValueModel::Text(s@),
    }
}

pub open spec fn option_from(v: ValueModel, o: GrammarOption) -> bool {
    node_is(v, "Option"@, 2) && arg(v, 0) == ValueModel::Text(o.name@) && option_value_from(
        arg(v, 1),
        o.value,
    )
}

/// Option node `o` sets `implicit_whitespace`.
pub open spec fn declares_ws(o: ValueModel) -> bool {
    node_is(o, "Option"@, 2) && arg(o, 0) == ValueModel::Text("implicit_whitespace"@)
}

/// How many of the first `n` option nodes set `implicit_whitespace`.
pub open spec fn ws_count(ms: Seq<ValueModel>, n: int) -> nat
    decreases n,
{
    if n <= 0 || n > ms.len() {
        0
    } else {
        ws_count(ms, n - 1) + if declares_ws(ms[n - 1]) {
            1nat
        } else {
            0nat
        }
    }
}

/// The value node of the first of the first `n` option nodes that sets
/// `implicit_whitespace`.
pub open spec fn ws_first(ms: Seq<ValueModel>, n: int) -> Option<ValueModel>
    decreases n,
{
    if n <= 0 || n > ms.len() {
        None
    } else if ws_first(ms, n - 1) is Some {
        ws_first(ms, n - 1)
    } else if declares_ws(ms[n - 1]) {
        Some(arg(ms[n - 1], 1))
    } else {
        None
    }
}

/// The boolean that a value node holds, if any.
pub open spec fn bool_of(w: ValueModel) -> Option<bool> {
    if node_is(w, "True"@, 0) {
        Some(true)
    } else if node_is(w, "False"@, 0) {
        Some(false)
    } else {
        None
    }
}

/// The options `ms` set `implicit_whitespace` exactly once, to a boolean.
pub open spec fn whitespace_declared(ms: Seq<ValueModel>) -> bool {
    &&& ws_count(ms, ms.len() as int) == 1
    &&& ws_first(ms, ms.len() as int) is Some
    &&& bool_of(ws_first(ms, ms.len() as int)->Some_0) is Some
}

/// The boolean that `ms` set `implicit_whitespace` to.
pub open spec fn whitespace_of(ms: Seq<ValueModel>) -> bool {
    bool_of(ws_first(ms, ms.len() as int)->Some_0)->Some_0
}

/// `v` describes grammar `g`.
pub open spec fn grammar_from(v: ValueModel, g: GrammarDefinition) -> bool {
    &&& node_is(v, "Grammar"@, 4)
    &&& arg(v, 0) == ValueModel::Text(g.name@)
    &&& match g.inherits {
        Some(p) => node_is(arg(v, 1), "Parent"@, 1) && arg(arg(v, 1), 0) == ValueModel::Text(p@),
        None => node_is(arg(v, 1), "NoParent"@, 0),
    }
    &&& arg(v, 2) is List
    &&& arg(v, 2)->List_0.len() == g.options@.len()
    &&& forall|i: int|
        0 <= i < g.options@.len() ==> option_from(arg(v, 2)->List_0[i], #[trigger] g.options@[i])
    &&& arg(v, 3) is List
    &&& arg(v, 3)->List_0.len() == g.rules@.len()
    &&& forall|i: int| 0 <= i < g.rules@.len() ==> rule_from(arg(v, 3)->List_0[i], #[trigger] g.rules@[i])
    &&& whitespace_declared(arg(v, 2)->List_0)
    &&& g.implicit_whitespace == whitespace_of(arg(v, 2)->List_0)
}

/// `v` has the shape of an action node.
pub open spec fn action_ok(v: ValueModel) -> bool {
    ||| node_is(v, "Unit"@, 0)
    ||| node_is(v, "Ref"@, 1) && arg(v, 0) is Text
    ||| node_is(v, "Prepend"@, 2) && arg(v, 0) is Text && arg(v, 1) is Text
    ||| node_is(v, "Node0"@, 1) && arg(v, 0) is Text
    ||| node_is(v, "Node"@, 2) && arg(v, 0) is Text && texts_ok(arg(v, 1))
}

/// `v` is a list of texts.
pub open spec fn texts_ok(v: ValueModel) -> bool {
    v is List && forall|i: int| 0 <= i < v->List_0.len() ==> #[trigger] v->List_0[i] is Text
}

pub open spec fn kind_ok(v: ValueModel) -> bool {
    node_is(v, "Opt"@, 0) || node_is(v, "Star"@, 0) || node_is(v, "Plus"@, 0)
}

/// `v` has the shape of a pattern node.
pub open spec fn pattern_ok(v: ValueModel) -> bool
    decreases v, 0int,
{
    if node_is(v, "Bound"@, 3) {
        arg(v, 0) is Text && item_ok(true, arg(v, 1), arg(v, 2))
    } else if node_is(v, "Plain"@, 2) {
        item_ok(false, arg(v, 0), arg(v, 1))
    } else {
        false
    }
}

pub open spec fn item_ok(bound: bool, atom: ValueModel, suffix: ValueModel) -> bool
    decreases atom, 1int,
{
    if node_is(suffix, "One"@, 0) {
        atom_ok(atom, bound)
    } else {
        kind_ok(suffix) && atom_ok(atom, false)
    }
}

pub open spec fn atom_ok(atom: ValueModel, bound: bool) -> bool
    decreases atom, 0int,
{
    ||| !bound && node_is(atom, "Lit"@, 1) && arg(atom, 0) is Text
    ||| node_is(atom, "Call"@, 1) && arg(atom, 0) is Text
    ||| !bound && node_is(atom, "Group"@, 2) && arg(atom, 0) is List && entries_ok(
        arg(atom, 0)->List_0,
        0,
    ) && action_ok(arg(atom, 1))
}

pub open spec fn entry_ok(v: ValueModel) -> bool
    decreases v, 2int,
{
    if is_wrap(v) {
        entries_ok(arg(v, 1)->List_0, 0)
    } else {
        pattern_ok(v)
    }
}

pub open spec fn entries_ok(vs: Seq<ValueModel>, i: int) -> bool
    decreases vs, vs.len() - i,
{
    if 0 <= i < vs.len() {
        entry_ok(vs[i]) && entries_ok(vs, i + 1)
    } else {
        true
    }
}

pub open spec fn variant_ok(v: ValueModel) -> bool {
    node_is(v, "Variant"@, 2) && arg(v, 0) is List && entries_ok(arg(v, 0)->List_0, 0) && action_ok(
        arg(v, 1),
    )
}

pub open spec fn rule_ok(v: ValueModel) -> bool {
    &&& node_is(v, "Rule"@, 4)
    &&& (node_is(arg(v, 0), "Pub"@, 0) || node_is(arg(v, 0), "Private"@, 0))
    &&& arg(v, 1) is Text
    &&& (arg(v, 2) is Text || node_is(arg(v, 2), "Unit"@, 0))
    &&& arg(v, 3) is List
    &&& forall|i: int| 0 <= i < arg(v, 3)->List_0.len() ==> variant_ok(#[trigger] arg(v, 3)->List_0[i])
}

/// `s` is a run of decimal digits whose value fits in a `u64`.
pub open spec fn digits_fit(s: Seq<char>) -> bool {
    &&& forall|i: int| 0 <= i < s.len() ==> 48 <= (#[trigger] s[i]) as u32 <= 57
    &&& digits_value(s) <= u64::MAX
}

pub open spec fn option_ok(v: ValueModel) -> bool {
    &&& node_is(v, "Option"@, 2)
    &&& arg(v, 0) is Text
    &&& {
        let w = arg(v, 1);
        ||| node_is(w, "Int"@, 1) && arg(w, 0) is Text && digits_fit(arg(w, 0)->Text_0)
        ||| node_is(w, "True"@, 0)
        ||| node_is(w, "False"@, 0)
        ||| node_is(w, "Str"@, 1) && arg(w, 0) is Text
    }
}

/// `v` has the shape of a grammar node.
pub open spec fn grammar_ok(v: ValueModel) -> bool {
    &&& node_is(v, "Grammar"@, 4)
    &&& arg(v, 0) is Text
    &&& (node_is(arg(v, 1), "Parent"@, 1) && arg(arg(v, 1), 0) is Text || node_is(
        arg(v, 1),
        "NoParent"@,
        0,
    ))
    &&& arg(v, 2) is List
    &&& forall|i: int| 0 <= i < arg(v, 2)->List_0.len() ==> option_ok(#[trigger] arg(v, 2)->List_0[i])
    &&& whitespace_declared(arg(v, 2)->List_0)
    &&& arg(v, 3) is List
    &&& forall|i: int| 0 <= i < arg(v, 3)->List_0.len() ==> rule_ok(#[trigger] arg(v, 3)->List_0[i])
}

proof fn lemma_entries_ok_at(vs: Seq<ValueModel>, i: int, k: int)
    requires
        0 <= i <= k < vs.len(),
        entries_ok(vs, i),
    ensures
        entry_ok(vs[k]),
    decreases k - i,
{
    if i < k {
        lemma_entries_ok_at(vs, i + 1, k);
    }
}

proof fn lemma_digits_value_prefix(s: Seq<char>, k: int)
    requires
        0 <= k <= s.len(),
        forall|i: int| 0 <= i < s.len() ==> 48 <= (#[trigger] s[i]) as u32 <= 57,
    ensures
        0 <= digits_value(s.take(k)) <= digits_value(s),
    decreases s.len() - k,
{
    if k < s.len() {
        lemma_digits_value_prefix(s, k + 1);
        assert(s.take(k + 1).drop_last() =~= s.take(k));
        assert(s.take(k + 1).last() == s[k]);
    } else {
        assert(s.take(k) =~= s);
    }
    lemma_digits_value_nonneg(s.take(k));
}

proof fn lemma_digits_value_nonneg(s: Seq<char>)
    requires
        forall|i: int| 0 <= i < s.len() ==> 48 <= (#[trigger] s[i]) as u32 <= 57,
    ensures
        digits_value(s) >= 0,
    decreases s.len(),
{
    if s.len() > 0 {
        let t = s.drop_last();
        assert forall|i: int| 0 <= i < t.len() implies 48 <= (#[trigger] t[i]) as u32 <= 57 by {
            assert(t[i] == s[i]);
        }
        lemma_digits_value_nonneg(t);
        assert(s[s.len() - 1] == s.last());
    }
}

proof fn lemma_entries_all(vs: Seq<ValueModel>, i: int, ps: Seq<Pattern>, j0: int)
    requires
        0 <= i <= vs.len(),
        forall|k: int| i <= k < vs.len() ==> entry_from(#[trigger] vs[k], ps, j0 + widths(vs, k)),
    ensures
        entries_from(vs, i, ps, j0 + widths(vs, i)),
    decreases vs.len() - i,
{
    if i < vs.len() {
        assert(widths(vs, i + 1) == widths(vs, i) + width(vs[i]));
        lemma_entries_all(vs, i + 1, ps, j0);
    }
}

/// What node `v` describes at `j` stays described when patterns are added
/// after the ones it reads.
proof fn lemma_entry_frame(v: ValueModel, ps: Seq<Pattern>, qs: Seq<Pattern>, j: int)
    requires
        entry_from(v, ps, j),
        ps.len() <= qs.len(),
        qs.take(ps.len() as int) == ps,
    ensures
        entry_from(v, qs, j),
    decreases v, 2int,
{
    assert forall|k: int| 0 <= k < ps.len() implies qs[k] == ps[k] by {
        assert(qs.take(ps.len() as int)[k] == qs[k]);
    }
    if is_wrap(v) {
        lemma_entries_frame(arg(v, 1)->List_0, 0, ps, qs, j + 1);
    }
}

proof fn lemma_entries_frame(vs: Seq<ValueModel>, i: int, ps: Seq<Pattern>, qs: Seq<Pattern>, j: int)
    requires
        entries_from(vs, i, ps, j),
        ps.len() <= qs.len(),
        qs.take(ps.len() as int) == ps,
    ensures
        entries_from(vs, i, qs, j),
    decreases vs, vs.len() - i,
{
    if 0 <= i < vs.len() {
        lemma_entry_frame(vs[i], ps, qs, j);
        lemma_entries_frame(vs, i + 1, ps, qs, j + width(vs[i]));
    }
}

/// The texts of a list of text values.
fn text_list(v: &Value) -> (r: Option<Vec<String>>)
    ensures
        r is Some ==> model_of(*v) == ValueModel::List(texts(r->Some_0@)),
        r is None ==> !texts_ok(model_of(*v)),
{
    match v {
        Value::List(xs) => {
            let ghost m = models_of(xs@);
            proof {
                lemma_models_len(xs@);
            }
            let mut out: Vec<String> = Vec::new();
            let mut i: usize = 0;
            assert(model_of(*v) == ValueModel::List(m));
            while i < xs.len()
                invariant
                    0 <= i <= xs@.len(),
                    model_of(*v) == ValueModel::List(m),
                    m == models_of(xs@),
                    m.len() == xs@.len(),
                    out@.len() == i,
                    forall|k: int| 0 <= k < i ==> m[k] == ValueModel::Text(#[trigger] out@[k]@),
                decreases xs@.len() - i,
            {
                proof {
                    lemma_models_index(xs@, i as int);
                }
                match &xs[i] {
                    Value::Text(t) => {
                        out.push(t.clone());
                    },
                    _ => {
                        assert(!(m[i as int] is Text));
                        return None;
                    },
                }
                i = i + 1;
            }
            assert(m =~= texts(out@));
            Some(out)
        },
        _ => None,
    }
}

fn convert_action(v: &Value) -> (r: Option<Action>)
    ensures
        r is Some ==> action_from(model_of(*v), r->Some_0),
        r is None ==> !action_ok(model_of(*v)),
{
    proof {
        reveal_strlit("Unit");
        reveal_strlit("Ref");
        reveal_strlit("Prepend");
        reveal_strlit("Node0");
        reveal_strlit("Node");
        assert("Unit"@.len() == 4 && "Unit"@[0] == 'U');
        assert("Ref"@.len() == 3);
        assert("Prepend"@.len() == 7);
        assert("Node0"@.len() == 5);
        assert("Node"@.len() == 4 && "Node"@[0] == 'N');
    }
    match v {
        Value::Node(t, args) => {
            proof {
                assert(model_of(*v) == ValueModel::Node(t@, models_of(args@)));
                lemma_models_len(args@);
                if args@.len() > 0 {
                    lemma_models_index(args@, 0);
                }
                if args@.len() > 1 {
                    lemma_models_index(args@, 1);
                }
            }
            let tag = t.as_str();
            if args.len() == 0 && same_text(tag, "Unit") {
                Some(Action::Unit)
            } else if args.len() == 1 && same_text(tag, "Ref") {
                match &args[0] {
                    Value::Text(n) => Some(Action::Ref(n.clone())),
                    _ => None,
                }
            } else if args.len() == 2 && same_text(tag, "Prepend") {
                match &args[0] {
                    Value::Text(h) => match &args[1] {
                        Value::Text(tl) => Some(Action::Prepend(h.clone(), tl.clone())),
                        _ => None,
                    },
                    _ => None,
                }
            } else if args.len() == 1 && same_text(tag, "Node0") {
                match &args[0] {
                    Value::Text(n) => Some(Action::Node(n.clone(), Vec::new())),
                    _ => None,
                }
            } else if args.len() == 2 && same_text(tag, "Node") {
                match &args[0] {
                    Value::Text(n) => match text_list(&args[1]) {
                        Some(names) => Some(Action::Node(n.clone(), names)),
                        None => {
                            assert(arg(model_of(*v), 1) == model_of(args@[1]));
                            None
                        },
                    },
                    _ => None,
                }
            } else {
                None
            }
        },
        _ => None,
    }
}

/// `Some(None)` for no suffix, `Some(Some(k))` for a repetition suffix.
fn suffix_kind(v: &Value) -> (r: Option<Option<RepeatKind>>)
    ensures
        match r {
            Some(None) => node_is(model_of(*v), "One"@, 0),
            Some(Some(k)) => !node_is(model_of(*v), "One"@, 0) && kind_from(model_of(*v), k),
            None => !node_is(model_of(*v), "One"@, 0) && !kind_ok(model_of(*v)),
        },
{
    proof {
        reveal_strlit("One");
        reveal_strlit("Opt");
        reveal_strlit("Star");
        reveal_strlit("Plus");
    }
    match v {
        Value::Node(t, args) => {
            proof {
                assert(model_of(*v) == ValueModel::Node(t@, models_of(args@)));
                lemma_models_len(args@);
            }
            let tag = t.as_str();
            if args.len() != 0 {
                None
            } else if same_text(tag, "One") {
                Some(None)
            } else if same_text(tag, "Opt") {
                Some(Some(RepeatKind::Optional))
            } else if same_text(tag, "Star") {
                Some(Some(RepeatKind::ZeroOrMore))
            } else if same_text(tag, "Plus") {
                Some(Some(RepeatKind::OneOrMore))
            } else {
                None
            }
        },
        _ => None,
    }
}

/// The delimiters of a wrapper node.
fn wrap_delimiters(w: &Value) -> (r: Option<(String, String)>)
    ensures
        match r {
            Some((o, c)) => delimiters(model_of(*w)) == Some((o@, c@)),
            None => delimiters(model_of(*w)) is None,
        },
{
    match w {
        Value::Node(t, args) => {
            proof {
                assert(model_of(*w) == ValueModel::Node(t@, models_of(args@)));
                lemma_models_len(args@);
            }
            let tag = t.as_str();
            if args.len() != 0 {
                None
            } else if same_text(tag, "Paren") {
                Some((String::from_str("("), String::from_str(")")))
            } else if same_text(tag, "Bracket") {
                Some((String::from_str("["), String::from_str("]")))
            } else if same_text(tag, "Brace") {
                Some((String::from_str("{"), String::from_str("}")))
            } else {
                None
            }
        },
        _ => None,
    }
}

/// Appends to `out` the opening literal, the patterns that `inner`
/// describes, and the closing literal.
fn convert_wrap(inner: &Vec<Value>, open: String, close: String, out: &mut Vec<Pattern>) -> (ok:
    bool)
    ensures
        ok ==> {
            let n = old(out)@.len() as int;
            let w = widths(models_of(inner@), inner@.len() as int);
            &&& final(out)@.len() == n + 2 + w
            &&& final(out)@.take(n) == old(out)@
            &&& is_lit(final(out)@[n], open@)
            &&& entries_from(models_of(inner@), 0, final(out)@, n + 1)
            &&& is_lit(final(out)@[n + 1 + w], close@)
        },
        !ok ==> !entries_ok(models_of(inner@), 0),
    decreases inner, 2int,
{
    let ghost before = out@;
    let ghost n = before.len() as int;
    let ghost o = open@;
    let ghost c = close@;
    out.push(Pattern::Lit(open));
    let ghost mid = out@;
    if !convert_entries(inner, out) {
        return false;
    }
    let ghost after_inner = out@;
    out.push(Pattern::Lit(close));
    proof {
        let fin = out@;
        let im = models_of(inner@);
        assert(fin.take(after_inner.len() as int) =~= after_inner);
        lemma_entries_frame(im, 0, after_inner, fin, n + 1);
        assert forall|k: int| 0 <= k <= n implies fin[k] == mid[k] by {
            assert(after_inner.take(mid.len() as int)[k] == after_inner[k]);
        }
        assert(fin.take(n) =~= before);
    }
    true
}

/// Appends to `out` the patterns that the nodes `xs` describe, expanding
/// delimiter sugar.
fn convert_entries(xs: &Vec<Value>, out: &mut Vec<Pattern>) -> (ok: bool)
    ensures
        ok ==> final(out)@.len() == old(out)@.len() + widths(models_of(xs@), xs@.len() as int),
        ok ==> final(out)@.take(old(out)@.len() as int) == old(out)@,
        ok ==> entries_from(models_of(xs@), 0, final(out)@, old(out)@.len() as int),
        !ok ==> !entries_ok(models_of(xs@), 0),
    decreases xs, 1int,
{
    let ghost m = models_of(xs@);
    let ghost start = out@;
    let ghost j0 = out@.len() as int;
    proof {
        lemma_models_len(xs@);
    }
    let mut i: usize = 0;
    while i < xs.len()
        invariant
            0 <= i <= xs@.len(),
            m == models_of(xs@),
            m.len() == xs@.len(),
            j0 == start.len(),
            out@.len() == j0 + widths(m, i as int),
            out@.take(j0) == start,
            forall|k: int| 0 <= k < i ==> entry_from(#[trigger] m[k], out@, j0 + widths(m, k)),
        decreases xs@.len() - i,
    {
        proof {
            lemma_models_index(xs@, i as int);
        }
        let ghost before = out@;
        let ghost pos = out@.len() as int;
        let ok = match wrapped(&xs[i]) {
            Some((inner, open, close)) => {
                proof {
                    lemma_models_len(inner@);
                }
                let r = convert_wrap(inner, open, close, out);
                proof {
                    if !r {
                        assert(!entry_ok(m[i as int]));
                    } else {
                        assert(entry_from(m[i as int], out@, pos));
                    }
                }
                r
            },
            None => match convert_pattern(&xs[i]) {
                Some(p) => {
                    out.push(p);
                    assert(out@.take(before.len() as int) =~= before);
                    true
                },
                None => false,
            },
        };
        if !ok {
            proof {
                if entries_ok(m, 0) {
                    lemma_entries_ok_at(m, 0, i as int);
                }
            }
            return false;
        }
        proof {
            let fin = out@;
            assert forall|k: int| 0 <= k < i implies entry_from(#[trigger] m[k], fin, j0 + widths(m, k)) by {
                lemma_entry_frame(m[k], before, fin, j0 + widths(m, k));
            }
            assert(fin.take(j0) =~= start) by {
                assert(fin.take(j0) =~= fin.take(before.len() as int).take(j0));
            }
            assert(widths(m, i + 1) == widths(m, i as int) + width(m[i as int]));
        }
        i = i + 1;
    }
    proof {
        lemma_entries_all(m, 0, out@, j0);
    }
    true
}

/// The contents and delimiters of a sugar node; `None` for any other node.
fn wrapped(v: &Value) -> (r: Option<(&Vec<Value>, String, String)>)
    ensures
        match r {
            Some((inner, o, c)) => is_wrap(model_of(*v)) && arg(model_of(*v), 1)->List_0 == models_of(
                inner@,
            ) && delimiters(arg(model_of(*v), 0)) == Some((o@, c@)) && decreases_to!(*v => *inner),
            None => !is_wrap(model_of(*v)),
        },
{
    match v {
        Value::Node(t, args) => {
            proof {
                assert(model_of(*v) == ValueModel::Node(t@, models_of(args@)));
                lemma_models_len(args@);
            }
            if args.len() == 2 && same_text(t.as_str(), "Wrap") {
                proof {
                    lemma_models_index(args@, 0);
                    lemma_models_index(args@, 1);
                }
                match &args[1] {
                    Value::List(inner) => match wrap_delimiters(&args[0]) {
                        Some((o, c)) => Some((inner, o, c)),
                        None => None,
                    },
                    _ => None,
                }
            } else {
                None
            }
        },
        _ => None,
    }
}

fn convert_patterns(xs: &Vec<Value>) -> (r: Option<Vec<Pattern>>)
    ensures
        r is Some ==> sequence_from(models_of(xs@), r->Some_0@),
        r is None ==> !entries_ok(models_of(xs@), 0),
    decreases xs, 2int,
{
    let mut out: Vec<Pattern> = Vec::new();
    proof {
        lemma_models_len(xs@);
    }
    if convert_entries(xs, &mut out) {
        Some(out)
    } else {
        None
    }
}

fn convert_atom(atom: &Value, b: Option<String>) -> (r: Option<Pattern>)
    ensures
        r is Some ==> atom_from(model_of(*atom), opt_view(b), r->Some_0),
        r is None ==> !atom_ok(model_of(*atom), b is Some),
    decreases atom, 0int,
{
    proof {
        reveal_strlit("Lit");
        reveal_strlit("Call");
        reveal_strlit("Group");
    }
    match atom {
        Value::Node(t, args) => {
            proof {
                assert(model_of(*atom) == ValueModel::Node(t@, models_of(args@)));
                lemma_models_len(args@);
                if args@.len() > 0 {
                    lemma_models_index(args@, 0);
                }
                if args@.len() > 1 {
                    lemma_models_index(args@, 1);
                }
            }
            let tag = t.as_str();
            if args.len() == 1 && same_text(tag, "Lit") && b.is_none() {
                match &args[0] {
                    Value::Text(s) => Some(Pattern::Lit(s.clone())),
                    _ => None,
                }
            } else if args.len() == 1 && same_text(tag, "Call") {
                match &args[0] {
                    Value::Text(n) => Some(
                        Pattern::RuleCall { binding: b, rule_name: n.clone(), args: Vec::new() },
                    ),
                    _ => None,
                }
            } else if args.len() == 2 && same_text(tag, "Group") && b.is_none() {
                match &args[0] {
                    Value::List(xs) => {
                        proof {
                            lemma_models_len(xs@);
                        }
                        match convert_patterns(xs) {
                            Some(ps) => match convert_action(&args[1]) {
                                Some(a) => Some(Pattern::Group { patterns: ps, action: a }),
                                None => None,
                            },
                            None => None,
                        }
                    },
                    _ => None,
                }
            } else {
                None
            }
        },
        _ => None,
    }
}

fn convert_item(b: Option<String>, atom: &Value, suffix: &Value) -> (r: Option<Pattern>)
    ensures
        r is Some ==> item_from(opt_view(b), model_of(*atom), model_of(*suffix), r->Some_0),
        r is None ==> !item_ok(b is Some, model_of(*atom), model_of(*suffix)),
    decreases atom, 1int,
{
    match suffix_kind(suffix) {
        None => None,
        Some(None) => convert_atom(atom, b),
        Some(Some(k)) => match convert_atom(atom, None) {
            Some(inner) => Some(Pattern::Repeat { binding: b, pattern: Box::new(inner), kind: k }),
            None => None,
        },
    }
}

fn convert_pattern(v: &Value) -> (r: Option<Pattern>)
    ensures
        r is Some ==> pattern_from(model_of(*v), r->Some_0),
        r is None ==> !pattern_ok(model_of(*v)),
    decreases v, 0int,
{
    match v {
        Value::Node(t, args) => {
            proof {
                assert(model_of(*v) == ValueModel::Node(t@, models_of(args@)));
                lemma_models_len(args@);
                if args@.len() > 0 {
                    lemma_models_index(args@, 0);
                }
                if args@.len() > 1 {
                    lemma_models_index(args@, 1);
                }
                if args@.len() > 2 {
                    lemma_models_index(args@, 2);
                }
            }
            let tag = t.as_str();
            if args.len() == 3 && same_text(tag, "Bound") {
                match &args[0] {
                    Value::Text(name) => convert_item(Some(name.clone()), &args[1], &args[2]),
                    _ => None,
                }
            } else if args.len() == 2 && same_text(tag, "Plain") {
                convert_item(None, &args[0], &args[1])
            } else {
                None
            }
        },
        _ => None,
    }
}

fn convert_variant(v: &Value) -> (r: Option<RuleVariant>)
    ensures
        r is Some ==> variant_from(model_of(*v), r->Some_0),
        r is None ==> !variant_ok(model_of(*v)),
{
    match v {
        Value::Node(t, args) => {
            proof {
                assert(model_of(*v) == ValueModel::Node(t@, models_of(args@)));
                lemma_models_len(args@);
            }
            if args.len() == 2 && same_text(t.as_str(), "Variant") {
                proof {
                    lemma_models_index(args@, 0);
                    lemma_models_index(args@, 1);
                }
                match &args[0] {
                    Value::List(xs) => {
                        proof {
                            lemma_models_len(xs@);
                        }
                        match convert_patterns(xs) {
                            Some(pattern) => match convert_action(&args[1]) {
                                Some(action) => Some(RuleVariant { pattern, action }),
                                None => None,
                            },
                            None => None,
                        }
                    },
                    _ => None,
                }
            } else {
                None
            }
        },
        _ => None,
    }
}

fn convert_visibility(v: &Value) -> (r: Option<bool>)
    ensures
        r is Some ==> visibility_from(model_of(*v), r->Some_0),
        r is None ==> !(node_is(model_of(*v), "Pub"@, 0) || node_is(model_of(*v), "Private"@, 0)),
{
    match v {
        Value::Node(t, args) => {
            proof {
                assert(model_of(*v) == ValueModel::Node(t@, models_of(args@)));
                lemma_models_len(args@);
            }
            if args.len() != 0 {
                None
            } else if same_text(t.as_str(), "Pub") {
                Some(true)
            } else if same_text(t.as_str(), "Private") {
                Some(false)
            } else {
                None
            }
        },
        _ => None,
    }
}

fn convert_type(v: &Value) -> (r: Option<String>)
    ensures
        r is Some ==> type_from(model_of(*v), r->Some_0@),
        r is None ==> !(model_of(*v) is Text || node_is(model_of(*v), "Unit"@, 0)),
{
    match v {
        Value::Text(t) => Some(t.clone()),
        Value::Node(t, args) => {
            proof {
                assert(model_of(*v) == ValueModel::Node(t@, models_of(args@)));
                lemma_models_len(args@);
            }
            if args.len() == 0 && same_text(t.as_str(), "Unit") {
                Some(String::from_str("()"))
            } else {
                None
            }
        },
        _ => None,
    }
}

fn convert_rule(v: &Value) -> (r: Option<Rule>)
    ensures
        r is Some ==> rule_from(model_of(*v), r->Some_0),
        r is None ==> !rule_ok(model_of(*v)),
{
    match v {
        Value::Node(t, args) => {
            proof {
                assert(model_of(*v) == ValueModel::Node(t@, models_of(args@)));
                lemma_models_len(args@);
            }
            if !(args.len() == 4 && same_text(t.as_str(), "Rule")) {
                return None;
            }
            proof {
                lemma_models_index(args@, 0);
                lemma_models_index(args@, 1);
                lemma_models_index(args@, 2);
                lemma_models_index(args@, 3);
            }
            let is_pub = match convert_visibility(&args[0]) {
                Some(b) => b,
                None => {
                    return None;
                },
            };
            let name = match &args[1] {
                Value::Text(n) => n.clone(),
                _ => {
                    return None;
                },
            };
            let return_type = match convert_type(&args[2]) {
                Some(ty) => ty,
                None => {
                    return None;
                },
            };
            match &args[3] {
                Value::List(xs) => {
                    let ghost m = models_of(xs@);
                    proof {
                        lemma_models_len(xs@);
                        assert(arg(model_of(*v), 3) == ValueModel::List(m));
                    }
                    let mut variants: Vec<RuleVariant> = Vec::new();
                    let mut i: usize = 0;
                    while i < xs.len()
                        invariant
                            0 <= i <= xs@.len(),
                            m == models_of(xs@),
                            m.len() == xs@.len(),
                            variants@.len() == i,
                            arg(model_of(*v), 3) == ValueModel::List(m),
                            forall|k: int| 0 <= k < i ==> variant_from(m[k], #[trigger] variants@[k]),
                        decreases xs@.len() - i,
                    {
                        proof {
                            lemma_models_index(xs@, i as int);
                        }
                        match convert_variant(&xs[i]) {
                            Some(rv) => {
                                variants.push(rv);
                            },
                            None => {
                                assert(!variant_ok(arg(model_of(*v), 3)->List_0[i as int]));
                                return None;
                            },
                        }
                        i = i + 1;
                    }
                    Some(Rule { is_pub, name, return_type, variants })
                },
                _ => None,
            }
        },
        _ => None,
    }
}

/// The number that the decimal digits of `s` spell, if it fits in a `u64`.
fn digits_to_u64(s: &String) -> (r: Option<u64>)
    ensures
        r is Some ==> digits_fit(s@) && digits_value(s@) == r->Some_0,
        r is None ==> !digits_fit(s@),
{
    let t = s.as_str();
    let n = t.unicode_len();
    let mut acc: u64 = 0;
    let mut i: usize = 0;
    while i < n
        invariant
            n == s@.len(),
            t@ == s@,
            0 <= i <= n,
            digits_value(s@.take(i as int)) == acc,
            forall|j: int| 0 <= j < i ==> 48 <= (#[trigger] s@[j]) as u32 <= 57,
        decreases n - i,
    {
        let c = t.get_char(i) as u32;
        if c < 48 || c > 57 {
            return None;
        }
        let d = (c - 48) as u64;
        assert(s@.take(i + 1).drop_last() =~= s@.take(i as int));
        assert(s@.take(i + 1).last() == s@[i as int]);
        if acc > (u64::MAX - d) / 10 {
            proof {
                let big = u64::MAX as int;
                assert(acc * 10 + d > big) by (nonlinear_arith)
                    requires
                        acc > (big - d) / 10,
                        0 <= d <= 9,
                        big == u64::MAX,
                ;
                if digits_fit(s@) {
                    lemma_digits_value_prefix(s@, i + 1);
                }
            }
            return None;
        }
        acc = acc * 10 + d;
        i = i + 1;
    }
    assert(s@.take(n as int) =~= s@);
    Some(acc)
}

fn convert_option(v: &Value) -> (r: Option<GrammarOption>)
    ensures
        r is Some ==> option_from(model_of(*v), r->Some_0),
        r is None ==> !option_ok(model_of(*v)),
{
    proof {
        reveal_strlit("Int");
        reveal_strlit("True");
        reveal_strlit("False");
        reveal_strlit("Str");
        assert("Int"@.len() == 3 && "Int"@[0] == 'I');
        assert("True"@.len() == 4);
        assert("False"@.len() == 5);
        assert("Str"@.len() == 3 && "Str"@[0] == 'S');
    }
    match v {
        Value::Node(t, args) => {
            proof {
                assert(model_of(*v) == ValueModel::Node(t@, models_of(args@)));
                lemma_models_len(args@);
            }
            if !(args.len() == 2 && same_text(t.as_str(), "Option")) {
                return None;
            }
            proof {
                lemma_models_index(args@, 0);
                lemma_models_index(args@, 1);
            }
            let name = match &args[0] {
                Value::Text(n) => n.clone(),
                _ => {
                    return None;
                },
            };
            let value = match &args[1] {
                Value::Node(vt, vargs) => {
                    proof {
                        assert(model_of(args@[1]) == ValueModel::Node(vt@, models_of(vargs@)));
                        lemma_models_len(vargs@);
                    }
                    let tag = vt.as_str();
                    if vargs.len() == 1 && same_text(tag, "Int") {
                        proof {
                            lemma_models_index(vargs@, 0);
                        }
                        match &vargs[0] {
                            Value::Text(d) => match digits_to_u64(d) {
                                Some(n) => OptionValue::Int(n),
                                None => {
                                    assert(arg(model_of(*v), 1) == model_of(args@[1]));
                                    assert(arg(model_of(args@[1]), 0) == ValueModel::Text(d@));
                                    return None;
                                },
                            },
                            _ => {
                                return None;
                            },
                        }
                    } else if vargs.len() == 0 && same_text(tag, "True") {
                        OptionValue::Bool(true)
                    } else if vargs.len() == 0 && same_text(tag, "False") {
                        OptionValue::Bool(false)
                    } else if vargs.len() == 1 && same_text(tag, "Str") {
                        proof {
                            lemma_models_index(vargs@, 0);
                        }
                        match &vargs[0] {
                            Value::Text(x) => OptionValue::Str(x.clone()),
                            _ => {
                                return None;
                            },
                        }
                    } else {
                        return None;
                    }
                },
                _ => {
                    return None;
                },
            };
            Some(GrammarOption { name, value })
        },
        _ => None,
    }
}

/// Whether the options set `implicit_whitespace` exactly once to a
/// boolean, and to which.
fn whitespace_decl(opts: &Vec<GrammarOption>, Ghost(ms): Ghost<Seq<ValueModel>>) -> (r: Option<bool>)
    requires
        ms.len() == opts@.len(),
        forall|k: int| 0 <= k < ms.len() ==> option_from(ms[k], #[trigger] opts@[k]),
    ensures
        r is Some <==> whitespace_declared(ms),
        r is Some ==> r->Some_0 == whitespace_of(ms),
{
    let mut count: usize = 0;
    let mut seen = false;
    let mut value: Option<bool> = None;
    let mut i: usize = 0;
    while i < opts.len()
        invariant
            0 <= i <= opts@.len(),
            ms.len() == opts@.len(),
            forall|k: int| 0 <= k < ms.len() ==> option_from(ms[k], #[trigger] opts@[k]),
            count == ws_count(ms, i as int),
            count <= i,
            seen == ws_first(ms, i as int) is Some,
            seen ==> value == bool_of(ws_first(ms, i as int)->Some_0),
        decreases opts@.len() - i,
    {
        let o = &opts[i];
        assert(option_from(ms[i as int], opts@[i as int]));
        proof {
            reveal_strlit("Int");
            reveal_strlit("True");
            reveal_strlit("False");
            reveal_strlit("Str");
            assert("Int"@.len() == 3 && "True"@.len() == 4 && "False"@.len() == 5 && "Str"@.len() == 3);
        }
        if same_text(o.name.as_str(), "implicit_whitespace") {
            assert(declares_ws(ms[i as int]));
            count = count + 1;
            if !seen {
                seen = true;
                value = match o.value {
                    OptionValue::Bool(b) => Some(b),
                    _ => None,
                };
            }
        } else {
            assert(!declares_ws(ms[i as int]));
        }
        i = i + 1;
    }
    if count == 1 && seen {
        value
    } else {
        None
    }
}

fn convert_grammar(v: &Value) -> (r: Option<GrammarDefinition>)
    ensures
        r is Some ==> grammar_from(model_of(*v), r->Some_0),
        r is None ==> !grammar_ok(model_of(*v)),
{
    match v {
        Value::Node(t, args) => {
            proof {
                assert(model_of(*v) == ValueModel::Node(t@, models_of(args@)));
                lemma_models_len(args@);
            }
            if !(args.len() == 4 && same_text(t.as_str(), "Grammar")) {
                return None;
            }
            proof {
                lemma_models_index(args@, 0);
                lemma_models_index(args@, 1);
                lemma_models_index(args@, 2);
                lemma_models_index(args@, 3);
            }
            let name = match &args[0] {
                Value::Text(n) => n.clone(),
                _ => {
                    return None;
                },
            };
            let inherits = match &args[1] {
                Value::Node(pt, pargs) => {
                    proof {
                        assert(model_of(args@[1]) == ValueModel::Node(pt@, models_of(pargs@)));
                        lemma_models_len(pargs@);
                    }
                    if pargs.len() == 1 && same_text(pt.as_str(), "Parent") {
                        proof {
                            lemma_models_index(pargs@, 0);
                        }
                        match &pargs[0] {
                            Value::Text(p) => Some(p.clone()),
                            _ => {
                                return None;
                            },
                        }
                    } else if pargs.len() == 0 && same_text(pt.as_str(), "NoParent") {
                        None
                    } else {
                        return None;
                    }
                },
                _ => {
                    return None;
                },
            };
            let options = match &args[2] {
                Value::List(xs) => {
                    let ghost m = models_of(xs@);
                    proof {
                        lemma_models_len(xs@);
                        assert(arg(model_of(*v), 2) == ValueModel::List(m));
                    }
                    let mut out: Vec<GrammarOption> = Vec::new();
                    let mut i: usize = 0;
                    while i < xs.len()
                        invariant
                            0 <= i <= xs@.len(),
                            m == models_of(xs@),
                            m.len() == xs@.len(),
                            out@.len() == i,
                            arg(model_of(*v), 2) == ValueModel::List(m),
                            forall|k: int| 0 <= k < i ==> option_from(m[k], #[trigger] out@[k]),
                        decreases xs@.len() - i,
                    {
                        proof {
                            lemma_models_index(xs@, i as int);
                        }
                        match convert_option(&xs[i]) {
                            Some(o) => {
                                out.push(o);
                            },
                            None => {
                                assert(!option_ok(arg(model_of(*v), 2)->List_0[i as int]));
                                return None;
                            },
                        }
                        i = i + 1;
                    }
                    match whitespace_decl(&out, Ghost(m)) {
                        Some(b) => (out, b),
                        None => {
                            return None;
                        },
                    }
                },
                _ => {
                    return None;
                },
            };
            let (options, implicit_whitespace) = options;
            let rules = match &args[3] {
                Value::List(xs) => {
                    let ghost m = models_of(xs@);
                    proof {
                        lemma_models_len(xs@);
                        assert(arg(model_of(*v), 3) == ValueModel::List(m));
                    }
                    let mut out: Vec<Rule> = Vec::new();
                    let mut i: usize = 0;
                    while i < xs.len()
                        invariant
                            0 <= i <= xs@.len(),
                            m == models_of(xs@),
                            m.len() == xs@.len(),
                            out@.len() == i,
                            arg(model_of(*v), 3) == ValueModel::List(m),
                            forall|k: int| 0 <= k < i ==> rule_from(m[k], #[trigger] out@[k]),
                        decreases xs@.len() - i,
                    {
                        proof {
                            lemma_models_index(xs@, i as int);
                        }
                        match convert_rule(&xs[i]) {
                            Some(rl) => {
                                out.push(rl);
                            },
                            None => {
                                assert(!rule_ok(arg(model_of(*v), 3)->List_0[i as int]));
                                return None;
                            },
                        }
                        i = i + 1;
                    }
                    out
                },
                _ => {
                    return None;
                },
            };
            Some(GrammarDefinition { name, inherits, implicit_whitespace, options, rules })
        },
        _ => None,
    }
}

proof fn lemma_action_ok(v: ValueModel, a: Action)
    requires
        action_from(v, a),
    ensures
        action_ok(v),
{
    match a {
        Action::Node(tag, names) => {
            if !(names@.len() == 0 && node_is(v, "Node0"@, 1)) {
                assert forall|i: int| 0 <= i < arg(v, 1)->List_0.len() implies #[trigger] arg(
                    v,
                    1,
                )->List_0[i] is Text by {
                    assert(texts(names@)[i] == ValueModel::Text(names@[i]@));
                }
            }
        },
        _ => {},
    }
}

proof fn lemma_pattern_ok(v: ValueModel, p: Pattern)
    requires
        pattern_from(v, p),
    ensures
        pattern_ok(v),
    decreases v, 0int,
{
    if node_is(v, "Bound"@, 3) {
        lemma_item_ok(Some(arg(v, 0)->Text_0), arg(v, 1), arg(v, 2), p);
    } else {
        lemma_item_ok(None, arg(v, 0), arg(v, 1), p);
    }
}

proof fn lemma_item_ok(b: Option<Seq<char>>, atom: ValueModel, suffix: ValueModel, p: Pattern)
    requires
        item_from(b, atom, suffix, p),
    ensures
        item_ok(b is Some, atom, suffix),
    decreases atom, 1int,
{
    if node_is(suffix, "One"@, 0) {
        lemma_atom_ok(atom, b, p);
    } else {
        lemma_atom_ok(atom, None, *p->Repeat_pattern);
    }
}

proof fn lemma_atom_ok(atom: ValueModel, b: Option<Seq<char>>, p: Pattern)
    requires
        atom_from(atom, b, p),
    ensures
        atom_ok(atom, b is Some),
    decreases atom, 0int,
{
    match p {
        Pattern::Group { patterns, action } => {
            lemma_entries_ok(arg(atom, 0)->List_0, 0, patterns@, 0);
            lemma_action_ok(arg(atom, 1), action);
        },
        _ => {},
    }
}

proof fn lemma_entry_ok(v: ValueModel, ps: Seq<Pattern>, j: int)
    requires
        entry_from(v, ps, j),
    ensures
        entry_ok(v),
    decreases v, 2int,
{
    if is_wrap(v) {
        lemma_entries_ok(arg(v, 1)->List_0, 0, ps, j + 1);
    } else {
        lemma_pattern_ok(v, ps[j]);
    }
}

proof fn lemma_entries_ok(vs: Seq<ValueModel>, i: int, ps: Seq<Pattern>, j: int)
    requires
        entries_from(vs, i, ps, j),
    ensures
        entries_ok(vs, i),
    decreases vs, vs.len() - i,
{
    if 0 <= i < vs.len() {
        lemma_entry_ok(vs[i], ps, j);
        lemma_entries_ok(vs, i + 1, ps, j + width(vs[i]));
    }
}

/// A parse tree that describes some grammar has the shape that `load`
/// accepts: loading fails after a successful parse only when the tree
/// describes no grammar at all.
pub proof fn lemma_described_is_well_formed(v: ValueModel, g: GrammarDefinition)
    requires
        grammar_from(v, g),
    ensures
        grammar_ok(v),
{
    let opts = arg(v, 2)->List_0;
    let rules = arg(v, 3)->List_0;
    assert forall|i: int| 0 <= i < opts.len() implies option_ok(#[trigger] opts[i]) by {
        assert(option_from(opts[i], g.options@[i]));
    }
    assert forall|i: int| 0 <= i < rules.len() implies rule_ok(#[trigger] rules[i]) by {
        let r = g.rules@[i];
        assert(rule_from(rules[i], r));
        let vs = arg(rules[i], 3)->List_0;
        assert forall|j: int| 0 <= j < vs.len() implies variant_ok(#[trigger] vs[j]) by {
            assert(variant_from(vs[j], r.variants@[j]));
            lemma_entries_ok(arg(vs[j], 0)->List_0, 0, r.variants@[j].pattern@, 0);
            lemma_action_ok(arg(vs[j], 1), r.variants@[j].action);
        }
    }
}

/// A pattern of the grammar format, as plain values.
pub ghost enum PatternShape {
    /// The literal `s`.
    Lit(Seq<char>),
    /// A call of `rule`, bound to the name if there is one.
    Call(Option<Seq<char>>, Seq<char>),
    /// `binding:rule*`.
    Many(Seq<char>, Seq<char>),
    /// `tail:(sep e:item -> { e })*`.
    Tail(Seq<char>, Seq<char>),
}

/// An action of the grammar format, as plain values.
pub ghost enum ActionShape {
    Ref(Seq<char>),
    Prepend(Seq<char>, Seq<char>),
    Node(Seq<char>, Seq<Seq<char>>),
}

pub ghost struct VariantShape {
    pub patterns: Seq<PatternShape>,
    pub action: ActionShape,
}

pub ghost struct RuleShape {
    pub name: Seq<char>,
    pub is_pub: bool,
    pub variants: Seq<VariantShape>,
}

pub open spec fn call_is(p: Pattern, b: Option<Seq<char>>, name: Seq<char>) -> bool {
    &&& p is RuleCall
    &&& opt_view(p->RuleCall_binding) == b
    &&& p->RuleCall_rule_name@ == name
    &&& p->RuleCall_args@.len() == 0
}

/// `p` is the pattern that `d` describes.
pub open spec fn pattern_is(p: Pattern, d: PatternShape) -> bool {
    match d {
        PatternShape::Lit(s) => is_lit(p, s),
        PatternShape::Call(b, name) => call_is(p, b, name),
        PatternShape::Many(b, name) => p is Repeat && opt_view(p->Repeat_binding) == Some(b)
            && p->Repeat_kind == RepeatKind::ZeroOrMore && call_is(*p->Repeat_pattern, None, name),
        PatternShape::Tail(sep, item) => {
            let g = *p->Repeat_pattern;
            &&& p is Repeat
            &&& opt_view(p->Repeat_binding) == Some("tail"@)
            &&& p->Repeat_kind == RepeatKind::ZeroOrMore
            &&& g is Group
            &&& g->Group_patterns@.len() == 2
            &&& is_lit(g->Group_patterns@[0], sep)
            &&& call_is(g->Group_patterns@[1], Some("e"@), item)
            &&& action_is(g->Group_action, ActionShape::Ref("e"@))
        },
    }
}

/// `a` is the action that `d` describes.
pub open spec fn action_is(a: Action, d: ActionShape) -> bool {
    match d {
        ActionShape::Ref(n) => a is Ref && a->Ref_0@ == n,
        ActionShape::Prepend(h, t) => a is Prepend && a->Prepend_0@ == h && a->Prepend_1@ == t,
        ActionShape::Node(tag, names) => a is Node && a->Node_0@ == tag && crate::model::views_of(
            a->Node_1@,
        ) == names,
    }
}

pub open spec fn variant_is(v: RuleVariant, d: VariantShape) -> bool {
    &&& v.pattern@.len() == d.patterns.len()
    &&& forall|i: int| 0 <= i < d.patterns.len() ==> pattern_is(#[trigger] v.pattern@[i], d.patterns[i])
    &&& action_is(v.action, d.action)
}

/// `r` is the rule that `d` describes; every rule of the format yields a
/// `Value`.
pub open spec fn rule_is(r: Rule, d: RuleShape) -> bool {
    &&& r.name@ == d.name
    &&& r.is_pub == d.is_pub
    &&& r.return_type@ == "Value"@
    &&& r.variants@.len() == d.variants.len()
    &&& forall|j: int| 0 <= j < d.variants.len() ==> variant_is(#[trigger] r.variants@[j], d.variants[j])
}

pub open spec fn lit_s(s: Seq<char>) -> PatternShape {
    PatternShape::Lit(s)
}

pub open spec fn bound(b: Seq<char>, name: Seq<char>) -> PatternShape {
    PatternShape::Call(Some(b), name)
}

pub open spec fn unbound(name: Seq<char>) -> PatternShape {
    PatternShape::Call(None, name)
}

pub open spec fn alt_s(patterns: Seq<PatternShape>, action: ActionShape) -> VariantShape {
    VariantShape { patterns, action }
}

pub open spec fn node_s(tag: Seq<char>, names: Seq<Seq<char>>) -> ActionShape {
    ActionShape::Node(tag, names)
}

pub open spec fn rule_s(name: Seq<char>, variants: Seq<VariantShape>) -> RuleShape {
    RuleShape { name, is_pub: false, variants }
}

/// `[pub] grammar Name [: Parent] { option* rule_def* }`
pub open spec fn grammar_file_shape() -> RuleShape {
    RuleShape {
        name: "grammar_file"@,
        is_pub: true,
        variants: seq![
            alt_s(
                seq![
                    unbound("visibility"@),
                    lit_s("grammar"@),
                    bound("name"@, "identifier"@),
                    bound("parent"@, "parent"@),
                    lit_s("{"@),
                    PatternShape::Many("options"@, "option"@),
                    PatternShape::Many("rules"@, "rule_def"@),
                    lit_s("}"@),
                ],
                node_s("Grammar"@, seq!["name"@, "parent"@, "options"@, "rules"@]),
            ),
        ],
    }
}

/// `pub` or nothing.
pub open spec fn visibility_shape() -> RuleShape {
    rule_s(
        "visibility"@,
        seq![
            alt_s(seq![lit_s("pub"@)], node_s("Pub"@, seq![])),
            alt_s(seq![], node_s("Private"@, seq![])),
        ],
    )
}

/// `: Parent` or nothing.
pub open spec fn parent_shape() -> RuleShape {
    rule_s(
        "parent"@,
        seq![
            alt_s(seq![lit_s(":"@), bound("n"@, "identifier"@)], node_s("Parent"@, seq!["n"@])),
            alt_s(seq![], node_s("NoParent"@, seq![])),
        ],
    )
}

/// `name = value;`
pub open spec fn option_shape() -> RuleShape {
    rule_s(
        "option"@,
        seq![
            alt_s(
                seq![
                    bound("name"@, "identifier"@),
                    lit_s("="@),
                    bound("v"@, "option_value"@),
                    lit_s(";"@),
                ],
                node_s("Option"@, seq!["name"@, "v"@]),
            ),
        ],
    )
}

/// Digits, `true`, `false` or a string.
pub open spec fn option_value_shape() -> RuleShape {
    rule_s(
        "option_value"@,
        seq![
            alt_s(seq![bound("d"@, "digits"@)], node_s("Int"@, seq!["d"@])),
            alt_s(seq![lit_s("true"@)], node_s("True"@, seq![])),
            alt_s(seq![lit_s("false"@)], node_s("False"@, seq![])),
            alt_s(seq![bound("s"@, "string"@)], node_s("Str"@, seq!["s"@])),
        ],
    )
}

/// `[pub] rule name -> Type = variants`
pub open spec fn rule_def_shape() -> RuleShape {
    rule_s(
        "rule_def"@,
        seq![
            alt_s(
                seq![
                    bound("p"@, "visibility"@),
                    lit_s("rule"@),
                    bound("name"@, "identifier"@),
                    lit_s("->"@),
                    bound("ty"@, "result_type"@),
                    lit_s("="@),
                    bound("vs"@, "variants"@),
                ],
                node_s("Rule"@, seq!["p"@, "name"@, "ty"@, "vs"@]),
            ),
        ],
    )
}

/// A type name or `()`.
pub open spec fn result_type_shape() -> RuleShape {
    rule_s(
        "result_type"@,
        seq![
            alt_s(seq![bound("ty"@, "identifier"@)], ActionShape::Ref("ty"@)),
            alt_s(seq![lit_s("("@), lit_s(")"@)], node_s("Unit"@, seq![])),
        ],
    )
}

/// Variants separated by `|`.
pub open spec fn variants_shape() -> RuleShape {
    rule_s(
        "variants"@,
        seq![
            alt_s(
                seq![bound("head"@, "variant"@), PatternShape::Tail("|"@, "variant"@)],
                ActionShape::Prepend("head"@, "tail"@),
            ),
        ],
    )
}

/// `pattern* -> { action }`
pub open spec fn variant_shape() -> RuleShape {
    rule_s(
        "variant"@,
        seq![
            alt_s(
                seq![
                    PatternShape::Many("ps"@, "pattern"@),
                    lit_s("->"@),
                    lit_s("{"@),
                    bound("a"@, "action"@),
                    lit_s("}"@),
                ],
                node_s("Variant"@, seq!["ps"@, "a"@]),
            ),
        ],
    )
}

/// `wrapper(pattern*)`, `binding:atom suffix` or `atom suffix`.
pub open spec fn pattern_shape() -> RuleShape {
    rule_s(
        "pattern"@,
        seq![
            alt_s(
                seq![
                    bound("w"@, "wrapper"@),
                    lit_s("("@),
                    PatternShape::Many("ps"@, "pattern"@),
                    lit_s(")"@),
                ],
                node_s("Wrap"@, seq!["w"@, "ps"@]),
            ),
            alt_s(
                seq![
                    bound("b"@, "identifier"@),
                    lit_s(":"@),
                    bound("a"@, "atom"@),
                    bound("k"@, "suffix"@),
                ],
                node_s("Bound"@, seq!["b"@, "a"@, "k"@]),
            ),
            alt_s(
                seq![bound("a"@, "atom"@), bound("k"@, "suffix"@)],
                node_s("Plain"@, seq!["a"@, "k"@]),
            ),
        ],
    )
}

/// `parenthesized`, `bracketed` or `braced`.
pub open spec fn wrapper_shape() -> RuleShape {
    rule_s(
        "wrapper"@,
        seq![
            alt_s(seq![lit_s("parenthesized"@)], node_s("Paren"@, seq![])),
            alt_s(seq![lit_s("bracketed"@)], node_s("Bracket"@, seq![])),
            alt_s(seq![lit_s("braced"@)], node_s("Brace"@, seq![])),
        ],
    )
}

/// A string literal, a rule name or a group `( pattern* group_action )`.
pub open spec fn atom_shape() -> RuleShape {
    rule_s(
        "atom"@,
        seq![
            alt_s(seq![bound("s"@, "string"@)], node_s("Lit"@, seq!["s"@])),
            alt_s(seq![bound("n"@, "identifier"@)], node_s("Call"@, seq!["n"@])),
            alt_s(
                seq![
                    lit_s("("@),
                    PatternShape::Many("ps"@, "pattern"@),
                    bound("a"@, "group_action"@),
                    lit_s(")"@),
                ],
                node_s("Group"@, seq!["ps"@, "a"@]),
            ),
        ],
    )
}

/// `-> { action }` or nothing.
pub open spec fn group_action_shape() -> RuleShape {
    rule_s(
        "group_action"@,
        seq![
            alt_s(
                seq![lit_s("->"@), lit_s("{"@), bound("a"@, "action"@), lit_s("}"@)],
                ActionShape::Ref("a"@),
            ),
            alt_s(seq![], node_s("Unit"@, seq![])),
        ],
    )
}

/// `?`, `*`, `+` or nothing.
pub open spec fn suffix_shape() -> RuleShape {
    rule_s(
        "suffix"@,
        seq![
            alt_s(seq![lit_s("?"@)], node_s("Opt"@, seq![])),
            alt_s(seq![lit_s("*"@)], node_s("Star"@, seq![])),
            alt_s(seq![lit_s("+"@)], node_s("Plus"@, seq![])),
            alt_s(seq![], node_s("One"@, seq![])),
        ],
    )
}

/// `prepend(h, t)`, `()`, `Tag()`, `Tag(names)` or a name.
pub open spec fn action_shape() -> RuleShape {
    rule_s(
        "action"@,
        seq![
            alt_s(
                seq![
                    lit_s("prepend"@),
                    lit_s("("@),
                    bound("h"@, "identifier"@),
                    lit_s(","@),
                    bound("tl"@, "identifier"@),
                    lit_s(")"@),
                ],
                node_s("Prepend"@, seq!["h"@, "tl"@]),
            ),
            alt_s(seq![lit_s("("@), lit_s(")"@)], node_s("Unit"@, seq![])),
            alt_s(
                seq![bound("tag"@, "identifier"@), lit_s("("@), lit_s(")"@)],
                node_s("Node0"@, seq!["tag"@]),
            ),
            alt_s(
                seq![bound("tag"@, "identifier"@), lit_s("("@), bound("args"@, "names"@), lit_s(")"@)],
                node_s("Node"@, seq!["tag"@, "args"@]),
            ),
            alt_s(seq![bound("n"@, "identifier"@)], node_s("Ref"@, seq!["n"@])),
        ],
    )
}

/// Names separated by `,`.
pub open spec fn names_shape() -> RuleShape {
    rule_s(
        "names"@,
        seq![
            alt_s(
                seq![bound("head"@, "identifier"@), PatternShape::Tail(","@, "identifier"@)],
                ActionShape::Prepend("head"@, "tail"@),
            ),
        ],
    )
}

/// The rules of the grammar format, in order.
pub open spec fn meta_shapes() -> Seq<RuleShape> {
    seq![
        grammar_file_shape(),
        visibility_shape(),
        parent_shape(),
        option_shape(),
        option_value_shape(),
        rule_def_shape(),
        result_type_shape(),
        variants_shape(),
        variant_shape(),
        pattern_shape(),
        wrapper_shape(),
        atom_shape(),
        group_action_shape(),
        suffix_shape(),
        action_shape(),
        names_shape(),
    ]
}

/// `g` is the grammar of grammar sources: whitespace between tokens is
/// skipped, and its rules are those of `meta_shapes`, in order.
pub open spec fn is_meta_grammar(g: GrammarDefinition) -> bool {
    &&& g.inherits is None
    &&& g.implicit_whitespace
    &&& g.options@.len() == 0
    &&& g.rules@.len() == meta_shapes().len()
    &&& forall|k: int| 0 <= k < meta_shapes().len() ==> rule_is(#[trigger] g.rules@[k], meta_shapes()[k])
}

fn t(s: &str) -> (r: String)
    ensures
        r@ == s@,
{
    String::from_str(s)
}

fn lit(s: &str) -> (r: Pattern)
    ensures
        pattern_is(r, PatternShape::Lit(s@)),
{
    Pattern::Lit(t(s))
}

fn call(binding: &str, rule_name: &str) -> (r: Pattern)
    ensures
        pattern_is(r, PatternShape::Call(Some(binding@), rule_name@)),
{
    Pattern::RuleCall { binding: Some(t(binding)), rule_name: t(rule_name), args: Vec::new() }
}

fn call_unbound(rule_name: &str) -> (r: Pattern)
    ensures
        pattern_is(r, PatternShape::Call(None, rule_name@)),
{
    Pattern::RuleCall { binding: None, rule_name: t(rule_name), args: Vec::new() }
}

/// `binding:rule_name*`
fn many(binding: &str, rule_name: &str) -> (r: Pattern)
    ensures
        pattern_is(r, PatternShape::Many(binding@, rule_name@)),
{
    Pattern::Repeat {
        binding: Some(t(binding)),
        pattern: Box::new(call_unbound(rule_name)),
        kind: RepeatKind::ZeroOrMore,
    }
}

/// `tail:(sep e:item -> { e })*`
fn separated_tail(sep: &str, item: &str) -> (r: Pattern)
    ensures
        pattern_is(r, PatternShape::Tail(sep@, item@)),
{
    proof {
        reveal_strlit("tail");
        reveal_strlit("e");
    }
    let group = Pattern::Group { patterns: vec![lit(sep), call("e", item)], action: Action::Ref(t("e")) };
    Pattern::Repeat { binding: Some(t("tail")), pattern: Box::new(group), kind: RepeatKind::ZeroOrMore }
}

fn names_of(names: Vec<&str>) -> (r: Vec<String>)
    ensures
        r@.len() == names@.len(),
        forall|i: int| 0 <= i < names@.len() ==> #[trigger] r@[i]@ == names@[i]@,
{
    let mut out: Vec<String> = Vec::new();
    let mut i: usize = 0;
    while i < names.len()
        invariant
            0 <= i <= names@.len(),
            out@.len() == i,
            forall|k: int| 0 <= k < i ==> #[trigger] out@[k]@ == names@[k]@,
        decreases names@.len() - i,
    {
        out.push(t(names[i]));
        i = i + 1;
    }
    out
}

/// The characters of each of `v`, in order.
pub open spec fn strs_view(v: Seq<&str>) -> Seq<Seq<char>> {
    v.map_values(|s: &str| s@)
}

fn node(tag: &str, names: Vec<&str>) -> (r: Action)
    ensures
        action_is(r, ActionShape::Node(tag@, strs_view(names@))),
{
    let ns = names_of(names);
    assert(crate::model::views_of(ns@) =~= strs_view(names@));
    Action::Node(t(tag), ns)
}

fn alt(pattern: Vec<Pattern>, action: Action) -> (r: RuleVariant)
    ensures
        r.pattern == pattern,
        r.action == action,
{
    RuleVariant { pattern, action }
}

fn rule(name: &str, variants: Vec<RuleVariant>) -> (r: Rule)
    ensures
        r.name@ == name@,
        !r.is_pub,
        r.return_type@ == "Value"@,
        r.variants == variants,
{
    Rule { is_pub: false, name: t(name), return_type: t("Value"), variants }
}

fn build_grammar_file() -> (r: Rule)
    ensures
        rule_is(r, grammar_file_shape()),
{
    let p0_0 = call_unbound("visibility");
    let p0_1 = lit("grammar");
    let p0_2 = call("name", "identifier");
    let p0_3 = call("parent", "parent");
    let p0_4 = lit("{");
    let p0_5 = many("options", "option");
    let p0_6 = many("rules", "rule_def");
    let p0_7 = lit("}");
    let ps0 = vec![p0_0, p0_1, p0_2, p0_3, p0_4, p0_5, p0_6, p0_7];
    assert(ps0@.len() == 8);
    assert(ps0@[0] == p0_0);
    assert(ps0@[1] == p0_1);
    assert(ps0@[2] == p0_2);
    assert(ps0@[3] == p0_3);
    assert(ps0@[4] == p0_4);
    assert(ps0@[5] == p0_5);
    assert(ps0@[6] == p0_6);
    assert(ps0@[7] == p0_7);
    let n0: Vec<&str> = vec!["name", "parent", "options", "rules"];
    assert(strs_view(n0@) =~= seq!["name"@, "parent"@, "options"@, "rules"@]);
    let a0 = node("Grammar", n0);
    let v0 = alt(ps0, a0);
    let vs = vec![v0];
    assert(vs@[0] == v0);
    let mut r = rule("grammar_file", vs);
    r.is_pub = true;
    proof {
        let d = grammar_file_shape();
        assert(variant_is(r.variants@[0], d.variants[0]));
    }
    r
}

fn build_visibility() -> (r: Rule)
    ensures
        rule_is(r, visibility_shape()),
{
    let p0_0 = lit("pub");
    let ps0 = vec![p0_0];
    assert(ps0@.len() == 1);
    assert(ps0@[0] == p0_0);
    let n0: Vec<&str> = vec![];
    assert(strs_view(n0@) =~= seq![]);
    let a0 = node("Pub", n0);
    let v0 = alt(ps0, a0);
    let ps1 = vec![];
    assert(ps1@.len() == 0);
    let n1: Vec<&str> = vec![];
    assert(strs_view(n1@) =~= seq![]);
    let a1 = node("Private", n1);
    let v1 = alt(ps1, a1);
    let vs = vec![v0, v1];
    assert(vs@[0] == v0);
    assert(vs@[1] == v1);
    let r = rule("visibility", vs);
    proof {
        let d = visibility_shape();
        assert(variant_is(r.variants@[0], d.variants[0]));
        assert(variant_is(r.variants@[1], d.variants[1]));
    }
    r
}

fn build_parent() -> (r: Rule)
    ensures
        rule_is(r, parent_shape()),
{
    let p0_0 = lit(":");
    let p0_1 = call("n", "identifier");
    let ps0 = vec![p0_0, p0_1];
    assert(ps0@.len() == 2);
    assert(ps0@[0] == p0_0);
    assert(ps0@[1] == p0_1);
    let n0: Vec<&str> = vec!["n"];
    assert(strs_view(n0@) =~= seq!["n"@]);
    let a0 = node("Parent", n0);
    let v0 = alt(ps0, a0);
    let ps1 = vec![];
    assert(ps1@.len() == 0);
    let n1: Vec<&str> = vec![];
    assert(strs_view(n1@) =~= seq![]);
    let a1 = node("NoParent", n1);
    let v1 = alt(ps1, a1);
    let vs = vec![v0, v1];
    assert(vs@[0] == v0);
    assert(vs@[1] == v1);
    let r = rule("parent", vs);
    proof {
        let d = parent_shape();
        assert(variant_is(r.variants@[0], d.variants[0]));
        assert(variant_is(r.variants@[1], d.variants[1]));
    }
    r
}

fn build_option() -> (r: Rule)
    ensures
        rule_is(r, option_shape()),
{
    let p0_0 = call("name", "identifier");
    let p0_1 = lit("=");
    let p0_2 = call("v", "option_value");
    let p0_3 = lit(";");
    let ps0 = vec![p0_0, p0_1, p0_2, p0_3];
    assert(ps0@.len() == 4);
    assert(ps0@[0] == p0_0);
    assert(ps0@[1] == p0_1);
    assert(ps0@[2] == p0_2);
    assert(ps0@[3] == p0_3);
    let n0: Vec<&str> = vec!["name", "v"];
    assert(strs_view(n0@) =~= seq!["name"@, "v"@]);
    let a0 = node("Option", n0);
    let v0 = alt(ps0, a0);
    let vs = vec![v0];
    assert(vs@[0] == v0);
    let r = rule("option", vs);
    proof {
        let d = option_shape();
        assert(variant_is(r.variants@[0], d.variants[0]));
    }
    r
}

fn build_option_value() -> (r: Rule)
    ensures
        rule_is(r, option_value_shape()),
{
    let p0_0 = call("d", "digits");
    let ps0 = vec![p0_0];
    assert(ps0@.len() == 1);
    assert(ps0@[0] == p0_0);
    let n0: Vec<&str> = vec!["d"];
    assert(strs_view(n0@) =~= seq!["d"@]);
    let a0 = node("Int", n0);
    let v0 = alt(ps0, a0);
    let p1_0 = lit("true");
    let ps1 = vec![p1_0];
    assert(ps1@.len() == 1);
    assert(ps1@[0] == p1_0);
    let n1: Vec<&str> = vec![];
    assert(strs_view(n1@) =~= seq![]);
    let a1 = node("True", n1);
    let v1 = alt(ps1, a1);
    let p2_0 = lit("false");
    let ps2 = vec![p2_0];
    assert(ps2@.len() == 1);
    assert(ps2@[0] == p2_0);
    let n2: Vec<&str> = vec![];
    assert(strs_view(n2@) =~= seq![]);
    let a2 = node("False", n2);
    let v2 = alt(ps2, a2);
    let p3_0 = call("s", "string");
    let ps3 = vec![p3_0];
    assert(ps3@.len() == 1);
    assert(ps3@[0] == p3_0);
    let n3: Vec<&str> = vec!["s"];
    assert(strs_view(n3@) =~= seq!["s"@]);
    let a3 = node("Str", n3);
    let v3 = alt(ps3, a3);
    let vs = vec![v0, v1, v2, v3];
    assert(vs@[0] == v0);
    assert(vs@[1] == v1);
    assert(vs@[2] == v2);
    assert(vs@[3] == v3);
    let r = rule("option_value", vs);
    proof {
        let d = option_value_shape();
        assert(variant_is(r.variants@[0], d.variants[0]));
        assert(variant_is(r.variants@[1], d.variants[1]));
        assert(variant_is(r.variants@[2], d.variants[2]));
        assert(variant_is(r.variants@[3], d.variants[3]));
    }
    r
}

fn build_rule_def() -> (r: Rule)
    ensures
        rule_is(r, rule_def_shape()),
{
    let p0_0 = call("p", "visibility");
    let p0_1 = lit("rule");
    let p0_2 = call("name", "identifier");
    let p0_3 = lit("->");
    let p0_4 = call("ty", "result_type");
    let p0_5 = lit("=");
    let p0_6 = call("vs", "variants");
    let ps0 = vec![p0_0, p0_1, p0_2, p0_3, p0_4, p0_5, p0_6];
    assert(ps0@.len() == 7);
    assert(ps0@[0] == p0_0);
    assert(ps0@[1] == p0_1);
    assert(ps0@[2] == p0_2);
    assert(ps0@[3] == p0_3);
    assert(ps0@[4] == p0_4);
    assert(ps0@[5] == p0_5);
    assert(ps0@[6] == p0_6);
    let n0: Vec<&str> = vec!["p", "name", "ty", "vs"];
    assert(strs_view(n0@) =~= seq!["p"@, "name"@, "ty"@, "vs"@]);
    let a0 = node("Rule", n0);
    let v0 = alt(ps0, a0);
    let vs = vec![v0];
    assert(vs@[0] == v0);
    let r = rule("rule_def", vs);
    proof {
        let d = rule_def_shape();
        assert(variant_is(r.variants@[0], d.variants[0]));
    }
    r
}

fn build_result_type() -> (r: Rule)
    ensures
        rule_is(r, result_type_shape()),
{
    let p0_0 = call("ty", "identifier");
    let ps0 = vec![p0_0];
    assert(ps0@.len() == 1);
    assert(ps0@[0] == p0_0);
    let a0 = Action::Ref(t("ty"));
    let v0 = alt(ps0, a0);
    let p1_0 = lit("(");
    let p1_1 = lit(")");
    let ps1 = vec![p1_0, p1_1];
    assert(ps1@.len() == 2);
    assert(ps1@[0] == p1_0);
    assert(ps1@[1] == p1_1);
    let n1: Vec<&str> = vec![];
    assert(strs_view(n1@) =~= seq![]);
    let a1 = node("Unit", n1);
    let v1 = alt(ps1, a1);
    let vs = vec![v0, v1];
    assert(vs@[0] == v0);
    assert(vs@[1] == v1);
    let r = rule("result_type", vs);
    proof {
        let d = result_type_shape();
        assert(variant_is(r.variants@[0], d.variants[0]));
        assert(variant_is(r.variants@[1], d.variants[1]));
    }
    r
}

fn build_variants() -> (r: Rule)
    ensures
        rule_is(r, variants_shape()),
{
    let p0_0 = call("head", "variant");
    let p0_1 = separated_tail("|", "variant");
    let ps0 = vec![p0_0, p0_1];
    assert(ps0@.len() == 2);
    assert(ps0@[0] == p0_0);
    assert(ps0@[1] == p0_1);
    let a0 = Action::Prepend(t("head"), t("tail"));
    let v0 = alt(ps0, a0);
    let vs = vec![v0];
    assert(vs@[0] == v0);
    let r = rule("variants", vs);
    proof {
        let d = variants_shape();
        assert(variant_is(r.variants@[0], d.variants[0]));
    }
    r
}

fn build_variant() -> (r: Rule)
    ensures
        rule_is(r, variant_shape()),
{
    let p0_0 = many("ps", "pattern");
    let p0_1 = lit("->");
    let p0_2 = lit("{");
    let p0_3 = call("a", "action");
    let p0_4 = lit("}");
    let ps0 = vec![p0_0, p0_1, p0_2, p0_3, p0_4];
    assert(ps0@.len() == 5);
    assert(ps0@[0] == p0_0);
    assert(ps0@[1] == p0_1);
    assert(ps0@[2] == p0_2);
    assert(ps0@[3] == p0_3);
    assert(ps0@[4] == p0_4);
    let n0: Vec<&str> = vec!["ps", "a"];
    assert(strs_view(n0@) =~= seq!["ps"@, "a"@]);
    let a0 = node("Variant", n0);
    let v0 = alt(ps0, a0);
    let vs = vec![v0];
    assert(vs@[0] == v0);
    let r = rule("variant", vs);
    proof {
        let d = variant_shape();
        assert(variant_is(r.variants@[0], d.variants[0]));
    }
    r
}

fn build_pattern() -> (r: Rule)
    ensures
        rule_is(r, pattern_shape()),
{
    let p0_0 = call("w", "wrapper");
    let p0_1 = lit("(");
    let p0_2 = many("ps", "pattern");
    let p0_3 = lit(")");
    let ps0 = vec![p0_0, p0_1, p0_2, p0_3];
    assert(ps0@.len() == 4);
    assert(ps0@[0] == p0_0);
    assert(ps0@[1] == p0_1);
    assert(ps0@[2] == p0_2);
    assert(ps0@[3] == p0_3);
    let n0: Vec<&str> = vec!["w", "ps"];
    assert(strs_view(n0@) =~= seq!["w"@, "ps"@]);
    let a0 = node("Wrap", n0);
    let v0 = alt(ps0, a0);
    let p1_0 = call("b", "identifier");
    let p1_1 = lit(":");
    let p1_2 = call("a", "atom");
    let p1_3 = call("k", "suffix");
    let ps1 = vec![p1_0, p1_1, p1_2, p1_3];
    assert(ps1@.len() == 4);
    assert(ps1@[0] == p1_0);
    assert(ps1@[1] == p1_1);
    assert(ps1@[2] == p1_2);
    assert(ps1@[3] == p1_3);
    let n1: Vec<&str> = vec!["b", "a", "k"];
    assert(strs_view(n1@) =~= seq!["b"@, "a"@, "k"@]);
    let a1 = node("Bound", n1);
    let v1 = alt(ps1, a1);
    let p2_0 = call("a", "atom");
    let p2_1 = call("k", "suffix");
    let ps2 = vec![p2_0, p2_1];
    assert(ps2@.len() == 2);
    assert(ps2@[0] == p2_0);
    assert(ps2@[1] == p2_1);
    let n2: Vec<&str> = vec!["a", "k"];
    assert(strs_view(n2@) =~= seq!["a"@, "k"@]);
    let a2 = node("Plain", n2);
    let v2 = alt(ps2, a2);
    let vs = vec![v0, v1, v2];
    assert(vs@[0] == v0);
    assert(vs@[1] == v1);
    assert(vs@[2] == v2);
    let r = rule("pattern", vs);
    proof {
        let d = pattern_shape();
        assert(variant_is(r.variants@[0], d.variants[0]));
        assert(variant_is(r.variants@[1], d.variants[1]));
        assert(variant_is(r.variants@[2], d.variants[2]));
    }
    r
}

fn build_wrapper() -> (r: Rule)
    ensures
        rule_is(r, wrapper_shape()),
{
    let p0_0 = lit("parenthesized");
    let ps0 = vec![p0_0];
    assert(ps0@.len() == 1);
    assert(ps0@[0] == p0_0);
    let n0: Vec<&str> = vec![];
    assert(strs_view(n0@) =~= seq![]);
    let a0 = node("Paren", n0);
    let v0 = alt(ps0, a0);
    let p1_0 = lit("bracketed");
    let ps1 = vec![p1_0];
    assert(ps1@.len() == 1);
    assert(ps1@[0] == p1_0);
    let n1: Vec<&str> = vec![];
    assert(strs_view(n1@) =~= seq![]);
    let a1 = node("Bracket", n1);
    let v1 = alt(ps1, a1);
    let p2_0 = lit("braced");
    let ps2 = vec![p2_0];
    assert(ps2@.len() == 1);
    assert(ps2@[0] == p2_0);
    let n2: Vec<&str> = vec![];
    assert(strs_view(n2@) =~= seq![]);
    let a2 = node("Brace", n2);
    let v2 = alt(ps2, a2);
    let vs = vec![v0, v1, v2];
    assert(vs@[0] == v0);
    assert(vs@[1] == v1);
    assert(vs@[2] == v2);
    let r = rule("wrapper", vs);
    proof {
        let d = wrapper_shape();
        assert(variant_is(r.variants@[0], d.variants[0]));
        assert(variant_is(r.variants@[1], d.variants[1]));
        assert(variant_is(r.variants@[2], d.variants[2]));
    }
    r
}

fn build_atom() -> (r: Rule)
    ensures
        rule_is(r, atom_shape()),
{
    let p0_0 = call("s", "string");
    let ps0 = vec![p0_0];
    assert(ps0@.len() == 1);
    assert(ps0@[0] == p0_0);
    let n0: Vec<&str> = vec!["s"];
    assert(strs_view(n0@) =~= seq!["s"@]);
    let a0 = node("Lit", n0);
    let v0 = alt(ps0, a0);
    let p1_0 = call("n", "identifier");
    let ps1 = vec![p1_0];
    assert(ps1@.len() == 1);
    assert(ps1@[0] == p1_0);
    let n1: Vec<&str> = vec!["n"];
    assert(strs_view(n1@) =~= seq!["n"@]);
    let a1 = node("Call", n1);
    let v1 = alt(ps1, a1);
    let p2_0 = lit("(");
    let p2_1 = many("ps", "pattern");
    let p2_2 = call("a", "group_action");
    let p2_3 = lit(")");
    let ps2 = vec![p2_0, p2_1, p2_2, p2_3];
    assert(ps2@.len() == 4);
    assert(ps2@[0] == p2_0);
    assert(ps2@[1] == p2_1);
    assert(ps2@[2] == p2_2);
    assert(ps2@[3] == p2_3);
    let n2: Vec<&str> = vec!["ps", "a"];
    assert(strs_view(n2@) =~= seq!["ps"@, "a"@]);
    let a2 = node("Group", n2);
    let v2 = alt(ps2, a2);
    let vs = vec![v0, v1, v2];
    assert(vs@[0] == v0);
    assert(vs@[1] == v1);
    assert(vs@[2] == v2);
    let r = rule("atom", vs);
    proof {
        let d = atom_shape();
        assert(variant_is(r.variants@[0], d.variants[0]));
        assert(variant_is(r.variants@[1], d.variants[1]));
        assert(variant_is(r.variants@[2], d.variants[2]));
    }
    r
}

fn build_group_action() -> (r: Rule)
    ensures
        rule_is(r, group_action_shape()),
{
    let p0_0 = lit("->");
    let p0_1 = lit("{");
    let p0_2 = call("a", "action");
    let p0_3 = lit("}");
    let ps0 = vec![p0_0, p0_1, p0_2, p0_3];
    assert(ps0@.len() == 4);
    assert(ps0@[0] == p0_0);
    assert(ps0@[1] == p0_1);
    assert(ps0@[2] == p0_2);
    assert(ps0@[3] == p0_3);
    let a0 = Action::Ref(t("a"));
    let v0 = alt(ps0, a0);
    let ps1 = vec![];
    assert(ps1@.len() == 0);
    let n1: Vec<&str> = vec![];
    assert(strs_view(n1@) =~= seq![]);
    let a1 = node("Unit", n1);
    let v1 = alt(ps1, a1);
    let vs = vec![v0, v1];
    assert(vs@[0] == v0);
    assert(vs@[1] == v1);
    let r = rule("group_action", vs);
    proof {
        let d = group_action_shape();
        assert(variant_is(r.variants@[0], d.variants[0]));
        assert(variant_is(r.variants@[1], d.variants[1]));
    }
    r
}

fn build_suffix() -> (r: Rule)
    ensures
        rule_is(r, suffix_shape()),
{
    let p0_0 = lit("?");
    let ps0 = vec![p0_0];
    assert(ps0@.len() == 1);
    assert(ps0@[0] == p0_0);
    let n0: Vec<&str> = vec![];
    assert(strs_view(n0@) =~= seq![]);
    let a0 = node("Opt", n0);
    let v0 = alt(ps0, a0);
    let p1_0 = lit("*");
    let ps1 = vec![p1_0];
    assert(ps1@.len() == 1);
    assert(ps1@[0] == p1_0);
    let n1: Vec<&str> = vec![];
    assert(strs_view(n1@) =~= seq![]);
    let a1 = node("Star", n1);
    let v1 = alt(ps1, a1);
    let p2_0 = lit("+");
    let ps2 = vec![p2_0];
    assert(ps2@.len() == 1);
    assert(ps2@[0] == p2_0);
    let n2: Vec<&str> = vec![];
    assert(strs_view(n2@) =~= seq![]);
    let a2 = node("Plus", n2);
    let v2 = alt(ps2, a2);
    let ps3 = vec![];
    assert(ps3@.len() == 0);
    let n3: Vec<&str> = vec![];
    assert(strs_view(n3@) =~= seq![]);
    let a3 = node("One", n3);
    let v3 = alt(ps3, a3);
    let vs = vec![v0, v1, v2, v3];
    assert(vs@[0] == v0);
    assert(vs@[1] == v1);
    assert(vs@[2] == v2);
    assert(vs@[3] == v3);
    let r = rule("suffix", vs);
    proof {
        let d = suffix_shape();
        assert(variant_is(r.variants@[0], d.variants[0]));
        assert(variant_is(r.variants@[1], d.variants[1]));
        assert(variant_is(r.variants@[2], d.variants[2]));
        assert(variant_is(r.variants@[3], d.variants[3]));
    }
    r
}

fn build_action() -> (r: Rule)
    ensures
        rule_is(r, action_shape()),
{
    let p0_0 = lit("prepend");
    let p0_1 = lit("(");
    let p0_2 = call("h", "identifier");
    let p0_3 = lit(",");
    let p0_4 = call("tl", "identifier");
    let p0_5 = lit(")");
    let ps0 = vec![p0_0, p0_1, p0_2, p0_3, p0_4, p0_5];
    assert(ps0@.len() == 6);
    assert(ps0@[0] == p0_0);
    assert(ps0@[1] == p0_1);
    assert(ps0@[2] == p0_2);
    assert(ps0@[3] == p0_3);
    assert(ps0@[4] == p0_4);
    assert(ps0@[5] == p0_5);
    let n0: Vec<&str> = vec!["h", "tl"];
    assert(strs_view(n0@) =~= seq!["h"@, "tl"@]);
    let a0 = node("Prepend", n0);
    let v0 = alt(ps0, a0);
    let p1_0 = lit("(");
    let p1_1 = lit(")");
    let ps1 = vec![p1_0, p1_1];
    assert(ps1@.len() == 2);
    assert(ps1@[0] == p1_0);
    assert(ps1@[1] == p1_1);
    let n1: Vec<&str> = vec![];
    assert(strs_view(n1@) =~= seq![]);
    let a1 = node("Unit", n1);
    let v1 = alt(ps1, a1);
    let p2_0 = call("tag", "identifier");
    let p2_1 = lit("(");
    let p2_2 = lit(")");
    let ps2 = vec![p2_0, p2_1, p2_2];
    assert(ps2@.len() == 3);
    assert(ps2@[0] == p2_0);
    assert(ps2@[1] == p2_1);
    assert(ps2@[2] == p2_2);
    let n2: Vec<&str> = vec!["tag"];
    assert(strs_view(n2@) =~= seq!["tag"@]);
    let a2 = node("Node0", n2);
    let v2 = alt(ps2, a2);
    let p3_0 = call("tag", "identifier");
    let p3_1 = lit("(");
    let p3_2 = call("args", "names");
    let p3_3 = lit(")");
    let ps3 = vec![p3_0, p3_1, p3_2, p3_3];
    assert(ps3@.len() == 4);
    assert(ps3@[0] == p3_0);
    assert(ps3@[1] == p3_1);
    assert(ps3@[2] == p3_2);
    assert(ps3@[3] == p3_3);
    let n3: Vec<&str> = vec!["tag", "args"];
    assert(strs_view(n3@) =~= seq!["tag"@, "args"@]);
    let a3 = node("Node", n3);
    let v3 = alt(ps3, a3);
    let p4_0 = call("n", "identifier");
    let ps4 = vec![p4_0];
    assert(ps4@.len() == 1);
    assert(ps4@[0] == p4_0);
    let n4: Vec<&str> = vec!["n"];
    assert(strs_view(n4@) =~= seq!["n"@]);
    let a4 = node("Ref", n4);
    let v4 = alt(ps4, a4);
    let vs = vec![v0, v1, v2, v3, v4];
    assert(vs@[0] == v0);
    assert(vs@[1] == v1);
    assert(vs@[2] == v2);
    assert(vs@[3] == v3);
    assert(vs@[4] == v4);
    let r = rule("action", vs);
    proof {
        let d = action_shape();
        assert(variant_is(r.variants@[0], d.variants[0]));
        assert(variant_is(r.variants@[1], d.variants[1]));
        assert(variant_is(r.variants@[2], d.variants[2]));
        assert(variant_is(r.variants@[3], d.variants[3]));
        assert(variant_is(r.variants@[4], d.variants[4]));
    }
    r
}

fn build_names() -> (r: Rule)
    ensures
        rule_is(r, names_shape()),
{
    let p0_0 = call("head", "identifier");
    let p0_1 = separated_tail(",", "identifier");
    let ps0 = vec![p0_0, p0_1];
    assert(ps0@.len() == 2);
    assert(ps0@[0] == p0_0);
    assert(ps0@[1] == p0_1);
    let a0 = Action::Prepend(t("head"), t("tail"));
    let v0 = alt(ps0, a0);
    let vs = vec![v0];
    assert(vs@[0] == v0);
    let r = rule("names", vs);
    proof {
        let d = names_shape();
        assert(variant_is(r.variants@[0], d.variants[0]));
    }
    r
}

/// The grammar of grammar sources. Each rule builds a node whose tag says
/// which form was read; `grammar_file`, the first rule, is the only public
/// one.
pub fn meta_grammar() -> (r: GrammarDefinition)
    ensures
        is_meta_grammar(r),
{
    let rules = vec![
        build_grammar_file(),
        build_visibility(),
        build_parent(),
        build_option(),
        build_option_value(),
        build_rule_def(),
        build_result_type(),
        build_variants(),
        build_variant(),
        build_pattern(),
        build_wrapper(),
        build_atom(),
        build_group_action(),
        build_suffix(),
        build_action(),
        build_names(),
    ];
    let r = GrammarDefinition {
        name: t("GrammarFormat"),
        inherits: None,
        implicit_whitespace: true,
        options: Vec::new(),
        rules,
    };
    assert forall|k: int| 0 <= k < meta_shapes().len() implies rule_is(#[trigger] r.rules@[k], meta_shapes()[k]) by {
        if k == 0 {
            assert(r.rules@[k] == rules@[0]);
        }
        if k == 1 {
            assert(r.rules@[k] == rules@[1]);
        }
        if k == 2 {
            assert(r.rules@[k] == rules@[2]);
        }
        if k == 3 {
            assert(r.rules@[k] == rules@[3]);
        }
        if k == 4 {
            assert(r.rules@[k] == rules@[4]);
        }
        if k == 5 {
            assert(r.rules@[k] == rules@[5]);
        }
        if k == 6 {
            assert(r.rules@[k] == rules@[6]);
        }
        if k == 7 {
            assert(r.rules@[k] == rules@[7]);
        }
        if k == 8 {
            assert(r.rules@[k] == rules@[8]);
        }
        if k == 9 {
            assert(r.rules@[k] == rules@[9]);
        }
        if k == 10 {
            assert(r.rules@[k] == rules@[10]);
        }
        if k == 11 {
            assert(r.rules@[k] == rules@[11]);
        }
        if k == 12 {
            assert(r.rules@[k] == rules@[12]);
        }
        if k == 13 {
            assert(r.rules@[k] == rules@[13]);
        }
        if k == 14 {
            assert(r.rules@[k] == rules@[14]);
        }
        if k == 15 {
            assert(r.rules@[k] == rules@[15]);
        }
    }
    r
}

/// The depth budget for reading grammar sources.
pub const LOADER_RECURSION_LIMIT: u64 = 512;

/// Reads grammar sources into grammar definitions.
pub struct GrammarLoader {
    parser: Parser,
}

impl GrammarLoader {
    #[verifier::type_invariant]
    spec fn runs_format(&self) -> bool {
        &&& is_meta_grammar(self.parser.grammar())
        &&& self.parser.depth_limit() == LOADER_RECURSION_LIMIT
    }

    /// The grammar that the loader runs over sources; `is_meta_grammar`
    /// says which one it is.
    pub closed spec fn format(&self) -> GrammarDefinition {
        self.parser.grammar()
    }

    pub fn new() -> (r: Self)
        ensures
            is_meta_grammar(r.format()),
    {
        GrammarLoader { parser: Parser::new_checked(meta_grammar(), LOADER_RECURSION_LIMIT) }
    }

    /// Reads one grammar source, running the grammar of grammar sources over
    /// it (see `meta_shapes`). When the source does not follow the format,
    /// the error gives the offset where reading stopped and what was expected
    /// there. Otherwise the result is the grammar that the parse tree
    /// describes, whenever the tree has the shape of one (which every tree
    /// that describes a grammar has); else the error is at the end of the
    /// source.
    pub fn load(&self, source: &str) -> (r: Result<GrammarDefinition, GrammarError>)
        ensures
            is_meta_grammar(self.format()),
            match eval_entry(
                self.format(),
                "grammar_file"@,
                source@,
                LOADER_RECURSION_LIMIT as nat,
            ) {
                Step::Matched(v, _, _) => {
                    &&& r is Ok <==> grammar_ok(v)
                    &&& r is Ok ==> grammar_from(v, r->Ok_0)
                    &&& r is Err ==> r->Err_0 is GrammarSyntaxError
                },
                Step::Failed(q, x) => match r {
                    Err(GrammarError::GrammarSyntaxError { position, message }) => position == q
                        && message@ == x,
                    _ => false,
                },
            },
    {
        proof {
            use_type_invariant(self);
        }
        match self.parser.parse("grammar_file", source) {
            Ok(v) => match convert_grammar(&v) {
                Some(g) => {
                    proof {
                        lemma_described_is_well_formed(model_of(v), g);
                    }
                    Ok(g)
                },
                None => Err(
                    GrammarError::GrammarSyntaxError {
                        position: source.unicode_len(),
                        message: String::from_str("a grammar definition"),
                    },
                ),
            },
            Err(e) => Err(GrammarError::GrammarSyntaxError { position: e.position, message: e.expected }),
        }
    }
}

} // verus!
