//! The data model of a grammar: named rules made of ordered variants, each a
//! sequence of patterns followed by an action over the bindings it produced.
use vstd::prelude::*;

verus! {

/// How often the pattern inside a repetition may match.
#[derive(Clone, Copy, Debug, PartialEq, Eq, Structural)]
pub enum RepeatKind {
    /// `p?`: zero or one match, bound as a present or absent value.
    Optional,
    /// `p*`: any number of matches, bound as a sequence.
    ZeroOrMore,
    /// `p+`: at least one match, bound as a sequence.
    OneOrMore,
}

/// What a variant (or a group) builds from the bindings of its patterns.
#[derive(Clone, Debug, PartialEq, Eq)]
pub enum Action {
    /// `-> { () }`: the unit value.
    Unit,
    /// `-> { name }`: the value bound under `name`.
    Ref(String),
    /// `-> { prepend(head, tail) }`: the value bound under `head` followed by
    /// the elements of the sequence bound under `tail`.
    Prepend(String, String),
    /// `-> { Tag(a, b, ...) }`: a tagged node holding the values bound under
    /// the given names, in that order.
    Node(String, Vec<String>),
}

/// One matching unit of a variant.
#[derive(Debug, PartialEq, Eq)]
pub enum Pattern {
    /// An exact terminal: `"let"`.
    Lit(String),
    /// A call of another rule or of a built-in primitive: `name:ident`.
    RuleCall { binding: Option<String>, rule_name: String, args: Vec<String> },
    /// A repetition of the inner pattern: `items:item*`.
    Repeat { binding: Option<String>, pattern: Box<Pattern>, kind: RepeatKind },
    /// An atomic sub-sequence with its own action: `("," e:item -> { e })`.
    Group { patterns: Vec<Pattern>, action: Action },
}

/// One alternative of a rule: its patterns, left to right, and its action.
#[derive(Debug, PartialEq, Eq)]
pub struct RuleVariant {
    pub pattern: Vec<Pattern>,
    pub action: Action,
}

/// A named production; its variants are tried in order, the first match wins.
#[derive(Debug, PartialEq, Eq)]
pub struct Rule {
    pub is_pub: bool,
    pub name: String,
    pub return_type: String,
    pub variants: Vec<RuleVariant>,
}

/// The literal value of a grammar-level option.
#[derive(Clone, Debug, PartialEq, Eq)]
pub enum OptionValue {
    Int(u64),
    Bool(bool),
    Str(String),
}

/// A grammar-level option such as `recursion_limit = 500;`.
#[derive(Clone, Debug, PartialEq, Eq)]
pub struct GrammarOption {
    pub name: String,
    pub value: OptionValue,
}

/// A grammar as written in one source: its rules in declaration order, the
/// grammar it inherits from, and whether whitespace between tokens is skipped
/// automatically.
#[derive(Debug, PartialEq, Eq)]
pub struct GrammarDefinition {
    pub name: String,
    pub inherits: Option<String>,
    pub implicit_whitespace: bool,
    pub options: Vec<GrammarOption>,
    pub rules: Vec<Rule>,
}

/// What a grammar definition holds, as mathematical values.
pub ghost struct GrammarView {
    pub name: Seq<char>,
    pub inherits: Option<Seq<char>>,
    pub implicit_whitespace: bool,
    pub options: Seq<GrammarOption>,
    pub rules: Seq<Rule>,
}

impl View for GrammarDefinition {
    type V = GrammarView;

    open spec fn view(&self) -> GrammarView {
        GrammarView {
            name: self.name@,
            inherits: match self.inherits {
                Some(p) => Some(p@),
                None => None,
            },
            implicit_whitespace: self.implicit_whitespace,
            options: self.options@,
            rules: self.rules@,
        }
    }
}

/// The characters of each string, in order.
pub open spec fn views_of(v: Seq<String>) -> Seq<Seq<char>> {
    v.map_values(|s: String| s@)
}

/// The names of a sequence of rules, in order.
pub open spec fn rule_names(rules: Seq<Rule>) -> Seq<Seq<char>> {
    rules.map_values(|r: Rule| r.name@)
}

/// The first position of `name` in `names`, if any.
pub open spec fn find_name(names: Seq<Seq<char>>, name: Seq<char>) -> Option<int>
    decreases names.len(),
{
    if names.len() == 0 {
        None
    } else {
        match find_name(names.drop_last(), name) {
            Some(i) => Some(i),
            None => if names.last() == name {
                Some(names.len() - 1)
            } else {
                None
            },
        }
    }
}

/// No name occurs twice.
pub open spec fn distinct_names(names: Seq<Seq<char>>) -> bool {
    forall|i: int, j: int| 0 <= i < j < names.len() ==> names[i] != names[j]
}

pub proof fn lemma_find_name(names: Seq<Seq<char>>, name: Seq<char>)
    ensures
        match find_name(names, name) {
            Some(i) => 0 <= i < names.len() && names[i] == name && forall|j: int|
                0 <= j < i ==> names[j] != name,
            None => forall|j: int| 0 <= j < names.len() ==> names[j] != name,
        },
    decreases names.len(),
{
    if names.len() > 0 {
        let init = names.drop_last();
        lemma_find_name(init, name);
        assert forall|j: int| 0 <= j < init.len() implies init[j] == names[j] by {}
    }
}

/// Finds the first position of `name` among `names`.
pub fn find_name_in(names: &Vec<String>, name: &String) -> (r: Option<usize>)
    ensures
        match r {
            Some(i) => find_name(views_of(names@), name@) == Some(i as int),
            None => find_name(views_of(names@), name@) is None,
        },
{
    let ghost view = views_of(names@);
    proof {
        lemma_find_name(view, name@);
    }
    let mut i: usize = 0;
    while i < names.len()
        invariant
            0 <= i <= names.len(),
            view == views_of(names@),
            forall|j: int| 0 <= j < i ==> view[j] != name@,
            match find_name(view, name@) {
                Some(k) => 0 <= k < view.len() && view[k] == name@ && forall|j: int|
                    0 <= j < k ==> view[j] != name@,
                None => forall|j: int| 0 <= j < view.len() ==> view[j] != name@,
            },
        decreases names.len() - i,
    {
        if names[i] == *name {
            assert(view[i as int] == name@);
            return Some(i);
        }
        assert(view[i as int] == names@[i as int]@);
        i = i + 1;
    }
    None
}

} // verus!

verus! {

/// Finds the first rule named `name`.
pub fn find_rule(rules: &Vec<Rule>, name: &String) -> (r: Option<usize>)
    ensures
        match r {
            Some(i) => find_name(rule_names(rules@), name@) == Some(i as int),
            None => find_name(rule_names(rules@), name@) is None,
        },
{
    let ghost view = rule_names(rules@);
    proof {
        lemma_find_name(view, name@);
    }
    let mut i: usize = 0;
    while i < rules.len()
        invariant
            0 <= i <= rules.len(),
            view == rule_names(rules@),
            forall|j: int| 0 <= j < i ==> view[j] != name@,
            match find_name(view, name@) {
                Some(k) => 0 <= k < view.len() && view[k] == name@ && forall|j: int|
                    0 <= j < k ==> view[j] != name@,
                None => forall|j: int| 0 <= j < view.len() ==> view[j] != name@,
            },
        decreases rules.len() - i,
    {
        assert(view[i as int] == rules@[i as int].name@);
        if rules[i].name == *name {
            return Some(i);
        }
        i = i + 1;
    }
    None
}

} // verus!
