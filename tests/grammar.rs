use nikaia_grammar::compiler::compile;
use nikaia_grammar::cursor::Cursor;
use nikaia_grammar::error::{GrammarError, ParseFailure};
use nikaia_grammar::model::{
    Action, GrammarDefinition, GrammarOption, OptionValue, Pattern, RepeatKind, Rule, RuleVariant,
};
use nikaia_grammar::parser::Parser;
use nikaia_grammar::resolver::{merge, GrammarResolver};
use nikaia_grammar::value::Value;

fn s(t: &str) -> String {
    t.to_string()
}

fn lit(t: &str) -> Pattern {
    Pattern::Lit(s(t))
}

fn call(binding: Option<&str>, name: &str) -> Pattern {
    Pattern::RuleCall { binding: binding.map(s), rule_name: s(name), args: vec![] }
}

fn repeat(binding: Option<&str>, pattern: Pattern, kind: RepeatKind) -> Pattern {
    Pattern::Repeat { binding: binding.map(s), pattern: Box::new(pattern), kind }
}

fn variant(pattern: Vec<Pattern>, action: Action) -> RuleVariant {
    RuleVariant { pattern, action }
}

fn rule(name: &str, is_pub: bool, variants: Vec<RuleVariant>) -> Rule {
    Rule { is_pub, name: s(name), return_type: s("Value"), variants }
}

fn grammar(name: &str, inherits: Option<&str>, implicit_whitespace: bool, rules: Vec<Rule>) -> GrammarDefinition {
    GrammarDefinition { name: s(name), inherits: inherits.map(s), implicit_whitespace, options: vec![], rules }
}

fn text(t: &str) -> Value {
    Value::Text(s(t))
}

fn rule_names(g: &GrammarDefinition) -> Vec<String> {
    g.rules.iter().map(|r| r.name.clone()).collect()
}

fn parser(g: GrammarDefinition) -> Parser {
    compile(g).expect("grammar should compile")
}

// `greeting = "hi" name:identifier -> { name }`
fn greeting_grammar(implicit_whitespace: bool) -> GrammarDefinition {
    grammar(
        "Greeting",
        None,
        implicit_whitespace,
        vec![rule(
            "greeting",
            true,
            vec![variant(vec![lit("hi"), call(Some("name"), "identifier")], Action::Ref(s("name")))],
        )],
    )
}

// `list = head:item tail:("," e:item -> {e})* -> { prepend(head, tail) }`
fn list_grammar() -> GrammarDefinition {
    let tail = Pattern::Group {
        patterns: vec![lit(","), call(Some("e"), "item")],
        action: Action::Ref(s("e")),
    };
    grammar(
        "Lists",
        None,
        true,
        vec![
            rule(
                "list",
                true,
                vec![variant(
                    vec![call(Some("head"), "item"), repeat(Some("tail"), tail, RepeatKind::ZeroOrMore)],
                    Action::Prepend(s("head"), s("tail")),
                )],
            ),
            rule("item", false, vec![variant(vec![call(Some("d"), "digits")], Action::Ref(s("d")))]),
        ],
    )
}

fn stmt_rule(with_expr: bool) -> Rule {
    let mut variants = vec![variant(vec![call(Some("l"), "let_stmt")], Action::Ref(s("l")))];
    if with_expr {
        variants.push(variant(vec![call(Some("e"), "expr_stmt")], Action::Ref(s("e"))));
    }
    rule("stmt", true, variants)
}

fn base_grammar() -> GrammarDefinition {
    grammar(
        "Base",
        None,
        true,
        vec![
            stmt_rule(false),
            rule(
                "let_stmt",
                false,
                vec![variant(
                    vec![lit("let"), call(Some("n"), "identifier")],
                    Action::Node(s("Let"), vec![s("n")]),
                )],
            ),
        ],
    )
}

fn child_grammar() -> GrammarDefinition {
    grammar(
        "Child",
        Some("Base"),
        true,
        vec![
            stmt_rule(true),
            rule(
                "expr_stmt",
                false,
                vec![variant(vec![call(Some("x"), "identifier")], Action::Node(s("Expr"), vec![s("x")]))],
            ),
        ],
    )
}

#[test]
fn greeting_yields_bound_name() {
    let p = parser(greeting_grammar(true));
    assert_eq!(p.parse("greeting", "hi bob"), Ok(text("bob")));
}

#[test]
fn greeting_fails_at_offset_zero() {
    let p = parser(greeting_grammar(true));
    let err = p.parse("greeting", "bye bob").unwrap_err();
    assert_eq!(err.position, 0);
    assert_eq!(err.expected, "greeting");
}

#[test]
fn explicit_whitespace_policy_does_not_skip() {
    let p = parser(greeting_grammar(false));
    let err = p.parse("greeting", "hi bob").unwrap_err();
    assert_eq!(err, ParseFailure { position: 2, expected: s("identifier") });
    assert_eq!(p.parse("greeting", "hibob"), Ok(text("bob")));
    let explicit = grammar(
        "Explicit",
        None,
        false,
        vec![rule(
            "greeting",
            true,
            vec![variant(
                vec![lit("hi"), call(None, "whitespace"), call(Some("name"), "identifier")],
                Action::Ref(s("name")),
            )],
        )],
    );
    assert_eq!(parser(explicit).parse("greeting", "hi   bob"), Ok(text("bob")));
}

#[test]
fn list_yields_ordered_sequence() {
    let p = parser(list_grammar());
    assert_eq!(p.parse("list", "1,2,3"), Ok(Value::List(vec![text("1"), text("2"), text("3")])));
    assert_eq!(p.parse("list", "42"), Ok(Value::List(vec![text("42")])));
}

#[test]
fn list_fails_on_empty_input() {
    let p = parser(list_grammar());
    let err = p.parse("list", "").unwrap_err();
    assert_eq!(err.position, 0);
}

#[test]
fn trailing_input_reports_deepest_failure() {
    let p = parser(list_grammar());
    assert_eq!(p.parse("list", "1,2 x"), Err(ParseFailure { position: 4, expected: s(",") }));
    let greet = parser(greeting_grammar(true));
    assert_eq!(greet.parse("greeting", "hi bob !"), Err(ParseFailure { position: 7, expected: s("end of input") }));
}

#[test]
fn child_override_replaces_whole_rule() {
    let resolver = GrammarResolver::new("grammars");
    let res = resolver.resolve("Child", vec![child_grammar(), base_grammar()]).unwrap();
    let g = res.grammar;
    assert_eq!(g.name, "Child");
    assert_eq!(g.inherits, None);
    assert_eq!(rule_names(&g), vec![s("stmt"), s("let_stmt"), s("expr_stmt")]);
    assert_eq!(g.rules[0], stmt_rule(true));
    assert_eq!(g.rules[0].variants.len(), 2);
    assert_eq!(res.notes, vec![s("stmt")]);
    let p = parser(g);
    assert_eq!(p.parse("stmt", "let x"), Ok(Value::Node(s("Let"), vec![text("x")])));
    assert_eq!(p.parse("stmt", "y"), Ok(Value::Node(s("Expr"), vec![text("y")])));
}

#[test]
fn base_alone_cannot_reach_expression_statements() {
    let resolver = GrammarResolver::new("grammars");
    let g = resolver.resolve("Base", vec![child_grammar(), base_grammar()]).unwrap().grammar;
    let p = parser(g);
    assert!(p.parse("stmt", "y").is_err());
}

#[test]
fn grammar_without_parent_resolves_to_itself() {
    let resolver = GrammarResolver::new("grammars");
    let res = resolver.resolve("Lists", vec![list_grammar()]).unwrap();
    assert_eq!(res.grammar, list_grammar());
    assert!(res.notes.is_empty());
}

fn one_rule(name: &str, tag: &str) -> Rule {
    rule(name, true, vec![variant(vec![lit(tag)], Action::Unit)])
}

#[test]
fn three_generations_override_and_extend() {
    let gp = grammar("Grandparent", None, true, vec![one_rule("a", "gp"), one_rule("b", "gp"), one_rule("c", "gp")]);
    let p = grammar("Parent", Some("Grandparent"), true, vec![one_rule("b", "p"), one_rule("d", "p")]);
    let c = grammar("Child", Some("Parent"), true, vec![one_rule("a", "c"), one_rule("e", "c"), one_rule("d", "c")]);
    let res = GrammarResolver::new("g").resolve("Child", vec![c, p, gp]).unwrap();
    let g = res.grammar;
    assert_eq!(rule_names(&g), vec![s("a"), s("b"), s("c"), s("d"), s("e")]);
    assert_eq!(g.rules[0], one_rule("a", "c"));
    assert_eq!(g.rules[1], one_rule("b", "p"));
    assert_eq!(g.rules[2], one_rule("c", "gp"));
    assert_eq!(g.rules[3], one_rule("d", "c"));
    assert_eq!(g.rules[4], one_rule("e", "c"));
    assert_eq!(res.notes, vec![s("b"), s("a"), s("d")]);
}

#[test]
fn resolving_in_one_pass_equals_parent_then_merge() {
    let make = || {
        (
            grammar("Grandparent", None, true, vec![one_rule("a", "gp"), one_rule("b", "gp")]),
            grammar("Parent", Some("Grandparent"), true, vec![one_rule("b", "p"), one_rule("c", "p")]),
            grammar("Child", Some("Parent"), false, vec![one_rule("c", "c"), one_rule("a", "c")]),
        )
    };
    let resolver = GrammarResolver::new("g");
    let (gp, p, c) = make();
    let whole = resolver.resolve("Child", vec![gp, p, c]).unwrap().grammar;
    let (gp, p, c) = make();
    let parent = resolver.resolve("Parent", vec![gp, p]).unwrap().grammar;
    let mut notes = Vec::new();
    let stepwise = merge(parent, c, &mut notes);
    assert_eq!(whole, stepwise);
    assert_eq!(notes, vec![s("c"), s("a")]);
    assert!(!whole.implicit_whitespace);
}

#[test]
fn merge_keeps_base_options() {
    let mut base = grammar("Base", None, true, vec![one_rule("a", "x")]);
    base.options.push(GrammarOption { name: s("recursion_limit"), value: OptionValue::Int(9) });
    let child = grammar("Child", Some("Base"), true, vec![]);
    let mut notes = Vec::new();
    let merged = merge(base, child, &mut notes);
    assert_eq!(merged.options, vec![GrammarOption { name: s("recursion_limit"), value: OptionValue::Int(9) }]);
    assert_eq!(merged.name, "Child");
    assert!(notes.is_empty());
}

#[test]
fn inheritance_cycle_is_refused() {
    let a = grammar("A", Some("B"), true, vec![]);
    let b = grammar("B", Some("A"), true, vec![]);
    let err = GrammarResolver::new("g").resolve("A", vec![a, b]).unwrap_err();
    assert_eq!(err, GrammarError::GrammarCycleError(vec![s("A"), s("B"), s("A")]));
}

#[test]
fn self_inheritance_is_refused() {
    let a = grammar("A", Some("A"), true, vec![]);
    let err = GrammarResolver::new("g").resolve("A", vec![a]).unwrap_err();
    assert_eq!(err, GrammarError::GrammarCycleError(vec![s("A"), s("A")]));
}

#[test]
fn missing_grammars_are_reported() {
    let resolver = GrammarResolver::new("g");
    assert_eq!(resolver.resolve("Nope", vec![]).unwrap_err(), GrammarError::GrammarFileNotFound(s("g/Nope.grammar")));
    let c = grammar("Child", Some("Gone"), true, vec![]);
    assert_eq!(resolver.resolve("Child", vec![c]).unwrap_err(), GrammarError::GrammarFileNotFound(s("g/Gone.grammar")));
}

#[test]
fn grammar_file_follows_naming_convention() {
    let resolver = GrammarResolver::new("grammars");
    assert_eq!(resolver.grammar_file("Core"), "grammars/Core.grammar");
}

#[test]
fn first_matching_variant_wins() {
    let g = grammar(
        "Choice",
        None,
        true,
        vec![rule(
            "word",
            true,
            vec![
                variant(vec![call(Some("x"), "identifier")], Action::Node(s("A"), vec![s("x")])),
                variant(vec![call(Some("y"), "identifier")], Action::Node(s("B"), vec![s("y")])),
            ],
        )],
    );
    assert_eq!(parser(g).parse("word", "abc"), Ok(Value::Node(s("A"), vec![text("abc")])));
}

fn backtracking_grammar() -> GrammarDefinition {
    grammar(
        "Back",
        None,
        false,
        vec![
            rule("ab", true, vec![variant(vec![lit("a"), lit("b")], Action::Unit)]),
            rule(
                "either",
                true,
                vec![
                    variant(vec![lit("a"), lit("b")], Action::Node(s("AB"), vec![])),
                    variant(vec![lit("a"), lit("c")], Action::Node(s("AC"), vec![])),
                ],
            ),
        ],
    )
}

#[test]
fn failed_rule_leaves_cursor_where_it_was() {
    let p = parser(backtracking_grammar());
    let mut cur = Cursor::new("xac");
    cur.advance(1);
    let err = p.parse_rule("ab", &mut cur).unwrap_err();
    assert_eq!(cur.position(), 1);
    assert_eq!(err, ParseFailure { position: 2, expected: s("b") });
}

#[test]
fn later_variant_matches_after_backtracking() {
    let p = parser(backtracking_grammar());
    let mut cur = Cursor::new("ac!");
    assert_eq!(p.parse_rule("either", &mut cur), Ok(Value::Node(s("AC"), vec![])));
    assert_eq!(cur.position(), 2);
}

#[test]
fn deepest_failure_is_reported() {
    let p = parser(backtracking_grammar());
    assert_eq!(p.parse("either", "ax"), Err(ParseFailure { position: 1, expected: s("b") }));
}

#[test]
fn repeating_a_nullable_primitive_is_refused() {
    let g = grammar("Bad", None, true, vec![rule("r", true, vec![variant(vec![repeat(None, call(None, "whitespace"), RepeatKind::ZeroOrMore)], Action::Unit)])]);
    assert_eq!(compile(g).err(), Some(GrammarError::EmptyMatchRepetitionError { rule: s("r") }));
}

#[test]
fn repeating_a_nullable_rule_is_refused() {
    let g = grammar(
        "Bad",
        None,
        true,
        vec![
            rule("opt", false, vec![variant(vec![repeat(Some("x"), call(None, "identifier"), RepeatKind::Optional)], Action::Unit)]),
            rule("many", true, vec![variant(vec![lit("("), repeat(None, call(None, "opt"), RepeatKind::OneOrMore), lit(")")], Action::Unit)]),
        ],
    );
    assert_eq!(compile(g).err(), Some(GrammarError::EmptyMatchRepetitionError { rule: s("many") }));
}

#[test]
fn optional_over_nullable_pattern_is_accepted() {
    let g = grammar("Ok", None, true, vec![rule("r", true, vec![variant(vec![repeat(Some("w"), call(None, "whitespace"), RepeatKind::Optional)], Action::Ref(s("w")))])]);
    let p = parser(g);
    assert_eq!(p.parse("r", "  "), Ok(Value::Present(Box::new(Value::Unit))));
}

#[test]
fn unknown_rule_reference_is_refused() {
    let g = grammar("Bad", None, true, vec![rule("r", true, vec![variant(vec![call(Some("x"), "nothing")], Action::Unit)])]);
    assert_eq!(
        compile(g).err(),
        Some(GrammarError::UnknownRuleReference { rule: s("r"), referenced: s("nothing") })
    );
}

#[test]
fn recursion_limit_bounds_nesting() {
    // nested = "(" n:nested ")" -> { n } | "x" -> { () }
    let nest = |limit: u64| {
        let nested = rule(
            "nested",
            true,
            vec![
                variant(vec![lit("("), call(Some("n"), "nested"), lit(")")], Action::Ref(s("n"))),
                variant(vec![lit("x")], Action::Unit),
            ],
        );
        let mut g = grammar("Nest", None, false, vec![nested]);
        g.options.push(GrammarOption { name: s("recursion_limit"), value: OptionValue::Int(limit) });
        parser(g)
    };
    let p = nest(3);
    assert_eq!(p.recursion_limit(), 3);
    assert_eq!(p.parse("nested", "((x))"), Ok(Value::Unit));
    let err = p.parse("nested", "(((x)))").unwrap_err();
    assert_eq!(err, ParseFailure { position: 3, expected: s("nested") });
    assert_eq!(nest(4).parse("nested", "(((x)))"), Ok(Value::Unit));
}

#[test]
fn default_recursion_limit_applies() {
    let p = parser(list_grammar());
    assert_eq!(p.recursion_limit(), 256);
}

#[test]
fn only_public_rules_are_entry_points() {
    let p = parser(list_grammar());
    assert_eq!(p.parse("item", "1"), Err(ParseFailure { position: 0, expected: s("item") }));
    assert_eq!(p.parse("absent", "1"), Err(ParseFailure { position: 0, expected: s("absent") }));
}

#[test]
fn string_and_optional_values() {
    let g = grammar(
        "Strings",
        None,
        true,
        vec![rule(
            "entry",
            true,
            vec![variant(
                vec![call(Some("k"), "string"), repeat(Some("v"), call(None, "digits"), RepeatKind::Optional)],
                Action::Node(s("Entry"), vec![s("k"), s("v"), s("missing")]),
            )],
        )],
    );
    let p = parser(g);
    assert_eq!(
        p.parse("entry", "\"key\" 7"),
        Ok(Value::Node(s("Entry"), vec![text("key"), Value::Present(Box::new(text("7"))), Value::Absent]))
    );
    assert_eq!(
        p.parse("entry", "\"key\""),
        Ok(Value::Node(s("Entry"), vec![text("key"), Value::Absent, Value::Absent]))
    );
    assert_eq!(p.parse("entry", "\"open"), Err(ParseFailure { position: 5, expected: s("\"") }));
}

#[test]
fn one_or_more_needs_an_item() {
    let g = grammar("Digits", None, true, vec![rule("ds", true, vec![variant(vec![repeat(Some("d"), call(None, "digits"), RepeatKind::OneOrMore)], Action::Ref(s("d")))])]);
    let p = parser(g);
    assert_eq!(p.parse("ds", "1 22 333"), Ok(Value::List(vec![text("1"), text("22"), text("333")])));
    assert_eq!(p.parse("ds", "x"), Err(ParseFailure { position: 0, expected: s("ds") }));
}

#[test]
fn cursor_moves_and_restores() {
    let mut cur = Cursor::new("héllo");
    assert_eq!(cur.len(), 5);
    assert_eq!(cur.peek(1), Some('é'));
    let mark = cur.mark();
    cur.advance(3);
    assert_eq!(cur.position(), 3);
    assert_eq!(cur.span_since(mark), (0, 3));
    assert_eq!(cur.text_between(1, 4), "éll");
    assert_eq!(cur.peek(2), None);
    cur.reset(mark);
    assert_eq!(cur.position(), 0);
    assert_eq!(cur.char_at(4), 'o');
}

#[test]
fn merging_is_associative() {
    let make = || {
        (
            grammar("Grandparent", None, true, vec![one_rule("a", "gp"), one_rule("b", "gp")]),
            grammar("Parent", None, true, vec![one_rule("b", "p"), one_rule("c", "p")]),
            grammar("Child", None, true, vec![one_rule("c", "c"), one_rule("a", "c"), one_rule("d", "c")]),
        )
    };
    let mut notes = Vec::new();
    let (gp, p, c) = make();
    let left = merge(merge(gp, p, &mut notes), c, &mut notes);
    let (gp, p, c) = make();
    let right = merge(gp, merge(p, c, &mut notes), &mut notes);
    assert_eq!(left, right);
    assert_eq!(rule_names(&left), vec![s("a"), s("b"), s("c"), s("d")]);
}
