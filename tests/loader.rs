use nikaia_grammar::compiler::compile;
use nikaia_grammar::error::GrammarError;
use nikaia_grammar::loader::{meta_grammar, GrammarLoader};
use nikaia_grammar::model::{Action, GrammarOption, OptionValue, Pattern, RepeatKind};
use nikaia_grammar::resolver::GrammarResolver;
use nikaia_grammar::value::Value;

fn s(t: &str) -> String {
    t.to_string()
}

const LISTS: &str = r#"
pub grammar Lists {
    implicit_whitespace = true;
    recursion_limit = 64;
    pub rule list -> List = head:item tail:("," e:item -> { e })* -> { prepend(head, tail) }
    rule item -> Text = d:digits -> { d }
}
"#;

#[test]
fn meta_grammar_is_well_formed() {
    assert!(compile(meta_grammar()).is_ok());
}

#[test]
fn loads_list_grammar() {
    let g = GrammarLoader::new().load(LISTS).unwrap();
    assert_eq!(g.name, "Lists");
    assert_eq!(g.inherits, None);
    assert!(g.implicit_whitespace);
    assert_eq!(
        g.options,
        vec![
            GrammarOption { name: s("implicit_whitespace"), value: OptionValue::Bool(true) },
            GrammarOption { name: s("recursion_limit"), value: OptionValue::Int(64) },
        ]
    );
    assert_eq!(g.rules.len(), 2);
    let list = &g.rules[0];
    assert!(list.is_pub);
    assert_eq!(list.name, "list");
    assert_eq!(list.return_type, "List");
    assert_eq!(list.variants.len(), 1);
    assert_eq!(list.variants[0].action, Action::Prepend(s("head"), s("tail")));
    assert_eq!(
        list.variants[0].pattern[0],
        Pattern::RuleCall { binding: Some(s("head")), rule_name: s("item"), args: vec![] }
    );
    assert_eq!(
        list.variants[0].pattern[1],
        Pattern::Repeat {
            binding: Some(s("tail")),
            pattern: Box::new(Pattern::Group {
                patterns: vec![
                    Pattern::Lit(s(",")),
                    Pattern::RuleCall { binding: Some(s("e")), rule_name: s("item"), args: vec![] },
                ],
                action: Action::Ref(s("e")),
            }),
            kind: RepeatKind::ZeroOrMore,
        }
    );
    assert!(!g.rules[1].is_pub);
    let p = compile(g).unwrap();
    assert_eq!(p.recursion_limit(), 64);
    assert_eq!(
        p.parse("list", "1, 2 ,3"),
        Ok(Value::List(vec![Value::Text(s("1")), Value::Text(s("2")), Value::Text(s("3"))]))
    );
}

const BASE: &str = r#"
grammar Base {
    implicit_whitespace = true;
    pub rule stmt -> Stmt = l:let_stmt -> { l }
    rule let_stmt -> Stmt = "let" n:identifier v:("=" x:digits -> { x })? ";"? -> { Let(n, v) }
}
"#;

const CHILD: &str = r#"
grammar Child : Base {
    implicit_whitespace = true;
    pub rule stmt -> Stmt = l:let_stmt -> { l } | e:expr_stmt -> { e }
    rule expr_stmt -> Stmt = c:identifier "(" ")" -> { Call(c) } | () -> { Empty() }
}
"#;

#[test]
fn loaded_grammars_inherit() {
    let loader = GrammarLoader::new();
    let base = loader.load(BASE).unwrap();
    let child = loader.load(CHILD).unwrap();
    assert_eq!(child.inherits, Some(s("Base")));
    assert_eq!(child.rules[1].return_type, "Stmt");
    assert_eq!(child.rules[1].variants[1].action, Action::Node(s("Empty"), vec![]));
    let res = GrammarResolver::new("grammars").resolve("Child", vec![base, child]).unwrap();
    assert_eq!(res.notes, vec![s("stmt")]);
    let g = res.grammar;
    assert_eq!(g.rules[0].variants.len(), 2);
    let p = compile(g).unwrap();
    assert_eq!(
        p.parse("stmt", "let x = 5;"),
        Ok(Value::Node(s("Let"), vec![Value::Text(s("x")), Value::Present(Box::new(Value::Text(s("5"))))]))
    );
    assert_eq!(p.parse("stmt", "f()"), Ok(Value::Node(s("Call"), vec![Value::Text(s("f"))])));
}

#[test]
fn unit_result_type_is_read() {
    let src = "grammar U { implicit_whitespace = false; rule skip -> () = whitespace -> { () } }";
    let g = GrammarLoader::new().load(src).unwrap();
    assert!(!g.implicit_whitespace);
    assert_eq!(g.rules[0].return_type, "()");
    assert_eq!(g.rules[0].variants[0].action, Action::Unit);
    assert_eq!(
        g.rules[0].variants[0].pattern,
        vec![Pattern::RuleCall { binding: None, rule_name: s("whitespace"), args: vec![] }]
    );
}

#[test]
fn malformed_source_reports_position() {
    let err = GrammarLoader::new().load("grammar Broken { rule r -> T = \"a\" }").unwrap_err();
    match err {
        GrammarError::GrammarSyntaxError { position, message } => {
            assert_eq!(position, 35);
            assert_eq!(message, "?");
        }
        other => panic!("unexpected error {:?}", other),
    }
}

#[test]
fn loaded_grammar_without_parent_resolves_unchanged() {
    let loader = GrammarLoader::new();
    let res = GrammarResolver::new("g").resolve("Lists", vec![loader.load(LISTS).unwrap()]).unwrap();
    assert_eq!(res.grammar, loader.load(LISTS).unwrap());
    assert!(res.notes.is_empty());
}

#[test]
fn oversized_integer_option_is_refused() {
    let src = "grammar Big { recursion_limit = 99999999999999999999; rule r -> T = \"x\" -> { () } }";
    let err = GrammarLoader::new().load(src).unwrap_err();
    assert_eq!(err, GrammarError::GrammarSyntaxError { position: src.chars().count(), message: s("a grammar definition") });
}

#[test]
fn delimiter_sugar_expands_to_literals() {
    let src = r#"
grammar Calls {
    implicit_whitespace = true;
    pub rule call -> Expr = f:identifier parenthesized(a:identifier bracketed(i:digits)) -> { Call(f, a, i) }
}
"#;
    let g = GrammarLoader::new().load(src).unwrap();
    let ps = &g.rules[0].variants[0].pattern;
    let lits: Vec<Option<String>> = ps
        .iter()
        .map(|p| match p {
            Pattern::Lit(t) => Some(t.clone()),
            _ => None,
        })
        .collect();
    assert_eq!(lits, vec![None, Some(s("(")), None, Some(s("[")), None, Some(s("]")), Some(s(")"))]);
    assert_eq!(ps[2], Pattern::RuleCall { binding: Some(s("a")), rule_name: s("identifier"), args: vec![] });
    let p = compile(g).unwrap();
    assert_eq!(
        p.parse("call", "f ( x [3] )"),
        Ok(Value::Node(s("Call"), vec![Value::Text(s("f")), Value::Text(s("x")), Value::Text(s("3"))]))
    );
}

#[test]
fn whitespace_policy_must_be_declared_once() {
    let loader = GrammarLoader::new();
    let missing = "grammar M { rule r -> T = \"x\" -> { () } }";
    let err = GrammarError::GrammarSyntaxError { position: missing.chars().count(), message: s("a grammar definition") };
    assert_eq!(loader.load(missing).unwrap_err(), err);
    let twice = "grammar M { implicit_whitespace = true; implicit_whitespace = false; rule r -> T = \"x\" -> { () } }";
    assert!(matches!(loader.load(twice), Err(GrammarError::GrammarSyntaxError { .. })));
    let not_bool = "grammar M { implicit_whitespace = 1; rule r -> T = \"x\" -> { () } }";
    assert!(matches!(loader.load(not_bool), Err(GrammarError::GrammarSyntaxError { .. })));
    let once = "grammar M { implicit_whitespace = false; rule r -> T = \"x\" -> { () } }";
    assert!(!loader.load(once).unwrap().implicit_whitespace);
}
