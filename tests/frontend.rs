use nikaia_grammar::bridge::{BridgeBlock, BridgeExpr, BridgeFunction, BridgeItem, BridgeLiteral, BridgeModule, BridgeStmt};
use nikaia_grammar::frontend::{LanguageFrontend, Orchestrator};

struct Fixed;

impl LanguageFrontend for Fixed {
    fn parse(&self, source: &str) -> Result<BridgeModule, String> {
        if source.is_empty() {
            return Err("empty source".to_string());
        }
        Ok(BridgeModule {
            name: "main".to_string(),
            items: vec![BridgeItem::Function(BridgeFunction {
                name: "main".to_string(),
                args: vec![],
                ret_type: None,
                body: BridgeBlock {
                    stmts: vec![BridgeStmt::Expr(BridgeExpr::Literal(BridgeLiteral::String(source.to_string())))],
                    span: 0..source.len(),
                },
                span: 0..0,
            })],
        })
    }
}

#[test]
fn orchestrator_drives_its_frontend() {
    let o = Orchestrator::new(Fixed);
    let m = o.frontend.parse("hi").unwrap();
    assert_eq!(m.name, "main");
    match &m.items[0] {
        BridgeItem::Function(f) => {
            assert_eq!(f.body.span, 0..2);
            match &f.body.stmts[0] {
                BridgeStmt::Expr(BridgeExpr::Literal(l)) => assert_eq!(*l, BridgeLiteral::String("hi".to_string())),
                _ => panic!("expected a literal statement"),
            }
        }
        _ => panic!("expected a function"),
    }
    assert!(o.frontend.parse("").is_err());
}
