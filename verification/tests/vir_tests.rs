use hazardflow::compiler::error::VirgenError;
use hazardflow::compiler::prelude::Shape;
use hazardflow::vir::analysis::detect_comb_loop::detect_comb_loop;
use hazardflow::vir::integrate::integrate;
use hazardflow::vir::ir::{
    ContinuousAssign, Declaration, Expression, Module, ModuleInstantiation, ModuleItem, PortDeclaration, Statement,
};
use hazardflow::vir::opt::inline_always::inline_always;
use hazardflow::vir::utils::extract_decls;

fn id(s: &str) -> Expression {
    Expression::ident(s.to_string())
}

fn num(s: &str) -> Expression {
    Expression::number(s.to_string())
}

fn bit() -> Shape {
    Shape::new(vec![1], false)
}

fn assign(l: &str, r: &str) -> ContinuousAssign {
    ContinuousAssign::new(id(l), id(r))
}

fn module(ports: Vec<PortDeclaration>, items: Vec<ModuleItem>) -> Module {
    Module { name: "m".to_string(), port_decls: ports, module_items: items }
}

fn analysis_msg(r: Result<(), VirgenError>) -> String {
    match r {
        Err(VirgenError::AnalysisError { msg }) => msg,
        other => panic!("unexpected result {:?}", other),
    }
}

#[test]
fn extract_decls_in_order() {
    let m = module(
        vec![PortDeclaration::input(1, "a".to_string()), PortDeclaration::output(2, "b".to_string())],
        vec![
            ModuleItem::Declarations(vec![Declaration::net(bit(), "w".to_string())]),
            ModuleItem::ContinuousAssigns(vec![assign("b", "w")]),
            ModuleItem::Commented(
                "c".to_string(),
                None,
                vec![ModuleItem::Declarations(vec![Declaration::integer("k".to_string())])],
            ),
        ],
    );
    assert_eq!(extract_decls(&m), vec!["a", "b", "w", "k"]);
}

#[test]
fn replace_renames_declared_names() {
    let m = module(
        vec![PortDeclaration::input(1, "a".to_string())],
        vec![
            ModuleItem::Declarations(vec![Declaration::net(bit(), "w".to_string())]),
            ModuleItem::ContinuousAssigns(vec![assign("w", "a")]),
        ],
    );
    let renames = vec![("a".to_string(), "m_a".to_string()), ("w".to_string(), "m_w".to_string())];
    let r = m.replace(&renames);
    assert_eq!(extract_decls(&r), vec!["m_a", "m_w"]);
    let expected = module(
        vec![PortDeclaration::input(1, "m_a".to_string())],
        vec![
            ModuleItem::Declarations(vec![Declaration::net(bit(), "m_w".to_string())]),
            ModuleItem::ContinuousAssigns(vec![assign("m_w", "m_a")]),
        ],
    );
    assert_eq!(format!("{:?}", r), format!("{:?}", expected));
}

#[test]
fn replace_with_nothing_changes_nothing() {
    let m = module(
        vec![PortDeclaration::output(3, "o".to_string())],
        vec![ModuleItem::AlwaysConstruct(
            "always @(posedge clk)".to_string(),
            vec![Statement::NonblockingAssignment(id("o"), Expression::binary(hazardflow::compiler::ops::BinaryOp::Add, id("o"), num("1")))],
        )],
    );
    let r = m.replace(&vec![]);
    assert_eq!(format!("{:?}", r), format!("{:?}", m));
}

#[test]
fn replace_later_pair_wins() {
    let e = id("x");
    let r = e.replace(&vec![("x".to_string(), "y".to_string()), ("x".to_string(), "z".to_string())]);
    assert_eq!(format!("{:?}", r), format!("{:?}", id("z")));
}

#[test]
fn inline_always_blocking_assignment() {
    let m = module(
        vec![PortDeclaration::input(1, "a".to_string())],
        vec![
            ModuleItem::Declarations(vec![Declaration::reg(bit(), "x".to_string())]),
            ModuleItem::AlwaysConstruct("always @*".to_string(), vec![Statement::BlockingAssignment(id("x"), id("a"))]),
        ],
    );
    let r = inline_always(m);
    let expected = module(
        vec![PortDeclaration::input(1, "a".to_string())],
        vec![
            ModuleItem::Declarations(vec![Declaration::net(bit(), "x".to_string())]),
            ModuleItem::ContinuousAssigns(vec![assign("x", "a")]),
            ModuleItem::AlwaysConstruct("always @*".to_string(), vec![]),
        ],
    );
    assert_eq!(format!("{:?}", r), format!("{:?}", expected));
}

#[test]
fn inline_always_conditional() {
    let stmt = Statement::Conditional(
        vec![
            (id("c1"), vec![Statement::BlockingAssignment(id("x"), num("1"))]),
            (id("c2"), vec![Statement::BlockingAssignment(id("x"), num("2"))]),
        ],
        vec![Statement::BlockingAssignment(id("x"), num("3"))],
    );
    let m = module(vec![], vec![ModuleItem::AlwaysConstruct("always @*".to_string(), vec![stmt])]);
    let r = inline_always(m);
    let value = Expression::conditional(id("c1"), num("1"), Expression::conditional(id("c2"), num("2"), num("3")));
    let expected = module(
        vec![],
        vec![
            ModuleItem::ContinuousAssigns(vec![ContinuousAssign::new(id("x"), value)]),
            ModuleItem::AlwaysConstruct("always @*".to_string(), vec![]),
        ],
    );
    assert_eq!(format!("{:?}", r), format!("{:?}", expected));
}

#[test]
fn inline_always_keeps_indexed_and_sequential() {
    let indexed = Expression::Primary(hazardflow::vir::ir::Primary::HierarchicalIdentifier(
        "v".to_string(),
        Some(hazardflow::vir::ir::Range::new_index(num("0"))),
    ));
    let stmts = vec![
        Statement::BlockingAssignment(indexed, num("1")),
        Statement::BlockingAssignment(id("v"), num("0")),
    ];
    let seq_block = ModuleItem::AlwaysConstruct("always @(posedge clk)".to_string(), vec![Statement::BlockingAssignment(id("y"), num("0"))]);
    let m = module(vec![], vec![ModuleItem::AlwaysConstruct("always @*".to_string(), stmts), seq_block]);
    let before = format!("{:?}", m.module_items[1]);
    let r = inline_always(m);
    // `v` is indexed in the block, so both assignments stay; the sequential block is untouched.
    assert_eq!(r.module_items.len(), 3);
    match &r.module_items[0] {
        ModuleItem::ContinuousAssigns(c) => assert!(c.is_empty()),
        other => panic!("unexpected item {:?}", other),
    }
    match &r.module_items[1] {
        ModuleItem::AlwaysConstruct(_, s) => assert_eq!(s.len(), 2),
        other => panic!("unexpected item {:?}", other),
    }
    assert_eq!(format!("{:?}", r.module_items[2]), before);
}

#[test]
fn comb_loop_absent() {
    let m = module(
        vec![PortDeclaration::input(1, "a".to_string()), PortDeclaration::output(1, "b".to_string())],
        vec![
            ModuleItem::Declarations(vec![Declaration::net(bit(), "c".to_string())]),
            ModuleItem::ContinuousAssigns(vec![assign("c", "a"), assign("b", "c")]),
        ],
    );
    assert!(detect_comb_loop(&m).is_ok());
}

#[test]
fn comb_loop_detected() {
    let m = module(
        vec![PortDeclaration::input(1, "a".to_string()), PortDeclaration::output(1, "b".to_string())],
        vec![
            ModuleItem::Declarations(vec![Declaration::net(bit(), "c".to_string())]),
            ModuleItem::ContinuousAssigns(vec![assign("c", "b"), assign("b", "c")]),
        ],
    );
    assert_eq!(analysis_msg(detect_comb_loop(&m)), "Combinational loop detected. Stack b -> c");
}

#[test]
fn comb_self_loop() {
    let m = module(
        vec![PortDeclaration::output(1, "b".to_string())],
        vec![ModuleItem::ContinuousAssigns(vec![ContinuousAssign::new(
            id("b"),
            Expression::binary(hazardflow::compiler::ops::BinaryOp::And, id("b"), num("1")),
        )])],
    );
    assert_eq!(analysis_msg(detect_comb_loop(&m)), "Self loop detected: \"b\"");
}

#[test]
fn comb_condition_dependency() {
    let cond = |c: &str| {
        Statement::Conditional(
            vec![(id(c), vec![Statement::BlockingAssignment(id("x"), num("1"))])],
            vec![Statement::BlockingAssignment(id("x"), num("0"))],
        )
    };
    let ok = module(
        vec![PortDeclaration::input(1, "s".to_string()), PortDeclaration::output(1, "x".to_string())],
        vec![ModuleItem::AlwaysConstruct("always @*".to_string(), vec![cond("s")])],
    );
    assert!(detect_comb_loop(&ok).is_ok());
    let bad = module(
        vec![PortDeclaration::output(1, "x".to_string())],
        vec![ModuleItem::AlwaysConstruct("always @*".to_string(), vec![cond("x")])],
    );
    assert_eq!(analysis_msg(detect_comb_loop(&bad)), "Self loop detected: \"x\"");
}

#[test]
fn comb_loop_through_condition() {
    let m = module(
        vec![],
        vec![
            ModuleItem::Declarations(vec![Declaration::net(bit(), "p".to_string()), Declaration::reg(bit(), "q".to_string())]),
            ModuleItem::ContinuousAssigns(vec![assign("p", "q")]),
            ModuleItem::AlwaysConstruct(
                "always @*".to_string(),
                vec![Statement::Conditional(
                    vec![(id("p"), vec![Statement::BlockingAssignment(id("q"), num("1"))])],
                    vec![],
                )],
            ),
        ],
    );
    assert_eq!(analysis_msg(detect_comb_loop(&m)), "Combinational loop detected. Stack p -> q");
}

#[test]
fn integrate_expands_instance() {
    let top = Module {
        name: "top".to_string(),
        port_decls: vec![
            PortDeclaration::input(1, "clk".to_string()),
            PortDeclaration::input(1, "x".to_string()),
            PortDeclaration::output(1, "y".to_string()),
        ],
        module_items: vec![ModuleItem::ModuleInstantiation(ModuleInstantiation::new(
            "sub".to_string(),
            "sub_0".to_string(),
            vec![],
            vec![("clk".to_string(), id("clk")), ("i".to_string(), id("x")), ("o".to_string(), id("y"))],
        ))],
    };
    let sub = Module {
        name: "sub".to_string(),
        port_decls: vec![
            PortDeclaration::input(1, "clk".to_string()),
            PortDeclaration::input(1, "i".to_string()),
            PortDeclaration::output(1, "o".to_string()),
        ],
        module_items: vec![ModuleItem::ContinuousAssigns(vec![assign("o", "i")])],
    };
    let r = integrate(vec![("top".to_string(), top), ("sub".to_string(), sub)], "top".to_string());
    let expected = Module {
        name: "top".to_string(),
        port_decls: vec![
            PortDeclaration::input(1, "clk".to_string()),
            PortDeclaration::input(1, "x".to_string()),
            PortDeclaration::output(1, "y".to_string()),
        ],
        module_items: vec![ModuleItem::Commented(
            "Start of sub".to_string(),
            Some("End of sub".to_string()),
            vec![
                ModuleItem::Declarations(vec![
                    Declaration::net(bit(), "sub_i".to_string()),
                    Declaration::net(bit(), "sub_o".to_string()),
                ]),
                ModuleItem::ContinuousAssigns(vec![assign("sub_i", "x"), assign("y", "sub_o")]),
                ModuleItem::ContinuousAssigns(vec![assign("sub_o", "sub_i")]),
            ],
        )],
    };
    assert_eq!(format!("{:?}", r), format!("{:?}", expected));
}

#[test]
fn integrate_keeps_unknown_instances() {
    let inst = ModuleInstantiation::new("blackbox".to_string(), "bb".to_string(), vec![("W".to_string(), 8)], vec![]);
    let top = Module {
        name: "top".to_string(),
        port_decls: vec![],
        module_items: vec![ModuleItem::ModuleInstantiation(inst.clone())],
    };
    let r = integrate(vec![("top".to_string(), top)], "top".to_string());
    assert_eq!(format!("{:?}", r.module_items), format!("{:?}", vec![ModuleItem::ModuleInstantiation(inst)]));
}

fn listed_instances(items: &[ModuleItem], names: &[&str]) -> usize {
    items
        .iter()
        .map(|it| match it {
            ModuleItem::ModuleInstantiation(inst) => names.iter().filter(|n| **n == inst.module_name).count(),
            ModuleItem::Commented(_, _, sub) => listed_instances(sub, names),
            _ => 0,
        })
        .sum()
}

#[test]
fn integrate_leaves_no_instance_of_a_listed_module() {
    let inst = |m: &str, n: &str| {
        ModuleItem::ModuleInstantiation(ModuleInstantiation::new(
            m.to_string(),
            n.to_string(),
            vec![],
            vec![("clk".to_string(), id("clk"))],
        ))
    };
    let clk_only = || vec![PortDeclaration::input(1, "clk".to_string())];
    let top = Module { name: "top".to_string(), port_decls: clk_only(), module_items: vec![inst("mid", "m0"), inst("leaf", "l0")] };
    let mid = Module { name: "mid".to_string(), port_decls: clk_only(), module_items: vec![inst("leaf", "l1"), inst("leaf", "l2")] };
    let leaf = Module { name: "leaf".to_string(), port_decls: clk_only(), module_items: vec![] };
    let r = integrate(
        vec![("top".to_string(), top), ("mid".to_string(), mid), ("leaf".to_string(), leaf)],
        "top".to_string(),
    );
    assert_eq!(r.module_items.len(), 2);
    assert_eq!(listed_instances(&r.module_items, &["top", "mid", "leaf"]), 0);
}
