use hazardflow::compiler::expr::{Expr, ExprId, ExprTable};
use hazardflow::compiler::ops::BinaryOp;
use hazardflow::compiler::prelude::{PortDecls, Shape};

fn ubits(w: usize) -> PortDecls {
    PortDecls::Bits(Shape::new(vec![w], false))
}

fn sbits(w: usize) -> PortDecls {
    PortDecls::Bits(Shape::new(vec![w], true))
}

/// A table with an unsigned 4-bit `a` at 0 and `b` at 1, and signed 4-bit `c` at 2 and `d` at 3.
fn vars() -> ExprTable {
    let mut t = ExprTable::new();
    t.push(Expr::input(Some("a".to_string()), ubits(4)));
    t.push(Expr::input(Some("b".to_string()), ubits(4)));
    t.push(Expr::input(Some("c".to_string()), sbits(4)));
    t.push(Expr::input(Some("d".to_string()), sbits(4)));
    t
}

#[test]
fn expr_table_push_get() {
    let mut t = vars();
    let id = t.push(Expr::Not { inner: ExprId(0) });
    assert_eq!(id.0, 4);
    assert!(matches!(t.get(id), Expr::Not { inner } if inner.0 == 0));
    assert!(matches!(t.get(ExprId(1)), Expr::Var { name: Some(n), .. } if n == "b"));
}

#[test]
fn expr_add_widens_by_one() {
    let t = vars();
    let add = Expr::BinaryOp { op: BinaryOp::Add, lhs: ExprId(0), rhs: ExprId(1) };
    assert_eq!(add.width(&t), 5);
    assert_eq!(add.port_decls(&t), ubits(5));
}

#[test]
fn expr_signed_operands_give_signed_result() {
    let t = vars();
    let add = Expr::BinaryOp { op: BinaryOp::Add, lhs: ExprId(2), rhs: ExprId(3) };
    assert_eq!(add.port_decls(&t), sbits(5));
    let mixed = Expr::BinaryOp { op: BinaryOp::Sub, lhs: ExprId(2), rhs: ExprId(0) };
    assert_eq!(mixed.port_decls(&t), ubits(4));
    let shift = Expr::BinaryOp { op: BinaryOp::ShiftRight, lhs: ExprId(2), rhs: ExprId(0) };
    assert_eq!(shift.port_decls(&t), sbits(4));
}

#[test]
fn expr_mul_and_comparison_widths() {
    let t = vars();
    let mul = Expr::BinaryOp { op: BinaryOp::Mul, lhs: ExprId(0), rhs: ExprId(1) };
    assert_eq!(mul.width(&t), 8);
    let less = Expr::BinaryOp { op: BinaryOp::Less, lhs: ExprId(2), rhs: ExprId(3) };
    assert_eq!(less.width(&t), 1);
    assert_eq!(less.port_decls(&t), ubits(1));
    let modulo = Expr::BinaryOp { op: BinaryOp::Mod, lhs: ExprId(0), rhs: ExprId(1) };
    assert_eq!(modulo.width(&t), 4);
}

#[test]
fn expr_struct_member_and_zip() {
    let mut t = vars();
    let s = t.push(Expr::Struct { inner: vec![(Some("x".to_string()), ExprId(0)), (Some("y".to_string()), ExprId(2))] });
    let st = t.get(s);
    assert_eq!(st.width(&t), 8);
    assert_eq!(
        st.port_decls(&t),
        PortDecls::Struct(vec![(Some("x".to_string()), ubits(4)), (Some("y".to_string()), sbits(4))])
    );
    let m = t.member(s, 1);
    assert!(matches!(m, Expr::Member { index: 1, .. }));
    assert_eq!(m.port_decls(&t), sbits(4));
    assert_eq!(m.width(&t), 4);
    let z = Expr::Zip { inner: vec![ExprId(1), ExprId(3)], typ_inner: vec![ubits(4), sbits(4)] };
    assert_eq!(z.width(&t), 8);
    assert_eq!(
        z.port_decls(&t),
        PortDecls::Struct(vec![(Some("0".to_string()), ubits(4)), (Some("1".to_string()), sbits(4))])
    );
}

#[test]
fn expr_array_shapes() {
    let mut t = vars();
    let rep = t.push(Expr::Repeat { inner: ExprId(0), count: 3 });
    assert_eq!(t.get(rep).width(&t), 12);
    assert_eq!(t.get(rep).port_decls(&t), ubits(12));
    let elt = ubits(2);
    let concat = Expr::Concat { inner: rep, typ_elt: elt.clone() };
    assert_eq!(concat.port_decls(&t), ubits(12));
    let app = Expr::Append { lhs: ExprId(0), rhs: ExprId(1), typ_elt: elt.clone() };
    assert_eq!(app.width(&t), 8);
    assert_eq!(app.port_decls(&t), ubits(8));
    let range = Expr::Range { len: 5, typ_elt: ubits(3) };
    assert_eq!(range.width(&t), 15);
    assert_eq!(range.port_decls(&t), ubits(15));
    let clip = Expr::Clip { inner: rep, typ_elt: ubits(4), from: ExprId(1), size: 2 };
    assert_eq!(clip.width(&t), 8);
    assert_eq!(clip.port_decls(&t), ubits(8));
    let map = Expr::MapElements {
        inner: rep,
        typ_elt: ubits(4),
        len: 3,
        func: hazardflow::compiler::expr::FunctionId(0),
        func_ret_typ: ubits(1),
    };
    assert_eq!(map.width(&t), 3);
    assert_eq!(map.port_decls(&t), ubits(3));
    let repr = Expr::Repr { inner: ExprId(2) };
    assert_eq!(repr.port_decls(&t), ubits(4));
    let cast = Expr::Cast { from: ExprId(0), to: Shape::new(vec![2, 2], false) };
    assert_eq!(cast.width(&t), 4);
    let arr = Expr::ConcatArray { inner: vec![ExprId(0), ExprId(1)], elt_typ: ubits(4) };
    assert_eq!(arr.width(&t), 8);
    assert_eq!(arr.port_decls(&t), ubits(8));
}

#[test]
fn expr_cond_and_case_take_value_type() {
    let mut t = vars();
    let one = t.push(Expr::unsigned_bits(1, 1));
    assert!(matches!(t.get(one), Expr::Constant { bits, .. } if bits == &vec![true]));
    let cond = Expr::Cond { cond_expr_pair: vec![(one, ExprId(0))], default: ExprId(1) };
    assert_eq!(cond.width(&t), 4);
    assert_eq!(cond.port_decls(&t), ubits(4));
    let case = Expr::Case { case_expr: ExprId(0), case_items: vec![(ExprId(0), ExprId(2))], default: Some(ExprId(3)) };
    assert_eq!(case.width(&t), 4);
    assert_eq!(case.port_decls(&t), sbits(4));
    let only_default = Expr::Case { case_expr: ExprId(0), case_items: vec![], default: Some(ExprId(1)) };
    assert_eq!(only_default.port_decls(&t), ubits(4));
}

#[test]
fn expr_signed_constant() {
    let c = Expr::signed_bits(4, 5);
    assert!(matches!(&c, Expr::Constant { bits, typ } if bits == &vec![true, false, true, false] && typ == &sbits(4)));
    let t = ExprTable::new();
    assert_eq!(c.width(&t), 4);
}

use hazardflow::compiler::codegen::CompositeExpr;
use hazardflow::compiler::system_task::{gen_system_task, SystemTaskKind};
use hazardflow::vir::ir::{Declaration, Expression, Statement};

fn dbg<T: std::fmt::Debug>(x: &T) -> String {
    format!("{:?}", x)
}

fn id(s: &str) -> Expression {
    Expression::ident(s.to_string())
}

fn translated(wire: &str, value: &str) -> (Vec<Declaration>, Vec<Statement>, CompositeExpr<Expression>) {
    (
        vec![Declaration::net(Shape::new(vec![1], false), wire.to_string())],
        vec![Statement::BlockingAssignment(id(wire), id(value))],
        CompositeExpr::Bits(id(wire)),
    )
}

#[test]
fn system_task_disabled_generates_nothing() {
    let (decls, stmts) =
        gen_system_task(false, "x".to_string(), None, Some(translated("p", "q")), vec![translated("a", "b")]);
    assert!(decls.is_empty());
    assert!(stmts.is_empty());
}

#[test]
fn system_task_display_under_path_condition() {
    let (decls, stmts) =
        gen_system_task(true, "v=%d".to_string(), None, Some(translated("p", "q")), vec![translated("a", "b")]);
    let expected_decls = vec![
        Declaration::net(Shape::new(vec![1], false), "p".to_string()),
        Declaration::net(Shape::new(vec![1], false), "a".to_string()),
    ];
    let expected_stmts = vec![
        Statement::BlockingAssignment(id("p"), id("q")),
        Statement::BlockingAssignment(id("a"), id("b")),
        Statement::Conditional(vec![(id("p"), vec![Statement::Display("v=%d".to_string(), vec![id("a")])])], vec![]),
    ];
    assert_eq!(dbg(&decls), dbg(&expected_decls));
    assert_eq!(dbg(&stmts), dbg(&expected_stmts));
}

#[test]
fn system_task_assert_fails_when_condition_is_not_one() {
    let kind = SystemTaskKind::Assert { cond: ExprId(0) };
    assert!(matches!(kind, SystemTaskKind::Assert { cond } if cond.0 == 0));
    let (decls, stmts) = gen_system_task(true, "bad".to_string(), Some(translated("c", "d")), None, vec![]);
    let failed = Expression::binary(BinaryOp::NeStrict, id("c"), id("1"));
    let expected_decls = vec![Declaration::net(Shape::new(vec![1], false), "c".to_string())];
    let expected_stmts = vec![
        Statement::BlockingAssignment(id("c"), id("d")),
        Statement::Conditional(
            vec![(failed, vec![Statement::Display("ERROR: bad".to_string(), vec![]), Statement::Fatal])],
            vec![],
        ),
    ];
    assert_eq!(dbg(&decls), dbg(&expected_decls));
    assert_eq!(dbg(&stmts), dbg(&expected_stmts));
}

use hazardflow::compiler::expr_gen::{alloc_exprs, assign_exprs, binary_op_expr, gen_binary_op, gen_unary_op};
use hazardflow::compiler::naming::Context;
use hazardflow::compiler::ops::UnaryOp;

#[test]
fn assign_exprs_pairs_leaves() {
    let lhs = CompositeExpr::Struct(vec![CompositeExpr::Bits(id("x")), CompositeExpr::Bits(id("y"))]);
    let rhs = CompositeExpr::Struct(vec![CompositeExpr::Bits(id("a")), CompositeExpr::Bits(id("b"))]);
    let stmts = assign_exprs(lhs, rhs);
    let expected = vec![
        Statement::BlockingAssignment(id("x"), id("a")),
        Statement::BlockingAssignment(id("y"), id("b")),
    ];
    assert_eq!(dbg(&stmts), dbg(&expected));
}

#[test]
fn alloc_exprs_names_registers_after_scope() {
    let mut t = vars();
    let s = t.push(Expr::Struct { inner: vec![(Some("x".to_string()), ExprId(0)), (Some("y".to_string()), ExprId(2))] });
    let mut ctx = Context::new();
    ctx.enter_scope("top".to_string());
    let (decls, exprs, prefix) = alloc_exprs(t.get(s), &t, &mut ctx);
    assert_eq!(prefix, "top_t0");
    let expected = vec![
        Declaration::reg(Shape::new(vec![4], false), "top_t0_x".to_string()),
        Declaration::reg(Shape::new(vec![4], true), "top_t0_y".to_string()),
    ];
    assert_eq!(dbg(&decls), dbg(&expected));
    let expected_exprs = CompositeExpr::Struct(vec![CompositeExpr::Bits(id("top_t0_x")), CompositeExpr::Bits(id("top_t0_y"))]);
    assert_eq!(dbg(&exprs), dbg(&expected_exprs));
    let (_, _, next) = alloc_exprs(t.get(ExprId(0)), &t, &mut ctx);
    assert_eq!(next, "top_t1");
}

#[test]
fn equality_of_structs_compares_leaf_by_leaf() {
    let l = CompositeExpr::Struct(vec![CompositeExpr::Bits(id("a")), CompositeExpr::Bits(id("b")), CompositeExpr::Bits(id("c"))]);
    let r = CompositeExpr::Struct(vec![CompositeExpr::Bits(id("x")), CompositeExpr::Bits(id("y")), CompositeExpr::Bits(id("z"))]);
    let e = binary_op_expr(BinaryOp::EqArithmetic, l, r);
    let eq = |a: &str, b: &str| Expression::binary(BinaryOp::EqArithmetic, id(a), id(b));
    let expected = Expression::binary(
        BinaryOp::And,
        Expression::binary(BinaryOp::And, eq("a", "x"), eq("b", "y")),
        eq("c", "z"),
    );
    assert_eq!(dbg(&e), dbg(&expected));
    let ne = binary_op_expr(
        BinaryOp::NeArithmetic,
        CompositeExpr::Bits(id("a")),
        CompositeExpr::Bits(id("x")),
    );
    assert_eq!(dbg(&ne), dbg(&Expression::binary(BinaryOp::NeArithmetic, id("a"), id("x"))));
}

#[test]
fn binary_op_assigns_result_register() {
    let t = vars();
    let add = Expr::BinaryOp { op: BinaryOp::Add, lhs: ExprId(0), rhs: ExprId(1) };
    let mut ctx = Context::new();
    ctx.enter_scope("m".to_string());
    let (decls, stmts, out, prefix) =
        gen_binary_op(&add, &t, BinaryOp::Add, translated("a", "p"), translated("b", "q"), &mut ctx);
    assert_eq!(prefix, "m_t0");
    let expected_decls = vec![
        Declaration::net(Shape::new(vec![1], false), "a".to_string()),
        Declaration::net(Shape::new(vec![1], false), "b".to_string()),
        Declaration::reg(Shape::new(vec![5], false), "m_t0".to_string()),
    ];
    let expected_stmts = vec![
        Statement::BlockingAssignment(id("a"), id("p")),
        Statement::BlockingAssignment(id("b"), id("q")),
        Statement::BlockingAssignment(id("m_t0"), Expression::binary(BinaryOp::Add, id("a"), id("b"))),
    ];
    assert_eq!(dbg(&decls), dbg(&expected_decls));
    assert_eq!(dbg(&stmts), dbg(&expected_stmts));
    assert_eq!(dbg(&out), dbg(&CompositeExpr::Bits(id("m_t0"))));
}

#[test]
fn unary_op_negates_single_value() {
    let (decls, stmts, e) = gen_unary_op(UnaryOp::Negation, translated("a", "b"));
    assert_eq!(decls.len(), 1);
    assert_eq!(stmts.len(), 1);
    assert_eq!(dbg(&e), dbg(&CompositeExpr::Bits(Expression::unary(UnaryOp::Negation, id("a")))));
}

use hazardflow::compiler::expr_gen::{clone_composite, gen_case, gen_cond, gen_member, gen_struct, gen_var, gen_zip};

fn leaf(s: &str) -> CompositeExpr<Expression> {
    CompositeExpr::Bits(id(s))
}

fn value_only(s: &str) -> (Vec<Declaration>, Vec<Statement>, CompositeExpr<Expression>) {
    (vec![], vec![], leaf(s))
}

#[test]
fn clone_composite_keeps_structure() {
    let e = CompositeExpr::Struct(vec![leaf("a"), CompositeExpr::Struct(vec![leaf("b")])]);
    assert_eq!(dbg(&clone_composite(&e)), dbg(&e));
}

#[test]
fn var_is_named_after_scope() {
    let mut t = ExprTable::new();
    let v = t.push(Expr::input(
        Some("x".to_string()),
        PortDecls::Struct(vec![(Some("p".to_string()), ubits(2)), (Some("q".to_string()), ubits(3))]),
    ));
    let mut ctx = Context::new();
    ctx.enter_scope("top".to_string());
    let (exprs, prefix) = gen_var(t.get(v), &t, &ctx);
    assert_eq!(prefix, "top_x");
    assert_eq!(dbg(&exprs), dbg(&CompositeExpr::Struct(vec![leaf("top_x_p"), leaf("top_x_q")])));
}

#[test]
fn member_takes_field_values() {
    let inner = (vec![], vec![Statement::Fatal], CompositeExpr::Struct(vec![leaf("a"), leaf("b"), leaf("c")]));
    let (_, stmts, m) = gen_member(inner, 1);
    assert_eq!(stmts.len(), 1);
    assert_eq!(dbg(&m), dbg(&leaf("b")));
}

#[test]
fn cond_assigns_first_true_guard() {
    let pairs = vec![(translated("g0", "c0"), value_only("v0")), (value_only("g1"), translated("v1", "w1"))];
    let output = (vec![Declaration::reg(Shape::new(vec![4], false), "o".to_string())], leaf("o"));
    let (decls, stmts, out) = gen_cond(pairs, output, translated("d", "e"));
    let expected_decls = vec![
        Declaration::net(Shape::new(vec![1], false), "g0".to_string()),
        Declaration::net(Shape::new(vec![1], false), "v1".to_string()),
        Declaration::net(Shape::new(vec![1], false), "d".to_string()),
        Declaration::reg(Shape::new(vec![4], false), "o".to_string()),
    ];
    let assign = |v: &str| vec![Statement::BlockingAssignment(id("o"), id(v))];
    let expected_stmts = vec![
        Statement::BlockingAssignment(id("g0"), id("c0")),
        Statement::BlockingAssignment(id("v1"), id("w1")),
        Statement::BlockingAssignment(id("d"), id("e")),
        Statement::Conditional(vec![(id("g0"), assign("v0")), (id("g1"), assign("v1"))], assign("d")),
    ];
    assert_eq!(dbg(&decls), dbg(&expected_decls));
    assert_eq!(dbg(&stmts), dbg(&expected_stmts));
    assert_eq!(dbg(&out), dbg(&leaf("o")));
}

#[test]
fn case_declares_labels_before_values() {
    let items = vec![(translated("l0", "k0"), translated("v0", "w0")), (translated("l1", "k1"), value_only("v1"))];
    let output = (vec![], leaf("o"));
    let (decls, stmts, _) = gen_case(translated("s", "t"), items, None, output);
    let net = |n: &str| Declaration::net(Shape::new(vec![1], false), n.to_string());
    assert_eq!(dbg(&decls), dbg(&vec![net("s"), net("l0"), net("l1"), net("v0")]));
    let assign = |v: &str| vec![Statement::BlockingAssignment(id("o"), id(v))];
    let expected_stmts = vec![
        Statement::BlockingAssignment(id("s"), id("t")),
        Statement::BlockingAssignment(id("l0"), id("k0")),
        Statement::BlockingAssignment(id("l1"), id("k1")),
        Statement::BlockingAssignment(id("v0"), id("w0")),
        Statement::Case(id("s"), vec![(id("l0"), assign("v0")), (id("l1"), assign("v1"))], vec![]),
    ];
    assert_eq!(dbg(&stmts), dbg(&expected_stmts));
}

#[test]
fn case_with_default_assigns_it_otherwise() {
    let items = vec![(value_only("l0"), value_only("v0"))];
    let (_, stmts, _) = gen_case(value_only("s"), items, Some(value_only("dv")), (vec![], leaf("o")));
    let assign = |v: &str| vec![Statement::BlockingAssignment(id("o"), id(v))];
    let expected = vec![Statement::Case(id("s"), vec![(id("l0"), assign("v0"))], assign("dv"))];
    assert_eq!(dbg(&stmts), dbg(&expected));
}

#[test]
fn struct_and_zip_collect_members() {
    let (decls, stmts, s) = gen_struct(vec![translated("a", "b"), value_only("c")]);
    assert_eq!(decls.len(), 1);
    assert_eq!(stmts.len(), 1);
    assert_eq!(dbg(&s), dbg(&CompositeExpr::Struct(vec![leaf("a"), leaf("c")])));
    let output = (vec![], CompositeExpr::Struct(vec![leaf("o0"), leaf("o1")]));
    let (_, stmts, out) = gen_zip(vec![value_only("x"), value_only("y")], output);
    let expected = vec![
        Statement::BlockingAssignment(id("o0"), id("x")),
        Statement::BlockingAssignment(id("o1"), id("y")),
    ];
    assert_eq!(dbg(&stmts), dbg(&expected));
    assert_eq!(dbg(&out), dbg(&CompositeExpr::Struct(vec![leaf("o0"), leaf("o1")])));
}

use hazardflow::compiler::expr_gen::gen_to_idents;

#[test]
fn to_idents_keeps_plain_identifiers() {
    let t = vars();
    let mut ctx = Context::new();
    ctx.enter_scope("m".to_string());
    let (decls, stmts, e) = gen_to_idents(t.get(ExprId(0)), &t, translated("a", "b"), &mut ctx);
    assert_eq!(decls.len(), 1);
    assert_eq!(stmts.len(), 1);
    assert_eq!(dbg(&e), dbg(&leaf("a")));
    assert_eq!(ctx.alloc_temp_id(), "t0");
}

#[test]
fn to_idents_names_other_values() {
    let t = vars();
    let mut ctx = Context::new();
    ctx.enter_scope("m".to_string());
    let not_a = CompositeExpr::Bits(Expression::unary(UnaryOp::Negation, id("a")));
    let (decls, stmts, e) = gen_to_idents(t.get(ExprId(0)), &t, (vec![], vec![], not_a), &mut ctx);
    assert_eq!(dbg(&decls), dbg(&vec![Declaration::reg(Shape::new(vec![4], false), "m_t0".to_string())]));
    let expected = vec![Statement::BlockingAssignment(id("m_t0"), Expression::unary(UnaryOp::Negation, id("a")))];
    assert_eq!(dbg(&stmts), dbg(&expected));
    assert_eq!(dbg(&e), dbg(&leaf("m_t0")));
}

#[test]
fn pushing_keeps_widths_of_earlier_expressions() {
    let mut t = vars();
    let add = Expr::BinaryOp { op: BinaryOp::Add, lhs: ExprId(0), rhs: ExprId(1) };
    let before = (add.width(&t), add.port_decls(&t));
    t.push(Expr::input(None, ubits(9)));
    assert_eq!(add.width(&t), before.0);
    assert_eq!(add.port_decls(&t), before.1);
}

#[test]
fn tuple_names_members_by_position() {
    let t = vars();
    let tup = Expr::tuple(vec![ExprId(1), ExprId(2)]);
    assert!(matches!(&tup, Expr::Struct { inner } if inner.len() == 2 && inner[0].0.as_deref() == Some("0") && inner[1].1.0 == 2));
    assert_eq!(
        tup.port_decls(&t),
        PortDecls::Struct(vec![(Some("0".to_string()), ubits(4)), (Some("1".to_string()), sbits(4))])
    );
}

#[test]
fn width_is_width_of_type() {
    let mut t = vars();
    let rep = t.push(Expr::Repeat { inner: ExprId(0), count: 3 });
    let exprs = vec![
        Expr::BinaryOp { op: BinaryOp::Add, lhs: ExprId(0), rhs: ExprId(1) },
        Expr::Concat { inner: rep, typ_elt: ubits(2) },
        Expr::Clip { inner: rep, typ_elt: ubits(4), from: ExprId(1), size: 2 },
        Expr::Struct { inner: vec![(Some("x".to_string()), ExprId(0)), (Some("y".to_string()), rep)] },
        Expr::Repr { inner: ExprId(2) },
    ];
    for e in &exprs {
        assert_eq!(e.width(&t), e.port_decls(&t).width());
    }
}

#[test]
fn resize_pads_with_zero_elements() {
    // `a` is 4 bits, an array of 4 one-bit elements; grown to 6 elements.
    let mut t = vars();
    let r = Expr::resize(ExprId(0), 4, 6, &mut t);
    assert_eq!(r.0, 6);
    assert_eq!(t.exprs.len(), 7);
    assert!(matches!(t.get(ExprId(4)), Expr::Constant { bits, typ } if bits == &vec![false] && *typ == ubits(1)));
    assert!(matches!(t.get(ExprId(5)), Expr::Repeat { inner, count: 2 } if inner.0 == 4));
    assert!(matches!(t.get(ExprId(6)), Expr::Append { lhs, rhs, typ_elt } if lhs.0 == 0 && rhs.0 == 5 && *typ_elt == ubits(1)));
    assert_eq!(t.get(r).width(&t), 6);
}

#[test]
fn resize_clips_to_first_elements() {
    // `a` is an array of 2 two-bit elements; clipped to 1 element.
    let mut t = vars();
    let r = Expr::resize(ExprId(0), 2, 1, &mut t);
    assert_eq!(r.0, 5);
    assert_eq!(t.exprs.len(), 6);
    assert!(matches!(t.get(ExprId(4)), Expr::Constant { bits, typ } if bits == &vec![false] && *typ == ubits(1)));
    assert!(matches!(t.get(ExprId(5)), Expr::Clip { inner, typ_elt, from, size: 1 } if inner.0 == 0 && from.0 == 4 && *typ_elt == ubits(2)));
    assert_eq!(t.get(r).width(&t), 2);
}

#[test]
fn resize_to_same_width_is_identity() {
    let mut t = vars();
    let r = Expr::resize(ExprId(2), 4, 4, &mut t);
    assert_eq!(r.0, 2);
    assert_eq!(t.exprs.len(), 4);
}
