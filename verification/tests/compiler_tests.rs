use hazardflow::compiler::codegen::{CompositeExpr, LogicValue, LogicValues};
use hazardflow::compiler::endpoint::{Channel, Endpoint, EndpointNode, EndpointPath};
use hazardflow::compiler::error::VirgenError;
use hazardflow::compiler::interface::{Interface, InterfaceTyp};
use hazardflow::compiler::literal::{gen_expr_literal, gen_literal_expr, LiteralExpr};
use hazardflow::compiler::module_wiring::gen_wiring;
use hazardflow::compiler::naming::Context;
use hazardflow::compiler::ports::Direction;
use hazardflow::compiler::primitives::{input_interface, submodule_output_interface};
use hazardflow::compiler::prelude::{ChannelTyp, PortDecls, Shape};
use hazardflow::compiler::ops::BinaryOp;
use hazardflow::compiler::virgen::{
    cont_assign_exprs, filter_nonzero, gen_module, gen_module_ffi, gen_module_fsm_items, partition_fsm_stmts,
    state_updates, gen_module_inst, gen_module_items, gen_module_split, gen_module_wiring,
    gen_var_arr_state_init, gen_wire_decls, module_name, top_module_name, wire_assigns,
};
use hazardflow::compiler::wiring::{gen_connections, gen_port_decls};
use hazardflow::vir::ir::{
    ContinuousAssign, Declaration, Expression, Module, ModuleInstantiation, ModuleItem, PortDeclaration, Primary, Range, Statement,
};

fn bits(w: usize) -> PortDecls {
    PortDecls::Bits(Shape::new(vec![w], false))
}

fn field_path(names: &[&str]) -> EndpointPath {
    EndpointPath::from_nodes(names.iter().map(|n| EndpointNode::Field(n.to_string(), None)).collect())
}

fn names_of(it: hazardflow::compiler::prelude::ValueTypIterator) -> Vec<(Option<String>, usize)> {
    it.into_vec().into_iter().map(|(n, s)| (n, s.width())).collect()
}

#[test]
fn shape_width_and_dims() {
    let s = Shape::new(vec![4, 8], true);
    assert_eq!(s.width(), 32);
    assert_eq!(s.dim(), 2);
    assert_eq!(s.get(0), 4);
    assert_eq!(s.get(1), 8);
    assert!(s.is_signed());
}

#[test]
fn shape_multiple_then_divide_round_trip() {
    let s = Shape::new(vec![4, 8], false);
    let m = s.multiple(3);
    assert_eq!(m, Shape::new(vec![12, 8], false));
    assert_eq!(m.width(), 96);
    assert_eq!(m.divide(3), s);
}

#[test]
fn port_decls_width_and_members() {
    let typ = PortDecls::Struct(vec![
        (Some("a".to_string()), bits(3)),
        (
            Some("b".to_string()),
            PortDecls::Struct(vec![(Some("c".to_string()), bits(2)), (None, bits(0))]),
        ),
    ]);
    assert_eq!(typ.width(), 5);
    assert_eq!(typ.num_elts(), 2);
    assert_eq!(typ.max_dim(), 1);
    assert_eq!(names_of(typ.iter()), vec![(Some("a".to_string()), 3), (Some("b_c".to_string()), 2)]);
    assert_eq!(names_of(typ.iter_with_zero_width(None)), vec![
        (Some("a".to_string()), 3),
        (Some("b_c".to_string()), 2),
        (Some("b".to_string()), 0),
    ]);
}

#[test]
fn zero_width_iterator_yields_one_item_per_bits_member() {
    let typ = PortDecls::Struct(vec![
        (Some("a".to_string()), bits(0)),
        (Some("e".to_string()), PortDecls::Struct(vec![])),
        (
            Some("b".to_string()),
            PortDecls::Struct(vec![(Some("c".to_string()), bits(2)), (Some("d".to_string()), bits(0))]),
        ),
    ]);
    let all = names_of(typ.iter_with_zero_width(Some("p".to_string())));
    assert_eq!(all.len(), 3);
    assert_eq!(all, vec![
        (Some("p_a".to_string()), 0),
        (Some("p_b_c".to_string()), 2),
        (Some("p_b_d".to_string()), 0),
    ]);
    assert_eq!(names_of(typ.iter()), vec![(Some("b_c".to_string()), 2)]);
}

#[test]
fn port_decls_multiple_then_divide_round_trip() {
    let typ = PortDecls::Struct(vec![(Some("x".to_string()), bits(4)), (Some("y".to_string()), bits(1))]);
    let m = typ.multiple(2);
    assert_eq!(m.width(), 10);
    assert_eq!(m.divide(2), typ);
}

#[test]
fn context_allocates_fresh_ids() {
    let mut ctx = Context::new();
    assert_eq!(ctx.get_prefix(), None);
    ctx.enter_scope("top".to_string());
    ctx.enter_scope("m".to_string());
    assert_eq!(ctx.get_prefix(), Some("top_m".to_string()));
    assert_eq!(ctx.alloc_int_id(), "i0");
    assert_eq!(ctx.alloc_int_id(), "i1");
    assert_eq!(ctx.alloc_temp_id(), "t0");
    assert_eq!(ctx.alloc_int_id_with_prefix(), "top_m_i2");
    assert_eq!(ctx.alloc_temp_id_with_prefix(), "top_m_t1");
    assert_eq!(ctx.alloc_genvar_id(), "g0");
    assert_eq!(ctx.alloc_genvar_id(), "g1");
    ctx.leave_scope();
    assert_eq!(ctx.get_prefix(), Some("top".to_string()));
    assert_eq!(ctx.alloc_int_id(), "i0");
}

#[test]
fn context_scope_enter_then_leave_restores_prefix() {
    let mut ctx = Context::new();
    ctx.enter_scope("a".to_string());
    let before = ctx.get_prefix();
    ctx.enter_scope("b".to_string());
    ctx.leave_scope();
    assert_eq!(ctx.get_prefix(), before);
}

fn channel(fwd: usize, bwd: usize, endpoint: Endpoint) -> Channel {
    Channel { typ: ChannelTyp::new(bits(fwd), bits(bwd)), endpoint }
}

#[test]
fn interface_wire_keeps_typ() {
    let ct = ChannelTyp::new(bits(4), bits(0));
    let t = InterfaceTyp::Struct(vec![
        ("a".to_string(), (None, InterfaceTyp::Array(Box::new(InterfaceTyp::Channel(ct.clone())), 2))),
        ("b".to_string(), (Some("_".to_string()), InterfaceTyp::Unit)),
    ]);
    let mut itf = Interface::Unwired(t.clone());
    let ch = Interface::Channel(channel(4, 0, Endpoint::Input { path: field_path(&["x"]) }));
    let path = EndpointPath::from_nodes(vec![
        EndpointNode::Field("a".to_string(), None),
        EndpointNode::Index(1),
    ]);
    itf.wire(path.clone(), ch.clone());
    assert_eq!(itf.typ(), t);
    assert_eq!(itf.get_subinterface(path), ch);
}

#[test]
fn interface_wire_then_get_subinterface() {
    let ct = ChannelTyp::new(bits(8), bits(1));
    let mut itf = Interface::Struct(vec![
        ("a".to_string(), (None, Interface::Unwired(InterfaceTyp::Channel(ct.clone())))),
        ("b".to_string(), (None, Interface::Unit)),
    ]);
    assert!(itf.contains_unwired());
    let ch = Interface::Channel(channel(8, 1, Endpoint::Input { path: field_path(&["x"]) }));
    itf.wire(field_path(&["a"]), ch);
    assert!(!itf.contains_unwired());
    assert_eq!(
        itf.get_subinterface(field_path(&["a"])),
        Interface::Channel(channel(8, 1, Endpoint::Input { path: field_path(&["x"]) }))
    );
    assert_eq!(itf.get_subinterface(field_path(&["b"])), Interface::Unit);
}

#[test]
fn interface_primitives_carry_paths() {
    let c0 = Interface::Channel(channel(4, 0, Endpoint::Input { path: field_path(&[]) }));
    let c1 = Interface::Channel(channel(4, 0, Endpoint::Submodule { submodule_index: 2, path: field_path(&["o"]) }));
    let itf = Interface::Struct(vec![("p".to_string(), (None, Interface::Array(vec![c0.clone(), c1.clone()])))]);
    let prims = itf.into_primitives();
    assert_eq!(prims.len(), 2);
    assert_eq!(prims[0].0, c0);
    assert_eq!(prims[0].1, EndpointPath::from_nodes(vec![EndpointNode::Field("p".to_string(), None), EndpointNode::Index(0)]));
    assert_eq!(prims[1].0, c1);
    assert_eq!(prims[1].1, EndpointPath::from_nodes(vec![EndpointNode::Field("p".to_string(), None), EndpointNode::Index(1)]));
    for (prim, path) in prims {
        assert_eq!(itf.get_subinterface(path), prim);
    }
}

#[test]
fn interface_from_interfaces_names_fields_by_index() {
    assert_eq!(Interface::from_interfaces(vec![]), Interface::Unit);
    let t = Interface::from_interfaces(vec![Interface::Unit, Interface::Unit]);
    assert_eq!(
        t,
        Interface::Struct(vec![
            ("0".to_string(), (None, Interface::Unit)),
            ("1".to_string(), (None, Interface::Unit)),
        ])
    );
}

#[test]
fn interface_typ_primitives_of_array() {
    let ct = ChannelTyp::new(bits(2), bits(0));
    let t = InterfaceTyp::Array(Box::new(InterfaceTyp::Channel(ct)), 3);
    let prims = t.into_primitives();
    let paths: Vec<EndpointPath> = prims.into_iter().map(|(_, p)| p).collect();
    assert_eq!(paths, vec![
        EndpointPath::from_nodes(vec![EndpointNode::Index(0)]),
        EndpointPath::from_nodes(vec![EndpointNode::Index(1)]),
        EndpointPath::from_nodes(vec![EndpointNode::Index(2)]),
    ]);
    assert_eq!(t.nested_array_flattened_len(), 3);
}

fn sample_types() -> (InterfaceTyp, InterfaceTyp) {
    let input = InterfaceTyp::Channel(ChannelTyp::new(bits(8), bits(1)));
    let output = InterfaceTyp::Struct(vec![(
        "o".to_string(),
        (None, InterfaceTyp::Channel(ChannelTyp::new(bits(4), PortDecls::Struct(vec![])))),
    )]);
    (input, output)
}

#[test]
fn connections_of_module_instantiation() {
    let (input, output) = sample_types();
    let mut ctx = Context::new();
    ctx.enter_scope("top".to_string());
    let conns = match gen_connections(&input, &output, &ctx) {
        Ok(c) => c,
        Err(_) => panic!("connections are always generated"),
    };
    let expected: Vec<(Direction, String, String)> = vec![
        (Direction::Input, "clk".to_string(), "clk".to_string()),
        (Direction::Input, "rst".to_string(), "rst".to_string()),
        (Direction::Input, "in_payload".to_string(), "top_in_payload".to_string()),
        (Direction::Output, "in_resolver".to_string(), "top_in_resolver".to_string()),
        (Direction::Output, "out_o_payload".to_string(), "top_out_o_payload".to_string()),
    ];
    assert_eq!(conns, expected);
}

#[test]
fn port_declarations_of_module() {
    let (input, output) = sample_types();
    let decls = match gen_port_decls(&input, &output) {
        Ok(d) => d,
        Err(_) => panic!("port declarations are always generated"),
    };
    let expected: Vec<(Direction, usize, String)> = vec![
        (Direction::Input, 1, "clk".to_string()),
        (Direction::Input, 1, "rst".to_string()),
        (Direction::Input, 8, "in_payload".to_string()),
        (Direction::Output, 1, "in_resolver".to_string()),
        (Direction::Output, 4, "out_o_payload".to_string()),
    ];
    assert_eq!(decls, expected);
}

#[test]
fn filter_nonzero_drops_zero_width_members() {
    let typ = PortDecls::Struct(vec![(Some("x".to_string()), bits(4)), (Some("y".to_string()), bits(0))]);
    let expr = CompositeExpr::Struct(vec![
        CompositeExpr::Bits(Expression::ident("a".to_string())),
        CompositeExpr::Bits(Expression::ident("b".to_string())),
    ]);
    let kept = filter_nonzero(expr, typ);
    assert_eq!(format!("{:?}", kept), format!("{:?}", vec![Expression::ident("a".to_string())]));
}

#[test]
fn logic_values_render_and_repeat() {
    let v = LogicValues::new(vec![LogicValue::True, LogicValue::False, LogicValue::X]);
    assert_eq!(v.to_string(), "10x");
    assert_eq!(v.repeat(2).to_string(), "10x10x");
    assert_eq!(LogicValue::from_bool(true), LogicValue::True);
    assert_eq!(LogicValue::from_bool(false), LogicValue::False);
}

#[test]
fn collect_fsm_error_keeps_message() {
    match VirgenError::collect_fsm_error("bad".to_string()) {
        VirgenError::CollectFsmError { msg } => assert_eq!(msg, "bad"),
        _ => panic!("wrong variant"),
    }
}

fn wire(l: &str, lr: Option<(usize, usize)>, r: &str, rr: Option<(usize, usize)>) -> (String, Option<(usize, usize)>, String, Option<(usize, usize)>) {
    (l.to_string(), lr, r.to_string(), rr)
}

#[test]
fn wiring_through_one_submodule() {
    let ct = ChannelTyp::new(bits(8), bits(1));
    let sub_in = Interface::Channel(Channel { typ: ct.clone(), endpoint: Endpoint::Input { path: field_path(&[]) } });
    let subs = vec![("m".to_string(), InterfaceTyp::Channel(ct.clone()), sub_in)];
    let out = Interface::Channel(Channel {
        typ: ct.clone(),
        endpoint: Endpoint::Submodule { submodule_index: 0, path: field_path(&[]) },
    });
    let wires = match gen_wiring(
        &subs,
        &InterfaceTyp::Channel(ct.clone()),
        &InterfaceTyp::Channel(ct.clone()),
        &out,
        Some("top".to_string()),
    ) {
        Ok(w) => w,
        Err(_) => panic!("wiring is always generated"),
    };
    assert_eq!(wires, vec![
        wire("top_m_0_in_payload", None, "top_in_payload", None),
        wire("top_in_resolver", None, "top_m_0_in_resolver", None),
        wire("top_out_payload", None, "top_m_0_out_payload", None),
        wire("top_m_0_out_resolver", None, "top_out_resolver", None),
    ]);
}

#[test]
fn wiring_of_swapped_array_elements() {
    let ct = ChannelTyp::new(bits(4), bits(0));
    let arr = InterfaceTyp::Array(Box::new(InterfaceTyp::Channel(ct.clone())), 2);
    let idx = |i: usize| EndpointPath::from_nodes(vec![EndpointNode::Index(i)]);
    let out = Interface::Array(vec![
        Interface::Channel(Channel { typ: ct.clone(), endpoint: Endpoint::Input { path: idx(1) } }),
        Interface::Channel(Channel { typ: ct.clone(), endpoint: Endpoint::Input { path: idx(0) } }),
    ]);
    let wires = match gen_wiring(&vec![], &arr, &arr, &out, None) {
        Ok(w) => w,
        Err(_) => panic!("wiring is always generated"),
    };
    assert_eq!(wires, vec![
        wire("out_payload", Some((0, 4)), "in_payload", Some((1, 4))),
        wire("out_payload", Some((1, 4)), "in_payload", Some((0, 4))),
    ]);
}

fn dbg<T: std::fmt::Debug>(x: &T) -> String {
    format!("{:?}", x)
}

fn sliced(name: &str, index: usize, size: usize) -> Expression {
    Expression::Primary(Primary::HierarchicalIdentifier(
        name.to_string(),
        Some(Range::new_range(
            Expression::binary(BinaryOp::Mul, Expression::number(index.to_string()), Expression::number(size.to_string())),
            Expression::number(size.to_string()),
        )),
    ))
}

#[test]
fn module_wiring_assigns_array_slices() {
    let ct = ChannelTyp::new(bits(4), bits(0));
    let arr = InterfaceTyp::Array(Box::new(InterfaceTyp::Channel(ct.clone())), 2);
    let idx = |i: usize| EndpointPath::from_nodes(vec![EndpointNode::Index(i)]);
    let out = Interface::Array(vec![
        Interface::Channel(Channel { typ: ct.clone(), endpoint: Endpoint::Input { path: idx(1) } }),
        Interface::Channel(Channel { typ: ct.clone(), endpoint: Endpoint::Input { path: idx(0) } }),
    ]);
    let conts = match gen_module_wiring(&vec![], &arr, &arr, &out, None) {
        Ok(c) => c,
        Err(_) => panic!("wiring is always generated"),
    };
    let expected = vec![
        ContinuousAssign::new(sliced("out_payload", 0, 4), sliced("in_payload", 1, 4)),
        ContinuousAssign::new(sliced("out_payload", 1, 4), sliced("in_payload", 0, 4)),
    ];
    assert_eq!(dbg(&conts), dbg(&expected));
}

#[test]
fn wire_assigns_plain_identifiers() {
    let conts = wire_assigns(vec![("a".to_string(), None, "b".to_string(), None)]);
    let expected = vec![ContinuousAssign::new(Expression::ident("a".to_string()), Expression::ident("b".to_string()))];
    assert_eq!(dbg(&conts), dbg(&expected));
}

#[test]
fn module_split_assigns_input_to_output() {
    let ct = ChannelTyp::new(bits(8), bits(1));
    let input = InterfaceTyp::Struct(vec![
        ("input".to_string(), (None, InterfaceTyp::Channel(ct.clone()))),
        ("output".to_string(), (None, InterfaceTyp::Unit)),
    ]);
    let output = InterfaceTyp::Struct(vec![
        ("input".to_string(), (None, InterfaceTyp::Unit)),
        ("output".to_string(), (None, InterfaceTyp::Channel(ct.clone()))),
    ]);
    let mut ctx = Context::new();
    ctx.enter_scope("top".to_string());
    let items = match gen_module_split(&input, &output, &ctx) {
        Ok(i) => i,
        Err(_) => panic!("split wiring is always generated"),
    };
    let id = |s: &str| Expression::ident(s.to_string());
    let expected = vec![ModuleItem::ContinuousAssigns(vec![
        ContinuousAssign::new(id("top_out_output_payload"), id("top_in_input_payload")),
        ContinuousAssign::new(id("top_in_input_resolver"), id("top_out_output_resolver")),
    ])];
    assert_eq!(dbg(&items), dbg(&expected));
}

#[test]
fn module_instance_under_prefix() {
    let input = InterfaceTyp::Channel(ChannelTyp::new(bits(8), bits(1)));
    let mut ctx = Context::new();
    ctx.enter_scope("top".to_string());
    let items = match gen_module_inst(
        &"m".to_string(),
        &"u".to_string(),
        &vec!["a".to_string(), "b".to_string()],
        vec![("W".to_string(), 8)],
        &input,
        &InterfaceTyp::Unit,
        &ctx,
    ) {
        Ok(i) => i,
        Err(_) => panic!("instances are always generated"),
    };
    let id = |s: &str| Expression::ident(s.to_string());
    let expected = vec![ModuleItem::ModuleInstantiation(ModuleInstantiation::new(
        "a_b_m".to_string(),
        "a_b_u".to_string(),
        vec![("W".to_string(), 8)],
        vec![
            ("clk".to_string(), id("clk")),
            ("rst".to_string(), id("rst")),
            ("in_payload".to_string(), id("top_in_payload")),
            ("in_resolver".to_string(), id("top_in_resolver")),
        ],
    ))];
    assert_eq!(dbg(&items), dbg(&expected));
}

#[test]
fn foreign_module_instance_keeps_names() {
    let ctx = Context::new();
    let items = match gen_module_ffi(&"ext".to_string(), &"e0".to_string(), vec![], &InterfaceTyp::Unit, &InterfaceTyp::Unit, &ctx) {
        Ok(i) => i,
        Err(_) => panic!("instances are always generated"),
    };
    let id = |s: &str| Expression::ident(s.to_string());
    let expected = vec![ModuleItem::ModuleInstantiation(ModuleInstantiation::new(
        "ext".to_string(),
        "e0".to_string(),
        vec![],
        vec![("clk".to_string(), id("clk")), ("rst".to_string(), id("rst"))],
    ))];
    assert_eq!(dbg(&items), dbg(&expected));
}

#[test]
fn wire_declarations_grouped_by_first_description() {
    let s = |w: usize| Shape::new(vec![w], false);
    let wires = vec![
        ("A".to_string(), "w1".to_string(), s(1)),
        ("B".to_string(), "w2".to_string(), s(2)),
        ("A".to_string(), "w3".to_string(), s(3)),
    ];
    let items = gen_wire_decls(&wires);
    let expected = vec![
        ModuleItem::Commented(
            "Wires declared by A".to_string(),
            Some("End wires declared by A".to_string()),
            vec![ModuleItem::Declarations(vec![
                Declaration::net(s(1), "w1".to_string()),
                Declaration::net(s(3), "w3".to_string()),
            ])],
        ),
        ModuleItem::Commented(
            "Wires declared by B".to_string(),
            Some("End wires declared by B".to_string()),
            vec![ModuleItem::Declarations(vec![Declaration::net(s(2), "w2".to_string())])],
        ),
    ];
    assert_eq!(dbg(&items), dbg(&expected));
}

#[test]
fn module_items_of_a_pass_through_module() {
    let ct = ChannelTyp::new(bits(8), bits(1));
    let typ = InterfaceTyp::Channel(ct.clone());
    let out = Interface::Channel(Channel { typ: ct.clone(), endpoint: Endpoint::Input { path: field_path(&[]) } });
    let items = match gen_module_items(&"top".to_string(), &vec![], &typ, &typ, &out, vec![]) {
        Ok(i) => i,
        Err(_) => panic!("items are always generated"),
    };
    let id = |s: &str| Expression::ident(s.to_string());
    let expected = vec![ModuleItem::Commented(
        "Wiring by top".to_string(),
        Some("End wiring by top".to_string()),
        vec![ModuleItem::ContinuousAssigns(vec![
            ContinuousAssign::new(id("out_payload"), id("in_payload")),
            ContinuousAssign::new(id("in_resolver"), id("out_resolver")),
        ])],
    )];
    assert_eq!(dbg(&items), dbg(&expected));
}

#[test]
fn module_with_port_declarations() {
    let input = InterfaceTyp::Channel(ChannelTyp::new(bits(8), bits(1)));
    let m = match gen_module("m".to_string(), &input, &InterfaceTyp::Unit, vec![]) {
        Ok(m) => m,
        Err(_) => panic!("modules are always generated"),
    };
    let expected = Module {
        name: "m".to_string(),
        port_decls: vec![
            PortDeclaration::input(1, "clk".to_string()),
            PortDeclaration::input(1, "rst".to_string()),
            PortDeclaration::input(8, "in_payload".to_string()),
            PortDeclaration::output(1, "in_resolver".to_string()),
        ],
        module_items: vec![],
    };
    assert_eq!(dbg(&m), dbg(&expected));
}

#[test]
fn module_names_under_prefixes() {
    assert_eq!(module_name(&vec![], Some("foo".to_string())), "foo_top");
    assert_eq!(module_name(&vec!["a".to_string(), "b".to_string()], None), "a_b_closure");
    assert_eq!(module_name(&vec!["a".to_string()], Some("f".to_string())), "a_f");
}

#[test]
fn top_module_name_drops_last_part() {
    assert_eq!(top_module_name(&"foo_top".to_string(), &vec![]), "foo");
    assert_eq!(top_module_name(&"x".to_string(), &vec!["m_a_b_c".to_string(), "z".to_string()]), "m_a_b");
    assert_eq!(top_module_name(&"single".to_string(), &vec![]), "");
}

#[test]
fn state_arrays_cleared_in_initial_block() {
    let reg = |dims: Vec<usize>, n: &str| CompositeExpr::Bits(Declaration::reg(Shape::new(dims, false), n.to_string()));
    let state = CompositeExpr::Struct(vec![reg(vec![4, 8], "r0"), reg(vec![8], "r1"), reg(vec![2, 3], "r2")]);
    let mut ctx = Context::new();
    ctx.enter_scope("s".to_string());
    assert_eq!(ctx.alloc_int_id(), "i0");
    let items = gen_var_arr_state_init(&state, &mut ctx);
    let clear = |r: &str, n: &str| {
        Statement::Loop("i1".to_string(), Expression::number(n.to_string()), vec![Statement::BlockingAssignment(
            Expression::Primary(Primary::HierarchicalIdentifier(
                r.to_string(),
                Some(Range::new_index(Expression::ident("i1".to_string()))),
            )),
            Expression::number("0".to_string()),
        )])
    };
    let expected = vec![
        ModuleItem::Declarations(vec![Declaration::integer("i1".to_string())]),
        ModuleItem::AlwaysConstruct("initial".to_string(), vec![clear("r0", "4"), clear("r2", "2")]),
    ];
    assert_eq!(dbg(&items), dbg(&expected));
    assert_eq!(ctx.alloc_int_id(), "i3");
}

#[test]
fn no_state_arrays_no_items() {
    let state = CompositeExpr::Bits(Declaration::reg(Shape::new(vec![8], false), "r".to_string()));
    let mut ctx = Context::new();
    let items = gen_var_arr_state_init(&state, &mut ctx);
    assert!(items.is_empty());
}

fn numbers(e: &LiteralExpr) -> Vec<String> {
    let mut out = Vec::new();
    let mut it = gen_literal_expr(e).iter();
    while let Some(x) = it.next() {
        out.push(dbg(&x));
    }
    out
}

fn num(s: &str) -> String {
    dbg(&Expression::number(s.to_string()))
}

#[test]
fn literal_of_dont_care_struct() {
    let typ = PortDecls::Struct(vec![(Some("a".to_string()), bits(2)), (Some("b".to_string()), bits(0))]);
    let e = LiteralExpr::X { typ };
    let lit = gen_expr_literal(&e);
    let expected = CompositeExpr::Struct(vec![
        CompositeExpr::Bits(LogicValues::new(vec![LogicValue::X, LogicValue::X])),
        CompositeExpr::Bits(LogicValues::new(vec![])),
    ]);
    assert_eq!(dbg(&lit), dbg(&expected));
    assert_eq!(numbers(&e), vec![num("2'bx"), num("0")]);
}

#[test]
fn literal_of_constants_most_significant_first() {
    let e = LiteralExpr::Constant { bits: vec![true, false, false], typ: bits(3) };
    assert_eq!(numbers(&e), vec![num("3'b001")]);
    let zero = LiteralExpr::Constant { bits: vec![false, false], typ: bits(2) };
    assert_eq!(numbers(&zero), vec![num("2'b0")]);
}

#[test]
fn literal_of_constant_struct_splits_bits() {
    let typ = PortDecls::Struct(vec![(Some("a".to_string()), bits(2)), (Some("b".to_string()), bits(3))]);
    let e = LiteralExpr::Constant { bits: vec![true, false, true, true, false], typ };
    assert_eq!(numbers(&e), vec![num("2'b01"), num("3'b011")]);
}

#[test]
fn literal_of_repeat_and_member() {
    let one = LiteralExpr::Constant { bits: vec![true], typ: bits(1) };
    let rep = LiteralExpr::Repeat { inner: Box::new(one), count: 3 };
    assert_eq!(numbers(&rep), vec![num("3'b111")]);
    let s = LiteralExpr::Struct {
        inner: vec![
            (None, LiteralExpr::X { typ: bits(1) }),
            (None, LiteralExpr::Constant { bits: vec![true, false], typ: bits(2) }),
        ],
    };
    let m = LiteralExpr::Member { inner: Box::new(s), index: 1 };
    assert_eq!(numbers(&m), vec![num("2'b01")]);
}

#[test]
fn interface_rebuilt_from_its_primitives() {
    let c = |w: usize| Interface::Channel(channel(w, 0, Endpoint::Input { path: field_path(&[]) }));
    let itf = Interface::Struct(vec![
        ("a".to_string(), (Some("__".to_string()), Interface::Array(vec![c(1), c(2)]))),
        ("b".to_string(), (None, c(3))),
    ]);
    let prims = itf.into_primitives();
    assert_eq!(Interface::from_primitives(prims), itf);
}

#[test]
fn interface_from_unordered_array_primitives() {
    let c = |w: usize| Interface::Channel(channel(w, 0, Endpoint::Input { path: field_path(&[]) }));
    let idx = |i: usize| EndpointPath::from_nodes(vec![EndpointNode::Index(i)]);
    let built = Interface::from_primitives(vec![(c(5), idx(1)), (c(4), idx(0))]);
    assert_eq!(built, Interface::Array(vec![c(4), c(5)]));
    let single = Interface::from_primitives(vec![(c(7), EndpointPath::default())]);
    assert_eq!(single, c(7));
}

#[test]
fn cont_assigns_pair_positions() {
    let id = |s: &str| Expression::ident(s.to_string());
    let conts = cont_assign_exprs(vec![id("a"), id("b")], vec![id("x"), id("y")]);
    let expected = vec![ContinuousAssign::new(id("a"), id("x")), ContinuousAssign::new(id("b"), id("y"))];
    assert_eq!(dbg(&conts), dbg(&expected));
}

#[test]
fn fsm_statements_split_into_array_updates() {
    let id = |s: &str| Expression::ident(s.to_string());
    let s0 = Statement::BlockingAssignment(id("a"), id("b"));
    let s1 = Statement::NonblockingAssignment(id("c"), id("d"));
    let s2 = Statement::Conditional(vec![(id("x"), vec![Statement::NonblockingAssignment(id("e"), id("f"))])], vec![
        Statement::NonblockingAssignment(id("g"), id("h")),
    ]);
    let s3 = Statement::Conditional(vec![(id("x"), vec![Statement::BlockingAssignment(id("e"), id("f"))])], vec![]);
    let stmts = vec![s0.clone(), s1.clone(), s2.clone(), s3.clone()];
    let (blocking, updates) = partition_fsm_stmts(&stmts);
    assert_eq!(dbg(&blocking), dbg(&vec![s0, s3]));
    assert_eq!(dbg(&updates), dbg(&vec![s1, s2]));
}

#[test]
fn state_updates_skip_two_dimensional_registers() {
    let id = |s: &str| Expression::ident(s.to_string());
    let reg = |dims: Vec<usize>, n: &str| CompositeExpr::Bits(Declaration::reg(Shape::new(dims, false), n.to_string()));
    let state = CompositeExpr::Struct(vec![reg(vec![4], "s_a"), reg(vec![2, 3], "s_b"), reg(vec![1], "s_c")]);
    let next = CompositeExpr::Struct(vec![
        CompositeExpr::Bits(id("n0")),
        CompositeExpr::Bits(id("n1")),
        CompositeExpr::Bits(id("n2")),
    ]);
    let updates = state_updates(&state, &next);
    let expected = vec![
        Statement::NonblockingAssignment(id("s_a"), id("n0")),
        Statement::NonblockingAssignment(id("s_c"), id("n2")),
    ];
    assert_eq!(dbg(&updates), dbg(&expected));
}

#[test]
fn fsm_items_of_a_one_register_state() {
    let id = |s: &str| Expression::ident(s.to_string());
    let state = CompositeExpr::Bits(Declaration::reg(Shape::new(vec![1], false), "st".to_string()));
    let next = CompositeExpr::Bits(id("nx"));
    let init = CompositeExpr::Bits(Expression::number("1'b0".to_string()));
    let mut ctx = Context::new();
    let items = gen_module_fsm_items(
        vec![],
        &state,
        vec![],
        vec![],
        vec![],
        vec![],
        vec![],
        vec![],
        &next,
        vec![],
        vec![],
        &init,
        &mut ctx,
    );
    let expected = vec![
        ModuleItem::Declarations(vec![]),
        ModuleItem::Declarations(vec![]),
        ModuleItem::Declarations(vec![]),
        ModuleItem::Declarations(vec![Declaration::reg(Shape::new(vec![1], false), "st".to_string())]),
        ModuleItem::Declarations(vec![]),
        ModuleItem::ContinuousAssigns(vec![]),
        ModuleItem::AlwaysConstruct("always @*".to_string(), vec![]),
        ModuleItem::ContinuousAssigns(vec![]),
        ModuleItem::AlwaysConstruct("always @(posedge clk)".to_string(), vec![Statement::Conditional(
            vec![(id("rst"), vec![Statement::NonblockingAssignment(id("st"), Expression::number("1'b0".to_string()))])],
            vec![Statement::NonblockingAssignment(id("st"), id("nx"))],
        )]),
    ];
    assert_eq!(dbg(&items), dbg(&expected));
}

#[test]
fn input_and_submodule_interfaces_of_a_type() {
    let ct = ChannelTyp::new(bits(2), bits(0));
    let typ = InterfaceTyp::Struct(vec![
        ("a".to_string(), (None, InterfaceTyp::Array(Box::new(InterfaceTyp::Channel(ct.clone())), 2))),
        ("b".to_string(), (None, InterfaceTyp::Unit)),
    ]);
    let path = |i: usize| {
        EndpointPath::from_nodes(vec![EndpointNode::Field("a".to_string(), None), EndpointNode::Index(i)])
    };
    let expected = |ep: &dyn Fn(usize) -> Endpoint| {
        Interface::Struct(vec![
            (
                "a".to_string(),
                (
                    None,
                    Interface::Array(vec![
                        Interface::Channel(Channel { typ: ct.clone(), endpoint: ep(0) }),
                        Interface::Channel(Channel { typ: ct.clone(), endpoint: ep(1) }),
                    ]),
                ),
            ),
            ("b".to_string(), (None, Interface::Unit)),
        ])
    };
    assert_eq!(input_interface(&typ), expected(&|i| Endpoint::Input { path: path(i) }));
    assert_eq!(
        submodule_output_interface(typ.clone(), 3),
        expected(&|i| Endpoint::Submodule { submodule_index: 3, path: path(i) })
    );
}
