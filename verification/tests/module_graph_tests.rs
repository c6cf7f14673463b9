use hazardflow::compiler::endpoint::{Channel, Endpoint, EndpointNode, EndpointPath};
use hazardflow::compiler::interface::{Interface, InterfaceTyp};
use hazardflow::compiler::module_graph::{
    collect_interface, construct_ffi, construct_fsm, get_wired_input_interface, handle_closure_call, wire_closure_upvars, resolve_pure_interfaces, wire_output_interface, ParamTyp, CompositeModuleArg, InterfaceValue, ModuleGraphValue, ModuleValue, ReturnTyp,
};
use hazardflow::compiler::prelude::{ChannelTyp, PortDecls, Shape};
use hazardflow::compiler::primitives::input_interface;

fn ct() -> ChannelTyp {
    ChannelTyp::new(PortDecls::Bits(Shape::new(vec![8], false)), PortDecls::Bits(Shape::new(vec![1], false)))
}

fn path(names: &[&str]) -> EndpointPath {
    EndpointPath::from_nodes(names.iter().map(|n| EndpointNode::Field(n.to_string(), None)).collect())
}

fn st(fields: Vec<(&str, InterfaceTyp)>) -> InterfaceTyp {
    InterfaceTyp::Struct(fields.into_iter().map(|(n, t)| (n.to_string(), (None, t))).collect())
}

fn sti(fields: Vec<(&str, Interface)>) -> Interface {
    Interface::Struct(fields.into_iter().map(|(n, t)| (n.to_string(), (None, t))).collect())
}

fn chan(endpoint: Endpoint) -> Interface {
    Interface::Channel(Channel { typ: ct(), endpoint })
}

fn sub(index: usize, p: &[&str]) -> Endpoint {
    Endpoint::Submodule { submodule_index: index, path: path(p) }
}

/// A call with one argument of channel type, whose submodule returns a channel.
fn call_typs() -> (InterfaceTyp, InterfaceTyp) {
    let input = st(vec![
        ("input", st(vec![("0", InterfaceTyp::Channel(ct()))])),
        ("captured", InterfaceTyp::Unit),
        ("output", InterfaceTyp::Unit),
    ]);
    let output = st(vec![
        ("input", st(vec![("0", InterfaceTyp::Channel(ct()))])),
        ("output", InterfaceTyp::Channel(ct())),
    ]);
    (input, output)
}

#[test]
fn external_argument_is_wired_both_ways() {
    let (input_typ, output_typ) = call_typs();
    let module_in = st(vec![("input", InterfaceTyp::Channel(ct()))]);
    let ext = input_interface(&module_in);
    let mut out = Interface::Unwired(st(vec![
        ("input", InterfaceTyp::Channel(ct())),
        ("output", InterfaceTyp::Channel(ct())),
    ]));
    let mut subs: Vec<Interface> = vec![];
    let args = vec![ModuleGraphValue::Interface(InterfaceValue::ExternalInterface(path(&["input"])))];
    let (wired, value) =
        get_wired_input_interface(input_typ, output_typ, &ReturnTyp::Interface, &args, &ext, &mut out, &mut subs);
    assert_eq!(
        wired,
        sti(vec![
            ("input", sti(vec![("0", chan(Endpoint::Input { path: path(&["input"]) }))])),
            ("captured", Interface::Unit),
            ("output", Interface::Unit),
        ])
    );
    assert_eq!(
        out,
        sti(vec![
            ("input", chan(sub(0, &["input", "0"]))),
            ("output", Interface::Unwired(InterfaceTyp::Channel(ct()))),
        ])
    );
    match value {
        ModuleGraphValue::Interface(InterfaceValue::CallResultInterface(x)) => {
            assert_eq!(x, chan(sub(0, &["output"])))
        }
        _ => panic!("an interface is returned"),
    }
}

#[test]
fn call_result_argument_feeds_earlier_submodule() {
    let (input_typ, output_typ) = call_typs();
    let input_typ = match input_typ {
        InterfaceTyp::Struct(mut fields) => {
            fields[2].1 .1 = InterfaceTyp::Channel(ct());
            InterfaceTyp::Struct(fields)
        }
        t => t,
    };
    let ext = Interface::Unit;
    let mut out = Interface::Unit;
    let mut subs = vec![Interface::Unwired(st(vec![("in", InterfaceTyp::Channel(ct()))]))];
    let args = vec![ModuleGraphValue::Module(ModuleValue::CallResult {
        submodule_index: 0,
        output_interface: chan(sub(0, &["out"])),
        path: path(&["in"]),
    })];
    let ret = ReturnTyp::Module(InterfaceTyp::Channel(ct()));
    let (wired, value) = get_wired_input_interface(input_typ, output_typ, &ret, &args, &ext, &mut out, &mut subs);
    assert_eq!(
        wired,
        sti(vec![
            ("input", sti(vec![("0", chan(sub(0, &["out"])))])),
            ("captured", Interface::Unit),
            ("output", Interface::Unwired(InterfaceTyp::Channel(ct()))),
        ])
    );
    assert_eq!(subs[0], sti(vec![("in", chan(sub(1, &["input", "0"])))]));
    assert_eq!(out, Interface::Unit);
    match value {
        ModuleGraphValue::Module(ModuleValue::CallResult { submodule_index, output_interface, path: p }) => {
            assert_eq!(submodule_index, 1);
            assert_eq!(output_interface, chan(sub(1, &["output"])));
            assert_eq!(p, path(&["output"]));
        }
        _ => panic!("a module is returned"),
    }
}

#[test]
fn constant_arguments_and_tuple_results() {
    let input_typ = st(vec![
        ("input", st(vec![("0", InterfaceTyp::Unit)])),
        ("captured", InterfaceTyp::Unit),
        ("output", st(vec![("0", InterfaceTyp::Channel(ct())), ("1", InterfaceTyp::Channel(ct()))])),
    ]);
    let output_typ = st(vec![(
        "output",
        st(vec![("0", InterfaceTyp::Channel(ct())), ("1", InterfaceTyp::Channel(ct()))]),
    )]);
    let mut out = Interface::Unit;
    let mut subs: Vec<Interface> = vec![];
    let ret = ReturnTyp::Tuple(vec![InterfaceTyp::Channel(ct()), InterfaceTyp::Channel(ct())]);
    let (wired, value) = get_wired_input_interface(
        input_typ,
        output_typ,
        &ret,
        &vec![ModuleGraphValue::ConstantFunctionArgs],
        &Interface::Unit,
        &mut out,
        &mut subs,
    );
    let unwired = || Interface::Unwired(InterfaceTyp::Channel(ct()));
    assert_eq!(
        wired,
        sti(vec![
            ("input", sti(vec![("0", Interface::Unit)])),
            ("captured", Interface::Unit),
            ("output", sti(vec![("0", unwired()), ("1", unwired())])),
        ])
    );
    match value {
        ModuleGraphValue::Module(ModuleValue::Composite(CompositeModuleArg::Tuple(v))) => {
            assert_eq!(v.len(), 2);
            match &v[1] {
                ModuleValue::CallResult { submodule_index, output_interface, path: p } => {
                    assert_eq!(*submodule_index, 0);
                    assert_eq!(*output_interface, chan(sub(0, &["output", "1"])));
                    assert_eq!(*p, path(&["output", "1"]));
                }
                _ => panic!("members are call results"),
            }
        }
        _ => panic!("a tuple of modules is returned"),
    }
}

#[test]
fn external_interface_becomes_the_output() {
    let ext = input_interface(&st(vec![("input", InterfaceTyp::Channel(ct()))]));
    let mut out = Interface::Unwired(st(vec![("input", InterfaceTyp::Unit), ("output", InterfaceTyp::Channel(ct()))]));
    let mut subs: Vec<Interface> = vec![];
    let value = ModuleGraphValue::Interface(InterfaceValue::ExternalInterface(path(&["input"])));
    wire_output_interface(false, &value, &ext, &mut out, &mut subs);
    assert_eq!(
        out,
        sti(vec![("input", Interface::Unit), ("output", chan(Endpoint::Input { path: path(&["input"]) }))])
    );
}

#[test]
fn returned_array_of_modules_is_wired_member_by_member() {
    let arr = || InterfaceTyp::Array(Box::new(InterfaceTyp::Channel(ct())), 2);
    let ext = input_interface(&st(vec![("output", arr())]));
    let mut out = Interface::Unwired(st(vec![("output", arr())]));
    let sub_in = || Interface::Unwired(st(vec![("in", InterfaceTyp::Channel(ct()))]));
    let mut subs = vec![sub_in(), sub_in()];
    let member = |i: usize| ModuleValue::CallResult {
        submodule_index: i,
        output_interface: chan(sub(i, &["out"])),
        path: path(&["in"]),
    };
    let value = ModuleGraphValue::Module(ModuleValue::Composite(CompositeModuleArg::Array(vec![member(0), member(1)], 2)));
    wire_output_interface(true, &value, &ext, &mut out, &mut subs);
    let at = |i: usize| {
        EndpointPath::from_nodes(vec![EndpointNode::Field("output".to_string(), None), EndpointNode::Index(i)])
    };
    assert_eq!(subs[1], sti(vec![("in", chan(Endpoint::Input { path: at(1) }))]));
    assert_eq!(out, sti(vec![("output", Interface::Array(vec![chan(sub(0, &["out"])), chan(sub(1, &["out"]))]))]));
}

#[test]
fn module_interface_collects_its_parts() {
    let i = chan(Endpoint::Input { path: path(&["a"]) });
    let o = chan(sub(0, &["b"]));
    let r = collect_interface(i.clone(), vec![], o.clone());
    assert_eq!(r, sti(vec![("input", i.clone()), ("captured", Interface::Unit), ("output", o.clone())]));
    let r2 = collect_interface(Interface::Unit, vec![i.clone()], Interface::Unit);
    assert_eq!(
        r2,
        sti(vec![("input", Interface::Unit), ("captured", sti(vec![("0", i)])), ("output", Interface::Unit)])
    );
}

#[test]
fn unit_parameters_are_resolved_in_the_output() {
    let params = vec![
        ParamTyp::Interface(InterfaceTyp::Unit),
        ParamTyp::Interface(InterfaceTyp::Channel(ct())),
        ParamTyp::Misc,
        ParamTyp::Array(Box::new(ParamTyp::Interface(InterfaceTyp::Unit)), 2),
        ParamTyp::Module,
    ];
    let mut out = Interface::Unwired(st(vec![(
        "input",
        st(vec![
            ("0", InterfaceTyp::Unit),
            ("1", InterfaceTyp::Channel(ct())),
            ("2", InterfaceTyp::Unit),
            ("3", InterfaceTyp::Array(Box::new(InterfaceTyp::Unit), 2)),
            ("4", InterfaceTyp::Unit),
        ]),
    )]));
    resolve_pure_interfaces(&params, &mut out);
    assert_eq!(
        out,
        sti(vec![(
            "input",
            sti(vec![
                ("0", Interface::Unit),
                ("1", Interface::Unwired(InterfaceTyp::Channel(ct()))),
                ("2", Interface::Unit),
                ("3", Interface::Array(vec![Interface::Unit, Interface::Unit])),
                ("4", Interface::Unit),
            ]),
        )])
    );
}

#[test]
fn external_closure_call_wires_closure_interface() {
    let ext = input_interface(&st(vec![("f", st(vec![("output", InterfaceTyp::Channel(ct()))]))]));
    let mut out = Interface::Unwired(st(vec![(
        "f",
        st(vec![
            ("input", st(vec![("0", InterfaceTyp::Channel(ct())), ("1", InterfaceTyp::Unit)])),
            ("captured", InterfaceTyp::Unit),
            ("output", InterfaceTyp::Unit),
        ]),
    )]));
    let mut subs: Vec<Interface> = vec![];
    let args = vec![
        ModuleGraphValue::Interface(InterfaceValue::CallResultInterface(chan(sub(0, &["o"])))),
        ModuleGraphValue::Unit,
    ];
    let value = handle_closure_call(&ModuleValue::External(path(&["f"])), &args, &ext, &mut out, &mut subs);
    assert_eq!(
        out,
        sti(vec![(
            "f",
            sti(vec![
                ("input", sti(vec![("0", chan(sub(0, &["o"]))), ("1", Interface::Unit)])),
                ("captured", Interface::Unit),
                ("output", Interface::Unit),
            ]),
        )])
    );
    match value {
        ModuleGraphValue::Interface(InterfaceValue::CallResultInterface(x)) => {
            assert_eq!(x, chan(Endpoint::Input { path: path(&["f", "output"]) }))
        }
        _ => panic!("an interface is returned"),
    }
}

#[test]
fn returned_closure_call_feeds_its_submodule() {
    let ext = input_interface(&st(vec![("a", InterfaceTyp::Channel(ct()))]));
    let mut out = Interface::Unwired(st(vec![("a", InterfaceTyp::Unit)]));
    let mut subs = vec![Interface::Unwired(st(vec![(
        "output",
        st(vec![("input", st(vec![("0", InterfaceTyp::Channel(ct()))]))]),
    )]))];
    let closure = ModuleValue::CallResult {
        submodule_index: 0,
        output_interface: sti(vec![("output", chan(sub(0, &["x"])))]),
        path: path(&["output"]),
    };
    let args = vec![ModuleGraphValue::Interface(InterfaceValue::ExternalInterface(path(&["a"])))];
    let value = handle_closure_call(&closure, &args, &ext, &mut out, &mut subs);
    assert_eq!(out, sti(vec![("a", Interface::Unit)]));
    assert_eq!(
        subs[0],
        sti(vec![("output", sti(vec![("input", sti(vec![("0", chan(Endpoint::Input { path: path(&["a"]) }))]))]))])
    );
    match value {
        ModuleGraphValue::Interface(InterfaceValue::CallResultInterface(x)) => assert_eq!(x, chan(sub(0, &["x"]))),
        _ => panic!("an interface is returned"),
    }
}

#[test]
fn ffi_gives_a_function_module() {
    let input_typ = st(vec![("input", InterfaceTyp::Unit), ("captured", InterfaceTyp::Unit), ("output", InterfaceTyp::Unit)]);
    let output_typ = st(vec![("output", InterfaceTyp::Channel(ct()))]);
    let (input, value) = construct_ffi(input_typ, output_typ, 2);
    assert_eq!(input, sti(vec![("input", Interface::Unit), ("captured", Interface::Unit), ("output", Interface::Unit)]));
    match value {
        ModuleGraphValue::Module(ModuleValue::Function { submodule_index, output_interface }) => {
            assert_eq!(submodule_index, 2);
            assert_eq!(output_interface, sti(vec![("output", chan(sub(2, &["output"])))]));
        }
        _ => panic!("a function module is given"),
    }
}

#[test]
fn fsm_takes_its_input_as_first_argument() {
    let ext = input_interface(&st(vec![("a", InterfaceTyp::Channel(ct()))]));
    let mut out = Interface::Unwired(st(vec![("a", InterfaceTyp::Unit)]));
    let arg = ModuleGraphValue::Interface(InterfaceValue::ExternalInterface(path(&["a"])));
    let (input, value) =
        construct_fsm(&arg, st(vec![("output", InterfaceTyp::Channel(ct()))]), 1, &ext, &mut out);
    assert_eq!(out, sti(vec![("a", Interface::Unit)]));
    assert_eq!(
        input,
        sti(vec![
            (
                "input",
                sti(vec![
                    ("0", chan(Endpoint::Input { path: path(&["a"]) })),
                    ("1", Interface::Unit),
                    ("2", Interface::Unit),
                ]),
            ),
            ("captured", Interface::Unit),
            ("output", Interface::Unit),
        ])
    );
    match value {
        ModuleGraphValue::Interface(InterfaceValue::CallResultInterface(x)) => assert_eq!(x, chan(sub(1, &["output"]))),
        _ => panic!("an interface is returned"),
    }
}

#[test]
fn closure_captures_external_interface() {
    let ch = || InterfaceTyp::Channel(ct());
    let input_typ = st(vec![("input", InterfaceTyp::Unit), ("captured", st(vec![("0", ch())])), ("output", InterfaceTyp::Unit)]);
    let output_typ = st(vec![("input", InterfaceTyp::Unit), ("captured", st(vec![("0", ch())])), ("output", ch())]);
    let ext = input_interface(&st(vec![("a", ch())]));
    let mut out = Interface::Unwired(st(vec![("a", ch())]));
    let mut subs: Vec<Interface> = vec![];
    let upvars = vec![ModuleGraphValue::Interface(InterfaceValue::ExternalInterface(path(&["a"])))];
    let (input, value) = wire_closure_upvars(input_typ, output_typ, &upvars, &ext, &mut out, &mut subs);
    assert_eq!(out, sti(vec![("a", chan(sub(0, &["captured", "0"])))]));
    assert_eq!(
        input,
        sti(vec![
            ("input", Interface::Unit),
            ("captured", sti(vec![("0", chan(Endpoint::Input { path: path(&["a"]) }))])),
            ("output", Interface::Unit),
        ])
    );
    match value {
        ModuleGraphValue::Module(ModuleValue::Closure { submodule_index, output_interface }) => {
            assert_eq!(submodule_index, 0);
            assert_eq!(
                output_interface,
                sti(vec![("input", Interface::Unit), ("captured", Interface::Unit), ("output", chan(sub(0, &["output"])))])
            );
        }
        _ => panic!("a closure module is given"),
    }
}
