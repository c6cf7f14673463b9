//! Wiring of a submodule call into the module graph: the arguments of the call are wired to
//! the input interface of the new submodule, to the outputs of the module under
//! construction and to the inputs of earlier submodules.

use vstd::prelude::*;

use crate::compiler::endpoint::{EndpointPath, NodeView};
use crate::compiler::interface::{
    itf_has_unwired, itf_path_ok, itf_sub, lemma_wire_then_sub, itf_wire, itf_wire_ok, itffields_view, itfs_view, lemma_itfs_view, Interface, InterfaceTyp, InterfaceView,
};
use crate::compiler::interface::itv_prims;
use crate::compiler::primitives::{driven_prims, prims_itf, prims_ok, submodule_output_interface};
use crate::utils::string::{nat_to_decimal, usize_to_string};

verus! {

/// Interface argument of a call.
#[derive(Debug)]
pub enum InterfaceValue {
    /// Interface at a path of the module's input
    ExternalInterface(EndpointPath),
    /// Interface that a call returned
    CallResultInterface(Interface),
}

/// Module argument of a call.
#[derive(Debug)]
pub enum ModuleValue {
    /// Module at a path of the module's input
    External(EndpointPath),
    /// Module that a call returned: the submodule, its output interface, and the path of
    /// its input where the module's input is wired
    CallResult {
        /// Index of the submodule
        submodule_index: usize,
        /// Its output interface
        output_interface: Interface,
        /// Path of its input
        path: EndpointPath,
    },
    /// Closure module
    Closure {
        /// Index of the submodule
        submodule_index: usize,
        /// Its output interface
        output_interface: Interface,
    },
    /// Function module
    Function {
        /// Index of the submodule
        submodule_index: usize,
        /// Its output interface
        output_interface: Interface,
    },
    /// Tuple or array of modules
    Composite(CompositeModuleArg),
}

/// Tuple or array of module arguments.
#[derive(Debug)]
pub enum CompositeModuleArg {
    /// Tuple, whose members are reached by field
    Tuple(Vec<ModuleValue>),
    /// Array, whose members are reached by index, and its length
    Array(Vec<ModuleValue>, usize),
}

/// Argument of a call in the module graph.
#[derive(Debug)]
pub enum ModuleGraphValue {
    /// Interface
    Interface(InterfaceValue),
    /// Module
    Module(ModuleValue),
    /// Constant argument of a pure function
    ConstantFunctionArgs,
    /// Unit
    Unit,
}

/// What a call returns, as far as its wiring goes: an interface; a module, with the type of
/// its input; or a tuple or array of modules, with the types of their outputs.
#[derive(Debug)]
pub enum ReturnTyp {
    /// Interface
    Interface,
    /// Module with the given input type
    Module(InterfaceTyp),
    /// Tuple of modules with the given output types
    Tuple(Vec<InterfaceTyp>),
    /// Array of modules with the given output type, and its length
    Array(InterfaceTyp, usize),
}

/// The interfaces that the wiring of a call changes: the input of the new submodule, the
/// output of the module under construction, and the inputs of the earlier submodules.
pub struct WiringState {
    /// Input of the new submodule
    pub input: InterfaceView,
    /// Output of the module under construction
    pub output: InterfaceView,
    /// Inputs of the earlier submodules
    pub subs: Seq<InterfaceView>,
}

/// Views of interfaces.
pub open spec fn views(s: Seq<Interface>) -> Seq<InterfaceView> {
    Seq::new(s.len(), |i: int| s[i]@)
}

/// A field node with the default separator.
pub open spec fn fld(name: Seq<char>) -> NodeView {
    NodeView::Field(name, None)
}

/// Path of argument `idx` in the input of a submodule.
pub open spec fn arg_path(idx: nat) -> Seq<NodeView> {
    seq![fld("input"@), fld(nat_to_decimal(idx))]
}

/// Wires `x` at `path` of the new submodule's input.
pub open spec fn wire_in(s: WiringState, path: Seq<NodeView>, x: InterfaceView) -> WiringState {
    WiringState { input: itf_wire(s.input, path, x), ..s }
}

/// Wires `x` at `path` of the output of the module under construction.
pub open spec fn wire_out(s: WiringState, path: Seq<NodeView>, x: InterfaceView) -> WiringState {
    WiringState { output: itf_wire(s.output, path, x), ..s }
}

/// Wires `x` at `path` of the input of submodule `si`.
pub open spec fn wire_sub(s: WiringState, si: int, path: Seq<NodeView>, x: InterfaceView) -> WiringState {
    WiringState { subs: s.subs.update(si, itf_wire(s.subs[si], path, x)), ..s }
}

/// Submodule `si` exists and `x` can be wired at `path` of its input.
pub open spec fn sub_ok(s: WiringState, si: int, path: Seq<NodeView>, x: InterfaceView) -> bool {
    0 <= si < s.subs.len() && itf_wire_ok(s.subs[si], path, x)
}

/// Wiring of a member of an array of module arguments, at `p` in the new submodule's input;
/// `c` is the new submodule's output.
pub open spec fn elem_step(s: WiringState, m: ModuleValue, p: Seq<NodeView>, c: InterfaceView) -> WiringState {
    match m {
        ModuleValue::Function { submodule_index, output_interface } | ModuleValue::Closure {
            submodule_index,
            output_interface,
        } => wire_sub(
            wire_in(s, p, output_interface@),
            submodule_index as int,
            seq![fld("input"@)],
            itf_sub(c, p.push(fld("input"@))),
        ),
        ModuleValue::CallResult { submodule_index, output_interface, path } => {
            let s1 = wire_in(s, p, output_interface@);
            if itf_has_unwired(s1.subs[submodule_index as int]) {
                wire_sub(s1, submodule_index as int, path@, itf_sub(c, p))
            } else {
                s1
            }
        },
        _ => s,
    }
}

/// The wiring of a member of an array of module arguments succeeds.
pub open spec fn elem_ok(s: WiringState, m: ModuleValue, p: Seq<NodeView>, c: InterfaceView) -> bool {
    match m {
        ModuleValue::Function { submodule_index, output_interface } | ModuleValue::Closure {
            submodule_index,
            output_interface,
        } => {
            &&& itf_wire_ok(s.input, p, output_interface@)
            &&& itf_path_ok(c, p.push(fld("input"@)))
            &&& sub_ok(
                wire_in(s, p, output_interface@),
                submodule_index as int,
                seq![fld("input"@)],
                itf_sub(c, p.push(fld("input"@))),
            )
        },
        ModuleValue::CallResult { submodule_index, output_interface, path } => {
            let s1 = wire_in(s, p, output_interface@);
            &&& itf_wire_ok(s.input, p, output_interface@)
            &&& submodule_index < s.subs.len()
            &&& itf_has_unwired(s1.subs[submodule_index as int]) ==> itf_path_ok(c, p) && sub_ok(
                s1,
                submodule_index as int,
                path@,
                itf_sub(c, p),
            )
        },
        _ => false,
    }
}

/// Wiring of the first `n` members of an array of module arguments at `p`.
pub open spec fn elems_state(s: WiringState, v: Seq<ModuleValue>, n: nat, p: Seq<NodeView>, c: InterfaceView) -> WiringState
    decreases n,
{
    if n == 0 || n > v.len() {
        s
    } else {
        let m = (n - 1) as nat;
        elem_step(elems_state(s, v, m, p, c), v[m as int], p.push(NodeView::Index(m as usize)), c)
    }
}

/// The wiring of the first `n` members of an array of module arguments succeeds.
pub open spec fn elems_ok(s: WiringState, v: Seq<ModuleValue>, n: nat, p: Seq<NodeView>, c: InterfaceView) -> bool
    decreases n,
{
    if n == 0 || n > v.len() {
        n == 0
    } else {
        let m = (n - 1) as nat;
        elems_ok(s, v, m, p, c) && elem_ok(elems_state(s, v, m, p, c), v[m as int], p.push(NodeView::Index(m as usize)), c)
    }
}

/// Wiring of argument `idx`; `ext` is the input of the module under construction and `c`
/// the new submodule's output.
pub open spec fn arg_step(s: WiringState, a: ModuleGraphValue, idx: nat, ext: InterfaceView, c: InterfaceView) -> WiringState {
    let ap = arg_path(idx);
    match a {
        ModuleGraphValue::Module(ModuleValue::External(p)) | ModuleGraphValue::Interface(
            InterfaceValue::ExternalInterface(p),
        ) => wire_out(wire_in(s, ap, itf_sub(ext, p@)), p@, itf_sub(c, ap)),
        ModuleGraphValue::Interface(InterfaceValue::CallResultInterface(x)) => wire_in(s, ap, x@),
        ModuleGraphValue::Module(ModuleValue::CallResult { submodule_index, output_interface, path }) => wire_sub(
            wire_in(s, ap, output_interface@),
            submodule_index as int,
            path@,
            itf_sub(c, ap),
        ),
        ModuleGraphValue::Module(ModuleValue::Closure { submodule_index, output_interface }) => {
            let s1 = wire_in(s, ap, output_interface@);
            let s2 = wire_sub(s1, submodule_index as int, seq![fld("input"@)], itf_sub(c, ap.push(fld("input"@))));
            wire_sub(s2, submodule_index as int, seq![fld("output"@)], itf_sub(c, ap.push(fld("output"@))))
        },
        ModuleGraphValue::Module(ModuleValue::Function { submodule_index, output_interface }) => wire_sub(
            wire_in(s, ap, output_interface@),
            submodule_index as int,
            seq![],
            itf_sub(c, ap),
        ),
        ModuleGraphValue::Module(ModuleValue::Composite(CompositeModuleArg::Array(v, _))) => elems_state(
            s,
            v@,
            v@.len(),
            ap,
            c,
        ),
        ModuleGraphValue::Module(ModuleValue::Composite(CompositeModuleArg::Tuple(_))) => s,
        ModuleGraphValue::ConstantFunctionArgs | ModuleGraphValue::Unit => wire_in(s, ap, InterfaceView::Unit),
    }
}

/// The wiring of argument `idx` succeeds: every path read exists and every wiring fits.
pub open spec fn arg_ok(s: WiringState, a: ModuleGraphValue, idx: nat, ext: InterfaceView, c: InterfaceView) -> bool {
    let ap = arg_path(idx);
    match a {
        ModuleGraphValue::Module(ModuleValue::External(p)) | ModuleGraphValue::Interface(
            InterfaceValue::ExternalInterface(p),
        ) => {
            &&& itf_path_ok(ext, p@)
            &&& itf_wire_ok(s.input, ap, itf_sub(ext, p@))
            &&& itf_path_ok(c, ap)
            &&& itf_wire_ok(s.output, p@, itf_sub(c, ap))
        },
        ModuleGraphValue::Interface(InterfaceValue::CallResultInterface(x)) => itf_wire_ok(s.input, ap, x@),
        ModuleGraphValue::Module(ModuleValue::CallResult { submodule_index, output_interface, path }) => {
            &&& itf_wire_ok(s.input, ap, output_interface@)
            &&& itf_path_ok(c, ap)
            &&& sub_ok(wire_in(s, ap, output_interface@), submodule_index as int, path@, itf_sub(c, ap))
        },
        ModuleGraphValue::Module(ModuleValue::Closure { submodule_index, output_interface }) => {
            let s1 = wire_in(s, ap, output_interface@);
            let s2 = wire_sub(s1, submodule_index as int, seq![fld("input"@)], itf_sub(c, ap.push(fld("input"@))));
            &&& itf_wire_ok(s.input, ap, output_interface@)
            &&& itf_path_ok(c, ap.push(fld("input"@)))
            &&& sub_ok(s1, submodule_index as int, seq![fld("input"@)], itf_sub(c, ap.push(fld("input"@))))
            &&& itf_path_ok(c, ap.push(fld("output"@)))
            &&& sub_ok(s2, submodule_index as int, seq![fld("output"@)], itf_sub(c, ap.push(fld("output"@))))
        },
        ModuleGraphValue::Module(ModuleValue::Function { submodule_index, output_interface }) => {
            &&& itf_wire_ok(s.input, ap, output_interface@)
            &&& itf_path_ok(c, ap)
            &&& sub_ok(wire_in(s, ap, output_interface@), submodule_index as int, seq![], itf_sub(c, ap))
        },
        ModuleGraphValue::Module(ModuleValue::Composite(CompositeModuleArg::Array(v, _))) => elems_ok(
            s,
            v@,
            v@.len(),
            ap,
            c,
        ),
        ModuleGraphValue::Module(ModuleValue::Composite(CompositeModuleArg::Tuple(_))) => false,
        ModuleGraphValue::ConstantFunctionArgs | ModuleGraphValue::Unit => itf_wire_ok(s.input, ap, InterfaceView::Unit),
    }
}

/// Wiring of the first `n` arguments.
pub open spec fn args_state(s: WiringState, args: Seq<ModuleGraphValue>, n: nat, ext: InterfaceView, c: InterfaceView) -> WiringState
    decreases n,
{
    if n == 0 || n > args.len() {
        s
    } else {
        let m = (n - 1) as nat;
        arg_step(args_state(s, args, m, ext, c), args[m as int], m, ext, c)
    }
}

/// The wiring of the first `n` arguments succeeds.
pub open spec fn args_ok(s: WiringState, args: Seq<ModuleGraphValue>, n: nat, ext: InterfaceView, c: InterfaceView) -> bool
    decreases n,
{
    if n == 0 || n > args.len() {
        n == 0
    } else {
        let m = (n - 1) as nat;
        args_ok(s, args, m, ext, c) && arg_ok(args_state(s, args, m, ext, c), args[m as int], m, ext, c)
    }
}

/// Path of member `i` of what a call returns: a field for a tuple, an index for an array.
pub open spec fn ret_path(i: nat, tuple: bool) -> Seq<NodeView> {
    if tuple {
        seq![fld("output"@), fld(nat_to_decimal(i))]
    } else {
        seq![fld("output"@), NodeView::Index(i as usize)]
    }
}

/// Wiring of the first `n` members of a returned tuple or array of modules, unwired of their
/// output types `typ(i)`.
pub open spec fn rets_state(s: WiringState, typs: Seq<InterfaceView>, n: nat, tuple: bool) -> WiringState
    decreases n,
{
    if n == 0 || n > typs.len() {
        s
    } else {
        let m = (n - 1) as nat;
        wire_in(rets_state(s, typs, m, tuple), ret_path(m, tuple), typs[m as int])
    }
}

/// The wiring of the first `n` members of a returned tuple or array of modules succeeds.
pub open spec fn rets_ok(s: WiringState, typs: Seq<InterfaceView>, n: nat, tuple: bool) -> bool
    decreases n,
{
    if n == 0 || n > typs.len() {
        n == 0
    } else {
        let m = (n - 1) as nat;
        rets_ok(s, typs, m, tuple) && itf_wire_ok(rets_state(s, typs, m, tuple).input, ret_path(m, tuple), typs[m as int])
    }
}

/// The unwired interfaces of the output types of returned modules.
pub open spec fn ret_typs(ret: ReturnTyp) -> Seq<InterfaceView> {
    match ret {
        ReturnTyp::Tuple(ts) => Seq::new(ts@.len(), |i: int| InterfaceView::Unwired(ts@[i]@)),
        ReturnTyp::Array(t, len) => Seq::new(len as nat, |i: int| InterfaceView::Unwired(t@)),
        _ => seq![],
    }
}

/// Wiring of the output field of the new submodule's input, after the arguments and the
/// captured values.
pub open spec fn ret_state(s: WiringState, ret: ReturnTyp) -> WiringState {
    let o = seq![fld("output"@)];
    match ret {
        ReturnTyp::Interface => wire_in(s, o, InterfaceView::Unit),
        ReturnTyp::Module(t) => wire_in(s, o, InterfaceView::Unwired(t@)),
        ReturnTyp::Tuple(_) => rets_state(s, ret_typs(ret), ret_typs(ret).len(), true),
        ReturnTyp::Array(_, _) => rets_state(s, ret_typs(ret), ret_typs(ret).len(), false),
    }
}

/// The wiring of the output field succeeds, and the new submodule's output has what the
/// returned value reads.
pub open spec fn ret_ok(s: WiringState, ret: ReturnTyp, c: InterfaceView) -> bool {
    let o = seq![fld("output"@)];
    match ret {
        ReturnTyp::Interface => itf_wire_ok(s.input, o, InterfaceView::Unit) && itf_path_ok(c, o),
        ReturnTyp::Module(t) => itf_wire_ok(s.input, o, InterfaceView::Unwired(t@)) && itf_path_ok(c, o),
        ReturnTyp::Tuple(_) => rets_ok(s, ret_typs(ret), ret_typs(ret).len(), true) && forall|i: nat|
            i < ret_typs(ret).len() ==> itf_path_ok(c, #[trigger] ret_path(i, true)),
        ReturnTyp::Array(_, _) => rets_ok(s, ret_typs(ret), ret_typs(ret).len(), false) && forall|i: nat|
            i < ret_typs(ret).len() ==> itf_path_ok(c, #[trigger] ret_path(i, false)),
    }
}

/// The members of a returned tuple or array of modules: each the result of submodule `si`,
/// with the new submodule's output at its path and that path.
pub open spec fn ret_members(v: Seq<ModuleValue>, n: nat, si: usize, c: InterfaceView, tuple: bool) -> bool {
    &&& v.len() == n
    &&& forall|i: int|
        0 <= i < n ==> ((#[trigger] v[i]) matches ModuleValue::CallResult { submodule_index, output_interface, path }
            && submodule_index == si && path@ == ret_path(i as nat, tuple) && output_interface@ == itf_sub(
            c,
            ret_path(i as nat, tuple),
        ))
}

/// The value that a call returns in the module graph: the interface at the output of the new
/// submodule `si`, or modules that are results of it.
pub open spec fn ret_value_ok(r: ModuleGraphValue, ret: ReturnTyp, si: usize, c: InterfaceView) -> bool {
    let o = seq![fld("output"@)];
    match ret {
        ReturnTyp::Interface => r matches ModuleGraphValue::Interface(InterfaceValue::CallResultInterface(x)) && x@
            == itf_sub(c, o),
        ReturnTyp::Module(_) => r matches ModuleGraphValue::Module(
            ModuleValue::CallResult { submodule_index, output_interface, path },
        ) && submodule_index == si && output_interface@ == itf_sub(c, o) && path@ == o,
        ReturnTyp::Tuple(ts) => r matches ModuleGraphValue::Module(ModuleValue::Composite(CompositeModuleArg::Tuple(v)))
            && ret_members(v@, ts@.len(), si, c, true),
        ReturnTyp::Array(_, len) => r matches ModuleGraphValue::Module(
            ModuleValue::Composite(CompositeModuleArg::Array(v, l)),
        ) && l == len && ret_members(v@, len as nat, si, c, false),
    }
}

/// The state of wiring held by the given interfaces.
pub open spec fn st(input: Interface, output: Interface, subs: Seq<Interface>) -> WiringState {
    WiringState { input: input@, output: output@, subs: views(subs) }
}

/// The path of a field, with the default separator, after `base`.
fn field_path(base: &EndpointPath, name: &str) -> (r: EndpointPath)
    ensures
        r@ == base@.push(fld(name@)),
{
    base.append_field(name)
}

/// Path of argument `idx` in the input of a submodule.
fn arg_path_of(idx: usize) -> (r: EndpointPath)
    ensures
        r@ == arg_path(idx as nat),
{
    let p = field_path(&EndpointPath::default(), "input");
    let name = usize_to_string(idx);
    let r = field_path(&p, name.as_str());
    assert(r@ =~= arg_path(idx as nat));
    r
}

/// Wires `x` at `path` of the input of submodule `si`.
fn wire_sub_exec(subs: &mut Vec<Interface>, si: usize, path: EndpointPath, x: Interface)
    requires
        si < old(subs)@.len(),
        itf_wire_ok(old(subs)@[si as int]@, path@, x@),
    ensures
        views(final(subs)@) == views(old(subs)@).update(si as int, itf_wire(old(subs)@[si as int]@, path@, x@)),
{
    let mut target = subs[si].clone();
    target.wire(path, x);
    subs.set(si, target);
    assert(views(subs@) =~= views(old(subs)@).update(si as int, itf_wire(old(subs)@[si as int]@, path@, x@)));
}

/// Wires a member of an array of module arguments, at `p` in the new submodule's input.
fn wire_elem(input: &mut Interface, output: &mut Interface, subs: &mut Vec<Interface>, m: &ModuleValue, p: &EndpointPath, c: &Interface)
    requires
        elem_ok(st(*old(input), *old(output), old(subs)@), *m, p@, c@),
    ensures
        st(*final(input), *final(output), final(subs)@) == elem_step(
            st(*old(input), *old(output), old(subs)@),
            *m,
            p@,
            c@,
        ),
{
    let ghost s0 = st(*input, *output, subs@);
    match m {
        ModuleValue::Function { submodule_index, output_interface } | ModuleValue::Closure {
            submodule_index,
            output_interface,
        } => {
            input.wire(p.clone(), output_interface.clone());
            let ip = field_path(p, "input");
            let x = c.get_subinterface(ip);
            let target = field_path(&EndpointPath::default(), "input");
            assert(target@ =~= seq![fld("input"@)]);
            wire_sub_exec(subs, *submodule_index, target, x);
            assert(st(*input, *output, subs@) == elem_step(s0, *m, p@, c@));
        },
        ModuleValue::CallResult { submodule_index, output_interface, path } => {
            input.wire(p.clone(), output_interface.clone());
            if subs[*submodule_index].contains_unwired() {
                let x = c.clone().get_subinterface(p.clone());
                wire_sub_exec(subs, *submodule_index, path.clone(), x);
            }
            assert(st(*input, *output, subs@) == elem_step(s0, *m, p@, c@));
        },
        _ => {
            proof {
                assert(false);
            }
        },
    }
}

/// The wiring of a prefix of the members of an array succeeds when that of more does.
proof fn lemma_elems_ok_prefix(s: WiringState, v: Seq<ModuleValue>, n: nat, m: nat, p: Seq<NodeView>, c: InterfaceView)
    requires
        m < n <= v.len(),
        elems_ok(s, v, n, p, c),
    ensures
        elems_ok(s, v, m, p, c),
        elem_ok(elems_state(s, v, m, p, c), v[m as int], p.push(NodeView::Index(m as usize)), c),
    decreases n,
{
    if m + 1 < n {
        lemma_elems_ok_prefix(s, v, (n - 1) as nat, m, p, c);
    }
}

/// Wires the members of an array of module arguments, at `p` in the new submodule's input.
fn wire_elems(
    input: &mut Interface,
    output: &mut Interface,
    subs: &mut Vec<Interface>,
    v: &Vec<ModuleValue>,
    p: &EndpointPath,
    c: &Interface,
)
    requires
        elems_ok(st(*old(input), *old(output), old(subs)@), v@, v@.len(), p@, c@),
    ensures
        st(*final(input), *final(output), final(subs)@) == elems_state(
            st(*old(input), *old(output), old(subs)@),
            v@,
            v@.len(),
            p@,
            c@,
        ),
{
    let ghost s0 = st(*input, *output, subs@);
    let mut i: usize = 0;
    while i < v.len()
        invariant
            i <= v@.len(),
            elems_ok(s0, v@, v@.len(), p@, c@),
            st(*input, *output, subs@) == elems_state(s0, v@, i as nat, p@, c@),
        decreases v@.len() - i,
    {
        proof {
            lemma_elems_ok_prefix(s0, v@, v@.len(), i as nat, p@, c@);
        }
        let pi = p.append_index(i);
        wire_elem(input, output, subs, &v[i], &pi, c);
        i = i + 1;
    }
}

/// Wires argument `idx` of a call; `ext` is the input of the module under construction and
/// `c` the new submodule's output.
fn wire_arg(
    input: &mut Interface,
    output: &mut Interface,
    subs: &mut Vec<Interface>,
    a: &ModuleGraphValue,
    idx: usize,
    ext: &Interface,
    c: &Interface,
)
    requires
        arg_ok(st(*old(input), *old(output), old(subs)@), *a, idx as nat, ext@, c@),
    ensures
        st(*final(input), *final(output), final(subs)@) == arg_step(
            st(*old(input), *old(output), old(subs)@),
            *a,
            idx as nat,
            ext@,
            c@,
        ),
{
    let ghost s0 = st(*input, *output, subs@);
    let ap = arg_path_of(idx);
    match a {
        ModuleGraphValue::Module(ModuleValue::External(p)) | ModuleGraphValue::Interface(
            InterfaceValue::ExternalInterface(p),
        ) => {
            let incoming = ext.get_subinterface(p.clone());
            input.wire(ap.clone(), incoming);
            let outgoing = c.get_subinterface(ap.clone());
            output.wire(p.clone(), outgoing);
        },
        ModuleGraphValue::Interface(InterfaceValue::CallResultInterface(x)) => {
            input.wire(ap, x.clone());
        },
        ModuleGraphValue::Module(ModuleValue::CallResult { submodule_index, output_interface, path }) => {
            input.wire(ap.clone(), output_interface.clone());
            let x = c.get_subinterface(ap);
            wire_sub_exec(subs, *submodule_index, path.clone(), x);
        },
        ModuleGraphValue::Module(ModuleValue::Closure { submodule_index, output_interface }) => {
            input.wire(ap.clone(), output_interface.clone());
            let in_path = field_path(&ap, "input");
            let x = c.get_subinterface(in_path);
            let target = field_path(&EndpointPath::default(), "input");
            assert(target@ =~= seq![fld("input"@)]);
            wire_sub_exec(subs, *submodule_index, target, x);
            let out_path = field_path(&ap, "output");
            let y = c.get_subinterface(out_path);
            let target2 = field_path(&EndpointPath::default(), "output");
            assert(target2@ =~= seq![fld("output"@)]);
            wire_sub_exec(subs, *submodule_index, target2, y);
        },
        ModuleGraphValue::Module(ModuleValue::Function { submodule_index, output_interface }) => {
            input.wire(ap.clone(), output_interface.clone());
            let x = c.get_subinterface(ap);
            wire_sub_exec(subs, *submodule_index, EndpointPath::default(), x);
        },
        ModuleGraphValue::Module(ModuleValue::Composite(CompositeModuleArg::Array(v, _))) => {
            wire_elems(input, output, subs, v, &ap, c);
        },
        ModuleGraphValue::Module(ModuleValue::Composite(CompositeModuleArg::Tuple(_))) => {
            proof {
                assert(false);
            }
        },
        ModuleGraphValue::ConstantFunctionArgs | ModuleGraphValue::Unit => {
            input.wire(ap, Interface::Unit);
        },
    }
    assert(st(*input, *output, subs@) =~~= arg_step(s0, *a, idx as nat, ext@, c@));
}

/// The output interface of new submodule `si` whose output has type `t`.
pub open spec fn call_output(t: crate::compiler::interface::InterfaceTypView, si: usize) -> InterfaceView {
    prims_itf(driven_prims(itv_prims(t), Some(si)))
}

/// Wiring of the captured values of a call: none.
pub open spec fn captured_state(s: WiringState) -> WiringState {
    wire_in(s, seq![fld("captured"@)], InterfaceView::Unit)
}

/// Wiring of a whole call: its arguments in order, its captured values, then the output
/// field of the new submodule's input.
pub open spec fn call_state(s: WiringState, args: Seq<ModuleGraphValue>, ext: InterfaceView, c: InterfaceView, ret: ReturnTyp) -> WiringState {
    ret_state(captured_state(args_state(s, args, args.len(), ext, c)), ret)
}

/// The wiring of a whole call succeeds.
pub open spec fn call_ok(s: WiringState, args: Seq<ModuleGraphValue>, ext: InterfaceView, c: InterfaceView, ret: ReturnTyp) -> bool {
    let sa = args_state(s, args, args.len(), ext, c);
    &&& args_ok(s, args, args.len(), ext, c)
    &&& itf_wire_ok(sa.input, seq![fld("captured"@)], InterfaceView::Unit)
    &&& ret_ok(captured_state(sa), ret, c)
}

/// The wiring of a prefix of the arguments succeeds when that of more does.
proof fn lemma_args_ok_prefix(s: WiringState, args: Seq<ModuleGraphValue>, n: nat, m: nat, ext: InterfaceView, c: InterfaceView)
    requires
        m < n <= args.len(),
        args_ok(s, args, n, ext, c),
    ensures
        args_ok(s, args, m, ext, c),
        arg_ok(args_state(s, args, m, ext, c), args[m as int], m, ext, c),
    decreases n,
{
    if m + 1 < n {
        lemma_args_ok_prefix(s, args, (n - 1) as nat, m, ext, c);
    }
}

/// The wiring of a prefix of the returned members succeeds when that of more does.
proof fn lemma_rets_ok_prefix(s: WiringState, typs: Seq<InterfaceView>, n: nat, m: nat, tuple: bool)
    requires
        m < n <= typs.len(),
        rets_ok(s, typs, n, tuple),
    ensures
        rets_ok(s, typs, m, tuple),
        itf_wire_ok(rets_state(s, typs, m, tuple).input, ret_path(m, tuple), typs[m as int]),
    decreases n,
{
    if m + 1 < n {
        lemma_rets_ok_prefix(s, typs, (n - 1) as nat, m, tuple);
    }
}

/// Wires the output field of the new submodule's input for a returned tuple (`tuple`) or
/// array of modules with output types `typs`, and returns the modules.
fn wire_rets(
    input: &mut Interface,
    typs: &Vec<InterfaceTyp>,
    count: usize,
    tuple: bool,
    si: usize,
    c: &Interface,
    Ghost(spec_typs): Ghost<Seq<InterfaceView>>,
) -> (r: Vec<ModuleValue>)
    requires
        spec_typs.len() == count,
        tuple ==> typs@.len() == count && forall|i: int| 0 <= i < count ==> spec_typs[i] == InterfaceView::Unwired(
            #[trigger] typs@[i]@,
        ),
        !tuple ==> typs@.len() == 1 && forall|i: int| 0 <= i < count ==> #[trigger] spec_typs[i] == InterfaceView::Unwired(
            typs@[0]@,
        ),
        rets_ok(WiringState { input: old(input)@, output: InterfaceView::Unit, subs: seq![] }, spec_typs, count as nat, tuple),
        forall|i: nat| i < count ==> itf_path_ok(c@, #[trigger] ret_path(i, tuple)),
    ensures
        final(input)@ == rets_state(
            WiringState { input: old(input)@, output: InterfaceView::Unit, subs: seq![] },
            spec_typs,
            count as nat,
            tuple,
        ).input,
        ret_members(r@, count as nat, si, c@, tuple),
{
    let ghost s0 = WiringState { input: input@, output: InterfaceView::Unit, subs: seq![] };
    let o = field_path(&EndpointPath::default(), "output");
    let mut out: Vec<ModuleValue> = Vec::new();
    let mut i: usize = 0;
    while i < count
        invariant
            i <= count,
            o@ == seq![fld("output"@)],
            spec_typs.len() == count,
            tuple ==> typs@.len() == count && forall|j: int| 0 <= j < count ==> spec_typs[j] == InterfaceView::Unwired(
                #[trigger] typs@[j]@,
            ),
            !tuple ==> typs@.len() == 1 && forall|j: int| 0 <= j < count ==> #[trigger] spec_typs[j] == InterfaceView::Unwired(
                typs@[0]@,
            ),
            rets_ok(s0, spec_typs, count as nat, tuple),
            forall|j: nat| j < count ==> itf_path_ok(c@, #[trigger] ret_path(j, tuple)),
            input@ == rets_state(s0, spec_typs, i as nat, tuple).input,
            rets_state(s0, spec_typs, i as nat, tuple).output == s0.output,
            rets_state(s0, spec_typs, i as nat, tuple).subs == s0.subs,
            ret_members(out@, i as nat, si, c@, tuple),
        decreases count - i,
    {
        proof {
            lemma_rets_ok_prefix(s0, spec_typs, count as nat, i as nat, tuple);
        }
        let path = if tuple {
            let name = usize_to_string(i);
            field_path(&o, name.as_str())
        } else {
            o.append_index(i)
        };
        assert(path@ =~= ret_path(i as nat, tuple));
        let t = if tuple {
            typs[i].clone()
        } else {
            typs[0].clone()
        };
        input.wire(path.clone(), Interface::Unwired(t));
        let x = c.get_subinterface(path.clone());
        let ghost prev = out@;
        out.push(ModuleValue::CallResult { submodule_index: si, output_interface: x, path });
        assert forall|j: int| 0 <= j < i + 1 implies ((#[trigger] out@[j]) matches ModuleValue::CallResult {
            submodule_index,
            output_interface,
            path,
        } && submodule_index == si && path@ == ret_path(j as nat, tuple) && output_interface@ == itf_sub(
            c@,
            ret_path(j as nat, tuple),
        )) by {
            if j < i {
                assert(out@[j] == prev[j]);
            }
        }
        i = i + 1;
    }
    out
}

/// Returns the input interface of a new submodule called with `args` and the value the call
/// returns, and wires the arguments: the input of the new submodule, whose type is
/// `input_typ`, gets each argument at its path, no captured values, and at its output field
/// what `ret` says; external arguments, read from `input_interface`, get the new
/// submodule's output at their paths in `output_interface`; submodules that arguments come
/// from get the new submodule's output at their inputs. The new submodule's output, of type
/// `output_typ`, is driven by it, at the index after the earlier submodules whose inputs are
/// `submodule_inputs`.
pub fn get_wired_input_interface(
    input_typ: InterfaceTyp,
    output_typ: InterfaceTyp,
    ret: &ReturnTyp,
    args: &Vec<ModuleGraphValue>,
    input_interface: &Interface,
    output_interface: &mut Interface,
    submodule_inputs: &mut Vec<Interface>,
) -> (r: (Interface, ModuleGraphValue))
    requires
        prims_ok(driven_prims(itv_prims(output_typ@), Some(old(submodule_inputs)@.len() as usize))),
        call_ok(
            WiringState {
                input: InterfaceView::Unwired(input_typ@),
                output: old(output_interface)@,
                subs: views(old(submodule_inputs)@),
            },
            args@,
            input_interface@,
            call_output(output_typ@, old(submodule_inputs)@.len() as usize),
            *ret,
        ),
    ensures
        st(r.0, *final(output_interface), final(submodule_inputs)@) == call_state(
            WiringState {
                input: InterfaceView::Unwired(input_typ@),
                output: old(output_interface)@,
                subs: views(old(submodule_inputs)@),
            },
            args@,
            input_interface@,
            call_output(output_typ@, old(submodule_inputs)@.len() as usize),
            *ret,
        ),
        ret_value_ok(
            r.1,
            *ret,
            old(submodule_inputs)@.len() as usize,
            call_output(output_typ@, old(submodule_inputs)@.len() as usize),
        ),
{
    let si = submodule_inputs.len();
    let constructed = submodule_output_interface(output_typ, si);
    let ghost c = constructed@;
    let ghost ext = input_interface@;
    let mut input = Interface::Unwired(input_typ);
    let ghost s0 = st(input, *output_interface, submodule_inputs@);
    let mut i: usize = 0;
    while i < args.len()
        invariant
            i <= args@.len(),
            c == constructed@,
            ext == input_interface@,
            args_ok(s0, args@, args@.len() as nat, ext, c),
            st(input, *output_interface, submodule_inputs@) == args_state(s0, args@, i as nat, ext, c),
        decreases args@.len() - i,
    {
        proof {
            lemma_args_ok_prefix(s0, args@, args@.len() as nat, i as nat, ext, c);
        }
        wire_arg(&mut input, output_interface, submodule_inputs, &args[i], i, input_interface, &constructed);
        i = i + 1;
    }
    let cp = field_path(&EndpointPath::default(), "captured");
    assert(cp@ =~= seq![fld("captured"@)]);
    input.wire(cp, Interface::Unit);
    let ghost sc = st(input, *output_interface, submodule_inputs@);
    let o = field_path(&EndpointPath::default(), "output");
    assert(o@ =~= seq![fld("output"@)]);
    match ret {
        ReturnTyp::Interface => {
            input.wire(o.clone(), Interface::Unit);
            let x = constructed.get_subinterface(o);
            (input, ModuleGraphValue::Interface(InterfaceValue::CallResultInterface(x)))
        },
        ReturnTyp::Module(t) => {
            input.wire(o.clone(), Interface::Unwired(t.clone()));
            let x = constructed.get_subinterface(o.clone());
            (input, ModuleGraphValue::Module(ModuleValue::CallResult { submodule_index: si, output_interface: x, path: o }))
        },
        ReturnTyp::Tuple(ts) => {
            let ghost typs = ret_typs(*ret);
            proof {
                lemma_rets_other_fields(sc, WiringState { input: sc.input, output: InterfaceView::Unit, subs: seq![] }, typs, typs.len(), true);
            }
            let v = wire_rets(&mut input, ts, ts.len(), true, si, &constructed, Ghost(typs));
            (input, ModuleGraphValue::Module(ModuleValue::Composite(CompositeModuleArg::Tuple(v))))
        },
        ReturnTyp::Array(t, len) => {
            let ghost typs = ret_typs(*ret);
            let one = vec![t.clone()];
            proof {
                lemma_rets_other_fields(sc, WiringState { input: sc.input, output: InterfaceView::Unit, subs: seq![] }, typs, typs.len(), false);
            }
            let v = wire_rets(&mut input, &one, *len, false, si, &constructed, Ghost(typs));
            (input, ModuleGraphValue::Module(ModuleValue::Composite(CompositeModuleArg::Array(v, *len))))
        },
    }
}

/// Wiring of returned members touches the new submodule's input alone.
proof fn lemma_rets_other_fields(s: WiringState, t: WiringState, typs: Seq<InterfaceView>, n: nat, tuple: bool)
    requires
        s.input == t.input,
    ensures
        rets_state(s, typs, n, tuple).input == rets_state(t, typs, n, tuple).input,
        rets_state(s, typs, n, tuple).output == s.output,
        rets_state(s, typs, n, tuple).subs == s.subs,
        rets_ok(s, typs, n, tuple) == rets_ok(t, typs, n, tuple),
    decreases n,
{
    if n > 0 && n <= typs.len() {
        lemma_rets_other_fields(s, t, typs, (n - 1) as nat, tuple);
    }
}

/// Wiring of member `i` of a tuple (`tuple`) or array of modules that a module returns: the
/// member, a result of a submodule, gets the module's input at the member's output path, and
/// the module's output there is the member's output.
pub open spec fn member_step(s: WiringState, m: ModuleValue, i: nat, tuple: bool, ext: InterfaceView) -> WiringState {
    match m {
        ModuleValue::CallResult { submodule_index, output_interface, path } => {
            let p = ret_path(i, tuple);
            wire_out(wire_sub(s, submodule_index as int, path@, itf_sub(ext, p)), p, output_interface@)
        },
        _ => s,
    }
}

/// The wiring of member `i` succeeds: it is a result of a submodule and the wirings fit.
pub open spec fn member_ok(s: WiringState, m: ModuleValue, i: nat, tuple: bool, ext: InterfaceView) -> bool {
    match m {
        ModuleValue::CallResult { submodule_index, output_interface, path } => {
            let p = ret_path(i, tuple);
            &&& itf_path_ok(ext, p)
            &&& sub_ok(s, submodule_index as int, path@, itf_sub(ext, p))
            &&& itf_wire_ok(wire_sub(s, submodule_index as int, path@, itf_sub(ext, p)).output, p, output_interface@)
        },
        _ => false,
    }
}

/// Wiring of the first `n` returned members.
pub open spec fn members_state(s: WiringState, v: Seq<ModuleValue>, n: nat, tuple: bool, ext: InterfaceView) -> WiringState
    decreases n,
{
    if n == 0 || n > v.len() {
        s
    } else {
        let m = (n - 1) as nat;
        member_step(members_state(s, v, m, tuple, ext), v[m as int], m, tuple, ext)
    }
}

/// The wiring of the first `n` returned members succeeds.
pub open spec fn members_ok(s: WiringState, v: Seq<ModuleValue>, n: nat, tuple: bool, ext: InterfaceView) -> bool
    decreases n,
{
    if n == 0 || n > v.len() {
        n == 0
    } else {
        let m = (n - 1) as nat;
        members_ok(s, v, m, tuple, ext) && member_ok(members_state(s, v, m, tuple, ext), v[m as int], m, tuple, ext)
    }
}

/// Wiring of the output of a module whose body ends in value `a`: `recorded` tells whether
/// the value was recorded among the module arguments when the body was walked, or built for
/// the end of the body.
pub open spec fn output_state(s: WiringState, recorded: bool, a: ModuleGraphValue, ext: InterfaceView) -> WiringState {
    let o = seq![fld("output"@)];
    match a {
        ModuleGraphValue::Interface(InterfaceValue::CallResultInterface(x)) => wire_out(s, o, x@),
        ModuleGraphValue::Interface(InterfaceValue::ExternalInterface(p)) => wire_out(
            wire_out(s, p@, InterfaceView::Unit),
            o,
            itf_sub(ext, p@),
        ),
        ModuleGraphValue::Module(ModuleValue::Composite(CompositeModuleArg::Tuple(v))) => members_state(
            s,
            v@,
            v@.len(),
            true,
            ext,
        ),
        ModuleGraphValue::Module(ModuleValue::Composite(CompositeModuleArg::Array(v, _))) => members_state(
            s,
            v@,
            v@.len(),
            false,
            ext,
        ),
        ModuleGraphValue::Module(ModuleValue::Closure { submodule_index, output_interface }) => {
            let si = submodule_index as int;
            let s1 = wire_sub(s, si, seq![fld("input"@)], itf_sub(ext, o.push(fld("input"@))));
            let s2 = wire_sub(s1, si, seq![fld("output"@)], itf_sub(ext, o.push(fld("output"@))));
            wire_out(s2, o, output_interface@)
        },
        _ => s,
    }
}

/// The wiring of the output succeeds: the value is one whose wiring is supported there, and
/// every path read exists and every wiring fits; a closure captures nothing.
pub open spec fn output_ok(s: WiringState, recorded: bool, a: ModuleGraphValue, ext: InterfaceView) -> bool {
    let o = seq![fld("output"@)];
    match a {
        ModuleGraphValue::Interface(InterfaceValue::CallResultInterface(x)) => itf_wire_ok(s.output, o, x@),
        ModuleGraphValue::Interface(InterfaceValue::ExternalInterface(p)) => {
            &&& !recorded
            &&& itf_wire_ok(s.output, p@, InterfaceView::Unit)
            &&& itf_path_ok(ext, p@)
            &&& itf_wire_ok(wire_out(s, p@, InterfaceView::Unit).output, o, itf_sub(ext, p@))
        },
        ModuleGraphValue::Module(ModuleValue::Composite(CompositeModuleArg::Tuple(v))) => members_ok(
            s,
            v@,
            v@.len(),
            true,
            ext,
        ),
        ModuleGraphValue::Module(ModuleValue::Composite(CompositeModuleArg::Array(v, _))) => recorded && members_ok(
            s,
            v@,
            v@.len(),
            false,
            ext,
        ),
        ModuleGraphValue::Module(ModuleValue::Closure { submodule_index, output_interface }) => {
            let si = submodule_index as int;
            let s1 = wire_sub(s, si, seq![fld("input"@)], itf_sub(ext, o.push(fld("input"@))));
            let s2 = wire_sub(s1, si, seq![fld("output"@)], itf_sub(ext, o.push(fld("output"@))));
            &&& !recorded
            &&& itf_path_ok(ext, o.push(fld("input"@)))
            &&& sub_ok(s, si, seq![fld("input"@)], itf_sub(ext, o.push(fld("input"@))))
            &&& itf_path_ok(output_interface@, seq![fld("captured"@)])
            &&& itf_sub(output_interface@, seq![fld("captured"@)]) == InterfaceView::Unit
            &&& itf_path_ok(ext, o.push(fld("output"@)))
            &&& sub_ok(s1, si, seq![fld("output"@)], itf_sub(ext, o.push(fld("output"@))))
            &&& itf_wire_ok(s2.output, o, output_interface@)
        },
        _ => false,
    }
}

/// The wiring of a prefix of the returned members succeeds when that of more does.
proof fn lemma_members_ok_prefix(s: WiringState, v: Seq<ModuleValue>, n: nat, m: nat, tuple: bool, ext: InterfaceView)
    requires
        m < n <= v.len(),
        members_ok(s, v, n, tuple, ext),
    ensures
        members_ok(s, v, m, tuple, ext),
        member_ok(members_state(s, v, m, tuple, ext), v[m as int], m, tuple, ext),
    decreases n,
{
    if m + 1 < n {
        lemma_members_ok_prefix(s, v, (n - 1) as nat, m, tuple, ext);
    }
}

/// Wires the returned members of a tuple (`tuple`) or array of modules.
fn wire_members(
    input: &Interface,
    output: &mut Interface,
    subs: &mut Vec<Interface>,
    v: &Vec<ModuleValue>,
    tuple: bool,
    ext: &Interface,
)
    requires
        members_ok(st(*input, *old(output), old(subs)@), v@, v@.len(), tuple, ext@),
    ensures
        st(*input, *final(output), final(subs)@) == members_state(
            st(*input, *old(output), old(subs)@),
            v@,
            v@.len(),
            tuple,
            ext@,
        ),
{
    let ghost s0 = st(*input, *output, subs@);
    let o = field_path(&EndpointPath::default(), "output");
    let mut i: usize = 0;
    while i < v.len()
        invariant
            i <= v@.len(),
            o@ == seq![fld("output"@)],
            members_ok(s0, v@, v@.len(), tuple, ext@),
            st(*input, *output, subs@) == members_state(s0, v@, i as nat, tuple, ext@),
        decreases v@.len() - i,
    {
        proof {
            lemma_members_ok_prefix(s0, v@, v@.len(), i as nat, tuple, ext@);
        }
        let ghost si0 = st(*input, *output, subs@);
        match &v[i] {
            ModuleValue::CallResult { submodule_index, output_interface, path } => {
                let p = if tuple {
                    let name = usize_to_string(i);
                    field_path(&o, name.as_str())
                } else {
                    o.append_index(i)
                };
                assert(p@ =~= ret_path(i as nat, tuple));
                let x = ext.get_subinterface(p.clone());
                wire_sub_exec(subs, *submodule_index, path.clone(), x);
                output.wire(p, output_interface.clone());
                assert(st(*input, *output, subs@) == member_step(si0, v@[i as int], i as nat, tuple, ext@));
            },
            _ => {
                proof {
                    assert(false);
                }
            },
        }
        i = i + 1;
    }
}

/// Wires the output of a module whose body ends in value `a`: `recorded` tells whether the
/// value was recorded among the module arguments when the body was walked. The output field
/// of `output_interface` gets what the value gives: a returned interface; the interface at
/// an external path of `input_interface`, whose own path in the output is left unit; the
/// outputs of returned modules, whose inputs get the module's input at their paths; or the
/// output of a closure, whose input and output get the module's input.
pub fn wire_output_interface(
    recorded: bool,
    a: &ModuleGraphValue,
    input_interface: &Interface,
    output_interface: &mut Interface,
    submodule_inputs: &mut Vec<Interface>,
)
    requires
        output_ok(st(Interface::Unit, *old(output_interface), old(submodule_inputs)@), recorded, *a, input_interface@),
    ensures
        st(Interface::Unit, *final(output_interface), final(submodule_inputs)@) == output_state(
            st(Interface::Unit, *old(output_interface), old(submodule_inputs)@),
            recorded,
            *a,
            input_interface@,
        ),
{
    let unit = Interface::Unit;
    let o = field_path(&EndpointPath::default(), "output");
    assert(o@ =~= seq![fld("output"@)]);
    match a {
        ModuleGraphValue::Interface(InterfaceValue::CallResultInterface(x)) => {
            output_interface.wire(o, x.clone());
        },
        ModuleGraphValue::Interface(InterfaceValue::ExternalInterface(p)) => {
            output_interface.wire(p.clone(), Interface::Unit);
            let x = input_interface.get_subinterface(p.clone());
            output_interface.wire(o, x);
        },
        ModuleGraphValue::Module(ModuleValue::Composite(CompositeModuleArg::Tuple(v))) => {
            wire_members(&unit, output_interface, submodule_inputs, v, true, input_interface);
        },
        ModuleGraphValue::Module(ModuleValue::Composite(CompositeModuleArg::Array(v, _))) => {
            wire_members(&unit, output_interface, submodule_inputs, v, false, input_interface);
        },
        ModuleGraphValue::Module(ModuleValue::Closure { submodule_index, output_interface: closure_output }) => {
            let in_path = field_path(&o, "input");
            let x = input_interface.get_subinterface(in_path);
            let target = field_path(&EndpointPath::default(), "input");
            assert(target@ =~= seq![fld("input"@)]);
            wire_sub_exec(submodule_inputs, *submodule_index, target, x);
            let out_path = field_path(&o, "output");
            let y = input_interface.get_subinterface(out_path);
            let target2 = field_path(&EndpointPath::default(), "output");
            assert(target2@ =~= seq![fld("output"@)]);
            wire_sub_exec(submodule_inputs, *submodule_index, target2, y);
            output_interface.wire(o, closure_output.clone());
        },
        _ => {
            proof {
                assert(false);
            }
        },
    }
}

/// Interfaces as a tuple: unit if there is none, else a struct whose fields are named by
/// their indices.
pub open spec fn tuple_of(s: Seq<Interface>) -> InterfaceView {
    if s.len() == 0 {
        InterfaceView::Unit
    } else {
        InterfaceView::Struct(Seq::new(s.len(), |k: int| (nat_to_decimal(k as nat), None::<Seq<char>>, itfs_view(s)[k])))
    }
}

/// The interface of a module: its input, its captured values as a tuple, and its output,
/// as the fields `input`, `captured` and `output`.
pub fn collect_interface(input: Interface, captured: Vec<Interface>, output: Interface) -> (r: Interface)
    ensures
        r@ == InterfaceView::Struct(
            seq![
                ("input"@, None::<Seq<char>>, input@),
                ("captured"@, None::<Seq<char>>, tuple_of(captured@)),
                ("output"@, None::<Seq<char>>, output@),
            ],
        ),
{
    let ghost iv = input@;
    let ghost ov = output@;
    let c = Interface::from_interfaces(captured);
    let ghost cv = c@;
    let fields = vec![
        (String::from_str("input"), (None, input)),
        (String::from_str("captured"), (None, c)),
        (String::from_str("output"), (None, output)),
    ];
    let r = Interface::Struct(fields);
    proof {
        let fv = fields@;
        reveal_with_fuel(itffields_view, 4);
        assert(fv.drop_last().drop_last().drop_last() =~= Seq::<(String, (Option<String>, Interface))>::empty());
        assert(fv.drop_last().drop_last().last() == fv[0]);
        assert(fv.drop_last().last() == fv[1]);
        assert(itffields_view(fv) =~= seq![
            ("input"@, None::<Seq<char>>, iv),
            ("captured"@, None::<Seq<char>>, cv),
            ("output"@, None::<Seq<char>>, ov),
        ]);
    }
    r
}

/// Law (read after write): when a module's body ends in a returned interface, an external
/// interface or a closure, the module's output field is afterwards that interface, the
/// interface at the external path, or the closure's output.
pub proof fn lemma_output_field(s: WiringState, recorded: bool, a: ModuleGraphValue, ext: InterfaceView)
    requires
        output_ok(s, recorded, a, ext),
        a is Interface || a matches ModuleGraphValue::Module(ModuleValue::Closure { .. }),
    ensures
        itf_path_ok(output_state(s, recorded, a, ext).output, seq![fld("output"@)]),
        itf_sub(output_state(s, recorded, a, ext).output, seq![fld("output"@)]) == match a {
            ModuleGraphValue::Interface(InterfaceValue::CallResultInterface(x)) => x@,
            ModuleGraphValue::Interface(InterfaceValue::ExternalInterface(p)) => itf_sub(ext, p@),
            ModuleGraphValue::Module(ModuleValue::Closure { output_interface, .. }) => output_interface@,
            _ => InterfaceView::Unit,
        },
{
    let o = seq![fld("output"@)];
    match a {
        ModuleGraphValue::Interface(InterfaceValue::CallResultInterface(x)) => {
            lemma_wire_then_sub(s.output, o, x@);
        },
        ModuleGraphValue::Interface(InterfaceValue::ExternalInterface(p)) => {
            lemma_wire_then_sub(wire_out(s, p@, InterfaceView::Unit).output, o, itf_sub(ext, p@));
        },
        ModuleGraphValue::Module(ModuleValue::Closure { submodule_index, output_interface }) => {
            let si = submodule_index as int;
            let s1 = wire_sub(s, si, seq![fld("input"@)], itf_sub(ext, o.push(fld("input"@))));
            let s2 = wire_sub(s1, si, seq![fld("output"@)], itf_sub(ext, o.push(fld("output"@))));
            lemma_wire_then_sub(s2.output, o, output_interface@);
        },
        _ => {},
    }
}

/// A parameter of a module, as far as the wiring of unit interfaces goes.
#[derive(Debug)]
pub enum ParamTyp {
    /// Interface of the given type
    Interface(InterfaceTyp),
    /// Module
    Module,
    /// Value of another type
    Misc,
    /// Tuple of modules
    Tuple,
    /// Array of the given parameters, and its length
    Array(Box<ParamTyp>, usize),
}

/// The parameter holds no tuple of modules.
pub open spec fn param_resolvable(p: ParamTyp) -> bool
    decreases p,
{
    match p {
        ParamTyp::Tuple => false,
        ParamTyp::Array(inner, _) => param_resolvable(*inner),
        _ => true,
    }
}

/// Paths, after `path`, where the module's output is unit for parameter `p`: that of a unit
/// interface or of a value of another type, and those of the elements of an array in order.
pub open spec fn unit_paths(p: ParamTyp, path: Seq<NodeView>) -> Seq<Seq<NodeView>>
    decreases p, 0nat, 0nat,
{
    match p {
        ParamTyp::Interface(t) => if t is Unit {
            seq![path]
        } else {
            seq![]
        },
        ParamTyp::Misc => seq![path],
        ParamTyp::Array(inner, len) => array_unit_paths(*inner, path, len as nat),
        _ => seq![],
    }
}

/// Unit paths of the first `n` elements of an array of parameters `p` at `path`.
pub open spec fn array_unit_paths(p: ParamTyp, path: Seq<NodeView>, n: nat) -> Seq<Seq<NodeView>>
    decreases p, 1nat, n,
{
    if n == 0 {
        seq![]
    } else {
        let m = (n - 1) as nat;
        array_unit_paths(p, path, m) + unit_paths(p, path.push(NodeView::Index(m as usize)))
    }
}

/// `o` with unit wired at each of `paths` in order.
pub open spec fn units_state(o: InterfaceView, paths: Seq<Seq<NodeView>>) -> InterfaceView
    decreases paths.len(),
{
    if paths.len() == 0 {
        o
    } else {
        itf_wire(units_state(o, paths.drop_last()), paths.last(), InterfaceView::Unit)
    }
}

/// Unit can be wired at each of `paths` in order.
pub open spec fn units_ok(o: InterfaceView, paths: Seq<Seq<NodeView>>) -> bool
    decreases paths.len(),
{
    if paths.len() == 0 {
        true
    } else {
        units_ok(o, paths.drop_last()) && itf_wire_ok(units_state(o, paths.drop_last()), paths.last(), InterfaceView::Unit)
    }
}

/// Wiring the paths of `a` then those of `b` is wiring those of `a + b`.
proof fn lemma_units_concat(o: InterfaceView, a: Seq<Seq<NodeView>>, b: Seq<Seq<NodeView>>)
    ensures
        units_state(o, a + b) == units_state(units_state(o, a), b),
        units_ok(o, a + b) == (units_ok(o, a) && units_ok(units_state(o, a), b)),
    decreases b.len(),
{
    if b.len() == 0 {
        assert(a + b =~= a);
    } else {
        lemma_units_concat(o, a, b.drop_last());
        assert((a + b).drop_last() =~= a + b.drop_last());
        assert((a + b).last() == b.last());
    }
}

/// Path of parameter `idx` of a module.
pub open spec fn param_path(idx: nat) -> Seq<NodeView> {
    seq![fld("input"@), fld(nat_to_decimal(idx))]
}

/// Unit paths of the first `n` parameters.
pub open spec fn params_unit_paths(params: Seq<ParamTyp>, n: nat) -> Seq<Seq<NodeView>>
    decreases n,
{
    if n == 0 || n > params.len() {
        seq![]
    } else {
        let m = (n - 1) as nat;
        params_unit_paths(params, m) + unit_paths(params[m as int], param_path(m))
    }
}

/// Wires unit at the unit paths of parameter `p` at `path` of the module's output.
fn resolve_pure_interfaces_inner(output: &mut Interface, p: &ParamTyp, path: EndpointPath)
    requires
        param_resolvable(*p),
        units_ok(old(output)@, unit_paths(*p, path@)),
    ensures
        final(output)@ == units_state(old(output)@, unit_paths(*p, path@)),
    decreases p,
{
    let ghost o0 = output@;
    match p {
        ParamTyp::Interface(t) => {
            match t {
                InterfaceTyp::Unit => {
                    reveal_with_fuel(units_state, 2);
                    reveal_with_fuel(units_ok, 2);
                    assert(seq![path@].drop_last() =~= Seq::<Seq<NodeView>>::empty());
                    output.wire(path, Interface::Unit);
                },
                _ => {},
            }
        },
        ParamTyp::Module => {},
        ParamTyp::Misc => {
            reveal_with_fuel(units_state, 2);
            reveal_with_fuel(units_ok, 2);
            assert(seq![path@].drop_last() =~= Seq::<Seq<NodeView>>::empty());
            output.wire(path, Interface::Unit);
        },
        ParamTyp::Tuple => {
            proof {
                assert(false);
            }
        },
        ParamTyp::Array(inner, len) => {
            let mut i: usize = 0;
            while i < *len
                invariant
                    i <= *len,
                    *p == ParamTyp::Array(*inner, *len),
                    param_resolvable(**inner),
                    units_ok(o0, array_unit_paths(**inner, path@, *len as nat)),
                    output@ == units_state(o0, array_unit_paths(**inner, path@, i as nat)),
                decreases *len - i,
            {
                proof {
                    lemma_array_units_prefix(o0, **inner, path@, *len as nat, i as nat);
                    lemma_units_concat(
                        o0,
                        array_unit_paths(**inner, path@, i as nat),
                        unit_paths(**inner, path@.push(NodeView::Index(i))),
                    );
                }
                let pi = path.append_index(i);
                assert(*p is Array);
                assert(decreases_to!(*p => (*p)->Array_0));
                assert((*p)->Array_0 == *inner);
                resolve_pure_interfaces_inner(output, &**inner, pi);
                i = i + 1;
            }
        },
    }
}

/// The wiring of the unit paths of a prefix of an array succeeds when that of more does.
proof fn lemma_array_units_prefix(o: InterfaceView, p: ParamTyp, path: Seq<NodeView>, n: nat, m: nat)
    requires
        m < n,
        units_ok(o, array_unit_paths(p, path, n)),
    ensures
        units_ok(o, array_unit_paths(p, path, m)),
        units_ok(units_state(o, array_unit_paths(p, path, m)), unit_paths(p, path.push(NodeView::Index(m as usize)))),
    decreases n,
{
    let k = (n - 1) as nat;
    lemma_units_concat(o, array_unit_paths(p, path, k), unit_paths(p, path.push(NodeView::Index(k as usize))));
    if m < k {
        lemma_array_units_prefix(o, p, path, k, m);
    }
}

/// Wires unit at the module's output wherever a parameter is a unit interface or a value of
/// another type, parameter by parameter.
pub fn resolve_pure_interfaces(params: &Vec<ParamTyp>, output: &mut Interface)
    requires
        forall|i: int| 0 <= i < params@.len() ==> param_resolvable(#[trigger] params@[i]),
        units_ok(old(output)@, params_unit_paths(params@, params@.len() as nat)),
    ensures
        final(output)@ == units_state(old(output)@, params_unit_paths(params@, params@.len() as nat)),
{
    let ghost o0 = output@;
    let mut i: usize = 0;
    while i < params.len()
        invariant
            i <= params@.len(),
            forall|j: int| 0 <= j < params@.len() ==> param_resolvable(#[trigger] params@[j]),
            units_ok(o0, params_unit_paths(params@, params@.len() as nat)),
            output@ == units_state(o0, params_unit_paths(params@, i as nat)),
        decreases params@.len() - i,
    {
        proof {
            lemma_params_units_prefix(o0, params@, params@.len() as nat, i as nat);
            lemma_units_concat(o0, params_unit_paths(params@, i as nat), unit_paths(params@[i as int], param_path(i as nat)));
        }
        let p0 = field_path(&EndpointPath::default(), "input");
        let name = usize_to_string(i);
        let path = field_path(&p0, name.as_str());
        assert(path@ =~= param_path(i as nat));
        resolve_pure_interfaces_inner(output, &params[i], path);
        i = i + 1;
    }
}

/// The wiring of the unit paths of a prefix of the parameters succeeds when that of more does.
proof fn lemma_params_units_prefix(o: InterfaceView, params: Seq<ParamTyp>, n: nat, m: nat)
    requires
        m < n <= params.len(),
        units_ok(o, params_unit_paths(params, n)),
    ensures
        units_ok(o, params_unit_paths(params, m)),
        units_ok(units_state(o, params_unit_paths(params, m)), unit_paths(params[m as int], param_path(m))),
    decreases n,
{
    let k = (n - 1) as nat;
    lemma_units_concat(o, params_unit_paths(params, k), unit_paths(params[k as int], param_path(k)));
    if m < k {
        lemma_params_units_prefix(o, params, k, m);
    }
}

/// Interfaces as a tuple, by their views: unit if there is none, else a struct whose fields
/// are named by their indices.
pub open spec fn tuple_view(s: Seq<InterfaceView>) -> InterfaceView {
    if s.len() == 0 {
        InterfaceView::Unit
    } else {
        InterfaceView::Struct(Seq::new(s.len(), |k: int| (nat_to_decimal(k as nat), None::<Seq<char>>, s[k])))
    }
}

/// The argument of a closure call is an interface or unit, as a closure takes.
pub open spec fn closure_arg_ok(a: ModuleGraphValue) -> bool {
    a is Interface || a is Unit
}

/// The interface that argument `a` of a closure call passes: the interface at its external
/// path of the module's input `ext`, a returned interface, or unit.
pub open spec fn closure_arg_interface(a: ModuleGraphValue, ext: InterfaceView) -> InterfaceView {
    match a {
        ModuleGraphValue::Interface(InterfaceValue::ExternalInterface(p)) => itf_sub(ext, p@),
        ModuleGraphValue::Interface(InterfaceValue::CallResultInterface(x)) => x@,
        _ => InterfaceView::Unit,
    }
}

/// Path of argument `idx` of a closure in the output of the submodule that returned it.
pub open spec fn closure_input_path(idx: nat) -> Seq<NodeView> {
    seq![fld("output"@), fld("input"@), fld(nat_to_decimal(idx))]
}

/// Wiring of argument `idx` of a call of a closure: an external argument leaves unit at
/// its path of the module's output; when the closure is the result of submodule `si`
/// (`Some`), that submodule gets the argument's interface at the closure's input.
pub open spec fn closure_arg_step(s: WiringState, a: ModuleGraphValue, idx: nat, sub: Option<usize>, ext: InterfaceView) -> WiringState {
    let s1 = match a {
        ModuleGraphValue::Interface(InterfaceValue::ExternalInterface(p)) => wire_out(s, p@, InterfaceView::Unit),
        _ => s,
    };
    match (sub, a) {
        (Some(si), ModuleGraphValue::Interface(_)) => wire_sub(
            s1,
            si as int,
            closure_input_path(idx),
            closure_arg_interface(a, ext),
        ),
        _ => s1,
    }
}

/// The wiring of argument `idx` of a call of a closure succeeds.
pub open spec fn closure_arg_step_ok(s: WiringState, a: ModuleGraphValue, idx: nat, sub: Option<usize>, ext: InterfaceView) -> bool {
    let s1 = match a {
        ModuleGraphValue::Interface(InterfaceValue::ExternalInterface(p)) => wire_out(s, p@, InterfaceView::Unit),
        _ => s,
    };
    &&& closure_arg_ok(a)
    &&& (a matches ModuleGraphValue::Interface(InterfaceValue::ExternalInterface(p)) ==> itf_wire_ok(
        s.output,
        p@,
        InterfaceView::Unit,
    ) && itf_path_ok(ext, p@))
    &&& match (sub, a) {
        (Some(si), ModuleGraphValue::Interface(_)) => sub_ok(
            s1,
            si as int,
            closure_input_path(idx),
            closure_arg_interface(a, ext),
        ),
        _ => true,
    }
}

/// Wiring of the first `n` arguments of a call of a closure.
pub open spec fn closure_args_state(s: WiringState, args: Seq<ModuleGraphValue>, n: nat, sub: Option<usize>, ext: InterfaceView) -> WiringState
    decreases n,
{
    if n == 0 || n > args.len() {
        s
    } else {
        let m = (n - 1) as nat;
        closure_arg_step(closure_args_state(s, args, m, sub, ext), args[m as int], m, sub, ext)
    }
}

/// The wiring of the first `n` arguments of a call of a closure succeeds.
pub open spec fn closure_args_ok(s: WiringState, args: Seq<ModuleGraphValue>, n: nat, sub: Option<usize>, ext: InterfaceView) -> bool
    decreases n,
{
    if n == 0 || n > args.len() {
        n == 0
    } else {
        let m = (n - 1) as nat;
        closure_args_ok(s, args, m, sub, ext) && closure_arg_step_ok(
            closure_args_state(s, args, m, sub, ext),
            args[m as int],
            m,
            sub,
            ext,
        )
    }
}

/// The interface of a closure's module when it is called with `args`: their interfaces as
/// the input, no captured values and a unit output.
pub open spec fn closure_call_interface(args: Seq<ModuleGraphValue>, ext: InterfaceView) -> InterfaceView {
    InterfaceView::Struct(
        seq![
            ("input"@, None::<Seq<char>>, tuple_view(Seq::new(args.len(), |i: int| closure_arg_interface(args[i], ext)))),
            ("captured"@, None::<Seq<char>>, InterfaceView::Unit),
            ("output"@, None::<Seq<char>>, InterfaceView::Unit),
        ],
    )
}

/// The wiring of a prefix of the arguments of a closure call succeeds when that of more does.
proof fn lemma_closure_args_ok_prefix(s: WiringState, args: Seq<ModuleGraphValue>, n: nat, m: nat, sub: Option<usize>, ext: InterfaceView)
    requires
        m < n <= args.len(),
        closure_args_ok(s, args, n, sub, ext),
    ensures
        closure_args_ok(s, args, m, sub, ext),
        closure_arg_step_ok(closure_args_state(s, args, m, sub, ext), args[m as int], m, sub, ext),
    decreases n,
{
    if m + 1 < n {
        lemma_closure_args_ok_prefix(s, args, (n - 1) as nat, m, sub, ext);
    }
}

/// Wires the arguments of a call of a closure, and returns the interfaces they pass.
fn wire_closure_args(
    args: &Vec<ModuleGraphValue>,
    sub: Option<usize>,
    ext: &Interface,
    output: &mut Interface,
    subs: &mut Vec<Interface>,
) -> (r: Vec<Interface>)
    requires
        closure_args_ok(st(Interface::Unit, *old(output), old(subs)@), args@, args@.len() as nat, sub, ext@),
    ensures
        st(Interface::Unit, *final(output), final(subs)@) == closure_args_state(
            st(Interface::Unit, *old(output), old(subs)@),
            args@,
            args@.len() as nat,
            sub,
            ext@,
        ),
        r@.len() == args@.len(),
        forall|i: int| 0 <= i < args@.len() ==> (#[trigger] r@[i])@ == closure_arg_interface(args@[i], ext@),
{
    let ghost s0 = st(Interface::Unit, *output, subs@);
    let mut passed: Vec<Interface> = Vec::new();
    let mut i: usize = 0;
    while i < args.len()
        invariant
            i <= args@.len(),
            passed@.len() == i,
            forall|j: int| 0 <= j < i ==> (#[trigger] passed@[j])@ == closure_arg_interface(args@[j], ext@),
            closure_args_ok(s0, args@, args@.len() as nat, sub, ext@),
            st(Interface::Unit, *output, subs@) == closure_args_state(s0, args@, i as nat, sub, ext@),
        decreases args@.len() - i,
    {
        proof {
            lemma_closure_args_ok_prefix(s0, args@, args@.len() as nat, i as nat, sub, ext@);
        }
        let ghost si0 = st(Interface::Unit, *output, subs@);
        let a = &args[i];
        let x = match a {
            ModuleGraphValue::Interface(InterfaceValue::ExternalInterface(p)) => {
                output.wire(p.clone(), Interface::Unit);
                ext.get_subinterface(p.clone())
            },
            ModuleGraphValue::Interface(InterfaceValue::CallResultInterface(x)) => x.clone(),
            _ => Interface::Unit,
        };
        match (sub, a) {
            (Some(si), ModuleGraphValue::Interface(_)) => {
                let p0 = field_path(&EndpointPath::default(), "output");
                let p1 = field_path(&p0, "input");
                let name = usize_to_string(i);
                let p2 = field_path(&p1, name.as_str());
                assert(p2@ =~= closure_input_path(i as nat));
                wire_sub_exec(subs, si, p2, x.clone());
            },
            _ => {},
        }
        assert(st(Interface::Unit, *output, subs@) == closure_arg_step(si0, args@[i as int], i as nat, sub, ext@));
        passed.push(x);
        i = i + 1;
    }
    passed
}

/// Wires a call of a closure with `args` and returns the interface the call returns. A
/// closure at an external path of the module's input gets, at that path of the module's
/// output, the interface of its module with the arguments' interfaces as input; it returns
/// the output of the interface at its path of the module's input. A closure that submodule
/// `submodule_index` returned gets the arguments' interfaces at that submodule's input, and
/// returns the closure's output. External arguments leave unit at their paths of the
/// module's output.
pub fn handle_closure_call(
    closure: &ModuleValue,
    args: &Vec<ModuleGraphValue>,
    input_interface: &Interface,
    output_interface: &mut Interface,
    submodule_inputs: &mut Vec<Interface>,
) -> (r: ModuleGraphValue)
    requires
        closure is External || closure is CallResult,
        *closure matches ModuleValue::External(path) ==> {
            let sa = closure_args_state(
                st(Interface::Unit, *old(output_interface), old(submodule_inputs)@),
                args@,
                args@.len() as nat,
                None,
                input_interface@,
            );
            &&& closure_args_ok(
                st(Interface::Unit, *old(output_interface), old(submodule_inputs)@),
                args@,
                args@.len() as nat,
                None,
                input_interface@,
            )
            &&& itf_wire_ok(sa.output, path@, closure_call_interface(args@, input_interface@))
            &&& itf_path_ok(input_interface@, path@)
            &&& itf_path_ok(itf_sub(input_interface@, path@), seq![fld("output"@)])
        },
        *closure matches ModuleValue::CallResult { submodule_index: csi, output_interface: cout, path } ==> {
            &&& closure_args_ok(
                st(Interface::Unit, *old(output_interface), old(submodule_inputs)@),
                args@,
                args@.len() as nat,
                Some(csi),
                input_interface@,
            )
            &&& itf_path_ok(cout@, path@)
        },
    ensures
        *closure matches ModuleValue::External(path) ==> {
            let sa = closure_args_state(
                st(Interface::Unit, *old(output_interface), old(submodule_inputs)@),
                args@,
                args@.len() as nat,
                None,
                input_interface@,
            );
            &&& final(output_interface)@ == itf_wire(sa.output, path@, closure_call_interface(args@, input_interface@))
            &&& views(final(submodule_inputs)@) == sa.subs
            &&& r matches ModuleGraphValue::Interface(InterfaceValue::CallResultInterface(x)) && x@ == itf_sub(
                itf_sub(input_interface@, path@),
                seq![fld("output"@)],
            )
        },
        *closure matches ModuleValue::CallResult { submodule_index: csi, output_interface: cout, path } ==> {
            &&& st(Interface::Unit, *final(output_interface), final(submodule_inputs)@) == closure_args_state(
                st(Interface::Unit, *old(output_interface), old(submodule_inputs)@),
                args@,
                args@.len() as nat,
                Some(csi),
                input_interface@,
            )
            &&& r matches ModuleGraphValue::Interface(InterfaceValue::CallResultInterface(x)) && x@ == itf_sub(
                cout@,
                path@,
            )
        },
{
    match closure {
        ModuleValue::External(path) => {
            let passed = wire_closure_args(args, None, input_interface, output_interface, submodule_inputs);
            let ghost pv = passed@;
            let tuple = Interface::from_interfaces(passed);
            proof {
                lemma_itfs_view(pv);
                let sv = Seq::new(args@.len(), |i: int| closure_arg_interface(args@[i], input_interface@));
                if pv.len() > 0 {
                    assert(Seq::new(pv.len(), |k: int| (nat_to_decimal(k as nat), None::<Seq<char>>, itfs_view(pv)[k]))
                        =~= Seq::new(sv.len(), |k: int| (nat_to_decimal(k as nat), None::<Seq<char>>, sv[k])));
                }
                assert(tuple@ == tuple_view(Seq::new(args@.len(), |i: int| closure_arg_interface(args@[i], input_interface@))));
            }
            let input = collect_interface(tuple, Vec::new(), Interface::Unit);
            proof {
                assert(tuple_of(Seq::<Interface>::empty()) == InterfaceView::Unit);
            }
            output_interface.wire(path.clone(), input);
            let o = field_path(&EndpointPath::default(), "output");
            assert(o@ =~= seq![fld("output"@)]);
            let x = input_interface.get_subinterface(path.clone()).get_subinterface(o);
            ModuleGraphValue::Interface(InterfaceValue::CallResultInterface(x))
        },
        ModuleValue::CallResult { submodule_index, output_interface: closure_output, path } => {
            let _passed = wire_closure_args(args, Some(*submodule_index), input_interface, output_interface, submodule_inputs);
            let x = closure_output.get_subinterface(path.clone());
            ModuleGraphValue::Interface(InterfaceValue::CallResultInterface(x))
        },
        _ => vstd::pervasive::unreached(),
    }
}

/// Returns the input interface of a new foreign submodule, whose input has type `input_typ`
/// and which returns an interface, and the function module it gives: its captured values and
/// its output are unit, and its output, of type `output_typ`, is driven by it at index
/// `submodule_index`.
pub fn construct_ffi(input_typ: InterfaceTyp, output_typ: InterfaceTyp, submodule_index: usize) -> (r: (
    Interface,
    ModuleGraphValue,
))
    requires
        prims_ok(driven_prims(itv_prims(output_typ@), Some(submodule_index))),
        itf_wire_ok(InterfaceView::Unwired(input_typ@), seq![fld("captured"@)], InterfaceView::Unit),
        itf_wire_ok(
            itf_wire(InterfaceView::Unwired(input_typ@), seq![fld("captured"@)], InterfaceView::Unit),
            seq![fld("output"@)],
            InterfaceView::Unit,
        ),
    ensures
        r.0@ == itf_wire(
            itf_wire(InterfaceView::Unwired(input_typ@), seq![fld("captured"@)], InterfaceView::Unit),
            seq![fld("output"@)],
            InterfaceView::Unit,
        ),
        r.1 matches ModuleGraphValue::Module(ModuleValue::Function { submodule_index: si, output_interface })
            && si == submodule_index && output_interface@ == call_output(output_typ@, submodule_index),
{
    let mut input = Interface::Unwired(input_typ);
    let cp = field_path(&EndpointPath::default(), "captured");
    assert(cp@ =~= seq![fld("captured"@)]);
    input.wire(cp, Interface::Unit);
    let o = field_path(&EndpointPath::default(), "output");
    assert(o@ =~= seq![fld("output"@)]);
    input.wire(o, Interface::Unit);
    let out = submodule_output_interface(output_typ, submodule_index);
    (input, ModuleGraphValue::Module(ModuleValue::Function { submodule_index, output_interface: out }))
}

/// The input interface of an FSM submodule whose input is `i`: `i` as the first of three
/// arguments after two units, no captured values and a unit output.
pub open spec fn fsm_input(i: InterfaceView) -> InterfaceView {
    InterfaceView::Struct(
        seq![
            ("input"@, None::<Seq<char>>, tuple_view(seq![i, InterfaceView::Unit, InterfaceView::Unit])),
            ("captured"@, None::<Seq<char>>, InterfaceView::Unit),
            ("output"@, None::<Seq<char>>, InterfaceView::Unit),
        ],
    )
}

/// Returns the input interface of a new FSM submodule whose input is `arg`, and the interface
/// the FSM returns: the output field of its output, of type `output_typ`, driven by it at
/// index `submodule_index`. An external input leaves unit at its path of the module's output
/// and passes the interface there of the module's input.
pub fn construct_fsm(
    arg: &ModuleGraphValue,
    output_typ: InterfaceTyp,
    submodule_index: usize,
    input_interface: &Interface,
    output_interface: &mut Interface,
) -> (r: (Interface, ModuleGraphValue))
    requires
        arg is Interface || arg is Unit,
        *arg matches ModuleGraphValue::Interface(InterfaceValue::ExternalInterface(p)) ==> itf_wire_ok(
            old(output_interface)@,
            p@,
            InterfaceView::Unit,
        ) && itf_path_ok(input_interface@, p@),
        prims_ok(driven_prims(itv_prims(output_typ@), Some(submodule_index))),
        itf_path_ok(call_output(output_typ@, submodule_index), seq![fld("output"@)]),
    ensures
        final(output_interface)@ == match *arg {
            ModuleGraphValue::Interface(InterfaceValue::ExternalInterface(p)) => itf_wire(
                old(output_interface)@,
                p@,
                InterfaceView::Unit,
            ),
            _ => old(output_interface)@,
        },
        r.0@ == fsm_input(closure_arg_interface(*arg, input_interface@)),
        r.1 matches ModuleGraphValue::Interface(InterfaceValue::CallResultInterface(x)) && x@ == itf_sub(
            call_output(output_typ@, submodule_index),
            seq![fld("output"@)],
        ),
{
    let i = match arg {
        ModuleGraphValue::Interface(InterfaceValue::ExternalInterface(p)) => {
            output_interface.wire(p.clone(), Interface::Unit);
            input_interface.get_subinterface(p.clone())
        },
        ModuleGraphValue::Interface(InterfaceValue::CallResultInterface(x)) => x.clone(),
        _ => Interface::Unit,
    };
    let o = field_path(&EndpointPath::default(), "output");
    assert(o@ =~= seq![fld("output"@)]);
    let endpoint = submodule_output_interface(output_typ, submodule_index).get_subinterface(o);
    let ghost iv = i@;
    let args = vec![i, Interface::Unit, Interface::Unit];
    let ghost av = args@;
    let tuple = Interface::from_interfaces(args);
    proof {
        lemma_itfs_view(av);
        assert(Seq::new(av.len(), |k: int| (nat_to_decimal(k as nat), None::<Seq<char>>, itfs_view(av)[k])) =~= Seq::new(
            3,
            |k: int| (nat_to_decimal(k as nat), None::<Seq<char>>, seq![iv, InterfaceView::Unit, InterfaceView::Unit][k]),
        ));
    }
    let input = collect_interface(tuple, Vec::new(), Interface::Unit);
    proof {
        assert(tuple_of(Seq::<Interface>::empty()) == InterfaceView::Unit);
    }
    (input, ModuleGraphValue::Interface(InterfaceValue::CallResultInterface(endpoint)))
}

/// Path of captured value `idx` in the input of a closure's submodule.
pub open spec fn captured_path(idx: nat) -> Seq<NodeView> {
    seq![fld("captured"@), fld(nat_to_decimal(idx))]
}

/// Wiring of captured value `idx` of a closure: an external value gets the closure's output
/// at its path of the module's output and is passed from the module's input; a module that
/// a submodule returned gets the closure's output at that submodule's input and passes its
/// output. `c` is the closure's output.
pub open spec fn upvar_step(s: WiringState, a: ModuleGraphValue, idx: nat, ext: InterfaceView, c: InterfaceView) -> WiringState {
    let cp = captured_path(idx);
    match a {
        ModuleGraphValue::Module(ModuleValue::External(p)) | ModuleGraphValue::Interface(
            InterfaceValue::ExternalInterface(p),
        ) => wire_in(wire_out(s, p@, itf_sub(c, cp)), cp, itf_sub(ext, p@)),
        ModuleGraphValue::Module(ModuleValue::CallResult { submodule_index, output_interface, path }) => wire_in(
            wire_sub(s, submodule_index as int, path@, itf_sub(c, cp)),
            cp,
            output_interface@,
        ),
        _ => s,
    }
}

/// The wiring of captured value `idx` succeeds: it is external or a module that a submodule
/// returned, and every path read exists and every wiring fits.
pub open spec fn upvar_ok(s: WiringState, a: ModuleGraphValue, idx: nat, ext: InterfaceView, c: InterfaceView) -> bool {
    let cp = captured_path(idx);
    match a {
        ModuleGraphValue::Module(ModuleValue::External(p)) | ModuleGraphValue::Interface(
            InterfaceValue::ExternalInterface(p),
        ) => {
            &&& itf_path_ok(c, cp)
            &&& itf_wire_ok(s.output, p@, itf_sub(c, cp))
            &&& itf_path_ok(ext, p@)
            &&& itf_wire_ok(s.input, cp, itf_sub(ext, p@))
        },
        ModuleGraphValue::Module(ModuleValue::CallResult { submodule_index, output_interface, path }) => {
            &&& itf_path_ok(c, cp)
            &&& sub_ok(s, submodule_index as int, path@, itf_sub(c, cp))
            &&& itf_wire_ok(s.input, cp, output_interface@)
        },
        _ => false,
    }
}

/// Wiring of the first `n` captured values.
pub open spec fn upvars_state(s: WiringState, vs: Seq<ModuleGraphValue>, n: nat, ext: InterfaceView, c: InterfaceView) -> WiringState
    decreases n,
{
    if n == 0 || n > vs.len() {
        s
    } else {
        let m = (n - 1) as nat;
        upvar_step(upvars_state(s, vs, m, ext, c), vs[m as int], m, ext, c)
    }
}

/// The wiring of the first `n` captured values succeeds.
pub open spec fn upvars_ok(s: WiringState, vs: Seq<ModuleGraphValue>, n: nat, ext: InterfaceView, c: InterfaceView) -> bool
    decreases n,
{
    if n == 0 || n > vs.len() {
        n == 0
    } else {
        let m = (n - 1) as nat;
        upvars_ok(s, vs, m, ext, c) && upvar_ok(upvars_state(s, vs, m, ext, c), vs[m as int], m, ext, c)
    }
}

/// The wiring of a prefix of the captured values succeeds when that of more does.
proof fn lemma_upvars_ok_prefix(s: WiringState, vs: Seq<ModuleGraphValue>, n: nat, m: nat, ext: InterfaceView, c: InterfaceView)
    requires
        m < n <= vs.len(),
        upvars_ok(s, vs, n, ext, c),
    ensures
        upvars_ok(s, vs, m, ext, c),
        upvar_ok(upvars_state(s, vs, m, ext, c), vs[m as int], m, ext, c),
    decreases n,
{
    if m + 1 < n {
        lemma_upvars_ok_prefix(s, vs, (n - 1) as nat, m, ext, c);
    }
}

/// Wires captured value `idx` of a closure whose output is `c`.
fn wire_upvar(
    input: &mut Interface,
    output: &mut Interface,
    subs: &mut Vec<Interface>,
    a: &ModuleGraphValue,
    idx: usize,
    ext: &Interface,
    c: &Interface,
)
    requires
        upvar_ok(st(*old(input), *old(output), old(subs)@), *a, idx as nat, ext@, c@),
    ensures
        st(*final(input), *final(output), final(subs)@) == upvar_step(
            st(*old(input), *old(output), old(subs)@),
            *a,
            idx as nat,
            ext@,
            c@,
        ),
{
    let ghost s0 = st(*input, *output, subs@);
    let p0 = field_path(&EndpointPath::default(), "captured");
    let name = usize_to_string(idx);
    let cp = field_path(&p0, name.as_str());
    assert(cp@ =~= captured_path(idx as nat));
    match a {
        ModuleGraphValue::Module(ModuleValue::External(p)) | ModuleGraphValue::Interface(
            InterfaceValue::ExternalInterface(p),
        ) => {
            output.wire(p.clone(), c.get_subinterface(cp.clone()));
            input.wire(cp, ext.get_subinterface(p.clone()));
        },
        ModuleGraphValue::Module(ModuleValue::CallResult { submodule_index, output_interface, path }) => {
            wire_sub_exec(subs, *submodule_index, path.clone(), c.get_subinterface(cp.clone()));
            input.wire(cp, output_interface.clone());
        },
        _ => {
            proof {
                assert(false);
            }
        },
    }
    assert(st(*input, *output, subs@) =~~= upvar_step(s0, *a, idx as nat, ext@, c@));
}

/// Returns the input interface of the submodule of a closure that captures `upvars`, and the
/// closure module it gives, and wires the captured values: the input of the submodule, whose
/// type is `input_typ`, gets each captured value at its path and unit at its output field,
/// as the closure returns an interface; external values, read from `input_interface`, get
/// the submodule's output at their paths in `output_interface`; submodules that values come
/// from get it at their inputs. The submodule's output, of type `output_typ`, is driven by it
/// at the index after the earlier submodules whose inputs are `submodule_inputs`; the
/// closure module's output is that output with unit captured values.
pub fn wire_closure_upvars(
    input_typ: InterfaceTyp,
    output_typ: InterfaceTyp,
    upvars: &Vec<ModuleGraphValue>,
    input_interface: &Interface,
    output_interface: &mut Interface,
    submodule_inputs: &mut Vec<Interface>,
) -> (r: (Interface, ModuleGraphValue))
    requires
        prims_ok(driven_prims(itv_prims(output_typ@), Some(old(submodule_inputs)@.len() as usize))),
        call_output(output_typ@, old(submodule_inputs)@.len() as usize) is Struct,
        upvars_ok(
            WiringState {
                input: InterfaceView::Unwired(input_typ@),
                output: old(output_interface)@,
                subs: views(old(submodule_inputs)@),
            },
            upvars@,
            upvars@.len() as nat,
            input_interface@,
            call_output(output_typ@, old(submodule_inputs)@.len() as usize),
        ),
        itf_wire_ok(
            upvars_state(
                WiringState {
                    input: InterfaceView::Unwired(input_typ@),
                    output: old(output_interface)@,
                    subs: views(old(submodule_inputs)@),
                },
                upvars@,
                upvars@.len() as nat,
                input_interface@,
                call_output(output_typ@, old(submodule_inputs)@.len() as usize),
            ).input,
            seq![fld("output"@)],
            InterfaceView::Unit,
        ),
    ensures
        st(r.0, *final(output_interface), final(submodule_inputs)@) == wire_in(
            upvars_state(
                WiringState {
                    input: InterfaceView::Unwired(input_typ@),
                    output: old(output_interface)@,
                    subs: views(old(submodule_inputs)@),
                },
                upvars@,
                upvars@.len() as nat,
                input_interface@,
                call_output(output_typ@, old(submodule_inputs)@.len() as usize),
            ),
            seq![fld("output"@)],
            InterfaceView::Unit,
        ),
        r.1 matches ModuleGraphValue::Module(ModuleValue::Closure { submodule_index, output_interface })
            && submodule_index == old(submodule_inputs)@.len() && output_interface@ == match call_output(
            output_typ@,
            old(submodule_inputs)@.len() as usize,
        ) {
            InterfaceView::Struct(f) => match crate::compiler::interface::first_index(
                crate::compiler::interface::itf_keys(f),
                "captured"@,
            ) {
                Some(m) => InterfaceView::Struct(f.update(m, (f[m].0, f[m].1, InterfaceView::Unit))),
                None => InterfaceView::Struct(f),
            },
            c => c,
        },
{
    let si = submodule_inputs.len();
    let constructed = submodule_output_interface(output_typ, si);
    let ghost c = constructed@;
    let ghost ext = input_interface@;
    let mut input = Interface::Unwired(input_typ);
    let ghost s0 = st(input, *output_interface, submodule_inputs@);
    let mut i: usize = 0;
    while i < upvars.len()
        invariant
            i <= upvars@.len(),
            c == constructed@,
            ext == input_interface@,
            upvars_ok(s0, upvars@, upvars@.len() as nat, ext, c),
            st(input, *output_interface, submodule_inputs@) == upvars_state(s0, upvars@, i as nat, ext, c),
        decreases upvars@.len() - i,
    {
        proof {
            lemma_upvars_ok_prefix(s0, upvars@, upvars@.len() as nat, i as nat, ext, c);
        }
        wire_upvar(&mut input, output_interface, submodule_inputs, &upvars[i], i, input_interface, &constructed);
        i = i + 1;
    }
    let o = field_path(&EndpointPath::default(), "output");
    assert(o@ =~= seq![fld("output"@)]);
    input.wire(o, Interface::Unit);
    let closure_output = constructed.swap_field("captured", Interface::Unit);
    (input, ModuleGraphValue::Module(ModuleValue::Closure { submodule_index: si, output_interface: closure_output }))
}

} // verus!
