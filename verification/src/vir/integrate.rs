//! Integration of a module hierarchy into one top module.

use vstd::prelude::*;

use crate::compiler::interface::{first_index, keys_unique, lemma_first_index};
use crate::compiler::prelude::{Shape, ShapeView};
use crate::utils::string::eq_str;
use crate::vir::ir::{
    conts_v, decls_v, expr_v, inst_v, item_v, items_v, port_decl_v, ContinuousAssign, DeclV, Declaration, ExprV,
    Expression, InstV, ItemV, Module, ModuleItem, ModuleV, PortDeclV, PortDeclaration, PrimV,
};
use crate::vir::opt::inline_always::contains_name;
use crate::vir::utils::replace::{item_rep, items_rep, module_rep, pairs_map, pairs_v};
use crate::vir::utils::{extract_decls, module_decls, names_v};

verus! {

/// The clock and reset ports, which every module shares.
pub open spec fn is_clk_rst(x: Seq<char>) -> bool {
    x == "clk"@ || x == "rst"@
}

/// Names of modules.
pub open spec fn mod_keys(ms: Seq<(Seq<char>, ModuleV)>) -> Seq<Seq<char>> {
    ms.map_values(|e: (Seq<char>, ModuleV)| e.0)
}

/// The module named `name`.
pub open spec fn lookup(ms: Seq<(Seq<char>, ModuleV)>, name: Seq<char>) -> Option<ModuleV> {
    match first_index(mod_keys(ms), name) {
        Some(j) => Some(ms[j].1),
        None => None,
    }
}

/// Views of named modules.
pub open spec fn mods_v(s: Seq<(String, Module)>) -> Seq<(Seq<char>, ModuleV)> {
    s.map_values(|e: (String, Module)| (e.0@, e.1@))
}

/// Renaming of the declarations of module `name`: each declared name but the
/// clock and the reset gets `name` and `_` in front.
pub open spec fn module_renames(name: Seq<char>, decls: Seq<Seq<char>>) -> Seq<(Seq<char>, Seq<char>)>
    decreases decls.len(),
{
    if decls.len() == 0 {
        seq![]
    } else {
        let x = decls.last();
        module_renames(name, decls.drop_last()) + if is_clk_rst(x) {
            seq![]
        } else {
            seq![(x, name + "_"@ + x)]
        }
    }
}

/// The modules with the declarations of each but the top renamed after it.
pub open spec fn renamed_modules(ms: Seq<(Seq<char>, ModuleV)>, top: Seq<char>) -> Seq<(Seq<char>, ModuleV)> {
    ms.map_values(
        |e: (Seq<char>, ModuleV)|
            if e.0 == top {
                e
            } else {
                (e.0, module_rep(e.1, pairs_map(module_renames(e.0, module_decls(e.1)))))
            },
    )
}

/// Wires for the ports of an instantiated module, but the clock and the reset
/// inputs.
pub open spec fn port_nets(p: Seq<PortDeclV>) -> Seq<DeclV>
    decreases p.len(),
{
    if p.len() == 0 {
        seq![]
    } else {
        port_nets(p.drop_last()) + match p.last() {
            PortDeclV::Input(w, x) => if is_clk_rst(x) {
                seq![]
            } else {
                seq![DeclV::Net(ShapeView { dims: seq![w], is_signed: false }, x)]
            },
            PortDeclV::Output(w, x) => seq![DeclV::Net(ShapeView { dims: seq![w], is_signed: false }, x)],
        }
    }
}

/// Names of the input ports.
pub open spec fn input_names(p: Seq<PortDeclV>) -> Seq<Seq<char>>
    decreases p.len(),
{
    if p.len() == 0 {
        seq![]
    } else {
        input_names(p.drop_last()) + match p.last() {
            PortDeclV::Input(_, x) => seq![x],
            PortDeclV::Output(_, _) => seq![],
        }
    }
}

/// Continuous assignments that connect an instance's ports, but the clock and
/// the reset, to the wires of the instantiated module: an input wire is
/// driven by the connected expression, an output wire drives it.
pub open spec fn inst_conts(name: Seq<char>, conns: Seq<(Seq<char>, ExprV)>, inputs: Seq<Seq<char>>) -> Seq<
    (ExprV, ExprV),
>
    decreases conns.len(),
{
    if conns.len() == 0 {
        seq![]
    } else {
        let (p, e) = conns.last();
        let pn = name + "_"@ + p;
        let w = ExprV::Primary(PrimV::Ident(pn, None));
        inst_conts(name, conns.drop_last(), inputs) + if is_clk_rst(p) {
            seq![]
        } else if inputs.contains(pn) {
            seq![(w, e)]
        } else {
            seq![(e, w)]
        }
    }
}

/// Items with the instances of modules of `ms` replaced by the modules
/// themselves, expanded in turn, `fuel` levels deep.
pub open spec fn int_items(ms: Seq<(Seq<char>, ModuleV)>, s: Seq<ItemV>, fuel: nat) -> Seq<ItemV>
    decreases fuel, s,
{
    Seq::new(
        s.len(),
        |i: int|
            if 0 <= i < s.len() {
                int_item(ms, s[i], fuel)
            } else {
                ItemV::Declarations(seq![])
            },
    )
}

/// An item with the instances of modules of `ms` replaced by the modules
/// themselves: the wires of the ports, the connections, then the module's
/// items, between comments.
pub open spec fn int_item(ms: Seq<(Seq<char>, ModuleV)>, it: ItemV, fuel: nat) -> ItemV
    decreases fuel, it,
{
    match it {
        ItemV::ModuleInstantiation(inst) => match lookup(ms, inst.module_name) {
            Some(vm) => if fuel == 0 {
                it
            } else {
                ItemV::Commented(
                    "Start of "@ + inst.module_name,
                    Some("End of "@ + inst.module_name),
                    seq![
                        ItemV::Declarations(port_nets(vm.port_decls)),
                        ItemV::ContinuousAssigns(
                            inst_conts(inst.module_name, inst.port_connections, input_names(vm.port_decls)),
                        ),
                    ] + int_items(ms, vm.module_items, (fuel - 1) as nat),
                )
            },
            None => it,
        },
        ItemV::Commented(b, a, items) => ItemV::Commented(b, a, int_items(ms, items, fuel)),
        _ => it,
    }
}

/// Instances of modules of `ms` can be expanded within `fuel` levels.
pub open spec fn depth_ok_items(ms: Seq<(Seq<char>, ModuleV)>, s: Seq<ItemV>, fuel: nat) -> bool
    decreases fuel, s,
{
    s.len() == 0 || (depth_ok_items(ms, s.drop_last(), fuel) && depth_ok_item(ms, s.last(), fuel))
}

/// Instances of modules of `ms` in an item can be expanded within `fuel`
/// levels.
pub open spec fn depth_ok_item(ms: Seq<(Seq<char>, ModuleV)>, it: ItemV, fuel: nat) -> bool
    decreases fuel, it,
{
    match it {
        ItemV::ModuleInstantiation(inst) => match lookup(ms, inst.module_name) {
            Some(vm) => fuel > 0 && depth_ok_items(ms, vm.module_items, (fuel - 1) as nat),
            None => true,
        },
        ItemV::Commented(_, _, items) => depth_ok_items(ms, items, fuel),
        _ => true,
    }
}

/// The modules have distinct names, `top` is one of them, and expanding the
/// instances from `top` ends within as many levels as there are modules (the
/// hierarchy has no cycle).
pub open spec fn integrate_ok(ms: Seq<(Seq<char>, ModuleV)>, top: Seq<char>) -> bool {
    &&& keys_unique(mod_keys(ms))
    &&& lookup(ms, top) is Some
    &&& depth_ok_items(ms, lookup(ms, top)->0.module_items, ms.len())
}

/// Renaming identifiers keeps how deep the instances in items go.
pub proof fn lemma_depth_rep_items(r: Seq<(Seq<char>, ModuleV)>, s: Seq<ItemV>, m: Map<Seq<char>, Seq<char>>, f: nat)
    ensures
        depth_ok_items(r, items_rep(s, m), f) == depth_ok_items(r, s, f),
    decreases s,
{
    if s.len() > 0 {
        lemma_depth_rep_items(r, s.drop_last(), m, f);
        lemma_depth_rep_item(r, s.last(), m, f);
        assert(items_rep(s, m).drop_last() =~= items_rep(s.drop_last(), m));
        assert(items_rep(s, m).last() == item_rep(s.last(), m));
    }
}

/// Renaming identifiers keeps how deep the instances in an item go.
pub proof fn lemma_depth_rep_item(r: Seq<(Seq<char>, ModuleV)>, it: ItemV, m: Map<Seq<char>, Seq<char>>, f: nat)
    ensures
        depth_ok_item(r, item_rep(it, m), f) == depth_ok_item(r, it, f),
    decreases it,
{
    match it {
        ItemV::Commented(_, _, items) => {
            lemma_depth_rep_items(r, items, m, f);
        },
        _ => {},
    }
}

/// Renaming the declarations of the modules keeps how deep the instances in items go.
pub proof fn lemma_depth_renamed_items(ms: Seq<(Seq<char>, ModuleV)>, top: Seq<char>, s: Seq<ItemV>, f: nat)
    ensures
        depth_ok_items(renamed_modules(ms, top), s, f) == depth_ok_items(ms, s, f),
    decreases f, s,
{
    if s.len() > 0 {
        lemma_depth_renamed_items(ms, top, s.drop_last(), f);
        lemma_depth_renamed_item(ms, top, s.last(), f);
    }
}

/// Renaming the declarations of the modules keeps how deep the instances in an item go.
pub proof fn lemma_depth_renamed_item(ms: Seq<(Seq<char>, ModuleV)>, top: Seq<char>, it: ItemV, f: nat)
    ensures
        depth_ok_item(renamed_modules(ms, top), it, f) == depth_ok_item(ms, it, f),
    decreases f, it,
{
    let rms = renamed_modules(ms, top);
    assert(mod_keys(rms) =~= mod_keys(ms));
    match it {
        ItemV::ModuleInstantiation(inst) => {
            match first_index(mod_keys(ms), inst.module_name) {
                Some(j) => {
                    lemma_first_index(mod_keys(ms), inst.module_name);
                    let vm = ms[j].1;
                    if f > 0 {
                        lemma_depth_renamed_items(ms, top, vm.module_items, (f - 1) as nat);
                        if ms[j].0 != top {
                            let m = pairs_map(module_renames(ms[j].0, module_decls(vm)));
                            lemma_depth_rep_items(rms, vm.module_items, m, (f - 1) as nat);
                        }
                    }
                },
                None => {},
            }
        },
        ItemV::Commented(_, _, items) => {
            lemma_depth_renamed_items(ms, top, items, f);
        },
        _ => {},
    }
}

/// The module that `integrate` returns.
pub open spec fn integrate_spec(ms: Seq<(Seq<char>, ModuleV)>, top: Seq<char>) -> ModuleV {
    let rms = renamed_modules(ms, top);
    let t = lookup(rms, top)->0;
    ModuleV { module_items: int_items(rms, t.module_items, ms.len()), ..t }
}

/// The item instantiates none of the modules named in `names`, at any depth.
pub open spec fn no_inst_item(names: Seq<Seq<char>>, it: ItemV) -> bool
    decreases it,
{
    match it {
        ItemV::ModuleInstantiation(inst) => !names.contains(inst.module_name),
        ItemV::Commented(_, _, items) => forall|k: int| 0 <= k < items.len() ==> no_inst_item(names, #[trigger] items[k]),
        _ => true,
    }
}

/// Each item that instances may be expanded in is expandable.
proof fn lemma_depth_ok_each(ms: Seq<(Seq<char>, ModuleV)>, s: Seq<ItemV>, f: nat)
    requires
        depth_ok_items(ms, s, f),
    ensures
        forall|k: int| 0 <= k < s.len() ==> depth_ok_item(ms, #[trigger] s[k], f),
    decreases s.len(),
{
    if s.len() > 0 {
        lemma_depth_ok_each(ms, s.drop_last(), f);
        assert forall|k: int| 0 <= k < s.len() implies depth_ok_item(ms, #[trigger] s[k], f) by {
            if k < s.len() - 1 {
                assert(s.drop_last()[k] == s[k]);
            }
        }
    }
}

/// Expanded items instantiate no module of `ms`.
proof fn lemma_int_items_no_inst(ms: Seq<(Seq<char>, ModuleV)>, s: Seq<ItemV>, f: nat)
    requires
        depth_ok_items(ms, s, f),
    ensures
        forall|k: int| 0 <= k < s.len() ==> no_inst_item(mod_keys(ms), #[trigger] int_items(ms, s, f)[k]),
    decreases f, s, 1nat,
{
    lemma_depth_ok_each(ms, s, f);
    assert forall|k: int| 0 <= k < s.len() implies no_inst_item(mod_keys(ms), #[trigger] int_items(ms, s, f)[k]) by {
        lemma_int_item_no_inst(ms, s[k], f);
    }
}

/// An expanded item instantiates no module of `ms`.
proof fn lemma_int_item_no_inst(ms: Seq<(Seq<char>, ModuleV)>, it: ItemV, f: nat)
    requires
        depth_ok_item(ms, it, f),
    ensures
        no_inst_item(mod_keys(ms), int_item(ms, it, f)),
    decreases f, it, 0nat,
{
    match it {
        ItemV::ModuleInstantiation(inst) => {
            lemma_first_index(mod_keys(ms), inst.module_name);
            match lookup(ms, inst.module_name) {
                Some(vm) => {
                    let rest = int_items(ms, vm.module_items, (f - 1) as nat);
                    let head = seq![
                        ItemV::Declarations(port_nets(vm.port_decls)),
                        ItemV::ContinuousAssigns(
                            inst_conts(inst.module_name, inst.port_connections, input_names(vm.port_decls)),
                        ),
                    ];
                    let items = head + rest;
                    lemma_int_items_no_inst(ms, vm.module_items, (f - 1) as nat);
                    assert forall|k: int| 0 <= k < items.len() implies no_inst_item(mod_keys(ms), #[trigger] items[k]) by {
                        if k >= 2 {
                            assert(items[k] == rest[k - 2]);
                        }
                    }
                    assert(int_item(ms, it, f) == ItemV::Commented(
                        "Start of "@ + inst.module_name,
                        Some("End of "@ + inst.module_name),
                        items,
                    ));
                },
                None => {
                    assert(!mod_keys(ms).contains(inst.module_name));
                },
            }
        },
        ItemV::Commented(_, _, items) => {
            lemma_int_items_no_inst(ms, items, f);
            let r = int_items(ms, items, f);
            assert(r.len() == items.len());
            assert forall|k: int| 0 <= k < r.len() implies no_inst_item(mod_keys(ms), #[trigger] r[k]) by {}
        },
        _ => {},
    }
}

/// Law: the integrated module instantiates none of the modules of the hierarchy, at any
/// depth: every instance of one of them has been replaced by its items.
pub proof fn lemma_integrate_no_instances(ms: Seq<(Seq<char>, ModuleV)>, top: Seq<char>)
    requires
        integrate_ok(ms, top),
    ensures
        forall|k: int|
            0 <= k < integrate_spec(ms, top).module_items.len() ==> no_inst_item(
                mod_keys(ms),
                #[trigger] integrate_spec(ms, top).module_items[k],
            ),
{
    let rms = renamed_modules(ms, top);
    assert(mod_keys(rms) =~= mod_keys(ms));
    lemma_first_index(mod_keys(ms), top);
    let j = first_index(mod_keys(ms), top)->0;
    assert(rms[j] == ms[j]);
    let t = lookup(rms, top)->0;
    lemma_depth_renamed_items(ms, top, t.module_items, ms.len());
    lemma_int_items_no_inst(rms, t.module_items, ms.len());
}

/// A wire of `w` bits named `x`.
pub open spec fn wire_of(w: usize, x: Seq<char>) -> DeclV {
    DeclV::Net(ShapeView { dims: seq![w], is_signed: false }, x)
}

/// Whether the port is the clock or reset input.
pub open spec fn clk_rst_input(pd: PortDeclV) -> bool {
    match pd {
        PortDeclV::Input(_, x) => is_clk_rst(x),
        PortDeclV::Output(_, _) => false,
    }
}

/// Width and name of a port.
pub open spec fn port_width_name(pd: PortDeclV) -> (usize, Seq<char>) {
    match pd {
        PortDeclV::Input(w, x) => (w, x),
        PortDeclV::Output(w, x) => (w, x),
    }
}

/// Law: the wires declared for the ports of an instantiated module are exactly one wire per
/// port but the clock and reset inputs, each as wide as its port and named after it.
pub proof fn lemma_port_nets_widths(p: Seq<PortDeclV>)
    ensures
        forall|k: int|
            0 <= k < p.len() && !clk_rst_input(#[trigger] p[k]) ==> port_nets(p).contains(
                wire_of(port_width_name(p[k]).0, port_width_name(p[k]).1),
            ),
        forall|j: int|
            #![trigger port_nets(p)[j]]
            0 <= j < port_nets(p).len() ==> exists|k: int|
                0 <= k < p.len() && !clk_rst_input(#[trigger] p[k]) && port_nets(p)[j] == wire_of(
                    port_width_name(p[k]).0,
                    port_width_name(p[k]).1,
                ),
    decreases p.len(),
{
    if p.len() > 0 {
        let q = p.drop_last();
        lemma_port_nets_widths(q);
        let last = p.last();
        let tail = match last {
            PortDeclV::Input(w, x) => if is_clk_rst(x) {
                Seq::<DeclV>::empty()
            } else {
                seq![wire_of(w, x)]
            },
            PortDeclV::Output(w, x) => seq![wire_of(w, x)],
        };
        assert(port_nets(p) == port_nets(q) + tail);
        assert(tail.len() == if clk_rst_input(last) { 0int } else { 1int });
        assert(!clk_rst_input(last) ==> tail[0] == wire_of(port_width_name(last).0, port_width_name(last).1));
        assert forall|k: int|
            0 <= k < p.len() && !clk_rst_input(#[trigger] p[k]) implies port_nets(p).contains(
                wire_of(port_width_name(p[k]).0, port_width_name(p[k]).1),
            ) by {
            if k < p.len() - 1 {
                assert(q[k] == p[k]);
                let j = choose|j: int|
                    0 <= j < port_nets(q).len() && port_nets(q)[j] == wire_of(port_width_name(q[k]).0, port_width_name(q[k]).1);
                assert(port_nets(p)[j] == port_nets(q)[j]);
            } else {
                assert(port_nets(p)[port_nets(q).len() as int] == tail[0]);
            }
        }
        assert forall|j: int| #![trigger port_nets(p)[j]] 0 <= j < port_nets(p).len() implies exists|k: int|
            0 <= k < p.len() && !clk_rst_input(#[trigger] p[k]) && port_nets(p)[j] == wire_of(
                port_width_name(p[k]).0,
                port_width_name(p[k]).1,
            ) by {
            if j < port_nets(q).len() {
                assert(port_nets(p)[j] == port_nets(q)[j]);
                let k = choose|k: int|
                    0 <= k < q.len() && !clk_rst_input(#[trigger] q[k]) && port_nets(q)[j] == wire_of(
                        port_width_name(q[k]).0,
                        port_width_name(q[k]).1,
                    );
                assert(q[k] == p[k]);
            } else {
                assert(port_nets(p)[j] == tail[0]);
                assert(p[p.len() - 1] == last);
            }
        }
    }
}

/// Law: expanding an instance of a module of the hierarchy declares, first, a wire for each
/// port of that module but the clock and reset inputs, as wide as the port.
pub proof fn lemma_expanded_instance_wires(ms: Seq<(Seq<char>, ModuleV)>, inst: InstV, f: nat)
    requires
        lookup(ms, inst.module_name) is Some,
        f > 0,
    ensures
        int_item(ms, ItemV::ModuleInstantiation(inst), f) is Commented,
        int_item(ms, ItemV::ModuleInstantiation(inst), f)->Commented_2.len() >= 2,
        int_item(ms, ItemV::ModuleInstantiation(inst), f)->Commented_2[0] is Declarations,
        forall|k: int|
            0 <= k < lookup(ms, inst.module_name)->0.port_decls.len() && !clk_rst_input(
                #[trigger] lookup(ms, inst.module_name)->0.port_decls[k],
            ) ==> int_item(ms, ItemV::ModuleInstantiation(inst), f)->Commented_2[0]->Declarations_0.contains(
                wire_of(
                    port_width_name(lookup(ms, inst.module_name)->0.port_decls[k]).0,
                    port_width_name(lookup(ms, inst.module_name)->0.port_decls[k]).1,
                ),
            ),
{
    let vm = lookup(ms, inst.module_name)->0;
    lemma_port_nets_widths(vm.port_decls);
}

/// Renaming of the declarations of `module` after `name`.
fn module_renames_exec(name: &String, module: &Module) -> (r: Vec<(String, String)>)
    ensures
        pairs_v(r@) == module_renames(name@, module_decls(module@)),
{
    let decls = extract_decls(module);
    let ghost dv = names_v(decls@);
    let mut out: Vec<(String, String)> = Vec::new();
    let mut i: usize = 0;
    while i < decls.len()
        invariant
            i <= decls.len(),
            dv == names_v(decls@),
            pairs_v(out@) == module_renames(name@, dv.take(i as int)),
        decreases decls.len() - i,
    {
        let ghost before = out@;
        proof {
            let t = dv.take(i + 1);
            assert(t.drop_last() =~= dv.take(i as int));
            assert(t.last() == decls@[i as int]@);
        }
        let x = &decls[i];
        if !(eq_str(x.as_str(), "clk") || eq_str(x.as_str(), "rst")) {
            let mut renamed = name.clone();
            renamed.append("_");
            renamed.append(x.as_str());
            out.push((x.clone(), renamed));
            assert(pairs_v(out@) =~= pairs_v(before) + seq![(x@, name@ + "_"@ + x@)]);
        } else {
            assert(pairs_v(out@) =~= pairs_v(before) + seq![]);
        }
        i += 1;
    }
    assert(dv.take(decls.len() as int) =~= dv);
    out
}

/// Index of the module named `name`.
fn find_module(ms: &Vec<(String, Module)>, name: &String) -> (r: Option<usize>)
    ensures
        r is Some <==> first_index(mod_keys(mods_v(ms@)), name@) is Some,
        r matches Some(j) ==> first_index(mod_keys(mods_v(ms@)), name@) == Some(j as int) && j < ms.len(),
{
    let ghost keys = mod_keys(mods_v(ms@));
    proof {
        lemma_first_index(keys, name@);
    }
    let mut i: usize = 0;
    while i < ms.len()
        invariant
            i <= ms.len(),
            keys == mod_keys(mods_v(ms@)),
            keys.len() == ms.len(),
            forall|j: int| 0 <= j < i ==> keys[j] != name@,
            first_index(keys, name@) is Some <==> exists|j: int| 0 <= j < keys.len() && keys[j] == name@,
            first_index(keys, name@) matches Some(j) ==> 0 <= j < keys.len() && keys[j] == name@ && forall|k: int|
                0 <= k < j ==> keys[k] != name@,
        decreases ms.len() - i,
    {
        if ms[i].0.eq(name) {
            assert(keys[i as int] == name@);
            let ghost j = first_index(keys, name@)->0;
            assert(j == i) by {
                if j < i {
                    assert(keys[j] != name@);
                } else if j > i {
                    assert(keys[i as int] != name@);
                }
            }
            return Some(i);
        }
        i += 1;
    }
    None
}

/// Wires for the ports of an instantiated module.
fn port_nets_exec(ports: &Vec<PortDeclaration>) -> (r: Vec<Declaration>)
    ensures
        decls_v(r@) == port_nets(ports@.map_values(|p: PortDeclaration| port_decl_v(p))),
{
    let ghost pv = ports@.map_values(|p: PortDeclaration| port_decl_v(p));
    let mut out: Vec<Declaration> = Vec::new();
    let mut i: usize = 0;
    while i < ports.len()
        invariant
            i <= ports.len(),
            pv == ports@.map_values(|p: PortDeclaration| port_decl_v(p)),
            decls_v(out@) == port_nets(pv.take(i as int)),
        decreases ports.len() - i,
    {
        let ghost before = out@;
        proof {
            let t = pv.take(i + 1);
            assert(t.drop_last() =~= pv.take(i as int));
            assert(t.last() == port_decl_v(ports@[i as int]));
        }
        match &ports[i] {
            PortDeclaration::Input(w, x) => {
                if eq_str(x.as_str(), "clk") || eq_str(x.as_str(), "rst") {
                    assert(decls_v(out@) =~= decls_v(before) + seq![]);
                } else {
                    let mut dims: Vec<usize> = Vec::new();
                    dims.push(*w);
                    let d = Declaration::net(Shape::new(dims, false), x.clone());
                    out.push(d);
                    assert(dims@ =~= seq![*w]);
                    assert(decls_v(out@) =~= decls_v(before) + seq![
                        DeclV::Net(ShapeView { dims: seq![*w], is_signed: false }, x@),
                    ]);
                }
            },
            PortDeclaration::Output(w, x) => {
                let mut dims: Vec<usize> = Vec::new();
                dims.push(*w);
                let d = Declaration::net(Shape::new(dims, false), x.clone());
                out.push(d);
                assert(dims@ =~= seq![*w]);
                assert(decls_v(out@) =~= decls_v(before) + seq![
                    DeclV::Net(ShapeView { dims: seq![*w], is_signed: false }, x@),
                ]);
            },
        }
        i += 1;
    }
    assert(pv.take(ports.len() as int) =~= pv);
    out
}

/// Names of the input ports.
fn input_names_exec(ports: &Vec<PortDeclaration>) -> (r: Vec<String>)
    ensures
        names_v(r@) == input_names(ports@.map_values(|p: PortDeclaration| port_decl_v(p))),
{
    let ghost pv = ports@.map_values(|p: PortDeclaration| port_decl_v(p));
    let mut out: Vec<String> = Vec::new();
    let mut i: usize = 0;
    while i < ports.len()
        invariant
            i <= ports.len(),
            pv == ports@.map_values(|p: PortDeclaration| port_decl_v(p)),
            names_v(out@) == input_names(pv.take(i as int)),
        decreases ports.len() - i,
    {
        let ghost before = out@;
        proof {
            let t = pv.take(i + 1);
            assert(t.drop_last() =~= pv.take(i as int));
            assert(t.last() == port_decl_v(ports@[i as int]));
        }
        match &ports[i] {
            PortDeclaration::Input(_, x) => {
                out.push(x.clone());
                assert(names_v(out@) =~= names_v(before) + seq![x@]);
            },
            PortDeclaration::Output(_, _) => {
                assert(names_v(out@) =~= names_v(before) + seq![]);
            },
        }
        i += 1;
    }
    assert(pv.take(ports.len() as int) =~= pv);
    out
}

/// Continuous assignments that connect the ports of an instance.
fn inst_conts_exec(
    name: &String,
    conns: &Vec<(String, Expression)>,
    inputs: &Vec<String>,
) -> (r: Vec<ContinuousAssign>)
    ensures
        conts_v(r@) == inst_conts(
            name@,
            conns@.map_values(|p: (String, Expression)| (p.0@, expr_v(p.1))),
            names_v(inputs@),
        ),
{
    let ghost cv = conns@.map_values(|p: (String, Expression)| (p.0@, expr_v(p.1)));
    let mut out: Vec<ContinuousAssign> = Vec::new();
    let mut i: usize = 0;
    while i < conns.len()
        invariant
            i <= conns.len(),
            cv == conns@.map_values(|p: (String, Expression)| (p.0@, expr_v(p.1))),
            conts_v(out@) == inst_conts(name@, cv.take(i as int), names_v(inputs@)),
        decreases conns.len() - i,
    {
        let ghost before = out@;
        proof {
            let t = cv.take(i + 1);
            assert(t.drop_last() =~= cv.take(i as int));
            assert(t.last() == (conns@[i as int].0@, expr_v(conns@[i as int].1)));
        }
        let port = &conns[i].0;
        if eq_str(port.as_str(), "clk") || eq_str(port.as_str(), "rst") {
            assert(conts_v(out@) =~= conts_v(before) + seq![]);
        } else {
            let mut pn = name.clone();
            pn.append("_");
            pn.append(port.as_str());
            let ghost pnv = pn@;
            let c = if contains_name(inputs, &pn) {
                ContinuousAssign(Expression::ident(pn), conns[i].1.clone())
            } else {
                ContinuousAssign(conns[i].1.clone(), Expression::ident(pn))
            };
            out.push(c);
            assert(conts_v(out@) =~= conts_v(before) + seq![(expr_v(c.0), expr_v(c.1))]);
        }
        i += 1;
    }
    assert(cv.take(conns.len() as int) =~= cv);
    out
}

/// Expansion within `fuel` levels holds for each item of a list when it holds
/// for the list.
proof fn lemma_depth_ok_items(ms: Seq<(Seq<char>, ModuleV)>, s: Seq<ItemV>, fuel: nat, i: int)
    requires
        depth_ok_items(ms, s, fuel),
        0 <= i < s.len(),
    ensures
        depth_ok_item(ms, s[i], fuel),
    decreases s.len(),
{
    if i < s.len() - 1 {
        lemma_depth_ok_items(ms, s.drop_last(), fuel, i);
        assert(s.drop_last()[i] == s[i]);
    }
}

/// Expands the instances of the modules of `ms` in module items, `fuel`
/// levels deep.
fn integrate_items(items: &Vec<ModuleItem>, ms: &Vec<(String, Module)>, fuel: usize) -> (r: Vec<ModuleItem>)
    requires
        depth_ok_items(mods_v(ms@), items_v(items@), fuel as nat),
    ensures
        items_v(r@) == int_items(mods_v(ms@), items_v(items@), fuel as nat),
    decreases fuel, items,
{
    let ghost msv = mods_v(ms@);
    let mut out: Vec<ModuleItem> = Vec::new();
    let mut i: usize = 0;
    while i < items.len()
        invariant
            i <= items.len(),
            msv == mods_v(ms@),
            depth_ok_items(msv, items_v(items@), fuel as nat),
            out.len() == i,
            forall|k: int|
                0 <= k < i ==> item_v(#[trigger] out@[k]) == int_item(msv, item_v(items@[k]), fuel as nat),
        decreases items.len() - i,
    {
        proof {
            lemma_depth_ok_items(msv, items_v(items@), fuel as nat, i as int);
        }
        assert(decreases_to!(items => items@[i as int]));
        let it = integrate_inner_module_item(&items[i], ms, fuel);
        out.push(it);
        i += 1;
    }
    assert(items_v(out@) =~= int_items(msv, items_v(items@), fuel as nat));
    out
}

/// Expands the instances of the modules of `ms` in the items of `module`,
/// `fuel` levels deep.
fn integrate_inner(module: &Module, ms: &Vec<(String, Module)>, fuel: usize) -> (r: Module)
    requires
        depth_ok_items(mods_v(ms@), module@.module_items, fuel as nat),
    ensures
        r@ == (ModuleV { module_items: int_items(mods_v(ms@), module@.module_items, fuel as nat), ..module@ }),
{
    Module {
        name: module.name.clone(),
        port_decls: crate::vir::ir::clone_port_decls(&module.port_decls),
        module_items: integrate_items(&module.module_items, ms, fuel),
    }
}

/// Expands the instances of the modules of `ms` in a module item, `fuel`
/// levels deep.
fn integrate_inner_module_item(module_item: &ModuleItem, ms: &Vec<(String, Module)>, fuel: usize) -> (r: ModuleItem)
    requires
        depth_ok_item(mods_v(ms@), module_item@, fuel as nat),
    ensures
        r@ == int_item(mods_v(ms@), module_item@, fuel as nat),
    decreases fuel, module_item,
{
    let ghost msv = mods_v(ms@);
    match module_item {
        ModuleItem::ModuleInstantiation(module_inst) => {
            match find_module(ms, &module_inst.module_name) {
                Some(j) => {
                    let vm = &ms[j].1;
                    proof {
                        assert(msv[j as int] == (ms@[j as int].0@, vm@));
                        assert(lookup(msv, module_inst.module_name@) == Some(vm@));
                        assert(module_item@ == ItemV::ModuleInstantiation(inst_v(*module_inst)));
                    }
                    let decls = port_nets_exec(&vm.port_decls);
                    let inputs = input_names_exec(&vm.port_decls);
                    let conts = inst_conts_exec(&module_inst.module_name, &module_inst.port_connections, &inputs);
                    let inner = integrate_items(&vm.module_items, ms, fuel - 1);
                    let mut items: Vec<ModuleItem> = Vec::new();
                    items.push(ModuleItem::Declarations(decls));
                    items.push(ModuleItem::ContinuousAssigns(conts));
                    let ghost head = items@;
                    let mut k: usize = 0;
                    while k < inner.len()
                        invariant
                            k <= inner.len(),
                            items.len() == 2 + k,
                            items@.take(2) == head,
                            forall|m: int| 0 <= m < k ==> item_v(#[trigger] items@[2 + m]) == item_v(inner@[m]),
                        decreases inner.len() - k,
                    {
                        items.push(inner[k].clone());
                        assert(items@.take(2) =~= head);
                        k += 1;
                    }
                    let mut before = String::from_str("Start of ");
                    before.append(module_inst.module_name.as_str());
                    let mut after = String::from_str("End of ");
                    after.append(module_inst.module_name.as_str());
                    let r = ModuleItem::Commented(before, Some(after), items);
                    proof {
                        let want = seq![
                            ItemV::Declarations(port_nets(vm@.port_decls)),
                            ItemV::ContinuousAssigns(
                                inst_conts(
                                    module_inst.module_name@,
                                    inst_v(*module_inst).port_connections,
                                    input_names(vm@.port_decls),
                                ),
                            ),
                        ] + int_items(msv, vm@.module_items, (fuel - 1) as nat);
                        assert(head[0] == items@[0]);
                        assert(head[1] == items@[1]);
                        assert(inst_v(*module_inst).port_connections == module_inst.port_connections@.map_values(
                            |p: (String, Expression)| (p.0@, expr_v(p.1)),
                        ));
                        assert(vm@.port_decls == vm.port_decls@.map_values(|p: PortDeclaration| port_decl_v(p)));
                        assert(items_v(items@)[0] == want[0]);
                        assert(items_v(items@)[1] == want[1]);
                        assert forall|m: int| 2 <= m < items.len() implies items_v(items@)[m] == want[m] by {
                            assert(item_v(items@[2 + (m - 2)]) == item_v(inner@[m - 2]));
                            assert(items_v(inner@)[m - 2] == item_v(inner@[m - 2]));
                        }
                        assert(items_v(items@) =~= want);
                    }
                    r
                },
                None => {
                    assert(lookup(msv, module_inst.module_name@) is None);
                    module_item.clone()
                },
            }
        },
        ModuleItem::Commented(b, a, sub) => {
            assert(decreases_to!(module_item => module_item->Commented_2));
            let items = integrate_items(sub, ms, fuel);
            let a2 = match a {
                Some(x) => Some(x.clone()),
                None => None,
            };
            ModuleItem::Commented(b.clone(), a2, items)
        },
        _ => module_item.clone(),
    }
}

/// Integrates a hierarchy of modules into its top module: the declarations
/// of each module but the top are renamed after it, and each instance of a
/// module of the hierarchy is replaced, at any depth, by wires for its ports,
/// the assignments that connect them, and the module's own items.
pub fn integrate(vir_modules: Vec<(String, Module)>, top: String) -> (r: Module)
    requires
        integrate_ok(mods_v(vir_modules@), top@),
    ensures
        r@ == integrate_spec(mods_v(vir_modules@), top@),
        forall|k: int|
            0 <= k < r@.module_items.len() ==> no_inst_item(mod_keys(mods_v(vir_modules@)), #[trigger] r@.module_items[k]),
{
    let ghost msv = mods_v(vir_modules@);
    proof {
        lemma_integrate_no_instances(msv, top@);
    }
    let ghost rms = renamed_modules(msv, top@);
    let mut renamed: Vec<(String, Module)> = Vec::new();
    let mut i: usize = 0;
    while i < vir_modules.len()
        invariant
            i <= vir_modules.len(),
            msv == mods_v(vir_modules@),
            rms == renamed_modules(msv, top@),
            renamed.len() == i,
            forall|k: int| 0 <= k < i ==> mods_v(renamed@)[k] == #[trigger] rms[k],
        decreases vir_modules.len() - i,
    {
        let name = &vir_modules[i].0;
        let module = &vir_modules[i].1;
        if name.eq(&top) {
            renamed.push((name.clone(), module.clone()));
        } else {
            let rs = module_renames_exec(name, module);
            let m2 = module.replace(&rs);
            renamed.push((name.clone(), m2));
        }
        i += 1;
    }
    proof {
        assert(mods_v(renamed@) =~= rms);
        assert(mod_keys(rms) =~= mod_keys(msv));
        lemma_depth_renamed_items(msv, top@, lookup(msv, top@)->0.module_items, msv.len());
    }
    match find_module(&renamed, &top) {
        Some(j) => {
            proof {
                lemma_first_index(mod_keys(msv), top@);
                let j0 = first_index(mod_keys(msv), top@)->0;
                assert(j0 == j);
                assert(rms[j as int] == msv[j as int]);
            }
            integrate_inner(&renamed[j].1, &renamed, vir_modules.len())
        },
        None => {
            vstd::pervasive::unreached()
        },
    }
}

} // verus!
