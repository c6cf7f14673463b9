//! Helpers of Verilog generation.

use vstd::prelude::*;

use crate::compiler::codegen::{ce_leaves, CompositeExpr};
use crate::compiler::error::VirgenError;
use crate::compiler::interface::{nested_fits, Interface, InterfaceTyp, InterfaceTypView, InterfaceView};
use crate::compiler::module_wiring::{gen_wiring, subs_v, wiring_ok, wiring_spec};
use crate::compiler::naming::{id_name, prefix_spec, Context, Scope};
use crate::compiler::ops::BinaryOp;
use crate::compiler::ports::{ports_fit, ports_spec, Direction};
use crate::compiler::prelude::{lemma_leaves_nonzero, leaves_view, nonzero_leaves, pdv_leaves, shape_fits, shape_width, PortDecls, Shape, ShapeView};
use crate::compiler::seq_wiring::{gen_module_seq_assigns, seq_assigns_spec, seq_ok, seq_v, wires_v, Wire, WireV};
use crate::compiler::wiring::{
    decls_view, gen_port_decls, port_decls_spec, ports_flat_fit, gen_submodule_wires, subs_ok, submodule_wires_spec, subs_view, wires_view, connections_spec, conns_view, gen_connections, gen_module_split_assigns, split_assigns_spec, split_ok,
};
use crate::utils::string::{
    chars_of, chars_views, eq_str, join_strings, lemma_split_nonempty, nat_to_decimal, opt_view, seq_join, split_chars,
    split_on, string_from_chars, usize_to_string,
};
use crate::vir::ir::{
    conts_v, decl_v, decls_v, expr_v, exprs_v, item_v, items_v, prim_v, range_v, ContinuousAssign, DeclV, Declaration,
    ExprV, Expression, InstV, ItemV, Module, Statement, StmtV, stmt_v, stmts_v, decl_shape, decl_name, ModuleInstantiation, ModuleItem, ModuleV, PortDeclV, PortDeclaration, PrimV,
    Primary, Range, RangeV, port_decls_v,
};
use crate::vir::opt::inline_always::contains_name;
use crate::vir::utils::names_v;

verus! {

/// `itertools::zip_eq` of two lists of the same length: the pairs of their
/// items at each position. (It panics on lists of different lengths.)
#[verifier::external_body]
fn zip_eq_vecs<A, B>(a: Vec<A>, b: Vec<B>) -> (r: Vec<(A, B)>)
    requires
        a.len() == b.len(),
    ensures
        r@.len() == a@.len(),
        forall|i: int| 0 <= i < r@.len() ==> #[trigger] r@[i] == (a@[i], b@[i]),
{
    itertools::zip_eq(a, b).collect()
}

/// The expressions whose shape has a width.
pub open spec fn nonzero_exprs(es: Seq<ExprV>, shapes: Seq<ShapeView>) -> Seq<ExprV>
    decreases es.len(),
{
    if es.len() == 0 || shapes.len() == 0 {
        seq![]
    } else {
        nonzero_exprs(es.drop_last(), shapes.drop_last()) + if shape_width(shapes.last().dims) > 0 {
            seq![es.last()]
        } else {
            seq![]
        }
    }
}

/// As many expressions are kept as members have a width.
proof fn lemma_nonzero_exprs_len(es: Seq<ExprV>, ls: Seq<(Option<Seq<char>>, ShapeView)>)
    requires
        es.len() == ls.len(),
    ensures
        nonzero_exprs(es, ls.map_values(|m: (Option<Seq<char>>, ShapeView)| m.1)).len() == nonzero_leaves(ls).len(),
    decreases ls.len(),
{
    if ls.len() > 0 {
        lemma_nonzero_exprs_len(es.drop_last(), ls.drop_last());
        let f = |m: (Option<Seq<char>>, ShapeView)| m.1;
        assert(ls.drop_last().map_values(f) =~= ls.map_values(f).drop_last());
        assert(ls.map_values(f).last() == ls.last().1);
    }
}

/// Law: `filter_nonzero` keeps as many expressions as the type has members of nonzero
/// width, the number `num_elts` gives.
pub proof fn lemma_filter_nonzero_count(es: Seq<ExprV>, typ: PortDecls)
    requires
        es.len() == member_shapes(typ).len(),
    ensures
        nonzero_exprs(es, member_shapes(typ)).len() == pdv_leaves(typ@, None, false).len(),
{
    lemma_leaves_nonzero(typ@, None);
    lemma_nonzero_exprs_len(es, pdv_leaves(typ@, None, true));
}

/// Shapes of the members of a type, zero-width ones included.
pub open spec fn member_shapes(typ: PortDecls) -> Seq<ShapeView> {
    pdv_leaves(typ@, None, true).map_values(|m: (Option<Seq<char>>, ShapeView)| m.1)
}

/// The leaves of `expr` whose members of `typ` have a width; `expr` has one
/// leaf for each member of `typ`, zero-width ones included.
pub fn filter_nonzero(expr: CompositeExpr<Expression>, typ: PortDecls) -> (r: Vec<Expression>)
    requires
        ce_leaves(expr).len() == member_shapes(typ).len(),
        forall|i: int| 0 <= i < member_shapes(typ).len() ==> shape_fits(#[trigger] member_shapes(typ)[i].dims),
    ensures
        exprs_v(r@) == nonzero_exprs(exprs_v(ce_leaves(expr)), member_shapes(typ)),
{
    let mut it = expr.iter();
    let ghost leaves = ce_leaves(expr);
    let mut es: Vec<Expression> = Vec::new();
    while it.inner.len() > 0
        invariant
            es.len() + it.inner@.len() == leaves.len(),
            forall|i: int| 0 <= i < es.len() ==> expr_v(#[trigger] es@[i]) == expr_v(leaves[i]),
            forall|i: int|
                0 <= i < it.inner@.len() ==> expr_v(#[trigger] it.inner@[i]) == expr_v(leaves[es.len() + i]),
        decreases it.inner@.len(),
    {
        let e = it.inner.pop_front().unwrap();
        es.push(e);
    }
    let tys = typ.iter_with_zero_width(None).into_vec();
    let ghost shapes = member_shapes(typ);
    assert(tys@.len() == shapes.len()) by {
        assert(leaves_view(tys@).len() == tys@.len());
    }
    let pairs = zip_eq_vecs(es, tys);
    let mut out: Vec<Expression> = Vec::new();
    let mut i: usize = 0;
    while i < pairs.len()
        invariant
            i <= pairs.len(),
            pairs@.len() == leaves.len(),
            pairs@.len() == shapes.len(),
            forall|k: int| 0 <= k < pairs@.len() ==> expr_v(#[trigger] pairs@[k].0) == expr_v(leaves[k]),
            forall|k: int| 0 <= k < pairs@.len() ==> (#[trigger] pairs@[k]).1.1@ == shapes[k],
            forall|k: int| 0 <= k < shapes.len() ==> shape_fits(#[trigger] shapes[k].dims),
            exprs_v(out@) == nonzero_exprs(exprs_v(leaves).take(i as int), shapes.take(i as int)),
        decreases pairs.len() - i,
    {
        let ghost before = out@;
        proof {
            assert(exprs_v(leaves).take(i + 1).drop_last() =~= exprs_v(leaves).take(i as int));
            assert(shapes.take(i + 1).drop_last() =~= shapes.take(i as int));
        }
        if pairs[i].1.1.width() > 0 {
            out.push(pairs[i].0.clone());
            assert(exprs_v(out@) =~= exprs_v(before) + seq![expr_v(leaves[i as int])]);
        } else {
            assert(exprs_v(out@) =~= exprs_v(before) + seq![]);
        }
        i += 1;
    }
    assert(exprs_v(leaves).take(pairs.len() as int) =~= exprs_v(leaves));
    assert(shapes.take(pairs.len() as int) =~= shapes);
    out
}

/// A number literal, written in decimal.
pub open spec fn num_v(n: nat) -> ExprV {
    ExprV::Primary(PrimV::Number(nat_to_decimal(n)))
}

/// An identifier.
pub open spec fn ident_v(name: Seq<char>) -> ExprV {
    ExprV::Primary(PrimV::Ident(name, None))
}

/// Identifier `name`, restricted to element `index` of width `size`
/// (`name[index * size +: size]`) where a range is given.
pub open spec fn ranged_ident(name: Seq<char>, range: Option<(usize, usize)>) -> ExprV {
    match range {
        Some((index, size)) => ExprV::Primary(
            PrimV::Ident(
                name,
                Some(
                    RangeV::Range(
                        Box::new(ExprV::Binary(Box::new(num_v(index as nat)), BinaryOp::Mul, Box::new(num_v(size as nat)))),
                        Box::new(num_v(size as nat)),
                    ),
                ),
            ),
        ),
        None => ident_v(name),
    }
}

/// The assignment of a wire: its left side takes its right side.
pub open spec fn wire_assign_v(w: WireV) -> (ExprV, ExprV) {
    (ranged_ident(w.0, w.1), ranged_ident(w.2, w.3))
}

/// Identifier `name` with the range, if any.
fn ranged_ident_of(name: String, range: Option<(usize, usize)>) -> (r: Expression)
    ensures
        r@ == ranged_ident(name@, range),
{
    match range {
        Some((index, size)) => {
            let base = Expression::binary(
                BinaryOp::Mul,
                Expression::number(usize_to_string(index)),
                Expression::number(usize_to_string(size)),
            );
            let range = Range::new_range(base, Expression::number(usize_to_string(size)));
            let ghost rv = range_v(range);
            let ghost nv = name@;
            let p = Primary::HierarchicalIdentifier(name, Some(range));
            assert(prim_v(p) == PrimV::Ident(nv, Some(rv)));
            Expression::Primary(p)
        },
        None => Expression::ident(name),
    }
}

/// The continuous assignments of wires, one for each, in order.
pub fn wire_assigns(wires: Vec<Wire>) -> (r: Vec<ContinuousAssign>)
    ensures
        conts_v(r@) == wires_v(wires@).map_values(|w: WireV| wire_assign_v(w)),
{
    let ghost target = wires_v(wires@).map_values(|w: WireV| wire_assign_v(w));
    let mut out: Vec<ContinuousAssign> = Vec::new();
    let mut k: usize = 0;
    while k < wires.len()
        invariant
            target == wires_v(wires@).map_values(|w: WireV| wire_assign_v(w)),
            k <= wires@.len(),
            conts_v(out@) == target.take(k as int),
        decreases wires@.len() - k,
    {
        let l = ranged_ident_of(wires[k].0.clone(), wires[k].1);
        let r = ranged_ident_of(wires[k].2.clone(), wires[k].3);
        let c = ContinuousAssign::new(l, r);
        let ghost prev = out@;
        out.push(c);
        proof {
            assert(target[k as int] == wire_assign_v(wires_v(wires@)[k as int]));
            assert(conts_v(out@) =~= conts_v(prev).push((expr_v(c.0), expr_v(c.1))));
            assert(target.take(k as int + 1) =~= target.take(k as int).push(target[k as int]));
        }
        k += 1;
    }
    assert(target.take(wires@.len() as int) =~= target);
    out
}

/// Returns the continuous assignments that wire a module, given its submodules (name,
/// output interface type and input interface of each), its input and output interface
/// types and its output interface.
pub fn gen_module_wiring(
    submodules: &Vec<(String, InterfaceTyp, Interface)>,
    input_interface_typ: &InterfaceTyp,
    output_interface_typ: &InterfaceTyp,
    output_interface: &Interface,
    prefix: Option<String>,
) -> (r: Result<Vec<ContinuousAssign>, VirgenError>)
    requires
        wiring_ok(subs_v(submodules@), input_interface_typ@, output_interface_typ@, output_interface@),
    ensures
        r matches Ok(v) && conts_v(v@) == wiring_spec(
            subs_v(submodules@),
            input_interface_typ@,
            output_interface_typ@,
            output_interface@,
            crate::utils::string::opt_view(prefix),
        ).map_values(|w: WireV| wire_assign_v(w)),
{
    match gen_wiring(submodules, input_interface_typ, output_interface_typ, output_interface, prefix) {
        Ok(wires) => Ok(wire_assigns(wires)),
        Err(e) => Err(e),
    }
}

/// Returns the module items of a sequence of `seq_len` modules `([i; N], j) -> ([o; N], j)`:
/// one block of continuous assignments.
pub fn gen_module_seq(
    seq_len: usize,
    i_typ: &InterfaceTyp,
    j_typ: &InterfaceTyp,
    o_typ: &InterfaceTyp,
    input_interface_typ: &InterfaceTyp,
    output_interface_typ: &InterfaceTyp,
    ctx: &Context,
) -> (r: Result<Vec<ModuleItem>, VirgenError>)
    requires
        j_typ@ is Array ==> nested_fits(j_typ@),
        seq_ok(
            seq_v(
                seq_len as nat,
                i_typ@,
                j_typ@,
                o_typ@,
                input_interface_typ@,
                output_interface_typ@,
                prefix_spec(ctx.scopes@),
            ),
        ),
    ensures
        r matches Ok(v) && items_v(v@) == seq![
            ItemV::ContinuousAssigns(
                seq_assigns_spec(
                    seq_v(
                        seq_len as nat,
                        i_typ@,
                        j_typ@,
                        o_typ@,
                        input_interface_typ@,
                        output_interface_typ@,
                        prefix_spec(ctx.scopes@),
                    ),
                ).map_values(|w: WireV| wire_assign_v(w)),
            ),
        ],
{
    match gen_module_seq_assigns(seq_len, i_typ, j_typ, o_typ, input_interface_typ, output_interface_typ, ctx) {
        Ok(wires) => {
            let conts = wire_assigns(wires);
            let v = vec![ModuleItem::ContinuousAssigns(conts)];
            assert(items_v(v@) =~= seq![crate::vir::ir::item_v(v@[0])]);
            Ok(v)
        },
        Err(e) => Err(e),
    }
}

/// The assignment of a split connection: an input port drives the outgoing name, an
/// output port drives the incoming name.
pub open spec fn split_assign_v(c: (Direction, Seq<char>, Seq<char>)) -> (ExprV, ExprV) {
    match c.0 {
        Direction::Input => (ident_v(c.2), ident_v(c.1)),
        Direction::Output => (ident_v(c.1), ident_v(c.2)),
    }
}

/// Returns the module items of a module split: one block of continuous assignments.
pub fn gen_module_split(
    input_interface_typ: &InterfaceTyp,
    output_interface_typ: &InterfaceTyp,
    ctx: &Context,
) -> (r: Result<Vec<ModuleItem>, VirgenError>)
    requires
        split_ok(input_interface_typ@, output_interface_typ@),
    ensures
        r matches Ok(v) && items_v(v@) == seq![
            ItemV::ContinuousAssigns(
                split_assigns_spec(input_interface_typ@, output_interface_typ@, prefix_spec(ctx.scopes@)).map_values(
                    |c: (Direction, Seq<char>, Seq<char>)| split_assign_v(c),
                ),
            ),
        ],
{
    let wires = match gen_module_split_assigns(input_interface_typ, output_interface_typ, ctx) {
        Ok(w) => w,
        Err(e) => {
            return Err(e);
        },
    };
    let ghost target = conns_view(wires@).map_values(|c: (Direction, Seq<char>, Seq<char>)| split_assign_v(c));
    let mut conts: Vec<ContinuousAssign> = Vec::new();
    let mut k: usize = 0;
    while k < wires.len()
        invariant
            target == conns_view(wires@).map_values(|c: (Direction, Seq<char>, Seq<char>)| split_assign_v(c)),
            k <= wires@.len(),
            conts_v(conts@) == target.take(k as int),
        decreases wires@.len() - k,
    {
        let incoming = wires[k].1.clone();
        let outgoing = wires[k].2.clone();
        let c = match wires[k].0 {
            Direction::Input => ContinuousAssign::new(Expression::ident(outgoing), Expression::ident(incoming)),
            Direction::Output => ContinuousAssign::new(Expression::ident(incoming), Expression::ident(outgoing)),
        };
        let ghost prev = conts@;
        conts.push(c);
        proof {
            assert(target[k as int] == split_assign_v(conns_view(wires@)[k as int]));
            assert(conts_v(conts@) =~= conts_v(prev).push((expr_v(c.0), expr_v(c.1))));
            assert(target.take(k as int + 1) =~= target.take(k as int).push(target[k as int]));
        }
        k += 1;
    }
    assert(target.take(wires@.len() as int) =~= target);
    let v = vec![ModuleItem::ContinuousAssigns(conts)];
    assert(items_v(v@) =~= seq![crate::vir::ir::item_v(v@[0])]);
    Ok(v)
}

/// Port connections of an instance: each port with the identifier it connects to.
pub open spec fn port_conns_v(conns: Seq<(Direction, Seq<char>, Seq<char>)>) -> Seq<(Seq<char>, ExprV)> {
    conns.map_values(|c: (Direction, Seq<char>, Seq<char>)| (c.1, ident_v(c.2)))
}

/// The instance of a module with the given names, parameters and interface types.
pub open spec fn inst_spec(
    module_name: Seq<char>,
    inst_name: Seq<char>,
    params: Seq<(Seq<char>, usize)>,
    input: crate::compiler::interface::InterfaceTypView,
    output: crate::compiler::interface::InterfaceTypView,
    ctx: Option<Seq<char>>,
) -> ItemV {
    ItemV::ModuleInstantiation(
        InstV {
            module_name,
            inst_name,
            params,
            port_connections: port_conns_v(connections_spec(input, output, ctx)),
        },
    )
}

/// The instantiation of a module, connected as `gen_connections` gives.
fn instantiation(
    module_name: String,
    inst_name: String,
    params: Vec<(String, usize)>,
    input_interface_typ: &InterfaceTyp,
    output_interface_typ: &InterfaceTyp,
    ctx: &Context,
) -> (r: Result<Vec<ModuleItem>, VirgenError>)
    requires
        ports_fit(input_interface_typ@),
        ports_fit(output_interface_typ@),
    ensures
        r matches Ok(v) && items_v(v@) == seq![
            inst_spec(
                module_name@,
                inst_name@,
                params@.map_values(|p: (String, usize)| (p.0@, p.1)),
                input_interface_typ@,
                output_interface_typ@,
                prefix_spec(ctx.scopes@),
            ),
        ],
{
    let conns = match gen_connections(input_interface_typ, output_interface_typ, ctx) {
        Ok(c) => c,
        Err(e) => {
            return Err(e);
        },
    };
    let ghost target = port_conns_v(conns_view(conns@));
    let mut connections: Vec<(String, Expression)> = Vec::new();
    let mut k: usize = 0;
    while k < conns.len()
        invariant
            target == port_conns_v(conns_view(conns@)),
            k <= conns@.len(),
            connections@.map_values(|p: (String, Expression)| (p.0@, expr_v(p.1))) == target.take(k as int),
        decreases conns@.len() - k,
    {
        let port = conns[k].1.clone();
        let e = Expression::ident(conns[k].2.clone());
        let ghost prev = connections@;
        let ghost pv = (port@, expr_v(e));
        connections.push((port, e));
        proof {
            assert(target[k as int] == pv);
            assert(connections@.map_values(|p: (String, Expression)| (p.0@, expr_v(p.1))) =~= prev.map_values(
                |p: (String, Expression)| (p.0@, expr_v(p.1)),
            ).push(pv));
            assert(target.take(k as int + 1) =~= target.take(k as int).push(target[k as int]));
        }
        k += 1;
    }
    assert(target.take(conns@.len() as int) =~= target);
    let inst = ModuleInstantiation::new(module_name, inst_name, params, connections);
    let v = vec![ModuleItem::ModuleInstantiation(inst)];
    assert(items_v(v@) =~= seq![crate::vir::ir::item_v(v@[0])]);
    Ok(v)
}

/// The name under a prefix: the prefix names joined by `_`, then `_` and the name; the
/// name alone under no prefix.
pub open spec fn prefixed_name(prefix: Seq<Seq<char>>, name: Seq<char>) -> Seq<char> {
    if prefix.len() == 0 {
        name
    } else {
        seq_join(prefix, "_"@) + "_"@ + name
    }
}

/// `name` under the prefix.
fn prefix_name(prefix: &Vec<String>, name: &String) -> (r: String)
    ensures
        r@ == prefixed_name(prefix@.map_values(|s: String| s@), name@),
{
    if prefix.len() == 0 {
        name.clone()
    } else {
        let mut r = join_strings(prefix, "_");
        r.append("_");
        r.append(name.as_str());
        proof {
            reveal_strlit("_");
        }
        r
    }
}

/// Returns the module items of an instance of a module named `module_name`, under the
/// names `prefix`: the instantiation, connected to the module's wires.
pub fn gen_module_inst(
    module_name: &String,
    inst_name: &String,
    prefix: &Vec<String>,
    params: Vec<(String, usize)>,
    input_interface_typ: &InterfaceTyp,
    output_interface_typ: &InterfaceTyp,
    ctx: &Context,
) -> (r: Result<Vec<ModuleItem>, VirgenError>)
    requires
        ports_fit(input_interface_typ@),
        ports_fit(output_interface_typ@),
    ensures
        r matches Ok(v) && items_v(v@) == seq![
            inst_spec(
                prefixed_name(prefix@.map_values(|s: String| s@), module_name@),
                prefixed_name(prefix@.map_values(|s: String| s@), inst_name@),
                params@.map_values(|p: (String, usize)| (p.0@, p.1)),
                input_interface_typ@,
                output_interface_typ@,
                prefix_spec(ctx.scopes@),
            ),
        ],
{
    let m = prefix_name(prefix, module_name);
    let i = prefix_name(prefix, inst_name);
    instantiation(m, i, params, input_interface_typ, output_interface_typ, ctx)
}

/// Returns the module items of a foreign module named `module_name`: the instantiation,
/// connected to the module's wires.
pub fn gen_module_ffi(
    module_name: &String,
    inst_name: &String,
    params: Vec<(String, usize)>,
    input_interface_typ: &InterfaceTyp,
    output_interface_typ: &InterfaceTyp,
    ctx: &Context,
) -> (r: Result<Vec<ModuleItem>, VirgenError>)
    requires
        ports_fit(input_interface_typ@),
        ports_fit(output_interface_typ@),
    ensures
        r matches Ok(v) && items_v(v@) == seq![
            inst_spec(
                module_name@,
                inst_name@,
                params@.map_values(|p: (String, usize)| (p.0@, p.1)),
                input_interface_typ@,
                output_interface_typ@,
                prefix_spec(ctx.scopes@),
            ),
        ],
{
    instantiation(module_name.clone(), inst_name.clone(), params, input_interface_typ, output_interface_typ, ctx)
}

/// Descriptions of the wires, in the order they first occur.
pub open spec fn first_metas(ws: Seq<(Seq<char>, Seq<char>, ShapeView)>) -> Seq<Seq<char>>
    decreases ws.len(),
{
    if ws.len() == 0 {
        seq![]
    } else {
        let m = first_metas(ws.drop_last());
        if m.contains(ws.last().0) {
            m
        } else {
            m.push(ws.last().0)
        }
    }
}

/// Net declarations of the wires described by `meta`, in order.
pub open spec fn nets_of(ws: Seq<(Seq<char>, Seq<char>, ShapeView)>, meta: Seq<char>) -> Seq<DeclV>
    decreases ws.len(),
{
    if ws.len() == 0 {
        seq![]
    } else {
        nets_of(ws.drop_last(), meta) + if ws.last().0 == meta {
            seq![DeclV::Net(ws.last().2, ws.last().1)]
        } else {
            seq![]
        }
    }
}

/// The block of net declarations of the wires described by `meta`.
pub open spec fn decl_group(ws: Seq<(Seq<char>, Seq<char>, ShapeView)>, meta: Seq<char>) -> ItemV {
    ItemV::Commented(
        "Wires declared by "@ + meta,
        Some("End wires declared by "@ + meta),
        seq![ItemV::Declarations(nets_of(ws, meta))],
    )
}

/// Net declarations of wires, one commented block for each description, in the order
/// the descriptions first occur.
pub open spec fn decl_groups(ws: Seq<(Seq<char>, Seq<char>, ShapeView)>) -> Seq<ItemV> {
    first_metas(ws).map_values(|m: Seq<char>| decl_group(ws, m))
}

/// The string `head` followed by `tail`.
fn concat_str(head: &str, tail: &String) -> (r: String)
    ensures
        r@ == head@ + tail@,
{
    let mut r = String::from_str(head);
    r.append(tail.as_str());
    r
}

/// Returns the net declarations of wires (description, name and shape of each), one
/// commented block for each description, in the order the descriptions first occur.
pub fn gen_wire_decls(wires: &Vec<(String, String, Shape)>) -> (r: Vec<ModuleItem>)
    ensures
        items_v(r@) == decl_groups(wires_view(wires@)),
{
    let ghost wv = wires_view(wires@);
    let mut metas: Vec<String> = Vec::new();
    let mut i: usize = 0;
    assert(wv.take(0) =~= Seq::<(Seq<char>, Seq<char>, ShapeView)>::empty());
    assert(names_v(metas@) =~= first_metas(wv.take(0)));
    while i < wires.len()
        invariant
            wv == wires_view(wires@),
            i <= wires@.len(),
            names_v(metas@) == first_metas(wv.take(i as int)),
        decreases wires@.len() - i,
    {
        assert(wv.take(i as int + 1).drop_last() =~= wv.take(i as int));
        assert(wv[i as int].0 == wires@[i as int].0@);
        if !contains_name(&metas, &wires[i].0) {
            let ghost prev = metas@;
            metas.push(wires[i].0.clone());
            assert(names_v(metas@) =~= names_v(prev).push(wires@[i as int].0@));
        }
        i += 1;
    }
    assert(wv.take(wires@.len() as int) =~= wv);
    let ghost target = decl_groups(wv);
    let mut items: Vec<ModuleItem> = Vec::new();
    let mut k: usize = 0;
    while k < metas.len()
        invariant
            wv == wires_view(wires@),
            names_v(metas@) == first_metas(wv),
            target == decl_groups(wv),
            k <= metas@.len(),
            items_v(items@) == target.take(k as int),
        decreases metas@.len() - k,
    {
        let meta = &metas[k];
        let mut decls: Vec<Declaration> = Vec::new();
        let mut j: usize = 0;
        assert(decls_v(decls@) =~= nets_of(wv.take(0), meta@));
        while j < wires.len()
            invariant
                wv == wires_view(wires@),
                j <= wires@.len(),
                decls_v(decls@) == nets_of(wv.take(j as int), meta@),
            decreases wires@.len() - j,
        {
            assert(wv.take(j as int + 1).drop_last() =~= wv.take(j as int));
            assert(wv[j as int] == (wires@[j as int].0@, wires@[j as int].1@, wires@[j as int].2@));
            if eq_str(wires[j].0.as_str(), meta.as_str()) {
                let d = Declaration::net(wires[j].2.clone(), wires[j].1.clone());
                let ghost prev = decls@;
                decls.push(d);
                assert(decls_v(decls@) =~= decls_v(prev).push(decl_v(d)));
            } else {
                assert(nets_of(wv.take(j as int + 1), meta@) =~= nets_of(wv.take(j as int), meta@));
            }
            j += 1;
        }
        assert(wv.take(wires@.len() as int) =~= wv);
        let before = concat_str("Wires declared by ", meta);
        let after = concat_str("End wires declared by ", meta);
        let ghost dv = decls_v(decls@);
        let body = vec![ModuleItem::Declarations(decls)];
        let item = ModuleItem::Commented(before, Some(after), body);
        proof {
            reveal_strlit("Wires declared by ");
            reveal_strlit("End wires declared by ");
            assert(items_v(body@) =~= seq![ItemV::Declarations(dv)]);
            assert(item_v(item) == decl_group(wv, meta@));
            assert(target[k as int] == decl_group(wv, names_v(metas@)[k as int]));
        }
        let ghost prev = items@;
        items.push(item);
        proof {
            assert(items_v(items@) =~= items_v(prev).push(item_v(item)));
            assert(target.take(k as int + 1) =~= target.take(k as int).push(target[k as int]));
        }
        k += 1;
    }
    assert(target.take(metas@.len() as int) =~= target);
    items
}

/// Views of submodules: name, input and output interface types, and wired input interface.
pub open spec fn mods_v(s: Seq<(String, InterfaceTyp, InterfaceTyp, Interface)>) -> Seq<
    (Seq<char>, InterfaceTypView, InterfaceTypView, InterfaceView),
> {
    s.map_values(|x: (String, InterfaceTyp, InterfaceTyp, Interface)| (x.0@, x.1@, x.2@, x.3@))
}

/// Submodules by name and interface types.
pub open spec fn mods_typs(s: Seq<(Seq<char>, InterfaceTypView, InterfaceTypView, InterfaceView)>) -> Seq<
    (Seq<char>, InterfaceTypView, InterfaceTypView),
> {
    s.map_values(|x: (Seq<char>, InterfaceTypView, InterfaceTypView, InterfaceView)| (x.0, x.1, x.2))
}

/// Submodules by name, output interface type and wired input interface.
pub open spec fn mods_inputs(s: Seq<(Seq<char>, InterfaceTypView, InterfaceTypView, InterfaceView)>) -> Seq<
    (Seq<char>, InterfaceTypView, InterfaceView),
> {
    s.map_values(|x: (Seq<char>, InterfaceTypView, InterfaceTypView, InterfaceView)| (x.0, x.2, x.3))
}

/// A commented block, present when it has content.
pub open spec fn block_if(before: Seq<char>, after: Seq<char>, body: Seq<ItemV>, present: bool) -> Seq<ItemV> {
    if present {
        seq![ItemV::Commented(before, Some(after), body)]
    } else {
        seq![]
    }
}

/// Items of a module named `name`: the wires of its submodules grouped by description,
/// the wiring between its input, its submodules and its output, and the items of its
/// submodules; an empty block is left out.
pub open spec fn module_items_spec(
    name: Seq<char>,
    subs: Seq<(Seq<char>, InterfaceTypView, InterfaceTypView, InterfaceView)>,
    input: InterfaceTypView,
    output_typ: InterfaceTypView,
    output: InterfaceView,
    sub_items: Seq<ItemV>,
) -> Seq<ItemV> {
    let conts = wiring_spec(mods_inputs(subs), input, output_typ, output, None).map_values(
        |w: WireV| wire_assign_v(w),
    );
    decl_groups(submodule_wires_spec(mods_typs(subs), None)) + block_if(
        "Wiring by "@ + name,
        "End wiring by "@ + name,
        seq![ItemV::ContinuousAssigns(conts)],
        conts.len() > 0,
    ) + block_if("Submodules of "@ + name, "End submodules of "@ + name, sub_items, sub_items.len() > 0)
}

/// Returns the items of a module named `name`, given its submodules (name, input and
/// output interface types, and wired input interface of each), its input and output
/// interface types, its output interface, and the items of its submodules, which the
/// caller generates in the scope of each submodule.
pub fn gen_module_items(
    name: &String,
    submodules: &Vec<(String, InterfaceTyp, InterfaceTyp, Interface)>,
    input_interface_typ: &InterfaceTyp,
    output_interface_typ: &InterfaceTyp,
    output_interface: &Interface,
    submodule_items: Vec<ModuleItem>,
) -> (r: Result<Vec<ModuleItem>, VirgenError>)
    requires
        subs_ok(mods_typs(mods_v(submodules@))),
        wiring_ok(
            mods_inputs(mods_v(submodules@)),
            input_interface_typ@,
            output_interface_typ@,
            output_interface@,
        ),
    ensures
        r matches Ok(v) && items_v(v@) == module_items_spec(
            name@,
            mods_v(submodules@),
            input_interface_typ@,
            output_interface_typ@,
            output_interface@,
            items_v(submodule_items@),
        ),
{
    let ghost mv = mods_v(submodules@);
    let mut typs: Vec<(String, InterfaceTyp, InterfaceTyp)> = Vec::new();
    let mut ins: Vec<(String, InterfaceTyp, Interface)> = Vec::new();
    let mut k: usize = 0;
    while k < submodules.len()
        invariant
            mv == mods_v(submodules@),
            k <= submodules@.len(),
            subs_view(typs@) == mods_typs(mv).take(k as int),
            subs_v(ins@) == mods_inputs(mv).take(k as int),
        decreases submodules@.len() - k,
    {
        let s = &submodules[k];
        let t = (s.0.clone(), s.1.clone(), s.2.clone());
        let x = (s.0.clone(), s.2.clone(), s.3.clone());
        let ghost pt = typs@;
        let ghost px = ins@;
        typs.push(t);
        ins.push(x);
        proof {
            assert(mv[k as int] == (s.0@, s.1@, s.2@, s.3@));
            assert(subs_view(typs@) =~= subs_view(pt).push((s.0@, s.1@, s.2@)));
            assert(subs_v(ins@) =~= subs_v(px).push((s.0@, s.2@, s.3@)));
            assert(mods_typs(mv).take(k as int + 1) =~= mods_typs(mv).take(k as int).push((s.0@, s.1@, s.2@)));
            assert(mods_inputs(mv).take(k as int + 1) =~= mods_inputs(mv).take(k as int).push((s.0@, s.2@, s.3@)));
        }
        k += 1;
    }
    assert(mods_typs(mv).take(submodules@.len() as int) =~= mods_typs(mv));
    assert(mods_inputs(mv).take(submodules@.len() as int) =~= mods_inputs(mv));
    let ctx = Context::new();
    assert(prefix_spec(ctx.scopes@) is None);
    let wires = match gen_submodule_wires(&typs, &ctx) {
        Ok(w) => w,
        Err(e) => {
            return Err(e);
        },
    };
    let mut items = gen_wire_decls(&wires);
    let conts = match gen_module_wiring(&ins, input_interface_typ, output_interface_typ, output_interface, None) {
        Ok(c) => c,
        Err(e) => {
            return Err(e);
        },
    };
    let ghost i0 = items_v(items@);
    let ghost cv = conts_v(conts@);
    if conts.len() > 0 {
        let before = concat_str("Wiring by ", name);
        let after = concat_str("End wiring by ", name);
        let body = vec![ModuleItem::ContinuousAssigns(conts)];
        let item = ModuleItem::Commented(before, Some(after), body);
        proof {
            reveal_strlit("Wiring by ");
            reveal_strlit("End wiring by ");
            assert(items_v(body@) =~= seq![ItemV::ContinuousAssigns(cv)]);
        }
        items.push(item);
        assert(items_v(items@) =~= i0 + block_if("Wiring by "@ + name@, "End wiring by "@ + name@, seq![ItemV::ContinuousAssigns(cv)], true));
    } else {
        assert(items_v(items@) =~= i0 + block_if("Wiring by "@ + name@, "End wiring by "@ + name@, seq![ItemV::ContinuousAssigns(cv)], false));
    }
    let ghost i1 = items_v(items@);
    let ghost sv = items_v(submodule_items@);
    if submodule_items.len() > 0 {
        let before = concat_str("Submodules of ", name);
        let after = concat_str("End submodules of ", name);
        let item = ModuleItem::Commented(before, Some(after), submodule_items);
        proof {
            reveal_strlit("Submodules of ");
            reveal_strlit("End submodules of ");
        }
        items.push(item);
        assert(items_v(items@) =~= i1 + block_if("Submodules of "@ + name@, "End submodules of "@ + name@, sv, true));
    } else {
        assert(items_v(items@) =~= i1 + block_if("Submodules of "@ + name@, "End submodules of "@ + name@, sv, false));
    }
    Ok(items)
}

/// The port declaration of a (direction, width, name) entry.
pub open spec fn port_decl_of(d: (Direction, nat, Seq<char>)) -> PortDeclV {
    match d.0 {
        Direction::Input => PortDeclV::Input(d.1 as usize, d.2),
        Direction::Output => PortDeclV::Output(d.1 as usize, d.2),
    }
}

/// Returns the port declarations of a module with the given interface types.
pub fn gen_module_port_decls(
    input_interface_typ: &InterfaceTyp,
    output_interface_typ: &InterfaceTyp,
) -> (r: Result<Vec<PortDeclaration>, VirgenError>)
    requires
        ports_fit(input_interface_typ@),
        ports_fit(output_interface_typ@),
        ports_flat_fit(ports_spec(input_interface_typ@)),
        ports_flat_fit(ports_spec(output_interface_typ@)),
    ensures
        r matches Ok(v) && port_decls_v(v@) == port_decls_spec(input_interface_typ@, output_interface_typ@).map_values(
            |d: (Direction, nat, Seq<char>)| port_decl_of(d),
        ),
{
    let decls = match gen_port_decls(input_interface_typ, output_interface_typ) {
        Ok(d) => d,
        Err(e) => {
            return Err(e);
        },
    };
    let ghost target = decls_view(decls@).map_values(|d: (Direction, nat, Seq<char>)| port_decl_of(d));
    let mut out: Vec<PortDeclaration> = Vec::new();
    let mut k: usize = 0;
    while k < decls.len()
        invariant
            target == decls_view(decls@).map_values(|d: (Direction, nat, Seq<char>)| port_decl_of(d)),
            k <= decls@.len(),
            port_decls_v(out@) == target.take(k as int),
        decreases decls@.len() - k,
    {
        let width = decls[k].1;
        let name = decls[k].2.clone();
        let p = match decls[k].0 {
            Direction::Input => PortDeclaration::input(width, name),
            Direction::Output => PortDeclaration::output(width, name),
        };
        let ghost prev = out@;
        out.push(p);
        proof {
            assert(target[k as int] == port_decl_of(decls_view(decls@)[k as int]));
            assert(port_decls_v(out@) =~= port_decls_v(prev).push(p@));
            assert(target.take(k as int + 1) =~= target.take(k as int).push(target[k as int]));
        }
        k += 1;
    }
    assert(target.take(decls@.len() as int) =~= target);
    Ok(out)
}

/// Returns the Verilog module named `name` with the given interface types and items.
pub fn gen_module(
    name: String,
    input_interface_typ: &InterfaceTyp,
    output_interface_typ: &InterfaceTyp,
    module_items: Vec<ModuleItem>,
) -> (r: Result<Module, VirgenError>)
    requires
        ports_fit(input_interface_typ@),
        ports_fit(output_interface_typ@),
        ports_flat_fit(ports_spec(input_interface_typ@)),
        ports_flat_fit(ports_spec(output_interface_typ@)),
    ensures
        r matches Ok(m) && m@ == (ModuleV {
            name: name@,
            port_decls: port_decls_spec(input_interface_typ@, output_interface_typ@).map_values(
                |d: (Direction, nat, Seq<char>)| port_decl_of(d),
            ),
            module_items: items_v(module_items@),
        }),
{
    let port_decls = match gen_module_port_decls(input_interface_typ, output_interface_typ) {
        Ok(p) => p,
        Err(e) => {
            return Err(e);
        },
    };
    Ok(Module { name, port_decls, module_items })
}

/// Name of a module under the names `prefix`: the prefix names, then the function's
/// name (`closure` for a closure); a module under no prefix is the `top` one.
pub open spec fn module_name_spec(prefix: Seq<Seq<char>>, item: Option<Seq<char>>) -> Seq<char> {
    let base = match item {
        Some(n) => n,
        None => "closure"@,
    };
    if prefix.len() == 0 {
        base + "_"@ + "top"@
    } else {
        seq_join(prefix, "_"@) + "_"@ + base
    }
}

/// Returns the name of a module under the names `prefix`, given the name of its function
/// (`None` for a closure).
pub fn module_name(prefix: &Vec<String>, item_name: Option<String>) -> (r: String)
    ensures
        r@ == module_name_spec(prefix@.map_values(|s: String| s@), opt_view(item_name)),
{
    proof {
        reveal_strlit("closure");
        reveal_strlit("_");
        reveal_strlit("top");
    }
    let base = match item_name {
        Some(n) => n,
        None => String::from_str("closure"),
    };
    if prefix.len() == 0 {
        let mut r = base;
        r.append("_");
        r.append("top");
        r
    } else {
        let mut r = join_strings(prefix, "_");
        r.append("_");
        r.append(base.as_str());
        r
    }
}

/// The name with its last `_`-separated part left out.
pub open spec fn drop_last_part(name: Seq<char>) -> Seq<char> {
    seq_join(split_on(name, "_"@).drop_last(), "_"@)
}

/// Returns the name of the top module: the first prefix name, or the module's own name
/// under no prefix, with its last `_`-separated part left out.
pub fn top_module_name(name: &String, prefix: &Vec<String>) -> (r: String)
    ensures
        r@ == drop_last_part(if prefix@.len() == 0 { name@ } else { prefix@[0]@ }),
{
    let src = if prefix.len() == 0 {
        name.as_str()
    } else {
        prefix[0].as_str()
    };
    let chars = chars_of(src);
    let sep = vec!['_'];
    proof {
        reveal_strlit("_");
        assert(sep@ =~= "_"@);
    }
    let pieces = split_chars(&chars, &sep);
    proof {
        lemma_split_nonempty(chars@, sep@, seq![]);
    }
    let ghost pv = chars_views(pieces@);
    let mut parts: Vec<String> = Vec::new();
    let last = pieces.len() - 1;
    let mut k: usize = 0;
    while k < last
        invariant
            pv == chars_views(pieces@),
            pv.len() >= 1,
            last == pieces@.len() - 1,
            k <= last,
            parts@.map_values(|s: String| s@) == pv.take(k as int),
        decreases pieces@.len() - k,
    {
        let part = string_from_chars(&pieces[k]);
        let ghost prev = parts@;
        parts.push(part);
        proof {
            assert(pv[k as int] == pieces@[k as int]@);
            assert(parts@.map_values(|s: String| s@) =~= prev.map_values(|s: String| s@).push(part@));
            assert(pv.take(k as int + 1) =~= pv.take(k as int).push(pv[k as int]));
        }
        k += 1;
    }
    assert(pv.take(k as int) =~= pv.drop_last());
    join_strings(&parts, "_")
}

/// The registers of more than one dimension, in order.
pub open spec fn multi_regs(ds: Seq<DeclV>) -> Seq<DeclV>
    decreases ds.len(),
{
    if ds.len() == 0 {
        seq![]
    } else {
        multi_regs(ds.drop_last()) + if decl_shape(ds.last()).dims.len() > 1 {
            seq![ds.last()]
        } else {
            seq![]
        }
    }
}

/// Fewer registers of more than one dimension are in a prefix.
pub proof fn lemma_multi_regs_prefix(ds: Seq<DeclV>, k: int)
    requires
        0 <= k <= ds.len(),
    ensures
        multi_regs(ds.take(k)).len() <= multi_regs(ds).len(),
    decreases ds.len() - k,
{
    if k < ds.len() {
        lemma_multi_regs_prefix(ds, k + 1);
        assert(ds.take(k + 1).drop_last() =~= ds.take(k));
    } else {
        assert(ds.take(k) =~= ds);
    }
}

/// The loop that clears a register of more than one dimension, element by element,
/// with the integer variable `ivar`.
pub open spec fn clear_loop(ivar: Seq<char>, d: DeclV) -> StmtV {
    StmtV::Loop(
        ivar,
        num_v(decl_shape(d).dims[0] as nat),
        seq![
            StmtV::Blocking(
                ExprV::Primary(PrimV::Ident(decl_name(d), Some(RangeV::Index(Box::new(ident_v(ivar)))))),
                ExprV::Primary(PrimV::Number("0"@)),
            ),
        ],
    )
}

/// Initialization of the registers of more than one dimension: the integer variable
/// `ivar`, and an `initial` block of one clearing loop for each such register; nothing if
/// there is none.
pub open spec fn var_arr_init_spec(ds: Seq<DeclV>, ivar: Seq<char>) -> Seq<ItemV> {
    let m = multi_regs(ds);
    if m.len() == 0 {
        seq![]
    } else {
        seq![
            ItemV::Declarations(seq![DeclV::Integer(ivar)]),
            ItemV::AlwaysConstruct("initial"@, m.map_values(|d: DeclV| clear_loop(ivar, d))),
        ]
    }
}

/// The scopes after `n` integer identifiers were allocated in the innermost one.
pub open spec fn scopes_after_ints(scopes: Seq<Scope>, n: nat) -> Seq<Scope> {
    if n == 0 {
        scopes
    } else {
        scopes.update(scopes.len() - 1, Scope { int_id: (scopes.last().int_id + n) as usize, ..scopes.last() })
    }
}

/// Returns the initialization of the state registers of more than one dimension. An
/// integer identifier is allocated in the context for each such register; the first
/// one names the loop variable.
pub fn gen_var_arr_state_init(state_reg: &CompositeExpr<Declaration>, ctx: &mut Context) -> (r: Vec<ModuleItem>)
    requires
        forall|i: int| 0 <= i < ce_leaves(*state_reg).len() ==> !((#[trigger] ce_leaves(*state_reg)[i])@ is Integer),
        multi_regs(decls_v(ce_leaves(*state_reg))).len() > 0 ==> old(ctx).scopes@.len() > 0
            && old(ctx).scopes@.last().int_id + multi_regs(decls_v(ce_leaves(*state_reg))).len() <= usize::MAX,
    ensures
        items_v(r@) == var_arr_init_spec(
            decls_v(ce_leaves(*state_reg)),
            id_name('i', old(ctx).scopes@.last().int_id as nat),
        ),
        final(ctx).scopes@ == scopes_after_ints(old(ctx).scopes@, multi_regs(decls_v(ce_leaves(*state_reg))).len()),
        final(ctx).genvar_id == old(ctx).genvar_id,
{
    let ghost leaves = decls_v(ce_leaves(*state_reg));
    let ghost total = multi_regs(leaves).len();
    let ghost scopes0 = ctx.scopes@;
    let ghost id0 = ctx.scopes@.last().int_id;
    let ghost ivar = id_name('i', id0 as nat);
    let mut it = state_reg.iter();
    proof {
        assert forall|i: int| 0 <= i < it.inner@.len() implies (#[trigger] it.inner@[i])@ == leaves[i] by {
            assert(cloned(ce_leaves(*state_reg)[i], it.inner@[i]));
        }
    }
    let mut int_name: Option<String> = None;
    let mut stmts: Vec<Statement> = Vec::new();
    let ghost mut done: int = 0;
    assert(leaves.take(0) =~= Seq::<DeclV>::empty());
    while it.inner.len() > 0
        invariant
            leaves == decls_v(ce_leaves(*state_reg)),
            leaves.len() == ce_leaves(*state_reg).len(),
            forall|i: int| 0 <= i < leaves.len() ==> !(#[trigger] leaves[i] is Integer),
            total == multi_regs(leaves).len(),
            total > 0 ==> scopes0.len() > 0 && id0 + total <= usize::MAX,
            id0 == scopes0.last().int_id,
            ivar == id_name('i', id0 as nat),
            0 <= done <= leaves.len(),
            done + it.inner@.len() == leaves.len(),
            forall|i: int| 0 <= i < it.inner@.len() ==> (#[trigger] it.inner@[i])@ == leaves[done + i],
            (int_name is None) == (multi_regs(leaves.take(done)).len() == 0),
            int_name matches Some(x) ==> x@ == ivar,
            stmts_v(stmts@) == multi_regs(leaves.take(done)).map_values(|d: DeclV| clear_loop(ivar, d)),
            ctx.scopes@ == scopes_after_ints(scopes0, multi_regs(leaves.take(done)).len()),
            ctx.genvar_id == old(ctx).genvar_id,
            scopes0 == old(ctx).scopes@,
        decreases it.inner@.len(),
    {
        let reg = it.inner.pop_front().unwrap();
        let ghost d = leaves[done];
        assert(reg@ == d);
        let ghost before = multi_regs(leaves.take(done));
        assert(leaves.take(done + 1).drop_last() =~= leaves.take(done));
        assert(leaves.take(done + 1).last() == d);
        proof {
            lemma_multi_regs_prefix(leaves, done + 1);
        }
        let shape = reg.shape();
        if shape.dim() > 1 {
            assert(multi_regs(leaves.take(done + 1)) =~= before.push(d));
            let fresh = ctx.alloc_int_id();
            let name = match int_name {
                Some(x) => x,
                None => fresh,
            };
            let reg_name = String::from_str(reg.ident());
            let index = Range::new_index(Expression::ident(name.clone()));
            let ghost iv = range_v(index);
            let ghost rn = reg_name@;
            let p = Primary::HierarchicalIdentifier(reg_name, Some(index));
            assert(prim_v(p) == PrimV::Ident(rn, Some(iv)));
            let lhs = Expression::Primary(p);
            let body = vec![Statement::BlockingAssignment(lhs, Expression::number(String::from_str("0")))];
            let count = Expression::number(usize_to_string(shape.get(0)));
            let ghost bv = stmts_v(body@);
            let stmt = Statement::Loop(name.clone(), count, body);
            proof {
                reveal_strlit("0");
                assert(bv =~= seq![StmtV::Blocking(lhs@, ExprV::Primary(PrimV::Number("0"@)))]);
                assert(stmt_v(stmt) == clear_loop(ivar, d));
            }
            let ghost prev = stmts@;
            stmts.push(stmt);
            proof {
                assert(stmts_v(stmts@) =~= stmts_v(prev).push(stmt_v(stmt)));
                assert(multi_regs(leaves.take(done + 1)).map_values(|q: DeclV| clear_loop(ivar, q)) =~= before.map_values(
                    |q: DeclV| clear_loop(ivar, q),
                ).push(clear_loop(ivar, d)));
                assert(ctx.scopes@ =~= scopes_after_ints(scopes0, multi_regs(leaves.take(done + 1)).len()));
            }
            int_name = Some(name);
        } else {
            assert(multi_regs(leaves.take(done + 1)) =~= before);
        }
        proof {
            done = done + 1;
        }
    }
    assert(leaves.take(done) =~= leaves);
    let mut items: Vec<ModuleItem> = Vec::new();
    match int_name {
        Some(x) => {
            let ghost sv = stmts_v(stmts@);
            let decls = vec![Declaration::integer(x)];
            let first = ModuleItem::Declarations(decls);
            let second = ModuleItem::AlwaysConstruct(String::from_str("initial"), stmts);
            proof {
                reveal_strlit("initial");
                assert(decls_v(decls@) =~= seq![DeclV::Integer(ivar)]);
            }
            items.push(first);
            items.push(second);
            assert(items_v(items@) =~= seq![ItemV::Declarations(seq![DeclV::Integer(ivar)]), ItemV::AlwaysConstruct("initial"@, sv)]);
        },
        None => {
            assert(items_v(items@) =~= Seq::<ItemV>::empty());
        },
    }
    items
}

/// Continuous assignments of each right-hand expression to the left-hand expression at
/// the same position.
pub open spec fn cont_pairs(lhs: Seq<ExprV>, rhs: Seq<ExprV>) -> Seq<(ExprV, ExprV)> {
    Seq::new(lhs.len(), |i: int| (lhs[i], rhs[i]))
}

/// Returns the continuous assignments of the expressions of `rhs` to those of `lhs`,
/// position by position; the two lists have the same length.
pub fn cont_assign_exprs(lhs: Vec<Expression>, rhs: Vec<Expression>) -> (r: Vec<ContinuousAssign>)
    requires
        lhs@.len() == rhs@.len(),
    ensures
        conts_v(r@) == cont_pairs(exprs_v(lhs@), exprs_v(rhs@)),
{
    let ghost lv = exprs_v(lhs@);
    let ghost rv = exprs_v(rhs@);
    let pairs = zip_eq_vecs(lhs, rhs);
    let mut out: Vec<ContinuousAssign> = Vec::new();
    let mut k: usize = 0;
    while k < pairs.len()
        invariant
            k <= pairs@.len(),
            pairs@.len() == lv.len(),
            lv.len() == rv.len(),
            forall|q: int| 0 <= q < pairs@.len() ==> expr_v(#[trigger] pairs@[q].0) == lv[q] && expr_v(pairs@[q].1) == rv[q],
            conts_v(out@) == cont_pairs(lv, rv).take(k as int),
        decreases pairs@.len() - k,
    {
        let c = ContinuousAssign::new(pairs[k].0.clone(), pairs[k].1.clone());
        let ghost prev = out@;
        out.push(c);
        assert(conts_v(out@) =~= cont_pairs(lv, rv).take(k as int + 1)) by {
            assert(conts_v(out@) =~= conts_v(prev).push((expr_v(c.0), expr_v(c.1))));
        }
        k += 1;
    }
    assert(cont_pairs(lv, rv).take(pairs@.len() as int) =~= cont_pairs(lv, rv));
    out
}

/// Every statement is a nonblocking assignment.
pub open spec fn all_nonblocking(s: Seq<StmtV>) -> bool {
    forall|i: int| 0 <= i < s.len() ==> s[i] is Nonblocking
}

/// A statement updates a variable array: a nonblocking assignment, or a conditional
/// whose branches are all nonblocking assignments.
pub open spec fn is_array_update(st: StmtV) -> bool {
    match st {
        StmtV::Nonblocking(..) => true,
        StmtV::Conditional(bs, e) => branches_nonblocking(bs) && all_nonblocking(e),
        _ => false,
    }
}

/// Every branch holds nonblocking assignments only.
pub open spec fn branches_nonblocking(bs: Seq<(ExprV, Seq<StmtV>)>) -> bool {
    forall|i: int| 0 <= i < bs.len() ==> all_nonblocking(#[trigger] bs[i].1)
}

/// The statements that update variable arrays (when `updates`), or the others, in order.
pub open spec fn stmts_part(s: Seq<StmtV>, updates: bool) -> Seq<StmtV>
    decreases s.len(),
{
    if s.len() == 0 {
        seq![]
    } else {
        stmts_part(s.drop_last(), updates) + if is_array_update(s.last()) == updates {
            seq![s.last()]
        } else {
            seq![]
        }
    }
}

/// Whether all statements are nonblocking assignments.
fn all_nonblocking_exec(s: &Vec<Statement>) -> (r: bool)
    ensures
        r == all_nonblocking(stmts_v(s@)),
{
    let mut k: usize = 0;
    while k < s.len()
        invariant
            k <= s@.len(),
            forall|i: int| 0 <= i < k ==> stmts_v(s@)[i] is Nonblocking,
        decreases s@.len() - k,
    {
        match &s[k] {
            Statement::NonblockingAssignment(..) => {},
            _ => {
                assert(!(stmts_v(s@)[k as int] is Nonblocking));
                return false;
            },
        }
        k += 1;
    }
    true
}

/// Whether a statement updates a variable array.
fn is_array_update_exec(st: &Statement) -> (r: bool)
    ensures
        r == is_array_update(st@),
{
    match st {
        Statement::NonblockingAssignment(..) => true,
        Statement::Conditional(bs, e) => {
            let ghost bv = crate::vir::ir::branches_v(bs@);
            assert(st@ == StmtV::Conditional(bv, stmts_v(e@)));
            let mut k: usize = 0;
            while k < bs.len()
                invariant
                    st@ == StmtV::Conditional(bv, stmts_v(e@)),
                    bv == crate::vir::ir::branches_v(bs@),
                    k <= bs@.len(),
                    forall|i: int| 0 <= i < k ==> all_nonblocking(#[trigger] bv[i].1),
                decreases bs@.len() - k,
            {
                assert(bv[k as int].1 == stmts_v(bs@[k as int].1@));
                if !all_nonblocking_exec(&bs[k].1) {
                    assert(st@ == StmtV::Conditional(bv, stmts_v(e@)));
                    assert(!all_nonblocking(bv[k as int].1));
                    assert(bv.len() == bs@.len());
                    assert(!branches_nonblocking(bv));
                    return false;
                }
                k += 1;
            }
            all_nonblocking_exec(e)
        },
        _ => false,
    }
}

/// Splits the statements of an FSM's logic into those that update variable arrays and
/// the others, each in order: (others, updates).
pub fn partition_fsm_stmts(stmts: &Vec<Statement>) -> (r: (Vec<Statement>, Vec<Statement>))
    ensures
        stmts_v(r.0@) == stmts_part(stmts_v(stmts@), false),
        stmts_v(r.1@) == stmts_part(stmts_v(stmts@), true),
{
    let ghost sv = stmts_v(stmts@);
    let mut blocking: Vec<Statement> = Vec::new();
    let mut updates: Vec<Statement> = Vec::new();
    let mut k: usize = 0;
    assert(sv.take(0) =~= Seq::<StmtV>::empty());
    assert(stmts_v(blocking@) =~= stmts_part(sv.take(0), false));
    assert(stmts_v(updates@) =~= stmts_part(sv.take(0), true));
    while k < stmts.len()
        invariant
            sv == stmts_v(stmts@),
            k <= stmts@.len(),
            stmts_v(blocking@) == stmts_part(sv.take(k as int), false),
            stmts_v(updates@) == stmts_part(sv.take(k as int), true),
        decreases stmts@.len() - k,
    {
        assert(sv.take(k as int + 1).drop_last() =~= sv.take(k as int));
        assert(sv[k as int] == stmts@[k as int]@);
        let st = stmts[k].clone();
        let ghost bp = blocking@;
        let ghost up = updates@;
        if is_array_update_exec(&stmts[k]) {
            updates.push(st);
            assert(stmts_v(updates@) =~= stmts_v(up).push(st@));
            assert(stmts_v(blocking@) =~= stmts_part(sv.take(k as int + 1), false));
        } else {
            blocking.push(st);
            assert(stmts_v(blocking@) =~= stmts_v(bp).push(st@));
            assert(stmts_v(updates@) =~= stmts_part(sv.take(k as int + 1), true));
        }
        k += 1;
    }
    assert(sv.take(stmts@.len() as int) =~= sv);
    (blocking, updates)
}

/// Nonblocking assignments of the next values to the state registers, position by
/// position, leaving out registers of two dimensions.
pub open spec fn state_update_spec(regs: Seq<DeclV>, next: Seq<ExprV>) -> Seq<StmtV>
    decreases regs.len(),
{
    if regs.len() == 0 || next.len() == 0 {
        seq![]
    } else {
        state_update_spec(regs.drop_last(), next.drop_last()) + if decl_shape(regs.last()).dims.len() == 2 {
            seq![]
        } else {
            seq![StmtV::Nonblocking(ident_v(decl_name(regs.last())), next.last())]
        }
    }
}

/// The leaves of a composite, in order.
fn leaves_of<V: Clone>(e: &CompositeExpr<V>) -> (r: Vec<V>)
    ensures
        r@.len() == ce_leaves(*e).len(),
        forall|i: int| 0 <= i < r@.len() ==> cloned(#[trigger] ce_leaves(*e)[i], r@[i]),
{
    let mut it = e.iter();
    let ghost n = ce_leaves(*e).len();
    let mut out: Vec<V> = Vec::new();
    while it.inner.len() > 0
        invariant
            out@.len() + it.inner@.len() == n,
            n == ce_leaves(*e).len(),
            forall|i: int| 0 <= i < out@.len() ==> cloned(#[trigger] ce_leaves(*e)[i], out@[i]),
            forall|i: int| 0 <= i < it.inner@.len() ==> cloned(#[trigger] ce_leaves(*e)[out@.len() + i], it.inner@[i]),
        decreases it.inner@.len(),
    {
        let ghost k: int = out@.len() as int;
        let x = it.inner.pop_front().unwrap();
        assert(cloned(ce_leaves(*e)[k + 0], x));
        out.push(x);
        assert forall|i: int| 0 <= i < it.inner@.len() implies cloned(#[trigger] ce_leaves(*e)[out@.len() + i], it.inner@[i]) by {
            assert(ce_leaves(*e)[out@.len() + i] == ce_leaves(*e)[k + (i + 1)]);
        }
    }
    out
}

/// Returns the nonblocking assignments of the next values `next` to the state
/// registers `state_reg`, leaf by leaf, leaving out registers of two dimensions.
pub fn state_updates(state_reg: &CompositeExpr<Declaration>, next: &CompositeExpr<Expression>) -> (r: Vec<Statement>)
    requires
        ce_leaves(*state_reg).len() == ce_leaves(*next).len(),
        forall|i: int| 0 <= i < ce_leaves(*state_reg).len() ==> !((#[trigger] ce_leaves(*state_reg)[i])@ is Integer),
    ensures
        stmts_v(r@) == state_update_spec(decls_v(ce_leaves(*state_reg)), exprs_v(ce_leaves(*next))),
{
    let ghost regs = decls_v(ce_leaves(*state_reg));
    let ghost nv = exprs_v(ce_leaves(*next));
    let rs = leaves_of(state_reg);
    let ns = leaves_of(next);
    assert forall|i: int| 0 <= i < rs@.len() implies (#[trigger] rs@[i])@ == regs[i] by {
        assert(cloned(ce_leaves(*state_reg)[i], rs@[i]));
    }
    assert forall|i: int| 0 <= i < ns@.len() implies expr_v(#[trigger] ns@[i]) == nv[i] by {
        assert(cloned(ce_leaves(*next)[i], ns@[i]));
    }
    let pairs = zip_eq_vecs(rs, ns);
    let mut out: Vec<Statement> = Vec::new();
    let mut k: usize = 0;
    assert(regs.take(0) =~= Seq::<DeclV>::empty());
    assert(stmts_v(out@) =~= state_update_spec(regs.take(0), nv.take(0)));
    while k < pairs.len()
        invariant
            pairs@.len() == regs.len(),
            regs.len() == nv.len(),
            forall|q: int| 0 <= q < pairs@.len() ==> (#[trigger] pairs@[q]).0@ == regs[q] && expr_v(pairs@[q].1) == nv[q],
            forall|i: int| 0 <= i < regs.len() ==> !(#[trigger] regs[i] is Integer),
            k <= pairs@.len(),
            stmts_v(out@) == state_update_spec(regs.take(k as int), nv.take(k as int)),
        decreases pairs@.len() - k,
    {
        assert(regs.take(k as int + 1).drop_last() =~= regs.take(k as int));
        assert(nv.take(k as int + 1).drop_last() =~= nv.take(k as int));
        let reg = &pairs[k].0;
        assert(!(regs[k as int] is Integer));
        let shape = reg.shape();
        if shape.dim() != 2 {
            let lhs = Expression::ident(String::from_str(reg.ident()));
            let st = Statement::NonblockingAssignment(lhs, pairs[k].1.clone());
            let ghost prev = out@;
            out.push(st);
            assert(stmts_v(out@) =~= stmts_v(prev).push(st@));
        }
        k += 1;
    }
    assert(regs.take(pairs@.len() as int) =~= regs);
    assert(nv.take(pairs@.len() as int) =~= nv);
    out
}

/// The clocked block of an FSM: under reset the initialization and the reset values,
/// else the state updates; then the variable array updates and the system tasks.
pub open spec fn posedge_spec(
    init: Seq<StmtV>,
    reset: Seq<StmtV>,
    update: Seq<StmtV>,
    arrays: Seq<StmtV>,
    tasks: Seq<StmtV>,
) -> ItemV {
    ItemV::AlwaysConstruct(
        "always @(posedge clk)"@,
        seq![StmtV::Conditional(seq![(ident_v("rst"@), init + reset)], update)] + arrays + tasks,
    )
}

/// Returns the clocked block of an FSM.
pub fn fsm_posedge(
    init_stmts: Vec<Statement>,
    reset_update: Vec<Statement>,
    state_update: Vec<Statement>,
    var_array_updates: Vec<Statement>,
    displays: Vec<Statement>,
) -> (r: ModuleItem)
    ensures
        r@ == posedge_spec(
            stmts_v(init_stmts@),
            stmts_v(reset_update@),
            stmts_v(state_update@),
            stmts_v(var_array_updates@),
            stmts_v(displays@),
        ),
{
    let ghost iv = stmts_v(init_stmts@);
    let ghost rv = stmts_v(reset_update@);
    let ghost uv = stmts_v(state_update@);
    let ghost av = stmts_v(var_array_updates@);
    let ghost dv = stmts_v(displays@);
    let mut reset = init_stmts;
    let mut tail = reset_update;
    reset.append(&mut tail);
    assert(stmts_v(reset@) =~= iv + rv);
    let branches = vec![(Expression::ident(String::from_str("rst")), reset)];
    let cond = Statement::Conditional(branches, state_update);
    proof {
        reveal_strlit("rst");
        reveal_strlit("always @(posedge clk)");
        assert(crate::vir::ir::branches_v(branches@) =~= seq![(ident_v("rst"@), iv + rv)]);
    }
    let mut body = vec![cond];
    let mut arrays = var_array_updates;
    let mut tasks = displays;
    let ghost c = cond@;
    body.append(&mut arrays);
    body.append(&mut tasks);
    assert(stmts_v(body@) =~= seq![c] + av + dv);
    ModuleItem::AlwaysConstruct(String::from_str("always @(posedge clk)"), body)
}

/// Items of an FSM: its wires, the declarations of its logic, of its system tasks, of
/// its state registers and of its initial value; the ingress assignments; the
/// combinational block of its logic; the assignments of its results; the clocked block;
/// and the initialization of its variable arrays, with the integer variable `ivar`.
pub open spec fn fsm_items_spec(
    wire_decls: Seq<DeclV>,
    fsm_decls: Seq<DeclV>,
    task_decls: Seq<DeclV>,
    regs: Seq<DeclV>,
    init_decls: Seq<DeclV>,
    ingress: Seq<(ExprV, ExprV)>,
    stmts: Seq<StmtV>,
    results: Seq<(ExprV, ExprV)>,
    next: Seq<ExprV>,
    init_stmts: Seq<StmtV>,
    init_vals: Seq<ExprV>,
    tasks: Seq<StmtV>,
    ivar: Seq<char>,
) -> Seq<ItemV> {
    seq![
        ItemV::Declarations(wire_decls),
        ItemV::Declarations(fsm_decls),
        ItemV::Declarations(task_decls),
        ItemV::Declarations(regs),
        ItemV::Declarations(init_decls),
        ItemV::ContinuousAssigns(ingress),
        ItemV::AlwaysConstruct("always @*"@, stmts_part(stmts, false)),
        ItemV::ContinuousAssigns(results),
        posedge_spec(
            init_stmts,
            state_update_spec(regs, init_vals),
            state_update_spec(regs, next),
            stmts_part(stmts, true),
            tasks,
        ),
    ] + var_arr_init_spec(regs, ivar)
}

/// Returns the items of an FSM, given what its logic was translated into: the wires
/// and state registers of its prelude with the ingress assignments, the declarations
/// and statements of its logic, the declarations and statements of its system tasks,
/// the assignments of its results, the next values of its state, and the
/// declarations, statements and values of its initial state.
pub fn gen_module_fsm_items(
    fsm_wire_decls: Vec<Declaration>,
    state_reg: &CompositeExpr<Declaration>,
    ingress_conts: Vec<ContinuousAssign>,
    fsm_decls: Vec<Declaration>,
    fsm_stmts: Vec<Statement>,
    decls_for_displays: Vec<Declaration>,
    stmts_for_displays: Vec<Statement>,
    fsm_result_conts: Vec<ContinuousAssign>,
    state_results: &CompositeExpr<Expression>,
    init_decls: Vec<Declaration>,
    init_stmts: Vec<Statement>,
    init_expr: &CompositeExpr<Expression>,
    ctx: &mut Context,
) -> (r: Vec<ModuleItem>)
    requires
        ce_leaves(*state_reg).len() == ce_leaves(*state_results).len(),
        ce_leaves(*state_reg).len() == ce_leaves(*init_expr).len(),
        forall|i: int| 0 <= i < ce_leaves(*state_reg).len() ==> !((#[trigger] ce_leaves(*state_reg)[i])@ is Integer),
        multi_regs(decls_v(ce_leaves(*state_reg))).len() > 0 ==> old(ctx).scopes@.len() > 0
            && old(ctx).scopes@.last().int_id + multi_regs(decls_v(ce_leaves(*state_reg))).len() <= usize::MAX,
    ensures
        items_v(r@) == fsm_items_spec(
            decls_v(fsm_wire_decls@),
            decls_v(fsm_decls@),
            decls_v(decls_for_displays@),
            decls_v(ce_leaves(*state_reg)),
            decls_v(init_decls@),
            conts_v(ingress_conts@),
            stmts_v(fsm_stmts@),
            conts_v(fsm_result_conts@),
            exprs_v(ce_leaves(*state_results)),
            stmts_v(init_stmts@),
            exprs_v(ce_leaves(*init_expr)),
            stmts_v(stmts_for_displays@),
            id_name('i', old(ctx).scopes@.last().int_id as nat),
        ),
        final(ctx).scopes@ == scopes_after_ints(old(ctx).scopes@, multi_regs(decls_v(ce_leaves(*state_reg))).len()),
        final(ctx).genvar_id == old(ctx).genvar_id,
{
    let ghost regs = decls_v(ce_leaves(*state_reg));
    let (blocking_stmts, var_array_updates) = partition_fsm_stmts(&fsm_stmts);
    let state_update = state_updates(state_reg, state_results);
    let reset_update = state_updates(state_reg, init_expr);
    let always_comb = ModuleItem::AlwaysConstruct(String::from_str("always @*"), blocking_stmts);
    let always_posedge = fsm_posedge(init_stmts, reset_update, state_update, var_array_updates, stmts_for_displays);
    let var_array_state_init = gen_var_arr_state_init(state_reg, ctx);
    let regs_vec = leaves_of(state_reg);
    assert(decls_v(regs_vec@) =~= regs) by {
        assert forall|i: int| 0 <= i < regs_vec@.len() implies decl_v(#[trigger] regs_vec@[i]) == regs[i] by {
            assert(cloned(ce_leaves(*state_reg)[i], regs_vec@[i]));
        }
    }
    let mut items: Vec<ModuleItem> = vec![
        ModuleItem::Declarations(fsm_wire_decls),
        ModuleItem::Declarations(fsm_decls),
        ModuleItem::Declarations(decls_for_displays),
        ModuleItem::Declarations(regs_vec),
        ModuleItem::Declarations(init_decls),
        ModuleItem::ContinuousAssigns(ingress_conts),
        always_comb,
        ModuleItem::ContinuousAssigns(fsm_result_conts),
        always_posedge,
    ];
    let ghost head = items_v(items@);
    let ghost tail = items_v(var_array_state_init@);
    let mut rest = var_array_state_init;
    items.append(&mut rest);
    proof {
        reveal_strlit("always @*");
        assert(items_v(items@) =~= head + tail);
    }
    items
}

} // verus!
