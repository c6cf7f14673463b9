//! Names of the ports, wires and connections of generated modules.

use vstd::prelude::*;

use crate::compiler::naming::{prefix_spec, Context};
use crate::compiler::ports::{gen_ports, ports_fit, ports_spec, ports_view, sep_or_default, AccessorView, Accessor, Direction, Port};
use crate::compiler::interface::{itv_path_ok, itv_sub, InterfaceTyp, InterfaceTypView};
use crate::compiler::endpoint::{EndpointNode, EndpointPath, NodeView};
use crate::compiler::prelude::{leaves_view, pdv_leaves, ChannelTypView, PortDecls, Shape, ShapeView};
use crate::utils::string::{join_options, join_opts, opt_view, opt_views, somes, lemma_somes_push};

verus! {

/// The joined string when some item is present (and the empty string otherwise).
pub open spec fn join_some(sep: Seq<char>, items: Seq<Option<Seq<char>>>) -> Seq<char> {
    match join_opts(sep, items) {
        Some(s) => s,
        None => seq![],
    }
}

/// Some item present makes the joined string present.
pub proof fn lemma_somes_nonempty(items: Seq<Option<Seq<char>>>, k: int)
    requires
        0 <= k < items.len(),
        items[k] is Some,
    ensures
        somes(items).len() > 0,
    decreases items.len(),
{
    if k < items.len() - 1 {
        lemma_somes_nonempty(items.drop_last(), k);
        lemma_somes_push(items.drop_last(), items.last());
        assert(items.drop_last().push(items.last()) =~= items);
    } else {
        lemma_somes_push(items.drop_last(), items.last());
        assert(items.drop_last().push(items.last()) =~= items);
    }
}

/// Joins the present items with `sep`; some item must be present.
pub fn join_all(sep: &str, items: Vec<Option<String>>) -> (r: String)
    requires
        exists|k: int| 0 <= k < items@.len() && items@[k] is Some,
    ensures
        r@ == join_some(sep@, opt_views(items@)),
{
    let ghost v = opt_views(items@);
    proof {
        let k = choose|k: int| 0 <= k < items@.len() && items@[k] is Some;
        assert(v[k] is Some);
        lemma_somes_nonempty(v, k);
    }
    match join_options(sep, items) {
        Some(s) => s,
        None => vstd::pervasive::unreached(),
    }
}

/// Connections of the leaves of a value: for each leaf name, the direction and the
/// left and right names, each made of a prefix, `kind` and the leaf name.
pub open spec fn leaf_entries(
    leaves: Seq<(Option<Seq<char>>, ShapeView)>,
    dir: Direction,
    lsep: Seq<char>,
    l: Option<Seq<char>>,
    rsep: Seq<char>,
    r: Option<Seq<char>>,
    kind: Seq<char>,
) -> Seq<(Direction, Seq<char>, Seq<char>)> {
    leaves.map_values(
        |x: (Option<Seq<char>>, ShapeView)|
            (dir, join_some(lsep, seq![l, Some(kind), x.0]), join_some(rsep, seq![r, Some(kind), x.0])),
    )
}

/// Views of connections.
pub open spec fn conns_view(s: Seq<(Direction, String, String)>) -> Seq<(Direction, Seq<char>, Seq<char>)> {
    s.map_values(|c: (Direction, String, String)| (c.0, c.1@, c.2@))
}

/// Copies an optional string.
pub(crate) fn copy_opt(s: &Option<String>) -> (r: Option<String>)
    ensures
        opt_view(r) == opt_view(*s),
{
    match s {
        Some(s) => Some(s.clone()),
        None => None,
    }
}

/// Appends the connections of the leaves of `decls`.
fn push_leaf_entries(
    out: &mut Vec<(Direction, String, String)>,
    decls: &PortDecls,
    dir: Direction,
    lsep: &str,
    l: &Option<String>,
    rsep: &str,
    r: &Option<String>,
    kind: &str,
)
    ensures
        conns_view(final(out)@) == conns_view(old(out)@) + leaf_entries(
            pdv_leaves(decls@, None, false),
            dir,
            lsep@,
            opt_view(*l),
            rsep@,
            opt_view(*r),
            kind@,
        ),
{
    let leaves = decls.iter().into_vec();
    let ghost lv = leaves_view(leaves@);
    let ghost base = conns_view(out@);
    let ghost target = leaf_entries(lv, dir, lsep@, opt_view(*l), rsep@, opt_view(*r), kind@);
    let mut k: usize = 0;
    while k < leaves.len()
        invariant
            lv == leaves_view(leaves@),
            target == leaf_entries(lv, dir, lsep@, opt_view(*l), rsep@, opt_view(*r), kind@),
            k <= leaves@.len(),
            conns_view(out@) == base + target.take(k as int),
        decreases leaves@.len() - k,
    {
        let name = &leaves[k].0;
        let litems = vec![copy_opt(l), Some(String::from_str(kind)), copy_opt(name)];
        let ritems = vec![copy_opt(r), Some(String::from_str(kind)), copy_opt(name)];
        proof {
            assert(litems@[1] is Some);
            assert(ritems@[1] is Some);
        }
        let lname = join_all(lsep, litems);
        let rname = join_all(rsep, ritems);
        proof {
            assert(opt_views(litems@) =~= seq![opt_view(*l), Some(kind@), lv[k as int].0]);
            assert(opt_views(ritems@) =~= seq![opt_view(*r), Some(kind@), lv[k as int].0]);
        }
        let ghost prev = out@;
        out.push((dir, lname, rname));
        proof {
            assert(conns_view(out@) =~= conns_view(prev).push((dir, lname@, rname@)));
            assert(target.take(k as int + 1) =~= target.take(k as int).push(target[k as int]));
        }
        k = k + 1;
    }
    assert(target.take(leaves@.len() as int) =~= target);
}

/// Connections of a port of a module's own interface, seen from an instance of the
/// module: forward leaves first, then backward leaves.
pub open spec fn port_entries(
    p: (ChannelTypView, nat, AccessorView),
    side: Seq<char>,
    ctx: Option<Seq<char>>,
    fdir: Direction,
    bdir: Direction,
) -> Seq<(Direction, Seq<char>, Seq<char>)> {
    let sep = sep_or_default(p.2.sep);
    let l = join_opts("_"@, seq![Some(side), p.2.prefix]);
    let r = join_opts("_"@, seq![ctx, Some(side), p.2.prefix]);
    leaf_entries(pdv_leaves(p.0.fwd, None, false), fdir, sep, l, sep, r, "payload"@) + leaf_entries(
        pdv_leaves(p.0.bwd, None, false),
        bdir,
        sep,
        l,
        sep,
        r,
        "resolver"@,
    )
}

/// Connections of all ports of a side of a module.
pub open spec fn side_entries(
    ports: Seq<(ChannelTypView, nat, AccessorView)>,
    side: Seq<char>,
    ctx: Option<Seq<char>>,
    fdir: Direction,
    bdir: Direction,
) -> Seq<(Direction, Seq<char>, Seq<char>)>
    decreases ports.len(),
{
    if ports.len() == 0 {
        seq![]
    } else {
        side_entries(ports.drop_last(), side, ctx, fdir, bdir) + port_entries(ports.last(), side, ctx, fdir, bdir)
    }
}

/// The separator of an accessor, `_` if none.
pub(crate) fn sep_of(acc: &Accessor) -> (r: String)
    ensures
        r@ == sep_or_default(acc@.sep),
{
    match &acc.sep {
        Some(s) => s.clone(),
        None => String::from_str("_"),
    }
}

/// Appends the connections of all ports of one side of a module.
fn push_side_entries(
    out: &mut Vec<(Direction, String, String)>,
    ports: &Vec<(Port, Accessor)>,
    side: &str,
    ctx: &Option<String>,
    fdir: Direction,
    bdir: Direction,
)
    ensures
        conns_view(final(out)@) == conns_view(old(out)@) + side_entries(ports_view(ports@), side@, opt_view(*ctx), fdir, bdir),
{
    let ghost pv = ports_view(ports@);
    let ghost base = conns_view(out@);
    let mut k: usize = 0;
    assert(base + side_entries(pv.take(0), side@, opt_view(*ctx), fdir, bdir) =~= base);
    while k < ports.len()
        invariant
            pv == ports_view(ports@),
            k <= ports@.len(),
            conns_view(out@) == base + side_entries(pv.take(k as int), side@, opt_view(*ctx), fdir, bdir),
        decreases ports@.len() - k,
    {
        let port = &ports[k].0;
        let acc = &ports[k].1;
        let sep = sep_of(acc);
        let litems = vec![Some(String::from_str(side)), copy_opt(&acc.prefix)];
        let ritems = vec![copy_opt(ctx), Some(String::from_str(side)), copy_opt(&acc.prefix)];
        proof {
            assert(opt_views(litems@) =~= seq![Some(side@), opt_view(acc.prefix)]);
            assert(opt_views(ritems@) =~= seq![opt_view(*ctx), Some(side@), opt_view(acc.prefix)]);
        }
        let l = join_options("_", litems);
        let r = join_options("_", ritems);
        let ghost mid = conns_view(out@);
        push_leaf_entries(out, &port.channel_typ.fwd, fdir, sep.as_str(), &l, sep.as_str(), &r, "payload");
        push_leaf_entries(out, &port.channel_typ.bwd, bdir, sep.as_str(), &l, sep.as_str(), &r, "resolver");
        proof {
            let p = pv[k as int];
            assert(p == (port.channel_typ@, port.size as nat, acc@));
            assert(pv.take(k as int + 1).drop_last() =~= pv.take(k as int));
            assert(pv.take(k as int + 1).last() == p);
        }
        k = k + 1;
    }
    assert(pv.take(ports@.len() as int) =~= pv);
}

/// Connections of a module instance: clock and reset, then the ports of the input
/// interface, then those of the output interface.
pub open spec fn connections_spec(
    input: InterfaceTypView,
    output: InterfaceTypView,
    ctx: Option<Seq<char>>,
) -> Seq<(Direction, Seq<char>, Seq<char>)> {
    seq![(Direction::Input, "clk"@, "clk"@), (Direction::Input, "rst"@, "rst"@)] + side_entries(
        ports_spec(input),
        "in"@,
        ctx,
        Direction::Input,
        Direction::Output,
    ) + side_entries(ports_spec(output), "out"@, ctx, Direction::Output, Direction::Input)
}

/// Returns connections in the module instantiation: direction of the port, name of the
/// port, and name of the expression.
pub fn gen_connections(
    input_interface_typ: &InterfaceTyp,
    output_interface_typ: &InterfaceTyp,
    ctx: &Context,
) -> (r: Result<Vec<(Direction, String, String)>, crate::compiler::error::VirgenError>)
    requires
        ports_fit(input_interface_typ@),
        ports_fit(output_interface_typ@),
    ensures
        r matches Ok(v) && conns_view(v@) == connections_spec(
            input_interface_typ@,
            output_interface_typ@,
            prefix_spec(ctx.scopes@),
        ),
{
    let mut connections: Vec<(Direction, String, String)> = Vec::new();
    connections.push((Direction::Input, String::from_str("clk"), String::from_str("clk")));
    connections.push((Direction::Input, String::from_str("rst"), String::from_str("rst")));
    let prefix = ctx.get_prefix();
    proof {
        assert(conns_view(connections@) =~= seq![(Direction::Input, "clk"@, "clk"@), (Direction::Input, "rst"@, "rst"@)]);
    }
    let ghost c0 = conns_view(connections@);
    let inputs = gen_ports(input_interface_typ);
    push_side_entries(&mut connections, &inputs, "in", &prefix, Direction::Input, Direction::Output);
    let outputs = gen_ports(output_interface_typ);
    push_side_entries(&mut connections, &outputs, "out", &prefix, Direction::Output, Direction::Input);
    Ok(connections)
}

/// Connections between a pair of ports of the same channel type: the left names from
/// the first port's accessor, the right names from the second's.
pub open spec fn pair_entries(
    pi: (ChannelTypView, nat, AccessorView),
    po: (ChannelTypView, nat, AccessorView),
    ctx: Option<Seq<char>>,
    li: Seq<char>,
    lj: Seq<char>,
    ri: Seq<char>,
    rj: Seq<char>,
) -> Seq<(Direction, Seq<char>, Seq<char>)> {
    let lsep = sep_or_default(pi.2.sep);
    let rsep = sep_or_default(po.2.sep);
    let l = join_opts("_"@, seq![ctx, Some(li), Some(lj), pi.2.prefix]);
    let r = join_opts("_"@, seq![ctx, Some(ri), Some(rj), po.2.prefix]);
    leaf_entries(pdv_leaves(pi.0.fwd, None, false), Direction::Input, lsep, l, rsep, r, "payload"@) + leaf_entries(
        pdv_leaves(pi.0.bwd, None, false),
        Direction::Output,
        lsep,
        l,
        rsep,
        r,
        "resolver"@,
    )
}

/// Connections between the first `n` pairs of ports.
pub open spec fn pairs_entries(
    ins: Seq<(ChannelTypView, nat, AccessorView)>,
    outs: Seq<(ChannelTypView, nat, AccessorView)>,
    n: nat,
    ctx: Option<Seq<char>>,
    li: Seq<char>,
    lj: Seq<char>,
    ri: Seq<char>,
    rj: Seq<char>,
) -> Seq<(Direction, Seq<char>, Seq<char>)>
    decreases n,
{
    if n == 0 || n > ins.len() || n > outs.len() {
        seq![]
    } else {
        pairs_entries(ins, outs, (n - 1) as nat, ctx, li, lj, ri, rj) + pair_entries(
            ins[n - 1],
            outs[n - 1],
            ctx,
            li,
            lj,
            ri,
            rj,
        )
    }
}

/// The smaller of two lengths.
pub open spec fn min_len(a: nat, b: nat) -> nat {
    if a <= b {
        a
    } else {
        b
    }
}

/// Paired ports agree in channel type and size, as far as both lists reach.
pub open spec fn ports_agree(ins: Seq<(ChannelTypView, nat, AccessorView)>, outs: Seq<(ChannelTypView, nat, AccessorView)>) -> bool {
    forall|k: int| 0 <= k < min_len(ins.len(), outs.len()) ==> #[trigger] ins[k].0 == outs[k].0 && ins[k].1 == outs[k].1
}

/// Appends the connections between paired ports.
fn push_pair_entries(
    out: &mut Vec<(Direction, String, String)>,
    ins: &Vec<(Port, Accessor)>,
    outs: &Vec<(Port, Accessor)>,
    ctx: &Option<String>,
    li: &str,
    lj: &str,
    ri: &str,
    rj: &str,
)
    ensures
        conns_view(final(out)@) == conns_view(old(out)@) + pairs_entries(
            ports_view(ins@),
            ports_view(outs@),
            min_len(ins@.len() as nat, outs@.len() as nat),
            opt_view(*ctx),
            li@,
            lj@,
            ri@,
            rj@,
        ),
{
    let ghost iv = ports_view(ins@);
    let ghost ov = ports_view(outs@);
    let ghost base = conns_view(out@);
    let n = if ins.len() <= outs.len() { ins.len() } else { outs.len() };
    let mut k: usize = 0;
    assert(base + pairs_entries(iv, ov, 0, opt_view(*ctx), li@, lj@, ri@, rj@) =~= base);
    while k < n
        invariant
            iv == ports_view(ins@),
            ov == ports_view(outs@),
            n == min_len(ins@.len() as nat, outs@.len() as nat),
            k <= n,
            conns_view(out@) == base + pairs_entries(iv, ov, k as nat, opt_view(*ctx), li@, lj@, ri@, rj@),
        decreases n - k,
    {
        let port = &ins[k].0;
        let iacc = &ins[k].1;
        let oacc = &outs[k].1;
        let lsep = sep_of(iacc);
        let rsep = sep_of(oacc);
        let litems = vec![copy_opt(ctx), Some(String::from_str(li)), Some(String::from_str(lj)), copy_opt(&iacc.prefix)];
        let ritems = vec![copy_opt(ctx), Some(String::from_str(ri)), Some(String::from_str(rj)), copy_opt(&oacc.prefix)];
        proof {
            assert(opt_views(litems@) =~= seq![opt_view(*ctx), Some(li@), Some(lj@), opt_view(iacc.prefix)]);
            assert(opt_views(ritems@) =~= seq![opt_view(*ctx), Some(ri@), Some(rj@), opt_view(oacc.prefix)]);
        }
        let l = join_options("_", litems);
        let r = join_options("_", ritems);
        push_leaf_entries(out, &port.channel_typ.fwd, Direction::Input, lsep.as_str(), &l, rsep.as_str(), &r, "payload");
        push_leaf_entries(out, &port.channel_typ.bwd, Direction::Output, lsep.as_str(), &l, rsep.as_str(), &r, "resolver");
        proof {
            assert(iv[k as int] == (port.channel_typ@, port.size as nat, iacc@));
            assert(ov[k as int].2 == oacc@);
        }
        k = k + 1;
    }
}

/// Connections of a module split: from the `output` part of the input interface to the
/// `input` part of the output interface, then from the `input` part of the input
/// interface to the `output` part of the output interface.
pub open spec fn split_assigns_spec(
    input: InterfaceTypView,
    output: InterfaceTypView,
    ctx: Option<Seq<char>>,
) -> Seq<(Direction, Seq<char>, Seq<char>)> {
    let in_out = ports_spec(itv_sub(input, seq![NodeView::Field("output"@, None)]));
    let out_in = ports_spec(itv_sub(output, seq![NodeView::Field("input"@, None)]));
    let in_in = ports_spec(itv_sub(input, seq![NodeView::Field("input"@, None)]));
    let out_out = ports_spec(itv_sub(output, seq![NodeView::Field("output"@, None)]));
    pairs_entries(in_out, out_in, min_len(in_out.len(), out_in.len()), ctx, "in"@, "output"@, "out"@, "input"@)
        + pairs_entries(in_in, out_out, min_len(in_in.len(), out_out.len()), ctx, "in"@, "input"@, "out"@, "output"@)
}

/// The interface types of a module split can be wired: the `input` and `output` fields
/// exist, their ports fit, and paired ports agree.
pub open spec fn split_ok(input: InterfaceTypView, output: InterfaceTypView) -> bool {
    let po = seq![NodeView::Field("output"@, None)];
    let pi = seq![NodeView::Field("input"@, None)];
    &&& itv_path_ok(input, po)
    &&& itv_path_ok(input, pi)
    &&& itv_path_ok(output, po)
    &&& itv_path_ok(output, pi)
    &&& ports_fit(itv_sub(input, po))
    &&& ports_fit(itv_sub(input, pi))
    &&& ports_fit(itv_sub(output, po))
    &&& ports_fit(itv_sub(output, pi))
    &&& ports_agree(ports_spec(itv_sub(input, po)), ports_spec(itv_sub(output, pi)))
    &&& ports_agree(ports_spec(itv_sub(input, pi)), ports_spec(itv_sub(output, po)))
}

/// Returns the connections of a module split.
pub fn gen_module_split_assigns(
    input_interface_typ: &InterfaceTyp,
    output_interface_typ: &InterfaceTyp,
    ctx: &Context,
) -> (r: Result<Vec<(Direction, String, String)>, crate::compiler::error::VirgenError>)
    requires
        split_ok(input_interface_typ@, output_interface_typ@),
    ensures
        r matches Ok(v) && conns_view(v@) == split_assigns_spec(
            input_interface_typ@,
            output_interface_typ@,
            prefix_spec(ctx.scopes@),
        ),
{
    let po = EndpointPath::default().append_node(EndpointNode::Field(String::from_str("output"), None));
    let pi = EndpointPath::default().append_node(EndpointNode::Field(String::from_str("input"), None));
    proof {
        assert(po@ =~= seq![NodeView::Field("output"@, None)]);
        assert(pi@ =~= seq![NodeView::Field("input"@, None)]);
    }
    let in_out = input_interface_typ.get_subinterface(po.clone());
    let out_in = output_interface_typ.get_subinterface(pi.clone());
    let in_in = input_interface_typ.get_subinterface(pi);
    let out_out = output_interface_typ.get_subinterface(po);
    let prefix = ctx.get_prefix();
    let mut conts: Vec<(Direction, String, String)> = Vec::new();
    assert(conns_view(conts@) =~= Seq::<(Direction, Seq<char>, Seq<char>)>::empty());
    let in_out_ports = gen_ports(&in_out);
    let out_in_ports = gen_ports(&out_in);
    push_pair_entries(&mut conts, &in_out_ports, &out_in_ports, &prefix, "in", "output", "out", "input");
    let in_in_ports = gen_ports(&in_in);
    let out_out_ports = gen_ports(&out_out);
    push_pair_entries(&mut conts, &in_in_ports, &out_out_ports, &prefix, "in", "input", "out", "output");
    Ok(conts)
}

/// Every leaf of the value is one-dimensional and its width times `size` fits in a `usize`.
pub open spec fn leaves_flat_fit(leaves: Seq<(Option<Seq<char>>, ShapeView)>, size: nat) -> bool {
    forall|k: int|
        0 <= k < leaves.len() ==> (#[trigger] leaves[k]).1.dims.len() == 1 && leaves[k].1.dims[0] * size
            <= usize::MAX
}

/// Every port of the interface type has one-dimensional leaves whose widths times the
/// port's size fit.
pub open spec fn ports_flat_fit(ports: Seq<(ChannelTypView, nat, AccessorView)>) -> bool {
    forall|k: int|
        0 <= k < ports.len() ==> leaves_flat_fit(pdv_leaves((#[trigger] ports[k]).0.fwd, None, false), ports[k].1)
            && leaves_flat_fit(pdv_leaves(ports[k].0.bwd, None, false), ports[k].1)
}

/// Port declarations of the leaves of a value: direction, width times `size`, name.
pub open spec fn decl_entries(
    leaves: Seq<(Option<Seq<char>>, ShapeView)>,
    dir: Direction,
    sep: Seq<char>,
    pre: Option<Seq<char>>,
    kind: Seq<char>,
    size: nat,
) -> Seq<(Direction, nat, Seq<char>)> {
    leaves.map_values(
        |x: (Option<Seq<char>>, ShapeView)| (dir, (x.1.dims[0] as nat) * size, join_some(sep, seq![pre, Some(kind), x.0])),
    )
}

/// Port declarations of one side of a module.
pub open spec fn side_decls(
    ports: Seq<(ChannelTypView, nat, AccessorView)>,
    side: Seq<char>,
    fdir: Direction,
    bdir: Direction,
) -> Seq<(Direction, nat, Seq<char>)>
    decreases ports.len(),
{
    if ports.len() == 0 {
        seq![]
    } else {
        let p = ports.last();
        let sep = sep_or_default(p.2.sep);
        let pre = join_opts("_"@, seq![Some(side), p.2.prefix]);
        side_decls(ports.drop_last(), side, fdir, bdir) + decl_entries(
            pdv_leaves(p.0.fwd, None, false),
            fdir,
            sep,
            pre,
            "payload"@,
            p.1,
        ) + decl_entries(pdv_leaves(p.0.bwd, None, false), bdir, sep, pre, "resolver"@, p.1)
    }
}

/// Views of port declarations.
pub open spec fn decls_view(s: Seq<(Direction, usize, String)>) -> Seq<(Direction, nat, Seq<char>)> {
    s.map_values(|d: (Direction, usize, String)| (d.0, d.1 as nat, d.2@))
}

/// Appends the port declarations of the leaves of `decls`.
fn push_decl_entries(
    out: &mut Vec<(Direction, usize, String)>,
    decls: &PortDecls,
    dir: Direction,
    sep: &str,
    pre: &Option<String>,
    kind: &str,
    size: usize,
)
    requires
        leaves_flat_fit(pdv_leaves(decls@, None, false), size as nat),
    ensures
        decls_view(final(out)@) == decls_view(old(out)@) + decl_entries(
            pdv_leaves(decls@, None, false),
            dir,
            sep@,
            opt_view(*pre),
            kind@,
            size as nat,
        ),
{
    let leaves = decls.iter().into_vec();
    let ghost lv = leaves_view(leaves@);
    let ghost base = decls_view(out@);
    let ghost target = decl_entries(lv, dir, sep@, opt_view(*pre), kind@, size as nat);
    let mut k: usize = 0;
    while k < leaves.len()
        invariant
            lv == leaves_view(leaves@),
            lv == pdv_leaves(decls@, None, false),
            leaves_flat_fit(lv, size as nat),
            target == decl_entries(lv, dir, sep@, opt_view(*pre), kind@, size as nat),
            k <= leaves@.len(),
            decls_view(out@) == base + target.take(k as int),
        decreases leaves@.len() - k,
    {
        let name = &leaves[k].0;
        let shape = &leaves[k].1;
        proof {
            assert(lv[k as int] == (opt_view(*name), shape@));
            assert(shape@.dims.len() == 1);
        }
        let w = shape.get(0) * size;
        let items = vec![copy_opt(pre), Some(String::from_str(kind)), copy_opt(name)];
        proof {
            assert(items@[1] is Some);
            assert(opt_views(items@) =~= seq![opt_view(*pre), Some(kind@), lv[k as int].0]);
        }
        let n = join_all(sep, items);
        let ghost prev = out@;
        out.push((dir, w, n));
        proof {
            assert(decls_view(out@) =~= decls_view(prev).push((dir, w as nat, n@)));
            assert(target.take(k as int + 1) =~= target.take(k as int).push(target[k as int]));
        }
        k = k + 1;
    }
    assert(target.take(leaves@.len() as int) =~= target);
}

/// Appends the port declarations of one side of a module.
fn push_side_decls(
    out: &mut Vec<(Direction, usize, String)>,
    ports: &Vec<(Port, Accessor)>,
    side: &str,
    fdir: Direction,
    bdir: Direction,
)
    requires
        ports_flat_fit(ports_view(ports@)),
    ensures
        decls_view(final(out)@) == decls_view(old(out)@) + side_decls(ports_view(ports@), side@, fdir, bdir),
{
    let ghost pv = ports_view(ports@);
    let ghost base = decls_view(out@);
    let mut k: usize = 0;
    assert(base + side_decls(pv.take(0), side@, fdir, bdir) =~= base);
    while k < ports.len()
        invariant
            pv == ports_view(ports@),
            ports_flat_fit(pv),
            k <= ports@.len(),
            decls_view(out@) == base + side_decls(pv.take(k as int), side@, fdir, bdir),
        decreases ports@.len() - k,
    {
        let port = &ports[k].0;
        let acc = &ports[k].1;
        proof {
            assert(pv[k as int] == (port.channel_typ@, port.size as nat, acc@));
            assert(leaves_flat_fit(pdv_leaves(pv[k as int].0.fwd, None, false), pv[k as int].1));
        }
        let sep = sep_of(acc);
        let items = vec![Some(String::from_str(side)), copy_opt(&acc.prefix)];
        proof {
            assert(opt_views(items@) =~= seq![Some(side@), opt_view(acc.prefix)]);
        }
        let pre = join_options("_", items);
        push_decl_entries(out, &port.channel_typ.fwd, fdir, sep.as_str(), &pre, "payload", port.size);
        push_decl_entries(out, &port.channel_typ.bwd, bdir, sep.as_str(), &pre, "resolver", port.size);
        proof {
            assert(pv.take(k as int + 1).drop_last() =~= pv.take(k as int));
            assert(pv.take(k as int + 1).last() == pv[k as int]);
        }
        k = k + 1;
    }
    assert(pv.take(ports@.len() as int) =~= pv);
}

/// Port declarations of a module: clock and reset, then the ports of the input
/// interface, then those of the output interface.
pub open spec fn port_decls_spec(input: InterfaceTypView, output: InterfaceTypView) -> Seq<(Direction, nat, Seq<char>)> {
    seq![(Direction::Input, 1nat, "clk"@), (Direction::Input, 1nat, "rst"@)] + side_decls(
        ports_spec(input),
        "in"@,
        Direction::Input,
        Direction::Output,
    ) + side_decls(ports_spec(output), "out"@, Direction::Output, Direction::Input)
}

/// Returns port declarations in the module: direction, bitwidth and name of each port.
pub fn gen_port_decls(
    input_interface_typ: &InterfaceTyp,
    output_interface_typ: &InterfaceTyp,
) -> (r: Result<Vec<(Direction, usize, String)>, crate::compiler::error::VirgenError>)
    requires
        ports_fit(input_interface_typ@),
        ports_fit(output_interface_typ@),
        ports_flat_fit(ports_spec(input_interface_typ@)),
        ports_flat_fit(ports_spec(output_interface_typ@)),
    ensures
        r matches Ok(v) && decls_view(v@) == port_decls_spec(input_interface_typ@, output_interface_typ@),
{
    let mut port_decls: Vec<(Direction, usize, String)> = Vec::new();
    port_decls.push((Direction::Input, 1, String::from_str("clk")));
    port_decls.push((Direction::Input, 1, String::from_str("rst")));
    proof {
        assert(decls_view(port_decls@) =~= seq![(Direction::Input, 1nat, "clk"@), (Direction::Input, 1nat, "rst"@)]);
    }
    let inputs = gen_ports(input_interface_typ);
    push_side_decls(&mut port_decls, &inputs, "in", Direction::Input, Direction::Output);
    let outputs = gen_ports(output_interface_typ);
    push_side_decls(&mut port_decls, &outputs, "out", Direction::Output, Direction::Input);
    Ok(port_decls)
}

/// Every leaf has an outermost dimension, which times `size` fits in a `usize`.
pub open spec fn leaves_scalable(leaves: Seq<(Option<Seq<char>>, ShapeView)>, size: nat) -> bool {
    forall|k: int|
        0 <= k < leaves.len() ==> (#[trigger] leaves[k]).1.dims.len() > 0 && leaves[k].1.dims[0] * size
            <= usize::MAX
}

/// Every port's leaves can be multiplied by the port's size.
pub open spec fn ports_scalable(ports: Seq<(ChannelTypView, nat, AccessorView)>) -> bool {
    forall|k: int|
        0 <= k < ports.len() ==> leaves_scalable(pdv_leaves((#[trigger] ports[k]).0.fwd, None, false), ports[k].1)
            && leaves_scalable(pdv_leaves(ports[k].0.bwd, None, false), ports[k].1)
}

/// Wires of the leaves of a value: description, name, and shape multiplied by `size`.
pub open spec fn wire_entries(
    leaves: Seq<(Option<Seq<char>>, ShapeView)>,
    desc: Seq<char>,
    sep: Seq<char>,
    pre: Option<Seq<char>>,
    kind: Seq<char>,
    size: nat,
) -> Seq<(Seq<char>, Seq<char>, ShapeView)> {
    leaves.map_values(
        |x: (Option<Seq<char>>, ShapeView)|
            (desc, join_some(sep, seq![pre, Some(kind), x.0]), crate::compiler::prelude::shape_scale(x.1, size, true)),
    )
}

/// Wires of the ports of one side of a submodule.
pub open spec fn side_wires(
    ports: Seq<(ChannelTypView, nat, AccessorView)>,
    ctx: Option<Seq<char>>,
    tag: Seq<char>,
    fdesc: Seq<char>,
    bdesc: Seq<char>,
) -> Seq<(Seq<char>, Seq<char>, ShapeView)>
    decreases ports.len(),
{
    if ports.len() == 0 {
        seq![]
    } else {
        let p = ports.last();
        let sep = sep_or_default(p.2.sep);
        let pre = join_opts("_"@, seq![ctx, Some(tag), p.2.prefix]);
        side_wires(ports.drop_last(), ctx, tag, fdesc, bdesc) + wire_entries(
            pdv_leaves(p.0.fwd, None, false),
            fdesc,
            sep,
            pre,
            "payload"@,
            p.1,
        ) + wire_entries(pdv_leaves(p.0.bwd, None, false), bdesc, sep, pre, "resolver"@, p.1)
    }
}

/// Views of wires.
pub open spec fn wires_view(s: Seq<(String, String, Shape)>) -> Seq<(Seq<char>, Seq<char>, ShapeView)> {
    s.map_values(|w: (String, String, Shape)| (w.0@, w.1@, w.2@))
}

/// Appends the wires of the leaves of `decls`.
fn push_wire_entries(
    out: &mut Vec<(String, String, Shape)>,
    decls: &PortDecls,
    desc: &String,
    sep: &str,
    pre: &Option<String>,
    kind: &str,
    size: usize,
)
    requires
        leaves_scalable(pdv_leaves(decls@, None, false), size as nat),
    ensures
        wires_view(final(out)@) == wires_view(old(out)@) + wire_entries(
            pdv_leaves(decls@, None, false),
            desc@,
            sep@,
            opt_view(*pre),
            kind@,
            size as nat,
        ),
{
    let leaves = decls.iter().into_vec();
    let ghost lv = leaves_view(leaves@);
    let ghost base = wires_view(out@);
    let ghost target = wire_entries(lv, desc@, sep@, opt_view(*pre), kind@, size as nat);
    let mut k: usize = 0;
    while k < leaves.len()
        invariant
            lv == leaves_view(leaves@),
            lv == pdv_leaves(decls@, None, false),
            leaves_scalable(lv, size as nat),
            target == wire_entries(lv, desc@, sep@, opt_view(*pre), kind@, size as nat),
            k <= leaves@.len(),
            wires_view(out@) == base + target.take(k as int),
        decreases leaves@.len() - k,
    {
        let name = &leaves[k].0;
        let shape = &leaves[k].1;
        proof {
            assert(lv[k as int] == (opt_view(*name), shape@));
        }
        let scaled = shape.multiple(size);
        let items = vec![copy_opt(pre), Some(String::from_str(kind)), copy_opt(name)];
        proof {
            assert(items@[1] is Some);
            assert(opt_views(items@) =~= seq![opt_view(*pre), Some(kind@), lv[k as int].0]);
        }
        let n = join_all(sep, items);
        let ghost prev = out@;
        out.push((desc.clone(), n, scaled));
        proof {
            assert(wires_view(out@) =~= wires_view(prev).push((desc@, n@, scaled@)));
            assert(target.take(k as int + 1) =~= target.take(k as int).push(target[k as int]));
        }
        k = k + 1;
    }
    assert(target.take(leaves@.len() as int) =~= target);
}

/// Appends the wires of one side of a submodule.
fn push_side_wires(
    out: &mut Vec<(String, String, Shape)>,
    ports: &Vec<(Port, Accessor)>,
    ctx: &Option<String>,
    tag: &String,
    fdesc: &String,
    bdesc: &String,
)
    requires
        ports_scalable(ports_view(ports@)),
    ensures
        wires_view(final(out)@) == wires_view(old(out)@) + side_wires(ports_view(ports@), opt_view(*ctx), tag@, fdesc@, bdesc@),
{
    let ghost pv = ports_view(ports@);
    let ghost base = wires_view(out@);
    let mut k: usize = 0;
    assert(base + side_wires(pv.take(0), opt_view(*ctx), tag@, fdesc@, bdesc@) =~= base);
    while k < ports.len()
        invariant
            pv == ports_view(ports@),
            ports_scalable(pv),
            k <= ports@.len(),
            wires_view(out@) == base + side_wires(pv.take(k as int), opt_view(*ctx), tag@, fdesc@, bdesc@),
        decreases ports@.len() - k,
    {
        let port = &ports[k].0;
        let acc = &ports[k].1;
        proof {
            assert(pv[k as int] == (port.channel_typ@, port.size as nat, acc@));
            assert(leaves_scalable(pdv_leaves(pv[k as int].0.fwd, None, false), pv[k as int].1));
        }
        let sep = sep_of(acc);
        let items = vec![copy_opt(ctx), Some(tag.clone()), copy_opt(&acc.prefix)];
        proof {
            assert(opt_views(items@) =~= seq![opt_view(*ctx), Some(tag@), opt_view(acc.prefix)]);
        }
        let pre = join_options("_", items);
        push_wire_entries(out, &port.channel_typ.fwd, fdesc, sep.as_str(), &pre, "payload", port.size);
        push_wire_entries(out, &port.channel_typ.bwd, bdesc, sep.as_str(), &pre, "resolver", port.size);
        proof {
            assert(pv.take(k as int + 1).drop_last() =~= pv.take(k as int));
            assert(pv.take(k as int + 1).last() == pv[k as int]);
        }
        k = k + 1;
    }
    assert(pv.take(ports@.len() as int) =~= pv);
}

/// The name of submodule `index` named `comp`, followed by `suffix`.
pub open spec fn sub_tag(comp: Seq<char>, index: nat, suffix: Seq<char>) -> Seq<char> {
    comp + "_"@ + crate::utils::string::nat_to_decimal(index) + suffix
}

/// Concatenates the submodule's name, `_`, its index and `suffix`.
pub(crate) fn make_tag(comp: &String, index: usize, suffix: &str) -> (r: String)
    ensures
        r@ == sub_tag(comp@, index as nat, suffix@),
{
    let mut r = comp.clone();
    r.append("_");
    r.append(crate::utils::string::usize_to_string(index).as_str());
    r.append(suffix);
    r
}

/// Wires of the submodules, in order: for each, its input ports, then its output ports.
pub open spec fn submodule_wires_spec(
    subs: Seq<(Seq<char>, InterfaceTypView, InterfaceTypView)>,
    ctx: Option<Seq<char>>,
) -> Seq<(Seq<char>, Seq<char>, ShapeView)>
    decreases subs.len(),
{
    if subs.len() == 0 {
        seq![]
    } else {
        let i = (subs.len() - 1) as nat;
        let s = subs.last();
        submodule_wires_spec(subs.drop_last(), ctx) + side_wires(
            ports_spec(s.1),
            ctx,
            sub_tag(s.0, i, "_in"@),
            sub_tag(s.0, i, " ingress payload"@),
            sub_tag(s.0, i, " ingress resolver"@),
        ) + side_wires(
            ports_spec(s.2),
            ctx,
            sub_tag(s.0, i, "_out"@),
            sub_tag(s.0, i, " egress payload ports"@),
            sub_tag(s.0, i, " egress resolver ports"@),
        )
    }
}

/// Views of submodules: name, input and output interface types.
pub open spec fn subs_view(s: Seq<(String, InterfaceTyp, InterfaceTyp)>) -> Seq<(Seq<char>, InterfaceTypView, InterfaceTypView)> {
    s.map_values(|x: (String, InterfaceTyp, InterfaceTyp)| (x.0@, x.1@, x.2@))
}

/// The ports of every submodule fit and can be multiplied by their sizes.
pub open spec fn subs_ok(subs: Seq<(Seq<char>, InterfaceTypView, InterfaceTypView)>) -> bool {
    forall|k: int|
        0 <= k < subs.len() ==> ports_fit((#[trigger] subs[k]).1) && ports_fit(subs[k].2) && ports_scalable(
            ports_spec(subs[k].1),
        ) && ports_scalable(ports_spec(subs[k].2))
}

/// Returns input/output wires for the submodules of a module, given by name and input
/// and output interface types: description, name and shape of each wire.
pub fn gen_submodule_wires(
    submodules: &Vec<(String, InterfaceTyp, InterfaceTyp)>,
    ctx: &Context,
) -> (r: Result<Vec<(String, String, Shape)>, crate::compiler::error::VirgenError>)
    requires
        subs_ok(subs_view(submodules@)),
    ensures
        r matches Ok(v) && wires_view(v@) == submodule_wires_spec(subs_view(submodules@), prefix_spec(ctx.scopes@)),
{
    let ghost sv = subs_view(submodules@);
    let prefix = ctx.get_prefix();
    let mut out: Vec<(String, String, Shape)> = Vec::new();
    let mut index: usize = 0;
    assert(wires_view(out@) =~= submodule_wires_spec(sv.take(0), opt_view(prefix)));
    while index < submodules.len()
        invariant
            sv == subs_view(submodules@),
            subs_ok(sv),
            opt_view(prefix) == prefix_spec(ctx.scopes@),
            index <= submodules@.len(),
            wires_view(out@) == submodule_wires_spec(sv.take(index as int), opt_view(prefix)),
        decreases submodules@.len() - index,
    {
        let comp = &submodules[index].0;
        proof {
            assert(sv[index as int] == (comp@, submodules@[index as int].1@, submodules@[index as int].2@));
            assert(sv.take(index as int + 1).drop_last() =~= sv.take(index as int));
            assert(sv.take(index as int + 1).last() == sv[index as int]);
        }
        let inputs = gen_ports(&submodules[index].1);
        let tag = make_tag(comp, index, "_in");
        let fdesc = make_tag(comp, index, " ingress payload");
        let bdesc = make_tag(comp, index, " ingress resolver");
        push_side_wires(&mut out, &inputs, &prefix, &tag, &fdesc, &bdesc);
        let outputs = gen_ports(&submodules[index].2);
        let tag = make_tag(comp, index, "_out");
        let fdesc = make_tag(comp, index, " egress payload ports");
        let bdesc = make_tag(comp, index, " egress resolver ports");
        push_side_wires(&mut out, &outputs, &prefix, &tag, &fdesc, &bdesc);
        index = index + 1;
    }
    assert(sv.take(submodules@.len() as int) =~= sv);
    Ok(out)
}

/// Every leaf of every port is one-dimensional.
pub open spec fn ports_1d(ports: Seq<(ChannelTypView, nat, AccessorView)>) -> bool {
    forall|k: int, j: int|
        0 <= k < ports.len() ==> (0 <= j < pdv_leaves((#[trigger] ports[k]).0.fwd, None, false).len()
            ==> (#[trigger] pdv_leaves(ports[k].0.fwd, None, false)[j]).1.dims.len() == 1) && (0 <= j < pdv_leaves(
            ports[k].0.bwd,
            None,
            false,
        ).len() ==> pdv_leaves(ports[k].0.bwd, None, false)[j].1.dims.len() == 1)
}

/// Identifiers of the leaves of a value for an FSM: shape, wire name and register name.
pub open spec fn fsm_entries(
    leaves: Seq<(Option<Seq<char>>, ShapeView)>,
    sep: Seq<char>,
    wire_pre: Option<Seq<char>>,
    kind: Seq<char>,
    reg_pre: Option<Seq<char>>,
) -> Seq<(ShapeView, Seq<char>, Seq<char>)> {
    leaves.map_values(
        |x: (Option<Seq<char>>, ShapeView)|
            (x.1, join_some(sep, seq![wire_pre, Some(kind), x.0]), join_some(sep, seq![reg_pre, x.0])),
    )
}

/// Identifiers of the forward (or backward) leaves of the ports of one side of an FSM.
pub open spec fn side_fsm(
    ports: Seq<(ChannelTypView, nat, AccessorView)>,
    ctx: Option<Seq<char>>,
    side: Seq<char>,
    reg: Seq<char>,
    fwd: bool,
) -> Seq<(ShapeView, Seq<char>, Seq<char>)>
    decreases ports.len(),
{
    if ports.len() == 0 {
        seq![]
    } else {
        let p = ports.last();
        let sep = sep_or_default(p.2.sep);
        let wire_pre = join_opts("_"@, seq![ctx, Some(side), p.2.prefix]);
        let reg_pre = join_opts("_"@, seq![ctx, Some(reg), p.2.prefix]);
        side_fsm(ports.drop_last(), ctx, side, reg, fwd) + fsm_entries(
            pdv_leaves(if fwd { p.0.fwd } else { p.0.bwd }, None, false),
            sep,
            wire_pre,
            if fwd { "payload"@ } else { "resolver"@ },
            reg_pre,
        )
    }
}

/// Views of FSM identifiers.
pub open spec fn fsm_view(s: Seq<(Shape, String, String)>) -> Seq<(ShapeView, Seq<char>, Seq<char>)> {
    s.map_values(|w: (Shape, String, String)| (w.0@, w.1@, w.2@))
}

/// Appends the FSM identifiers of the leaves of `decls`.
fn push_fsm_entries(
    out: &mut Vec<(Shape, String, String)>,
    decls: &PortDecls,
    sep: &str,
    wire_pre: &Option<String>,
    kind: &str,
    reg_pre: &Option<String>,
)
    requires
        reg_pre.is_some(),
    ensures
        fsm_view(final(out)@) == fsm_view(old(out)@) + fsm_entries(
            pdv_leaves(decls@, None, false),
            sep@,
            opt_view(*wire_pre),
            kind@,
            opt_view(*reg_pre),
        ),
{
    let leaves = decls.iter().into_vec();
    let ghost lv = leaves_view(leaves@);
    let ghost base = fsm_view(out@);
    let ghost target = fsm_entries(lv, sep@, opt_view(*wire_pre), kind@, opt_view(*reg_pre));
    let mut k: usize = 0;
    while k < leaves.len()
        invariant
            lv == leaves_view(leaves@),
            reg_pre.is_some(),
            target == fsm_entries(lv, sep@, opt_view(*wire_pre), kind@, opt_view(*reg_pre)),
            k <= leaves@.len(),
            fsm_view(out@) == base + target.take(k as int),
        decreases leaves@.len() - k,
    {
        let name = &leaves[k].0;
        let shape = &leaves[k].1;
        proof {
            assert(lv[k as int] == (opt_view(*name), shape@));
        }
        let witems = vec![copy_opt(wire_pre), Some(String::from_str(kind)), copy_opt(name)];
        let ritems = vec![copy_opt(reg_pre), copy_opt(name)];
        proof {
            assert(witems@[1] is Some);
            assert(ritems@[0] is Some);
            assert(opt_views(witems@) =~= seq![opt_view(*wire_pre), Some(kind@), lv[k as int].0]);
            assert(opt_views(ritems@) =~= seq![opt_view(*reg_pre), lv[k as int].0]);
        }
        let wn = join_all(sep, witems);
        let rn = join_all(sep, ritems);
        let ghost prev = out@;
        out.push((shape.clone(), wn, rn));
        proof {
            assert(fsm_view(out@) =~= fsm_view(prev).push((shape@, wn@, rn@)));
            assert(target.take(k as int + 1) =~= target.take(k as int).push(target[k as int]));
        }
        k = k + 1;
    }
    assert(target.take(leaves@.len() as int) =~= target);
}

/// Appends the FSM identifiers of one side.
fn push_side_fsm(
    out: &mut Vec<(Shape, String, String)>,
    ports: &Vec<(Port, Accessor)>,
    ctx: &Option<String>,
    side: &str,
    reg: &str,
    fwd: bool,
)
    ensures
        fsm_view(final(out)@) == fsm_view(old(out)@) + side_fsm(ports_view(ports@), opt_view(*ctx), side@, reg@, fwd),
{
    let ghost pv = ports_view(ports@);
    let ghost base = fsm_view(out@);
    let mut k: usize = 0;
    assert(base + side_fsm(pv.take(0), opt_view(*ctx), side@, reg@, fwd) =~= base);
    while k < ports.len()
        invariant
            pv == ports_view(ports@),
            k <= ports@.len(),
            fsm_view(out@) == base + side_fsm(pv.take(k as int), opt_view(*ctx), side@, reg@, fwd),
        decreases ports@.len() - k,
    {
        let port = &ports[k].0;
        let acc = &ports[k].1;
        proof {
            assert(pv[k as int] == (port.channel_typ@, port.size as nat, acc@));
        }
        let sep = sep_of(acc);
        let witems = vec![copy_opt(ctx), Some(String::from_str(side)), copy_opt(&acc.prefix)];
        let ritems = vec![copy_opt(ctx), Some(String::from_str(reg)), copy_opt(&acc.prefix)];
        proof {
            assert(opt_views(witems@) =~= seq![opt_view(*ctx), Some(side@), opt_view(acc.prefix)]);
            assert(opt_views(ritems@) =~= seq![opt_view(*ctx), Some(reg@), opt_view(acc.prefix)]);
            assert(ritems@[1] is Some);
        }
        let wire_pre = join_options("_", witems);
        let reg_pre = Some(join_all("_", ritems));
        if fwd {
            push_fsm_entries(out, &port.channel_typ.fwd, sep.as_str(), &wire_pre, "payload", &reg_pre);
        } else {
            push_fsm_entries(out, &port.channel_typ.bwd, sep.as_str(), &wire_pre, "resolver", &reg_pre);
        }
        proof {
            let rv = opt_views(ritems@);
            crate::compiler::wiring::lemma_somes_nonempty(rv, 1);
            assert(pv.take(k as int + 1).drop_last() =~= pv.take(k as int));
            assert(pv.take(k as int + 1).last() == pv[k as int]);
        }
        k = k + 1;
    }
    assert(pv.take(ports@.len() as int) =~= pv);
}

/// Returns declarations for the ingress payload (ip), egress backward (eb), egress
/// payload (ep) and ingress backward (ib) of an FSM: shape, wire name and register name.
pub fn gen_fsm_identifiers(
    input_interface_typ: &InterfaceTyp,
    output_interface_typ: &InterfaceTyp,
    ctx: &Context,
) -> (r: Result<
    (
        Vec<(Shape, String, String)>,
        Vec<(Shape, String, String)>,
        Vec<(Shape, String, String)>,
        Vec<(Shape, String, String)>,
    ),
    crate::compiler::error::VirgenError,
>)
    requires
        ports_fit(input_interface_typ@),
        ports_fit(output_interface_typ@),
        ports_1d(ports_spec(input_interface_typ@)),
        ports_1d(ports_spec(output_interface_typ@)),
    ensures
        r matches Ok((ip, eb, ep, ib)) && {
            let c = prefix_spec(ctx.scopes@);
            let pi = ports_spec(input_interface_typ@);
            let po = ports_spec(output_interface_typ@);
            &&& fsm_view(ip@) == side_fsm(pi, c, "in"@, "ip"@, true)
            &&& fsm_view(ib@) == side_fsm(pi, c, "in"@, "ib"@, false)
            &&& fsm_view(ep@) == side_fsm(po, c, "out"@, "ep"@, true)
            &&& fsm_view(eb@) == side_fsm(po, c, "out"@, "eb"@, false)
        },
{
    let prefix = ctx.get_prefix();
    let inputs = gen_ports(input_interface_typ);
    let outputs = gen_ports(output_interface_typ);
    let mut ip: Vec<(Shape, String, String)> = Vec::new();
    let mut eb: Vec<(Shape, String, String)> = Vec::new();
    let mut ep: Vec<(Shape, String, String)> = Vec::new();
    let mut ib: Vec<(Shape, String, String)> = Vec::new();
    proof {
        assert(fsm_view(ip@) =~= Seq::<(ShapeView, Seq<char>, Seq<char>)>::empty());
    }
    push_side_fsm(&mut ip, &inputs, &prefix, "in", "ip", true);
    push_side_fsm(&mut ib, &inputs, &prefix, "in", "ib", false);
    push_side_fsm(&mut ep, &outputs, &prefix, "out", "ep", true);
    push_side_fsm(&mut eb, &outputs, &prefix, "out", "eb", false);
    proof {
        assert(fsm_view(ib@) =~= side_fsm(ports_spec(input_interface_typ@), opt_view(prefix), "in"@, "ib"@, false));
        assert(fsm_view(ep@) =~= side_fsm(ports_spec(output_interface_typ@), opt_view(prefix), "out"@, "ep"@, true));
        assert(fsm_view(eb@) =~= side_fsm(ports_spec(output_interface_typ@), opt_view(prefix), "out"@, "eb"@, false));
    }
    Ok((ip, eb, ep, ib))
}

} // verus!
