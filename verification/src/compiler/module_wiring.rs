//! Wiring inside a module: the assignments that connect the module's input, its
//! submodules and its output.

use vstd::prelude::*;

use crate::compiler::endpoint::{Channel, ChannelView, Endpoint, EndpointPath, EndpointView, NodeView};
use crate::compiler::error::VirgenError;
use crate::compiler::interface::{
    itf_has_unwired, itf_paths_view, itf_prims, itf_typ, itf_typ_ok, Interface, InterfaceTyp, InterfaceTypView,
    InterfaceView,
};
use crate::compiler::ports::{chan_acc, chan_acc_ok, gen_channel_accessor, sep_or_default, Accessor, AccessorView};
use crate::compiler::prelude::{leaves_view, pdv_leaves, shape_fits, shape_width, ChannelTyp, ChannelTypView, Shape, ShapeView};
use crate::compiler::seq_wiring::{trace_fits, trace_prod, trace_product, wires_v, Wire, WireV};
use crate::compiler::wiring::{copy_opt, join_all, join_some, make_tag, sep_of, sub_tag};
use crate::utils::string::{join_options, join_opts, opt_view, opt_views};

verus! {

/// A connection between two channels: the submodule that drives it (`None` for the
/// module's input), the accessors of the driving and of the driven channel, and the
/// channel type.
pub struct ConnV {
    /// Driving submodule, `None` for the module's input
    pub src: Option<usize>,
    /// Accessor of the driving channel
    pub from: AccessorView,
    /// Accessor of the driven channel
    pub to: AccessorView,
    /// Channel type
    pub typ: ChannelTypView,
}

/// A connection as the wiring holds it: driving submodule, accessors of the driving
/// and of the driven channel, and channel type.
pub type Conn = (Option<usize>, Accessor, Accessor, ChannelTyp);

/// View of a connection.
pub open spec fn conn_v(c: Conn) -> ConnV {
    ConnV { src: c.0, from: c.1@, to: c.2@, typ: c.3@ }
}

/// Views of connections.
pub open spec fn conns_v(s: Seq<Conn>) -> Seq<ConnV> {
    s.map_values(|c: Conn| conn_v(c))
}

/// Views of submodules: name, output interface type and input interface.
pub open spec fn subs_v(s: Seq<(String, InterfaceTyp, Interface)>) -> Seq<(Seq<char>, InterfaceTypView, InterfaceView)> {
    s.map_values(|x: (String, InterfaceTyp, Interface)| (x.0@, x.1@, x.2@))
}

/// The accessor with the names `head` put before its prefix, joined by `_`.
pub open spec fn with_prefix(a: AccessorView, head: Seq<Option<Seq<char>>>) -> AccessorView {
    AccessorView { prefix: join_opts("_"@, head.push(a.prefix)), ..a }
}

/// The connection that drives channel `c`, whose own accessor is `to`: from the
/// module's input, or from the output of the submodule it names.
pub open spec fn drive(
    c: ChannelView,
    to: AccessorView,
    input: InterfaceTypView,
    subs: Seq<(Seq<char>, InterfaceTypView, InterfaceView)>,
) -> ConnV {
    match c.endpoint {
        EndpointView::Input(path) => ConnV {
            src: None,
            from: with_prefix(chan_acc(input, path), seq![Some("in"@)]),
            to,
            typ: c.typ,
        },
        EndpointView::Submodule(j, path) => ConnV {
            src: Some(j),
            from: with_prefix(
                chan_acc(subs[j as int].1, path),
                seq![Some(sub_tag(subs[j as int].0, j as nat, ""@)), Some("out"@)],
            ),
            to,
            typ: c.typ,
        },
    }
}

/// The connections that drive the channels `prims`, found at their paths in an
/// interface of type `t`, with the names `head` before the driven prefixes.
pub open spec fn prims_conns(
    prims: Seq<(InterfaceView, Seq<NodeView>)>,
    t: InterfaceTypView,
    head: Seq<Option<Seq<char>>>,
    input: InterfaceTypView,
    subs: Seq<(Seq<char>, InterfaceTypView, InterfaceView)>,
) -> Seq<ConnV>
    decreases prims.len(),
{
    if prims.len() == 0 {
        seq![]
    } else {
        prims_conns(prims.drop_last(), t, head, input, subs) + match prims.last().0 {
            InterfaceView::Channel(c) => seq![drive(c, with_prefix(chan_acc(t, prims.last().1), head), input, subs)],
            _ => seq![],
        }
    }
}

/// The connections into the inputs of the first `k` submodules, in order.
pub open spec fn subs_conns(
    subs: Seq<(Seq<char>, InterfaceTypView, InterfaceView)>,
    k: nat,
    input: InterfaceTypView,
) -> Seq<ConnV>
    decreases k,
{
    if k == 0 {
        seq![]
    } else {
        let s = subs[k - 1];
        subs_conns(subs, (k - 1) as nat, input) + prims_conns(
            itf_prims(s.2),
            itf_typ(s.2),
            seq![Some(sub_tag(s.0, (k - 1) as nat, ""@)), Some("in"@)],
            input,
            subs,
        )
    }
}

/// All connections in the order they are found: into the inputs of each submodule,
/// then into the module's output.
pub open spec fn found_conns(
    subs: Seq<(Seq<char>, InterfaceTypView, InterfaceView)>,
    input: InterfaceTypView,
    output_typ: InterfaceTypView,
    output: InterfaceView,
) -> Seq<ConnV> {
    subs_conns(subs, subs.len(), input) + prims_conns(itf_prims(output), output_typ, seq![Some("out"@)], input, subs)
}

/// The connections driven by `src`, in order.
pub open spec fn driven_by(cs: Seq<ConnV>, src: Option<usize>) -> Seq<ConnV>
    decreases cs.len(),
{
    if cs.len() == 0 {
        seq![]
    } else {
        driven_by(cs.drop_last(), src) + if cs.last().src == src {
            seq![cs.last()]
        } else {
            seq![]
        }
    }
}

/// The connections driven by the module's input first, then those driven by each of
/// the first `n` submodules in turn.
pub open spec fn grouped(cs: Seq<ConnV>, n: nat) -> Seq<ConnV>
    decreases n,
{
    if n == 0 {
        driven_by(cs, None)
    } else {
        grouped(cs, (n - 1) as nat) + driven_by(cs, Some((n - 1) as usize))
    }
}

/// The range of one side of a wire for an item of width `w`: none for a one-bit item
/// outside any array, else the accessor's index with the item width, if it has one.
pub open spec fn side_range(a: AccessorView, w: nat) -> Option<(usize, usize)> {
    if w == 1 && trace_prod(a.arr_trace) == 1 {
        None
    } else {
        match a.index {
            Some((i, _)) => Some((i, w as usize)),
            None => None,
        }
    }
}

/// Wires of the leaves of one direction of a connection: forward ones go from the
/// driving payload to the driven payload, backward ones from the driven resolver to the
/// driving resolver.
pub open spec fn conn_leaf_wires(
    leaves: Seq<(Option<Seq<char>>, ShapeView)>,
    c: ConnV,
    prefix: Option<Seq<char>>,
    fwd: bool,
) -> Seq<WireV> {
    let l = join_opts("_"@, seq![prefix, c.to.prefix]);
    let r = join_opts("_"@, seq![prefix, c.from.prefix]);
    let tsep = sep_or_default(c.to.sep);
    let fsep = sep_or_default(c.from.sep);
    leaves.map_values(
        |x: (Option<Seq<char>>, ShapeView)|
            {
                let w = shape_width(x.1.dims);
                if fwd {
                    (
                        join_some(tsep, seq![l, Some("payload"@), x.0]),
                        side_range(c.to, w),
                        join_some(fsep, seq![r, Some("payload"@), x.0]),
                        side_range(c.from, w),
                    )
                } else {
                    (
                        join_some(fsep, seq![r, Some("resolver"@), x.0]),
                        side_range(c.from, w),
                        join_some(tsep, seq![l, Some("resolver"@), x.0]),
                        side_range(c.to, w),
                    )
                }
            },
    )
}

/// Wires of one connection: forward leaves, then backward leaves.
pub open spec fn conn_wires(c: ConnV, prefix: Option<Seq<char>>) -> Seq<WireV> {
    conn_leaf_wires(pdv_leaves(c.typ.fwd, None, false), c, prefix, true) + conn_leaf_wires(
        pdv_leaves(c.typ.bwd, None, false),
        c,
        prefix,
        false,
    )
}

/// Wires of connections, in order.
pub open spec fn conns_wires(cs: Seq<ConnV>, prefix: Option<Seq<char>>) -> Seq<WireV>
    decreases cs.len(),
{
    if cs.len() == 0 {
        seq![]
    } else {
        conns_wires(cs.drop_last(), prefix) + conn_wires(cs.last(), prefix)
    }
}

/// The wiring of a module: the wires of all connections, those driven by the module's
/// input first, then those driven by each submodule in turn.
pub open spec fn wiring_spec(
    subs: Seq<(Seq<char>, InterfaceTypView, InterfaceView)>,
    input: InterfaceTypView,
    output_typ: InterfaceTypView,
    output: InterfaceView,
    prefix: Option<Seq<char>>,
) -> Seq<WireV> {
    conns_wires(grouped(found_conns(subs, input, output_typ, output), subs.len()), prefix)
}

/// The channel at a path can be accessed, and its driver exists and can be accessed.
pub open spec fn prim_ok(
    p: (InterfaceView, Seq<NodeView>),
    t: InterfaceTypView,
    input: InterfaceTypView,
    subs: Seq<(Seq<char>, InterfaceTypView, InterfaceView)>,
) -> bool {
    match p.0 {
        InterfaceView::Channel(c) => chan_acc_ok(t, p.1) && match c.endpoint {
            EndpointView::Input(path) => chan_acc_ok(input, path),
            EndpointView::Submodule(j, path) => j < subs.len() && chan_acc_ok(subs[j as int].1, path),
        },
        _ => true,
    }
}

/// Every channel of `prims` can be connected.
pub open spec fn prims_ok(
    prims: Seq<(InterfaceView, Seq<NodeView>)>,
    t: InterfaceTypView,
    input: InterfaceTypView,
    subs: Seq<(Seq<char>, InterfaceTypView, InterfaceView)>,
) -> bool {
    forall|k: int| 0 <= k < prims.len() ==> prim_ok(#[trigger] prims[k], t, input, subs)
}

/// The input interface of a submodule is wired, has a type where it has channels,
/// and its channels can be connected.
pub open spec fn sub_ok(
    s: (Seq<char>, InterfaceTypView, InterfaceView),
    input: InterfaceTypView,
    subs: Seq<(Seq<char>, InterfaceTypView, InterfaceView)>,
) -> bool {
    &&& !itf_has_unwired(s.2)
    &&& itf_prims(s.2).len() > 0 ==> itf_typ_ok(s.2)
    &&& prims_ok(itf_prims(s.2), itf_typ(s.2), input, subs)
}

/// Leaves are one-dimensional and their widths fit in a `usize`.
pub open spec fn leaves_flat(leaves: Seq<(Option<Seq<char>>, ShapeView)>) -> bool {
    forall|q: int| 0 <= q < leaves.len() ==> (#[trigger] leaves[q]).1.dims.len() == 1 && shape_fits(leaves[q].1.dims)
}

/// The leaves of a connection are one-dimensional, and where it has leaves, the array
/// sizes of both accessors multiply within a `usize`.
pub open spec fn conn_ok(c: ConnV) -> bool {
    let lf = pdv_leaves(c.typ.fwd, None, false);
    let lb = pdv_leaves(c.typ.bwd, None, false);
    &&& leaves_flat(lf)
    &&& leaves_flat(lb)
    &&& lf.len() + lb.len() > 0 ==> trace_fits(c.to.arr_trace) && trace_fits(c.from.arr_trace)
}

/// A module can be wired: its submodules' inputs and its output are wired and their
/// channels can be connected, and every connection can be turned into wires.
pub open spec fn wiring_ok(
    subs: Seq<(Seq<char>, InterfaceTypView, InterfaceView)>,
    input: InterfaceTypView,
    output_typ: InterfaceTypView,
    output: InterfaceView,
) -> bool {
    &&& forall|i: int| 0 <= i < subs.len() ==> sub_ok(#[trigger] subs[i], input, subs)
    &&& !itf_has_unwired(output)
    &&& prims_ok(itf_prims(output), output_typ, input, subs)
    &&& forall|k: int|
        0 <= k < found_conns(subs, input, output_typ, output).len() ==> conn_ok(
            #[trigger] found_conns(subs, input, output_typ, output)[k],
        )
}

/// The accessor with the names `head` put before its prefix.
fn prefixed(acc: Accessor, head: Vec<Option<String>>) -> (r: Accessor)
    ensures
        r@ == with_prefix(acc@, opt_views(head@)),
{
    let Accessor { prefix, sep, index, arr_trace } = acc;
    let ghost pv = opt_view(prefix);
    let mut items = head;
    let ghost h = items@;
    items.push(prefix);
    assert(opt_views(items@) =~= opt_views(h).push(pv));
    let p = join_options("_", items);
    Accessor { prefix: p, sep, index, arr_trace }
}

/// The connection that drives channel `c`, whose accessor is `to`.
fn drive_conn(
    c: &Channel,
    to: Accessor,
    input: &InterfaceTyp,
    subs: &Vec<(String, InterfaceTyp, Interface)>,
) -> (r: Conn)
    requires
        match c.endpoint@ {
            EndpointView::Input(path) => chan_acc_ok(input@, path),
            EndpointView::Submodule(j, path) => j < subs@.len() && chan_acc_ok(subs_v(subs@)[j as int].1, path),
        },
    ensures
        conn_v(r) == drive(c@, to@, input@, subs_v(subs@)),
{
    match &c.endpoint {
        Endpoint::Input { path } => {
            let acc = gen_channel_accessor(input, path.clone());
            let head = vec![Some(String::from_str("in"))];
            proof {
                reveal_strlit("in");
                assert(opt_views(head@) =~= seq![Some("in"@)]);
            }
            (None, prefixed(acc, head), to, c.typ.clone())
        },
        Endpoint::Submodule { submodule_index, path } => {
            let j = *submodule_index;
            assert(subs_v(subs@)[j as int] == (subs@[j as int].0@, subs@[j as int].1@, subs@[j as int].2@));
            let acc = gen_channel_accessor(&subs[j].1, path.clone());
            let tag = make_tag(&subs[j].0, j, "");
            let head = vec![Some(tag), Some(String::from_str("out"))];
            proof {
                reveal_strlit("");
                reveal_strlit("out");
                assert(opt_views(head@) =~= seq![Some(sub_tag(subs@[j as int].0@, j as nat, ""@)), Some("out"@)]);
            }
            (Some(j), prefixed(acc, head), to, c.typ.clone())
        },
    }
}

/// Appends the connections that drive the channels `prims` of an interface of type `t`.
fn push_prim_conns(
    out: &mut Vec<Conn>,
    prims: &Vec<(Interface, EndpointPath)>,
    t: &InterfaceTyp,
    head: &Vec<Option<String>>,
    input: &InterfaceTyp,
    subs: &Vec<(String, InterfaceTyp, Interface)>,
)
    requires
        prims_ok(itf_paths_view(prims@), t@, input@, subs_v(subs@)),
    ensures
        conns_v(final(out)@) == conns_v(old(out)@) + prims_conns(
            itf_paths_view(prims@),
            t@,
            opt_views(head@),
            input@,
            subs_v(subs@),
        ),
{
    let ghost pv = itf_paths_view(prims@);
    let ghost hv = opt_views(head@);
    let ghost sv = subs_v(subs@);
    let ghost base = conns_v(out@);
    let mut k: usize = 0;
    assert(base + prims_conns(pv.take(0), t@, hv, input@, sv) =~= base);
    while k < prims.len()
        invariant
            pv == itf_paths_view(prims@),
            hv == opt_views(head@),
            sv == subs_v(subs@),
            prims_ok(pv, t@, input@, sv),
            k <= prims@.len(),
            conns_v(out@) == base + prims_conns(pv.take(k as int), t@, hv, input@, sv),
        decreases prims@.len() - k,
    {
        let ghost p = pv[k as int];
        assert(p == (prims@[k as int].0@, prims@[k as int].1@));
        assert(prim_ok(p, t@, input@, sv));
        assert(pv.take(k as int + 1).drop_last() =~= pv.take(k as int));
        assert(pv.take(k as int + 1).last() == p);
        match &prims[k].0 {
            Interface::Channel(c) => {
                let mut items: Vec<Option<String>> = Vec::new();
                let mut q: usize = 0;
                while q < head.len()
                    invariant
                        q <= head@.len(),
                        hv == opt_views(head@),
                        opt_views(items@) == hv.take(q as int),
                    decreases head@.len() - q,
                {
                    let ghost before = items@;
                    items.push(copy_opt(&head[q]));
                    assert(opt_views(items@) =~= opt_views(before).push(hv[q as int]));
                    assert(hv.take(q + 1) =~= hv.take(q as int).push(hv[q as int]));
                    q += 1;
                }
                assert(hv.take(head@.len() as int) =~= hv);
                let acc = gen_channel_accessor(t, prims[k].1.clone());
                let to = prefixed(acc, items);
                let conn = drive_conn(c, to, input, subs);
                let ghost prev = out@;
                out.push(conn);
                proof {
                    assert(conns_v(out@) =~= conns_v(prev).push(conn_v(conn)));
                    assert(conns_v(out@) =~= base + prims_conns(pv.take(k as int + 1), t@, hv, input@, sv));
                }
            },
            _ => {
                assert(conns_v(out@) =~= base + prims_conns(pv.take(k as int + 1), t@, hv, input@, sv));
            },
        }
        k += 1;
    }
    assert(pv.take(prims@.len() as int) =~= pv);
}

/// The wires of a concatenation are those of each part in turn.
pub proof fn lemma_conns_wires_append(a: Seq<ConnV>, b: Seq<ConnV>, prefix: Option<Seq<char>>)
    ensures
        conns_wires(a + b, prefix) == conns_wires(a, prefix) + conns_wires(b, prefix),
    decreases b.len(),
{
    if b.len() == 0 {
        assert(a + b =~= a);
        assert(conns_wires(a, prefix) + conns_wires(b, prefix) =~= conns_wires(a, prefix));
    } else {
        lemma_conns_wires_append(a, b.drop_last(), prefix);
        assert((a + b).drop_last() =~= a + b.drop_last());
        assert((a + b).last() == b.last());
        assert(conns_wires(a + b, prefix) =~= conns_wires(a, prefix) + conns_wires(b, prefix));
    }
}

/// The range of one side of a wire for an item of width `w`.
fn side_range_of(acc: &Accessor, w: usize) -> (r: Option<(usize, usize)>)
    requires
        trace_fits(acc@.arr_trace),
    ensures
        r == side_range(acc@, w as nat),
{
    let p = trace_product(&acc.arr_trace);
    if w == 1 && p == 1 {
        None
    } else {
        match acc.index {
            Some((i, _)) => Some((i, w)),
            None => None,
        }
    }
}

/// Appends the wires of the leaves of one direction of a connection.
fn push_conn_leaf_wires(
    out: &mut Vec<Wire>,
    leaves: &Vec<(Option<String>, Shape)>,
    c: &Conn,
    prefix: &Option<String>,
    fwd: bool,
)
    requires
        leaves_flat(leaves_view(leaves@)),
        leaves@.len() > 0 ==> trace_fits(c.1@.arr_trace) && trace_fits(c.2@.arr_trace),
    ensures
        wires_v(final(out)@) == wires_v(old(out)@) + conn_leaf_wires(leaves_view(leaves@), conn_v(*c), opt_view(*prefix), fwd),
{
    let ghost lv = leaves_view(leaves@);
    let ghost cv = conn_v(*c);
    let ghost pv = opt_view(*prefix);
    let ghost base = wires_v(out@);
    let ghost target = conn_leaf_wires(lv, cv, pv, fwd);
    let litems = vec![copy_opt(prefix), copy_opt(&c.2.prefix)];
    let ritems = vec![copy_opt(prefix), copy_opt(&c.1.prefix)];
    proof {
        assert(opt_views(litems@) =~= seq![pv, cv.to.prefix]);
        assert(opt_views(ritems@) =~= seq![pv, cv.from.prefix]);
    }
    let l = join_options("_", litems);
    let r = join_options("_", ritems);
    let tsep = sep_of(&c.2);
    let fsep = sep_of(&c.1);
    let mut k: usize = 0;
    while k < leaves.len()
        invariant
            lv == leaves_view(leaves@),
            cv == conn_v(*c),
            pv == opt_view(*prefix),
            target == conn_leaf_wires(lv, cv, pv, fwd),
            leaves_flat(lv),
            leaves@.len() > 0 ==> trace_fits(c.1@.arr_trace) && trace_fits(c.2@.arr_trace),
            opt_view(l) == join_opts("_"@, seq![pv, cv.to.prefix]),
            opt_view(r) == join_opts("_"@, seq![pv, cv.from.prefix]),
            tsep@ == sep_or_default(cv.to.sep),
            fsep@ == sep_or_default(cv.from.sep),
            k <= leaves.len(),
            wires_v(out@) == base + target.take(k as int),
        decreases leaves.len() - k,
    {
        let name = &leaves[k].0;
        let shape = &leaves[k].1;
        assert(lv[k as int] == (opt_view(*name), shape@));
        let w = shape.width();
        let kind = if fwd {
            "payload"
        } else {
            "resolver"
        };
        let titems = vec![copy_opt(&l), Some(String::from_str(kind)), copy_opt(name)];
        let fitems = vec![copy_opt(&r), Some(String::from_str(kind)), copy_opt(name)];
        proof {
            assert(titems@[1] is Some);
            assert(fitems@[1] is Some);
        }
        let tname = join_all(tsep.as_str(), titems);
        let fname = join_all(fsep.as_str(), fitems);
        let trange = side_range_of(&c.2, w);
        let frange = side_range_of(&c.1, w);
        let ghost prev = out@;
        if fwd {
            out.push((tname, trange, fname, frange));
            proof {
                assert(opt_views(titems@) =~= seq![opt_view(l), Some("payload"@), lv[k as int].0]);
                assert(opt_views(fitems@) =~= seq![opt_view(r), Some("payload"@), lv[k as int].0]);
                assert(wires_v(out@) =~= wires_v(prev).push((tname@, trange, fname@, frange)));
                assert(target[k as int] == (tname@, trange, fname@, frange));
            }
        } else {
            out.push((fname, frange, tname, trange));
            proof {
                assert(opt_views(titems@) =~= seq![opt_view(l), Some("resolver"@), lv[k as int].0]);
                assert(opt_views(fitems@) =~= seq![opt_view(r), Some("resolver"@), lv[k as int].0]);
                assert(wires_v(out@) =~= wires_v(prev).push((fname@, frange, tname@, trange)));
                assert(target[k as int] == (fname@, frange, tname@, trange));
            }
        }
        assert(target.take(k + 1) =~= target.take(k as int).push(target[k as int]));
        k += 1;
    }
    assert(target.take(leaves.len() as int) =~= target);
}

/// Appends the wires of one connection.
fn push_conn_wires(out: &mut Vec<Wire>, c: &Conn, prefix: &Option<String>)
    requires
        conn_ok(conn_v(*c)),
    ensures
        wires_v(final(out)@) == wires_v(old(out)@) + conn_wires(conn_v(*c), opt_view(*prefix)),
{
    let fl = c.3.fwd.iter().into_vec();
    let bl = c.3.bwd.iter().into_vec();
    let ghost base = wires_v(out@);
    push_conn_leaf_wires(out, &fl, c, prefix, true);
    let ghost mid = wires_v(out@);
    push_conn_leaf_wires(out, &bl, c, prefix, false);
    assert(wires_v(out@) =~= base + conn_wires(conn_v(*c), opt_view(*prefix)));
}

/// Appends the wires of the connections of `cs` driven by `src`.
fn push_driven_wires(out: &mut Vec<Wire>, cs: &Vec<Conn>, src: Option<usize>, prefix: &Option<String>)
    requires
        forall|k: int| 0 <= k < cs@.len() ==> conn_ok(#[trigger] conns_v(cs@)[k]),
    ensures
        wires_v(final(out)@) == wires_v(old(out)@) + conns_wires(driven_by(conns_v(cs@), src), opt_view(*prefix)),
{
    let ghost cv = conns_v(cs@);
    let ghost pv = opt_view(*prefix);
    let ghost base = wires_v(out@);
    let mut k: usize = 0;
    assert(base + conns_wires(driven_by(cv.take(0), src), pv) =~= base);
    while k < cs.len()
        invariant
            cv == conns_v(cs@),
            pv == opt_view(*prefix),
            forall|q: int| 0 <= q < cs@.len() ==> conn_ok(#[trigger] conns_v(cs@)[q]),
            k <= cs@.len(),
            wires_v(out@) == base + conns_wires(driven_by(cv.take(k as int), src), pv),
        decreases cs@.len() - k,
    {
        let ghost d = driven_by(cv.take(k as int), src);
        assert(cv.take(k as int + 1).drop_last() =~= cv.take(k as int));
        assert(cv.take(k as int + 1).last() == cv[k as int]);
        assert(cv[k as int] == conn_v(cs@[k as int]));
        if cs[k].0 == src {
            assert(driven_by(cv.take(k as int + 1), src) =~= d.push(cv[k as int]));
            assert(d.push(cv[k as int]).drop_last() =~= d);
            let ghost prev = wires_v(out@);
            push_conn_wires(out, &cs[k], prefix);
            assert(wires_v(out@) =~= base + conns_wires(driven_by(cv.take(k as int + 1), src), pv));
        } else {
            assert(driven_by(cv.take(k as int + 1), src) =~= d);
        }
        k += 1;
    }
    assert(cv.take(cs@.len() as int) =~= cv);
}

/// Returns the wiring of a module, given its submodules (name, output interface type and
/// input interface of each), its input and output interface types and its output
/// interface: the name and range of the driven side and of the driving side of each wire.
pub fn gen_wiring(
    submodules: &Vec<(String, InterfaceTyp, Interface)>,
    input_interface_typ: &InterfaceTyp,
    output_interface_typ: &InterfaceTyp,
    output_interface: &Interface,
    prefix: Option<String>,
) -> (r: Result<Vec<Wire>, VirgenError>)
    requires
        wiring_ok(subs_v(submodules@), input_interface_typ@, output_interface_typ@, output_interface@),
    ensures
        r matches Ok(v) && wires_v(v@) == wiring_spec(
            subs_v(submodules@),
            input_interface_typ@,
            output_interface_typ@,
            output_interface@,
            opt_view(prefix),
        ),
{
    let ghost sv = subs_v(submodules@);
    let ghost input = input_interface_typ@;
    let mut found: Vec<Conn> = Vec::new();
    let mut i: usize = 0;
    assert(conns_v(found@) =~= subs_conns(sv, 0, input));
    while i < submodules.len()
        invariant
            sv == subs_v(submodules@),
            input == input_interface_typ@,
            forall|q: int| 0 <= q < sv.len() ==> sub_ok(#[trigger] sv[q], input, sv),
            i <= submodules@.len(),
            conns_v(found@) == subs_conns(sv, i as nat, input),
        decreases submodules@.len() - i,
    {
        let itf = &submodules[i].2;
        assert(sv[i as int] == (submodules@[i as int].0@, submodules@[i as int].1@, itf@));
        assert(sub_ok(sv[i as int], input, sv));
        let prims = itf.into_primitives();
        let tag = make_tag(&submodules[i].0, i, "");
        let head = vec![Some(tag), Some(String::from_str("in"))];
        proof {
            reveal_strlit("");
            reveal_strlit("in");
            assert(opt_views(head@) =~= seq![Some(sub_tag(sv[i as int].0, i as nat, ""@)), Some("in"@)]);
        }
        if prims.len() > 0 {
            let t = itf.typ();
            push_prim_conns(&mut found, &prims, &t, &head, input_interface_typ, submodules);
        } else {
            assert(itf_paths_view(prims@) =~= Seq::<(InterfaceView, Seq<NodeView>)>::empty());
            assert(conns_v(found@) =~= conns_v(found@) + prims_conns(itf_paths_view(prims@), itf_typ(itf@), opt_views(head@), input, sv));
        }
        i += 1;
    }
    let prims = output_interface.into_primitives();
    let head = vec![Some(String::from_str("out"))];
    proof {
        reveal_strlit("out");
        assert(opt_views(head@) =~= seq![Some("out"@)]);
    }
    push_prim_conns(&mut found, &prims, output_interface_typ, &head, input_interface_typ, submodules);
    let ghost fv = conns_v(found@);
    assert(fv == found_conns(sv, input, output_interface_typ@, output_interface@));
    let mut wires: Vec<Wire> = Vec::new();
    push_driven_wires(&mut wires, &found, None, &prefix);
    assert(wires_v(wires@) =~= conns_wires(grouped(fv, 0), opt_view(prefix)));
    let mut j: usize = 0;
    while j < submodules.len()
        invariant
            fv == conns_v(found@),
            sv == subs_v(submodules@),
            forall|k: int| 0 <= k < found@.len() ==> conn_ok(#[trigger] conns_v(found@)[k]),
            j <= submodules@.len(),
            wires_v(wires@) == conns_wires(grouped(fv, j as nat), opt_view(prefix)),
        decreases submodules@.len() - j,
    {
        push_driven_wires(&mut wires, &found, Some(j), &prefix);
        proof {
            lemma_conns_wires_append(grouped(fv, j as nat), driven_by(fv, Some(j)), opt_view(prefix));
            assert(grouped(fv, j as nat + 1) == grouped(fv, j as nat) + driven_by(fv, Some(j)));
        }
        j += 1;
    }
    Ok(wires)
}

} // verus!
