//! Wiring of a sequence of modules: `N` copies of a module `([i; N], j) -> ([o; N], j)`
//! chained through `j`.

use vstd::prelude::*;

use crate::compiler::error::VirgenError;
use crate::compiler::endpoint::{EndpointPath, NodeView};
use crate::compiler::interface::{itv_path_ok, itv_sub, nested_fits, nested_len, InterfaceTyp, InterfaceTypView};
use crate::compiler::naming::{prefix_spec, Context};
use crate::compiler::ports::{gen_ports, ports_fit, ports_spec, ports_view, sep_or_default, Accessor, AccessorView, Port};
use crate::compiler::prelude::{leaves_view, pdv_leaves, shape_fits, shape_width, ChannelTypView, ShapeView};
use crate::compiler::wiring::{copy_opt, join_all, join_some, min_len, sep_of};
use crate::utils::string::{join_options, join_opts, opt_view, opt_views};

verus! {

/// A wire between two identifiers: the left name with an optional
/// (index, element width) range, and the right name with its range.
pub type Wire = (String, Option<(usize, usize)>, String, Option<(usize, usize)>);

/// Mathematical value of a wire.
pub type WireV = (Seq<char>, Option<(usize, usize)>, Seq<char>, Option<(usize, usize)>);

/// Views of wires.
pub open spec fn wires_v(s: Seq<Wire>) -> Seq<WireV> {
    s.map_values(|w: Wire| (w.0@, w.1, w.2@, w.3))
}

/// When a wire side gets a range: an element of the item width, or no range
/// for a one-bit item in some cases.
#[derive(Debug, Clone, Copy)]
pub enum RangeRule {
    /// Never a range
    Never,
    /// Always element `idx`
    At(usize),
    /// Element `idx`, unless the item is one bit wide
    UnlessBit(usize),
    /// Element `idx`, unless the item is one bit wide and the sequence has one
    /// module
    UnlessSingle(usize),
    /// Element `idx`, unless the item is one bit wide, the port is in no
    /// array, and the sequence has one module
    UnlessFlatSingle(usize),
}

/// The range that `rule` gives to an item of width `iw`, of a port whose
/// arrays hold `prod` elements, in a sequence of `n` modules.
pub open spec fn rule_range(rule: RangeRule, iw: nat, prod: nat, n: nat) -> Option<(usize, usize)> {
    match rule {
        RangeRule::Never => None,
        RangeRule::At(i) => Some((i, iw as usize)),
        RangeRule::UnlessBit(i) => if iw == 1 {
            None
        } else {
            Some((i, iw as usize))
        },
        RangeRule::UnlessSingle(i) => if iw == 1 && n == 1 {
            None
        } else {
            Some((i, iw as usize))
        },
        RangeRule::UnlessFlatSingle(i) => if iw == 1 && prod == 1 && n == 1 {
            None
        } else {
            Some((i, iw as usize))
        },
    }
}

/// The range that `rule` gives.
fn apply_rule(rule: RangeRule, iw: usize, prod: usize, n: usize) -> (r: Option<(usize, usize)>)
    ensures
        r == rule_range(rule, iw as nat, prod as nat, n as nat),
{
    match rule {
        RangeRule::Never => None,
        RangeRule::At(i) => Some((i, iw)),
        RangeRule::UnlessBit(i) => if iw == 1 {
            None
        } else {
            Some((i, iw))
        },
        RangeRule::UnlessSingle(i) => if iw == 1 && n == 1 {
            None
        } else {
            Some((i, iw))
        },
        RangeRule::UnlessFlatSingle(i) => if iw == 1 && prod == 1 && n == 1 {
            None
        } else {
            Some((i, iw))
        },
    }
}

/// Product of the array sizes in a trace.
pub open spec fn trace_prod(t: Seq<Option<usize>>) -> nat
    decreases t.len(),
{
    if t.len() == 0 {
        1
    } else {
        trace_prod(t.drop_last()) * match t.last() {
            Some(x) => x as nat,
            None => 1nat,
        }
    }
}

/// Each partial product of the trace fits in a `usize`.
pub open spec fn trace_fits(t: Seq<Option<usize>>) -> bool {
    forall|k: int| 0 <= k <= t.len() ==> #[trigger] trace_prod(t.take(k)) <= usize::MAX
}

/// Product of the array sizes in a trace.
pub(crate) fn trace_product(t: &Vec<Option<usize>>) -> (r: usize)
    requires
        trace_fits(t@),
    ensures
        r == trace_prod(t@),
{
    let mut p: usize = 1;
    let mut i: usize = 0;
    assert(t@.take(0) =~= Seq::<Option<usize>>::empty());
    while i < t.len()
        invariant
            i <= t.len(),
            trace_fits(t@),
            p == trace_prod(t@.take(i as int)),
        decreases t.len() - i,
    {
        assert(t@.take(i + 1).drop_last() =~= t@.take(i as int));
        assert(trace_prod(t@.take(i + 1)) <= usize::MAX);
        match t[i] {
            Some(x) => {
                p = p * x;
            },
            None => {},
        }
        i += 1;
    }
    assert(t@.take(t.len() as int) =~= t@);
    p
}

/// What a block of the wiring is made of: the name parts before the port
/// prefixes of the target and the source, the multiple of the widths, the
/// rules for the forward target, forward source, backward source and backward
/// target ranges, and whether the array products count.
pub struct BlockV {
    /// Name parts of the target
    pub tbase: Seq<Option<Seq<char>>>,
    /// Name parts of the source
    pub sbase: Seq<Option<Seq<char>>>,
    /// Multiple of the widths
    pub mult: nat,
    /// Rule of the forward target range
    pub fwd_t: RangeRule,
    /// Rule of the forward source range
    pub fwd_s: RangeRule,
    /// Rule of the backward source range
    pub bwd_s: RangeRule,
    /// Rule of the backward target range
    pub bwd_t: RangeRule,
    /// Whether the array products count
    pub use_prod: bool,
}

/// The array product of an accessor, when products count.
pub open spec fn acc_prod(a: AccessorView, use_prod: bool) -> nat {
    if use_prod {
        trace_prod(a.arr_trace)
    } else {
        1
    }
}

/// Wires of the leaves of one direction between a target and a source port.
pub open spec fn leaf_wires(
    leaves: Seq<(Option<Seq<char>>, ShapeView)>,
    b: BlockV,
    n: nat,
    ta: AccessorView,
    sa: AccessorView,
    fwd: bool,
) -> Seq<WireV> {
    let tpre = join_opts("_"@, b.tbase.push(ta.prefix));
    let spre = join_opts("_"@, b.sbase.push(sa.prefix));
    let tsep = sep_or_default(ta.sep);
    let ssep = sep_or_default(sa.sep);
    let tp = acc_prod(ta, b.use_prod);
    let sp = acc_prod(sa, b.use_prod);
    leaves.map_values(
        |x: (Option<Seq<char>>, ShapeView)|
            {
                let iw = b.mult * shape_width(x.1.dims);
                if fwd {
                    (
                        join_some(tsep, seq![tpre, Some("payload"@), x.0]),
                        rule_range(b.fwd_t, iw, tp, n),
                        join_some(ssep, seq![spre, Some("payload"@), x.0]),
                        rule_range(b.fwd_s, iw, sp, n),
                    )
                } else {
                    (
                        join_some(ssep, seq![spre, Some("resolver"@), x.0]),
                        rule_range(b.bwd_s, iw, sp, n),
                        join_some(tsep, seq![tpre, Some("resolver"@), x.0]),
                        rule_range(b.bwd_t, iw, tp, n),
                    )
                }
            },
    )
}

/// Wires between the first `k` paired target and source ports: for each pair,
/// the forward leaves then the backward leaves of the target's channel.
pub open spec fn block_wires(
    tports: Seq<(ChannelTypView, nat, AccessorView)>,
    sports: Seq<(ChannelTypView, nat, AccessorView)>,
    k: nat,
    b: BlockV,
    n: nat,
) -> Seq<WireV>
    decreases k,
{
    if k == 0 {
        seq![]
    } else {
        let t = tports[k - 1];
        let s = sports[k - 1];
        block_wires(tports, sports, (k - 1) as nat, b, n) + leaf_wires(pdv_leaves(t.0.fwd, None, false), b, n, t.2, s.2, true)
            + leaf_wires(pdv_leaves(t.0.bwd, None, false), b, n, t.2, s.2, false)
    }
}

/// Leaves of one direction are one-dimensional and their widths times the
/// multiple fit in a `usize`.
pub open spec fn leaves_ok(leaves: Seq<(Option<Seq<char>>, ShapeView)>, mult: nat) -> bool {
    forall|q: int|
        0 <= q < leaves.len() ==> (#[trigger] leaves[q]).1.dims.len() == 1 && shape_fits(leaves[q].1.dims) && mult
            * shape_width(leaves[q].1.dims) <= usize::MAX
}

/// A block can be wired: paired ports agree, their leaves are one-dimensional
/// and fit, and the array products fit where they count.
pub open spec fn block_ok(
    tports: Seq<(ChannelTypView, nat, AccessorView)>,
    sports: Seq<(ChannelTypView, nat, AccessorView)>,
    b: BlockV,
) -> bool {
    forall|k: int|
        #![trigger tports[k]]
        0 <= k < min_len(tports.len(), sports.len()) ==> {
            &&& tports[k].0 == sports[k].0
            &&& tports[k].1 == sports[k].1
            &&& leaves_ok(pdv_leaves(tports[k].0.fwd, None, false), b.mult)
            &&& leaves_ok(pdv_leaves(tports[k].0.bwd, None, false), b.mult)
            &&& b.use_prod ==> trace_fits(tports[k].2.arr_trace) && trace_fits(sports[k].2.arr_trace)
        }
}

/// Appends the wires of the leaves of one direction.
#[verifier::loop_isolation(false)]
fn push_leaf_wires(
    out: &mut Vec<Wire>,
    leaves: &Vec<(Option<String>, crate::compiler::prelude::Shape)>,
    tpre: &Option<String>,
    spre: &Option<String>,
    tsep: &String,
    ssep: &String,
    tprod: usize,
    sprod: usize,
    mult: usize,
    rules: (RangeRule, RangeRule),
    fwd: bool,
    n: usize,
    Ghost(b): Ghost<BlockV>,
    Ghost(ta): Ghost<AccessorView>,
    Ghost(sa): Ghost<AccessorView>,
)
    requires
        leaves_ok(leaves_view(leaves@), mult as nat),
        b.mult == mult,
        opt_view(*tpre) == join_opts("_"@, b.tbase.push(ta.prefix)),
        opt_view(*spre) == join_opts("_"@, b.sbase.push(sa.prefix)),
        tsep@ == sep_or_default(ta.sep),
        ssep@ == sep_or_default(sa.sep),
        tprod == acc_prod(ta, b.use_prod),
        sprod == acc_prod(sa, b.use_prod),
        fwd ==> rules == (b.fwd_t, b.fwd_s),
        !fwd ==> rules == (b.bwd_s, b.bwd_t),
    ensures
        wires_v(final(out)@) == wires_v(old(out)@) + leaf_wires(leaves_view(leaves@), b, n as nat, ta, sa, fwd),
{
    let ghost lv = leaves_view(leaves@);
    let ghost base = wires_v(out@);
    let ghost target = leaf_wires(lv, b, n as nat, ta, sa, fwd);
    let mut k: usize = 0;
    while k < leaves.len()
        invariant
            lv == leaves_view(leaves@),
            target == leaf_wires(lv, b, n as nat, ta, sa, fwd),
            leaves_ok(lv, mult as nat),
            k <= leaves.len(),
            wires_v(out@) == base + target.take(k as int),
        decreases leaves.len() - k,
    {
        let name = &leaves[k].0;
        let shape = &leaves[k].1;
        assert(lv[k as int] == (opt_view(*name), shape@));
        let w = shape.width();
        let iw = mult * w;
        let kind = if fwd {
            "payload"
        } else {
            "resolver"
        };
        let titems = vec![copy_opt(tpre), Some(String::from_str(kind)), copy_opt(name)];
        let sitems = vec![copy_opt(spre), Some(String::from_str(kind)), copy_opt(name)];
        proof {
            assert(titems@[1] is Some);
            assert(sitems@[1] is Some);
        }
        let tname = join_all(tsep.as_str(), titems);
        let sname = join_all(ssep.as_str(), sitems);
        let ghost prev = out@;
        if fwd {
            let tr = apply_rule(rules.0, iw, tprod, n);
            let sr = apply_rule(rules.1, iw, sprod, n);
            out.push((tname, tr, sname, sr));
            proof {
                assert(opt_views(titems@) =~= seq![opt_view(*tpre), Some("payload"@), lv[k as int].0]);
                assert(opt_views(sitems@) =~= seq![opt_view(*spre), Some("payload"@), lv[k as int].0]);
                assert(wires_v(out@) =~= wires_v(prev).push((tname@, tr, sname@, sr)));
                assert(target[k as int] == (tname@, tr, sname@, sr));
            }
        } else {
            let sr = apply_rule(rules.0, iw, sprod, n);
            let tr = apply_rule(rules.1, iw, tprod, n);
            out.push((sname, sr, tname, tr));
            proof {
                assert(opt_views(titems@) =~= seq![opt_view(*tpre), Some("resolver"@), lv[k as int].0]);
                assert(opt_views(sitems@) =~= seq![opt_view(*spre), Some("resolver"@), lv[k as int].0]);
                assert(wires_v(out@) =~= wires_v(prev).push((sname@, sr, tname@, tr)));
                assert(target[k as int] == (sname@, sr, tname@, tr));
            }
        }
        assert(target.take(k + 1) =~= target.take(k as int).push(target[k as int]));
        k += 1;
    }
    assert(target.take(leaves.len() as int) =~= target);
}

/// Appends the wires between paired target and source ports.
fn push_block_wires(
    out: &mut Vec<Wire>,
    tports: &Vec<(Port, Accessor)>,
    sports: &Vec<(Port, Accessor)>,
    tbase: &Vec<Option<String>>,
    sbase: &Vec<Option<String>>,
    mult: usize,
    rules: (RangeRule, RangeRule, RangeRule, RangeRule),
    use_prod: bool,
    n: usize,
    Ghost(b): Ghost<BlockV>,
)
    requires
        block_ok(ports_view(tports@), ports_view(sports@), b),
        b.tbase == opt_views(tbase@),
        b.sbase == opt_views(sbase@),
        b.mult == mult,
        b.use_prod == use_prod,
        rules == (b.fwd_t, b.fwd_s, b.bwd_s, b.bwd_t),
    ensures
        wires_v(final(out)@) == wires_v(old(out)@) + block_wires(
            ports_view(tports@),
            ports_view(sports@),
            min_len(tports@.len() as nat, sports@.len() as nat),
            b,
            n as nat,
        ),
{
    let ghost tv = ports_view(tports@);
    let ghost sv = ports_view(sports@);
    let ghost base = wires_v(out@);
    let m = if tports.len() <= sports.len() {
        tports.len()
    } else {
        sports.len()
    };
    let mut k: usize = 0;
    assert(base + block_wires(tv, sv, 0, b, n as nat) =~= base);
    while k < m
        invariant
            tv == ports_view(tports@),
            sv == ports_view(sports@),
            m == min_len(tports@.len() as nat, sports@.len() as nat),
            k <= m,
            block_ok(tv, sv, b),
            b.tbase == opt_views(tbase@),
            b.sbase == opt_views(sbase@),
            b.mult == mult,
            b.use_prod == use_prod,
            rules == (b.fwd_t, b.fwd_s, b.bwd_s, b.bwd_t),
            wires_v(out@) == base + block_wires(tv, sv, k as nat, b, n as nat),
        decreases m - k,
    {
        let tport = &tports[k].0;
        let tacc = &tports[k].1;
        let sacc = &sports[k].1;
        proof {
            assert(tv[k as int] == (tport.channel_typ@, tport.size as nat, tacc@));
            assert(sv[k as int].2 == sacc@);
            assert(tv[k as int].0 == sv[k as int].0);
            assert(leaves_ok(pdv_leaves(tport.channel_typ@.fwd, None, false), b.mult));
            assert(leaves_ok(pdv_leaves(tport.channel_typ@.bwd, None, false), b.mult));
            assert(use_prod ==> trace_fits(tacc@.arr_trace) && trace_fits(sacc@.arr_trace));
        }
        let mut titems: Vec<Option<String>> = Vec::new();
        let mut q: usize = 0;
        while q < tbase.len()
            invariant
                q <= tbase.len(),
                opt_views(titems@) == opt_views(tbase@).take(q as int),
            decreases tbase.len() - q,
        {
            let ghost before = titems@;
            titems.push(copy_opt(&tbase[q]));
            assert(opt_views(titems@) =~= opt_views(before).push(opt_view(tbase@[q as int])));
            assert(opt_views(tbase@).take(q + 1) =~= opt_views(tbase@).take(q as int).push(opt_view(tbase@[q as int])));
            q += 1;
        }
        let ghost tb = titems@;
        titems.push(copy_opt(&tacc.prefix));
        assert(opt_views(tbase@).take(tbase.len() as int) =~= opt_views(tbase@));
        assert(opt_views(titems@) =~= opt_views(tb).push(opt_view(tacc.prefix)));
        let mut sitems: Vec<Option<String>> = Vec::new();
        let mut q: usize = 0;
        while q < sbase.len()
            invariant
                q <= sbase.len(),
                opt_views(sitems@) == opt_views(sbase@).take(q as int),
            decreases sbase.len() - q,
        {
            let ghost before = sitems@;
            sitems.push(copy_opt(&sbase[q]));
            assert(opt_views(sitems@) =~= opt_views(before).push(opt_view(sbase@[q as int])));
            assert(opt_views(sbase@).take(q + 1) =~= opt_views(sbase@).take(q as int).push(opt_view(sbase@[q as int])));
            q += 1;
        }
        let ghost sb = sitems@;
        sitems.push(copy_opt(&sacc.prefix));
        assert(opt_views(sbase@).take(sbase.len() as int) =~= opt_views(sbase@));
        assert(opt_views(sitems@) =~= opt_views(sb).push(opt_view(sacc.prefix)));
        proof {
            assert(opt_views(titems@) =~= b.tbase.push(tacc@.prefix));
            assert(opt_views(sitems@) =~= b.sbase.push(sacc@.prefix));
        }
        let tpre = join_options("_", titems);
        let spre = join_options("_", sitems);
        let tsep = sep_of(tacc);
        let ssep = sep_of(sacc);
        let tprod = if use_prod {
            trace_product(&tacc.arr_trace)
        } else {
            1
        };
        let sprod = if use_prod {
            trace_product(&sacc.arr_trace)
        } else {
            1
        };
        let fwd = tport.channel_typ.fwd.iter().into_vec();
        let bwd = tport.channel_typ.bwd.iter().into_vec();
        push_leaf_wires(
            out,
            &fwd,
            &tpre,
            &spre,
            &tsep,
            &ssep,
            tprod,
            sprod,
            mult,
            (rules.0, rules.1),
            true,
            n,
            Ghost(b),
            Ghost(tacc@),
            Ghost(sacc@),
        );
        push_leaf_wires(
            out,
            &bwd,
            &tpre,
            &spre,
            &tsep,
            &ssep,
            tprod,
            sprod,
            mult,
            (rules.2, rules.3),
            false,
            n,
            Ghost(b),
            Ghost(tacc@),
            Ghost(sacc@),
        );
        k += 1;
    }
}

/// A field of a path, with the default separator.
pub open spec fn fld(name: Seq<char>) -> NodeView {
    NodeView::Field(name, None)
}

/// What the wiring of a sequence of modules depends on: the number of
/// modules, the multiples of the widths of `i`, `j` and `o`, the input and
/// output interface types of the sequence, and the name prefix of the scope.
pub struct SeqV {
    /// Number of modules
    pub n: nat,
    /// Multiple of the widths of `i`
    pub i_mult: nat,
    /// Multiple of the widths of `j`
    pub j_mult: nat,
    /// Multiple of the widths of `o`
    pub o_mult: nat,
    /// Input interface type of the sequence
    pub input: InterfaceTypView,
    /// Output interface type of the sequence
    pub output: InterfaceTypView,
    /// Name prefix of the scope
    pub ctx: Option<Seq<char>>,
}

/// `[(o, j); N]`: what the modules return, in the input interface.
pub open spec fn in_input_spec(st: SeqV) -> InterfaceTypView {
    itv_sub(st.input, seq![fld("input"@), fld("0"@)])
}

/// `([i; N], j)`: what the sequence takes, in the input interface.
pub open spec fn in_output_spec(st: SeqV) -> InterfaceTypView {
    itv_sub(st.input, seq![fld("output"@)])
}

/// `[(i, j); N]`: what the modules take, in the output interface.
pub open spec fn out_input_spec(st: SeqV) -> InterfaceTypView {
    itv_sub(st.output, seq![fld("input"@), fld("0"@)])
}

/// `([o; N], j)`: what the sequence returns, in the output interface.
pub open spec fn out_output_spec(st: SeqV) -> InterfaceTypView {
    itv_sub(st.output, seq![fld("output"@)])
}

/// Name parts of a side of a block: the scope prefix and the given parts.
pub open spec fn parts(ctx: Option<Seq<char>>, p: Seq<Seq<char>>) -> Seq<Option<Seq<char>>> {
    seq![ctx] + p.map_values(|x: Seq<char>| Some(x))
}

/// Block that wires `i` of module `idx`: `out_input[idx].0 = in_output.0[idx]`.
pub open spec fn i_block(st: SeqV, idx: nat) -> BlockV {
    let r = RangeRule::UnlessFlatSingle(idx as usize);
    BlockV {
        tbase: parts(st.ctx, seq!["out"@, "input"@, "0"@, "input"@, "0"@]),
        sbase: parts(st.ctx, seq!["in"@, "output"@, "input"@, "0"@]),
        mult: st.i_mult,
        fwd_t: r,
        fwd_s: r,
        bwd_s: r,
        bwd_t: r,
        use_prod: true,
    }
}

/// Block that wires `o` of module `idx`: `out_output.0[idx] = in_input[idx].0`.
pub open spec fn o_block(st: SeqV, idx: nat) -> BlockV {
    let r = RangeRule::UnlessSingle(idx as usize);
    BlockV {
        tbase: parts(st.ctx, seq!["out"@, "output"@, "output"@, "0"@]),
        sbase: parts(st.ctx, seq!["in"@, "input"@, "0"@, "output"@, "0"@]),
        mult: st.o_mult,
        fwd_t: r,
        fwd_s: r,
        bwd_s: r,
        bwd_t: r,
        use_prod: false,
    }
}

/// Block that wires `j` of module `idx`: from the `j` of the sequence to the
/// first module, from the `j` of module `idx - 1` to the others.
pub open spec fn j_block(st: SeqV, idx: nat) -> BlockV {
    BlockV {
        tbase: parts(st.ctx, seq!["out"@, "input"@, "0"@, "input"@, "1"@]),
        sbase: if idx == 0 {
            parts(st.ctx, seq!["in"@, "output"@, "input"@, "1"@])
        } else {
            parts(st.ctx, seq!["in"@, "input"@, "0"@, "output"@, "1"@])
        },
        mult: st.j_mult,
        fwd_t: RangeRule::UnlessSingle(idx as usize),
        fwd_s: if idx == 0 {
            RangeRule::UnlessBit(0)
        } else {
            RangeRule::UnlessSingle((idx - 1) as usize)
        },
        bwd_s: if idx == 0 {
            RangeRule::Never
        } else {
            RangeRule::UnlessSingle((idx - 1) as usize)
        },
        bwd_t: RangeRule::UnlessBit(idx as usize),
        use_prod: false,
    }
}

/// Block that wires the last `j`: `out_output.1 = in_input[N - 1].1`.
pub open spec fn last_block(st: SeqV) -> BlockV {
    BlockV {
        tbase: parts(st.ctx, seq!["out"@, "output"@, "output"@, "1"@]),
        sbase: parts(st.ctx, seq!["in"@, "input"@, "0"@, "output"@, "1"@]),
        mult: st.j_mult,
        fwd_t: RangeRule::Never,
        fwd_s: RangeRule::UnlessSingle((st.n - 1) as usize),
        bwd_s: RangeRule::At((st.n - 1) as usize),
        bwd_t: RangeRule::Never,
        use_prod: false,
    }
}

/// Paths of the target and source of the `i` block of module `idx`.
pub open spec fn i_paths(idx: nat) -> (Seq<NodeView>, Seq<NodeView>) {
    (seq![NodeView::Index(idx as usize), fld("input"@), fld("0"@)], seq![fld("input"@), fld("0"@), NodeView::Index(idx as usize)])
}

/// Paths of the target and source of the `o` block of module `idx`.
pub open spec fn o_paths(idx: nat) -> (Seq<NodeView>, Seq<NodeView>) {
    (seq![fld("output"@), fld("0"@), NodeView::Index(idx as usize)], seq![NodeView::Index(idx as usize), fld("output"@), fld("0"@)])
}

/// Paths of the target and source of the `j` block of module `idx`.
pub open spec fn j_paths(idx: nat) -> (Seq<NodeView>, Seq<NodeView>) {
    (
        seq![NodeView::Index(idx as usize), fld("input"@), fld("1"@)],
        if idx == 0 {
            seq![fld("input"@), fld("1"@)]
        } else {
            seq![NodeView::Index((idx - 1) as usize), fld("output"@), fld("1"@)]
        },
    )
}

/// Target and source types of the `i` block of module `idx`.
pub open spec fn i_types(st: SeqV, idx: nat) -> (InterfaceTypView, InterfaceTypView) {
    (itv_sub(out_input_spec(st), i_paths(idx).0), itv_sub(in_output_spec(st), i_paths(idx).1))
}

/// Target and source types of the `o` block of module `idx`.
pub open spec fn o_types(st: SeqV, idx: nat) -> (InterfaceTypView, InterfaceTypView) {
    (itv_sub(out_output_spec(st), o_paths(idx).0), itv_sub(in_input_spec(st), o_paths(idx).1))
}

/// Target and source types of the `j` block of module `idx`.
pub open spec fn j_types(st: SeqV, idx: nat) -> (InterfaceTypView, InterfaceTypView) {
    (
        itv_sub(out_input_spec(st), j_paths(idx).0),
        if idx == 0 {
            itv_sub(in_output_spec(st), j_paths(idx).1)
        } else {
            itv_sub(in_input_spec(st), j_paths(idx).1)
        },
    )
}

/// Target and source types of the last `j` block.
pub open spec fn last_types(st: SeqV) -> (InterfaceTypView, InterfaceTypView) {
    (
        itv_sub(out_output_spec(st), seq![fld("output"@), fld("1"@)]),
        itv_sub(in_input_spec(st), seq![NodeView::Index((st.n - 1) as usize), fld("output"@), fld("1"@)]),
    )
}

/// Wires of a block between a target and a source type.
pub open spec fn typed_block(ts: (InterfaceTypView, InterfaceTypView), b: BlockV, n: nat) -> Seq<WireV> {
    let tp = ports_spec(ts.0);
    let sp = ports_spec(ts.1);
    block_wires(tp, sp, min_len(tp.len(), sp.len()), b, n)
}

/// Wires of module `idx`: its `i`, then its `o`, then its `j`.
pub open spec fn seq_round(st: SeqV, idx: nat) -> Seq<WireV> {
    typed_block(i_types(st, idx), i_block(st, idx), st.n) + typed_block(o_types(st, idx), o_block(st, idx), st.n)
        + typed_block(j_types(st, idx), j_block(st, idx), st.n)
}

/// Wires of the first `k` modules.
pub open spec fn seq_rounds(st: SeqV, k: nat) -> Seq<WireV>
    decreases k,
{
    if k == 0 {
        seq![]
    } else {
        seq_rounds(st, (k - 1) as nat) + seq_round(st, (k - 1) as nat)
    }
}

/// Wires of a sequence of modules: those of each module, then the last `j`.
pub open spec fn seq_assigns_spec(st: SeqV) -> Seq<WireV> {
    seq_rounds(st, st.n) + typed_block(last_types(st), last_block(st), st.n)
}

/// A block between a target and a source type can be wired.
pub open spec fn typed_block_ok(ts: (InterfaceTypView, InterfaceTypView), b: BlockV) -> bool {
    ports_fit(ts.0) && ports_fit(ts.1) && block_ok(ports_spec(ts.0), ports_spec(ts.1), b)
}

/// The blocks of module `idx` can be wired.
pub open spec fn round_ok(st: SeqV, idx: nat) -> bool {
    &&& itv_path_ok(out_input_spec(st), i_paths(idx).0)
    &&& itv_path_ok(in_output_spec(st), i_paths(idx).1)
    &&& itv_path_ok(out_output_spec(st), o_paths(idx).0)
    &&& itv_path_ok(in_input_spec(st), o_paths(idx).1)
    &&& itv_path_ok(out_input_spec(st), j_paths(idx).0)
    &&& (idx == 0 ==> itv_path_ok(in_output_spec(st), j_paths(idx).1))
    &&& (idx > 0 ==> itv_path_ok(in_input_spec(st), j_paths(idx).1))
    &&& typed_block_ok(i_types(st, idx), i_block(st, idx))
    &&& typed_block_ok(o_types(st, idx), o_block(st, idx))
    &&& typed_block_ok(j_types(st, idx), j_block(st, idx))
}

/// The sequence can be wired: it has a module, the paths of all blocks exist,
/// and all blocks can be wired.
pub open spec fn seq_ok(st: SeqV) -> bool {
    &&& st.n >= 1
    &&& st.n <= usize::MAX
    &&& itv_path_ok(st.input, seq![fld("input"@), fld("0"@)])
    &&& itv_path_ok(st.input, seq![fld("output"@)])
    &&& itv_path_ok(st.output, seq![fld("input"@), fld("0"@)])
    &&& itv_path_ok(st.output, seq![fld("output"@)])
    &&& forall|idx: nat| idx < st.n ==> #[trigger] round_ok(st, idx)
    &&& itv_path_ok(out_output_spec(st), seq![fld("output"@), fld("1"@)])
    &&& itv_path_ok(in_input_spec(st), seq![NodeView::Index((st.n - 1) as usize), fld("output"@), fld("1"@)])
    &&& typed_block_ok(last_types(st), last_block(st))
}

/// The multiple of widths for a type: the array length for an array, else 1.
pub open spec fn array_mult(t: InterfaceTypView) -> nat {
    match t {
        InterfaceTypView::Array(_, len) => len as nat,
        _ => 1,
    }
}

/// The multiple of widths for `j`: the flattened length of its nested arrays
/// for an array, else 1.
pub open spec fn nested_mult(t: InterfaceTypView) -> nat {
    match t {
        InterfaceTypView::Array(_, _) => nested_len(t),
        _ => 1,
    }
}

/// What the wiring of a sequence depends on, from its types.
pub open spec fn seq_v(
    n: nat,
    i_typ: InterfaceTypView,
    j_typ: InterfaceTypView,
    o_typ: InterfaceTypView,
    input: InterfaceTypView,
    output: InterfaceTypView,
    ctx: Option<Seq<char>>,
) -> SeqV {
    SeqV { n, i_mult: array_mult(i_typ), j_mult: nested_mult(j_typ), o_mult: array_mult(o_typ), input, output, ctx }
}

/// Name parts as strings.
fn parts_exec(ctx: &Option<String>, p: Vec<&str>) -> (r: Vec<Option<String>>)
    ensures
        opt_views(r@) == parts(opt_view(*ctx), p@.map_values(|x: &str| x@)),
{
    let mut out: Vec<Option<String>> = Vec::new();
    out.push(copy_opt(ctx));
    let mut k: usize = 0;
    while k < p.len()
        invariant
            k <= p.len(),
            opt_views(out@) == parts(opt_view(*ctx), p@.map_values(|x: &str| x@).take(k as int)),
        decreases p.len() - k,
    {
        let ghost before = out@;
        out.push(Some(String::from_str(p[k])));
        proof {
            let v = p@.map_values(|x: &str| x@);
            assert(opt_views(out@) =~= opt_views(before).push(Some(p@[k as int]@)));
            assert(parts(opt_view(*ctx), v.take(k + 1)) =~= parts(opt_view(*ctx), v.take(k as int)).push(Some(v[k as int])));
        }
        k += 1;
    }
    assert(p@.map_values(|x: &str| x@).take(p.len() as int) =~= p@.map_values(|x: &str| x@));
    out
}

/// Appends the wires of a block between the subinterfaces at `tpath` of
/// `tbase_typ` and at `spath` of `sbase_typ`.
fn push_typed_block(
    out: &mut Vec<Wire>,
    ttyp: &InterfaceTyp,
    tpath: EndpointPath,
    styp: &InterfaceTyp,
    spath: EndpointPath,
    tbase: Vec<Option<String>>,
    sbase: Vec<Option<String>>,
    mult: usize,
    rules: (RangeRule, RangeRule, RangeRule, RangeRule),
    use_prod: bool,
    n: usize,
    Ghost(b): Ghost<BlockV>,
)
    requires
        itv_path_ok(ttyp@, tpath@),
        itv_path_ok(styp@, spath@),
        typed_block_ok((itv_sub(ttyp@, tpath@), itv_sub(styp@, spath@)), b),
        b.tbase == opt_views(tbase@),
        b.sbase == opt_views(sbase@),
        b.mult == mult,
        b.use_prod == use_prod,
        rules == (b.fwd_t, b.fwd_s, b.bwd_s, b.bwd_t),
    ensures
        wires_v(final(out)@) == wires_v(old(out)@) + typed_block(
            (itv_sub(ttyp@, tpath@), itv_sub(styp@, spath@)),
            b,
            n as nat,
        ),
{
    let tsub = ttyp.get_subinterface(tpath);
    let ssub = styp.get_subinterface(spath);
    let tports = gen_ports(&tsub);
    let sports = gen_ports(&ssub);
    push_block_wires(out, &tports, &sports, &tbase, &sbase, mult, rules, use_prod, n, Ghost(b));
}

/// Appends the wires of module `idx`: its `i`, its `o`, then its `j`.
fn push_round(
    connections: &mut Vec<Wire>,
    idx: usize,
    seq_len: usize,
    prefix: &Option<String>,
    i_mult: usize,
    o_mult: usize,
    j_mult: usize,
    in_input: &InterfaceTyp,
    in_output: &InterfaceTyp,
    out_input: &InterfaceTyp,
    out_output: &InterfaceTyp,
    Ghost(st): Ghost<SeqV>,
)
    requires
        idx < seq_len,
        st.n == seq_len,
        round_ok(st, idx as nat),
        opt_view(*prefix) == st.ctx,
        i_mult == st.i_mult,
        o_mult == st.o_mult,
        j_mult == st.j_mult,
        in_input@ == in_input_spec(st),
        in_output@ == in_output_spec(st),
        out_input@ == out_input_spec(st),
        out_output@ == out_output_spec(st),
    ensures
        wires_v(final(connections)@) == wires_v(old(connections)@) + seq_round(st, idx as nat),
{
    let ghost before = wires_v(connections@);
    // wire `i`
    let tpath = EndpointPath::default().append_index(idx).append_field("input").append_field("0");
    let spath = EndpointPath::default().append_field("input").append_field("0").append_index(idx);
    assert(tpath@ =~= i_paths(idx as nat).0);
    assert(spath@ =~= i_paths(idx as nat).1);
    let tbase = parts_exec(prefix, vec!["out", "input", "0", "input", "0"]);
    let sbase = parts_exec(prefix, vec!["in", "output", "input", "0"]);
    let rule = RangeRule::UnlessFlatSingle(idx);
    proof {
        assert(opt_views(tbase@) =~= i_block(st, idx as nat).tbase);
        assert(opt_views(sbase@) =~= i_block(st, idx as nat).sbase);
    }
    push_typed_block(
        connections,
        &out_input,
        tpath,
        &in_output,
        spath,
        tbase,
        sbase,
        i_mult,
        (rule, rule, rule, rule),
        true,
        seq_len,
        Ghost(i_block(st, idx as nat)),
    );
    // wire `o`
    let tpath = EndpointPath::default().append_field("output").append_field("0").append_index(idx);
    let spath = EndpointPath::default().append_index(idx).append_field("output").append_field("0");
    assert(tpath@ =~= o_paths(idx as nat).0);
    assert(spath@ =~= o_paths(idx as nat).1);
    let tbase = parts_exec(prefix, vec!["out", "output", "output", "0"]);
    let sbase = parts_exec(prefix, vec!["in", "input", "0", "output", "0"]);
    let rule = RangeRule::UnlessSingle(idx);
    proof {
        assert(opt_views(tbase@) =~= o_block(st, idx as nat).tbase);
        assert(opt_views(sbase@) =~= o_block(st, idx as nat).sbase);
    }
    push_typed_block(
        connections,
        &out_output,
        tpath,
        &in_input,
        spath,
        tbase,
        sbase,
        o_mult,
        (rule, rule, rule, rule),
        false,
        seq_len,
        Ghost(o_block(st, idx as nat)),
    );
    // wire `j`
    let tpath = EndpointPath::default().append_index(idx).append_field("input").append_field("1");
    assert(tpath@ =~= j_paths(idx as nat).0);
    let tbase = parts_exec(prefix, vec!["out", "input", "0", "input", "1"]);
    proof {
        assert(opt_views(tbase@) =~= j_block(st, idx as nat).tbase);
    }
    if idx == 0 {
        let spath = EndpointPath::default().append_field("input").append_field("1");
        assert(spath@ =~= j_paths(idx as nat).1);
        let sbase = parts_exec(prefix, vec!["in", "output", "input", "1"]);
        proof {
            assert(opt_views(sbase@) =~= j_block(st, idx as nat).sbase);
        }
        push_typed_block(
            connections,
            &out_input,
            tpath,
            &in_output,
            spath,
            tbase,
            sbase,
            j_mult,
            (RangeRule::UnlessSingle(idx), RangeRule::UnlessBit(0), RangeRule::Never, RangeRule::UnlessBit(idx)),
            false,
            seq_len,
            Ghost(j_block(st, idx as nat)),
        );
    } else {
        let spath = EndpointPath::default().append_index(idx - 1).append_field("output").append_field("1");
        assert(spath@ =~= j_paths(idx as nat).1);
        let sbase = parts_exec(prefix, vec!["in", "input", "0", "output", "1"]);
        proof {
            assert(opt_views(sbase@) =~= j_block(st, idx as nat).sbase);
        }
        push_typed_block(
            connections,
            &out_input,
            tpath,
            &in_input,
            spath,
            tbase,
            sbase,
            j_mult,
            (
                RangeRule::UnlessSingle(idx),
                RangeRule::UnlessSingle(idx - 1),
                RangeRule::UnlessSingle(idx - 1),
                RangeRule::UnlessBit(idx),
            ),
            false,
            seq_len,
            Ghost(j_block(st, idx as nat)),
        );
    }
    proof {
        assert(wires_v(connections@) =~= before + seq_round(st, idx as nat));
    }
}

/// Returns the wires of a sequence of `seq_len` modules
/// `([i; seq_len], j) -> ([o; seq_len], j)` chained through `j`, given the
/// input and output interface types of the sequence: for each module, its `i`
/// from the sequence's input, its `o` to the sequence's output, and its `j`
/// from the sequence's `j` (first module) or the previous module's `j`; then
/// the last module's `j` to the sequence's output.
pub fn gen_module_seq_assigns(
    seq_len: usize,
    i_typ: &InterfaceTyp,
    j_typ: &InterfaceTyp,
    o_typ: &InterfaceTyp,
    input_interface_typ: &InterfaceTyp,
    output_interface_typ: &InterfaceTyp,
    ctx: &Context,
) -> (r: Result<Vec<Wire>, VirgenError>)
    requires
        j_typ@ is Array ==> nested_fits(j_typ@),
        seq_ok(
            seq_v(
                seq_len as nat,
                i_typ@,
                j_typ@,
                o_typ@,
                input_interface_typ@,
                output_interface_typ@,
                prefix_spec(ctx.scopes@),
            ),
        ),
    ensures
        r matches Ok(v) && wires_v(v@) == seq_assigns_spec(
            seq_v(
                seq_len as nat,
                i_typ@,
                j_typ@,
                o_typ@,
                input_interface_typ@,
                output_interface_typ@,
                prefix_spec(ctx.scopes@),
            ),
        ),
{
    let ghost st = seq_v(
        seq_len as nat,
        i_typ@,
        j_typ@,
        o_typ@,
        input_interface_typ@,
        output_interface_typ@,
        prefix_spec(ctx.scopes@),
    );
    let prefix = ctx.get_prefix();
    let i_mult: usize = match i_typ {
        InterfaceTyp::Array(_, len) => *len,
        _ => 1,
    };
    let o_mult: usize = match o_typ {
        InterfaceTyp::Array(_, len) => *len,
        _ => 1,
    };
    let j_mult: usize = match j_typ {
        InterfaceTyp::Array(_, _) => j_typ.nested_array_flattened_len(),
        _ => 1,
    };
    let in_input_path = EndpointPath::default().append_field("input").append_field("0");
    let in_output_path = EndpointPath::default().append_field("output");
    proof {
        assert(in_input_path@ =~= seq![fld("input"@), fld("0"@)]);
        assert(in_output_path@ =~= seq![fld("output"@)]);
    }
    let in_input = input_interface_typ.get_subinterface(in_input_path.clone());
    let in_output = input_interface_typ.get_subinterface(in_output_path.clone());
    let out_input = output_interface_typ.get_subinterface(in_input_path);
    let out_output = output_interface_typ.get_subinterface(in_output_path);
    let mut connections: Vec<Wire> = Vec::new();
    let mut idx: usize = 0;
    assert(wires_v(connections@) =~= seq_rounds(st, 0));
    while idx < seq_len
        invariant
            idx <= seq_len,
            seq_ok(st),
            st == seq_v(
                seq_len as nat,
                i_typ@,
                j_typ@,
                o_typ@,
                input_interface_typ@,
                output_interface_typ@,
                prefix_spec(ctx.scopes@),
            ),
            opt_view(prefix) == st.ctx,
            i_mult == st.i_mult,
            o_mult == st.o_mult,
            j_mult == st.j_mult,
            in_input@ == in_input_spec(st),
            in_output@ == in_output_spec(st),
            out_input@ == out_input_spec(st),
            out_output@ == out_output_spec(st),
            wires_v(connections@) == seq_rounds(st, idx as nat),
        decreases seq_len - idx,
    {
        proof {
            assert(round_ok(st, idx as nat));
        }
        push_round(
            &mut connections,
            idx,
            seq_len,
            &prefix,
            i_mult,
            o_mult,
            j_mult,
            &in_input,
            &in_output,
            &out_input,
            &out_output,
            Ghost(st),
        );
        idx += 1;
    }
    // wire the last `j`
    let tpath = EndpointPath::default().append_field("output").append_field("1");
    let spath = EndpointPath::default().append_index(seq_len - 1).append_field("output").append_field("1");
    assert(tpath@ =~= seq![fld("output"@), fld("1"@)]);
    assert(spath@ =~= seq![NodeView::Index((st.n - 1) as usize), fld("output"@), fld("1"@)]);
    let tbase = parts_exec(&prefix, vec!["out", "output", "output", "1"]);
    let sbase = parts_exec(&prefix, vec!["in", "input", "0", "output", "1"]);
    proof {
        assert(opt_views(tbase@) =~= last_block(st).tbase);
        assert(opt_views(sbase@) =~= last_block(st).sbase);
    }
    push_typed_block(
        &mut connections,
        &out_output,
        tpath,
        &in_input,
        spath,
        tbase,
        sbase,
        j_mult,
        (RangeRule::Never, RangeRule::UnlessSingle(seq_len - 1), RangeRule::At(seq_len - 1), RangeRule::Never),
        false,
        seq_len,
        Ghost(last_block(st)),
    );
    Ok(connections)
}

} // verus!
