//! Detection of combinational loops in a flattened module.
//!
//! Each assignment in a continuous assignment or in a combinational always
//! block makes its target depend on the identifiers it reads and on the
//! identifiers of the conditions around it. A cycle in this dependency graph
//! is a combinational loop.

use vstd::prelude::*;

use crate::compiler::error::VirgenError;
use crate::compiler::interface::{first_index, lemma_first_index};
use crate::utils::string::{eq_str, seq_join};
use crate::vir::ir::{
    branches_v, conts_v, expr_v, exprs_v, item_v, items_v, prim_v, stmt_v, stmts_v, ExprV, Expression, ItemV,
    Module, ModuleItem, ModuleV, PrimV, Primary, Statement, StmtV,
};
use crate::vir::opt::inline_always::comb_event;
use crate::vir::utils::{extract_decls, module_decls, names_v};

verus! {

/// Identifiers that an expression reads, in order; the expressions inside
/// ranges are not read.
pub open spec fn expr_names(e: ExprV) -> Seq<Seq<char>>
    decreases e,
{
    match e {
        ExprV::Primary(p) => prim_names(p),
        ExprV::Unary(_, p) => prim_names(p),
        ExprV::Binary(l, _, r) => expr_names(*l) + expr_names(*r),
        ExprV::Conditional(c, t, f) => expr_names(*c) + expr_names(*t) + expr_names(*f),
    }
}

/// Identifiers that a primary expression reads, in order.
pub open spec fn prim_names(p: PrimV) -> Seq<Seq<char>>
    decreases p,
{
    match p {
        PrimV::Number(_) => seq![],
        PrimV::Ident(x, _) => seq![x],
        PrimV::Concat(es) => exprs_names(es),
        PrimV::MultiConcat(_, es) => exprs_names(es),
        PrimV::Mintypmax(e) => expr_names(*e),
    }
}

/// Identifiers that expressions read, in order.
pub open spec fn exprs_names(s: Seq<ExprV>) -> Seq<Seq<char>>
    decreases s,
{
    if s.len() == 0 {
        seq![]
    } else {
        exprs_names(s.drop_last()) + expr_names(s.last())
    }
}

/// Every name is declared.
pub open spec fn all_declared(decls: Seq<Seq<char>>, names: Seq<Seq<char>>) -> bool {
    forall|i: int| 0 <= i < names.len() ==> (#[trigger] first_index(decls, names[i])) is Some
}

/// Node of a declared name: the index of its first declaration.
pub open spec fn node_of(decls: Seq<Seq<char>>, x: Seq<char>) -> int {
    match first_index(decls, x) {
        Some(j) => j,
        None => -1,
    }
}

/// Nodes of names.
pub open spec fn nodes_of(decls: Seq<Seq<char>>, names: Seq<Seq<char>>) -> Seq<int> {
    names.map_values(|x: Seq<char>| node_of(decls, x))
}

/// State while the dependency graph is built.
pub enum GraphState {
    /// Edges (target, source) so far, and the nodes of the conditions around
    /// the statement at hand
    Building { edges: Seq<(int, int)>, ctx: Seq<int> },
    /// An assignment reads its own target: the target's name
    SelfLoop(Seq<char>),
    /// The analysis cannot go on: an undeclared identifier, a target that is
    /// not one identifier, a conditional or case nested in another, or a
    /// display statement in a combinational block
    Stuck,
}

/// Edges of the assignment `lhs = rhs`: from the target to each identifier
/// read by `rhs` and to each condition around it.
pub open spec fn add_edges(decls: Seq<Seq<char>>, lhs: ExprV, rhs: ExprV, s: GraphState) -> GraphState {
    match s {
        GraphState::Building { edges, ctx } => {
            let ln = expr_names(lhs);
            let rn = expr_names(rhs);
            if !all_declared(decls, ln) || ln.len() != 1 || !all_declared(decls, rn) {
                GraphState::Stuck
            } else {
                let l = node_of(decls, ln[0]);
                let rs = nodes_of(decls, rn);
                if rs.contains(l) || ctx.contains(l) {
                    GraphState::SelfLoop(ln[0])
                } else {
                    GraphState::Building {
                        edges: edges + rs.map_values(|r: int| (l, r)) + ctx.map_values(|c: int| (l, c)),
                        ctx,
                    }
                }
            }
        },
        _ => s,
    }
}

/// Adds the identifiers of a condition to the conditions at hand.
pub open spec fn add_ctx(decls: Seq<Seq<char>>, cond: ExprV, s: GraphState) -> GraphState {
    match s {
        GraphState::Building { edges, ctx } => {
            let n = expr_names(cond);
            if !all_declared(decls, n) {
                GraphState::Stuck
            } else {
                GraphState::Building { edges, ctx: ctx + nodes_of(decls, n) }
            }
        },
        _ => s,
    }
}

/// Forgets the conditions at hand.
pub open spec fn clear_ctx(s: GraphState) -> GraphState {
    match s {
        GraphState::Building { edges, ctx } => GraphState::Building { edges, ctx: seq![] },
        _ => s,
    }
}

/// Whether a conditional or case statement may start here: no condition is
/// at hand.
pub open spec fn ctx_empty(s: GraphState) -> bool {
    match s {
        GraphState::Building { ctx, .. } => ctx.len() == 0,
        _ => true,
    }
}

/// Edges of a statement of a combinational block.
pub open spec fn g_stmt(decls: Seq<Seq<char>>, st: StmtV, s: GraphState) -> GraphState
    decreases st,
{
    if !(s is Building) {
        s
    } else {
        match st {
            StmtV::Blocking(l, r) => add_edges(decls, l, r, s),
            StmtV::Nonblocking(l, r) => add_edges(decls, l, r, s),
            StmtV::Conditional(b, e) => if !ctx_empty(s) {
                GraphState::Stuck
            } else {
                clear_ctx(g_stmts(decls, e, g_branches(decls, b, s)))
            },
            StmtV::Loop(_, _, b) => g_stmts(decls, b, s),
            StmtV::Case(e, cases, d) => if !ctx_empty(s) {
                GraphState::Stuck
            } else {
                clear_ctx(g_stmts(decls, d, g_cases(decls, cases, add_ctx(decls, e, s))))
            },
            StmtV::Display(_, _) => GraphState::Stuck,
            StmtV::Fatal => s,
        }
    }
}

/// Edges of statements, from the first to the last.
pub open spec fn g_stmts(decls: Seq<Seq<char>>, sts: Seq<StmtV>, s: GraphState) -> GraphState
    decreases sts,
{
    if sts.len() == 0 {
        s
    } else {
        g_stmt(decls, sts.last(), g_stmts(decls, sts.drop_last(), s))
    }
}

/// Edges of the branches of a conditional: each branch adds its condition to
/// the conditions at hand, which stay for the later branches.
pub open spec fn g_branches(decls: Seq<Seq<char>>, b: Seq<(ExprV, Seq<StmtV>)>, s: GraphState) -> GraphState
    decreases b,
{
    if b.len() == 0 {
        s
    } else {
        g_stmts(decls, b.last().1, add_ctx(decls, b.last().0, g_branches(decls, b.drop_last(), s)))
    }
}

/// Edges of the cases of a case statement.
pub open spec fn g_cases(decls: Seq<Seq<char>>, b: Seq<(ExprV, Seq<StmtV>)>, s: GraphState) -> GraphState
    decreases b,
{
    if b.len() == 0 {
        s
    } else {
        g_stmts(decls, b.last().1, g_cases(decls, b.drop_last(), s))
    }
}

/// Edges of continuous assignments.
pub open spec fn g_conts(decls: Seq<Seq<char>>, c: Seq<(ExprV, ExprV)>, s: GraphState) -> GraphState
    decreases c.len(),
{
    if c.len() == 0 {
        s
    } else {
        add_edges(decls, c.last().0, c.last().1, g_conts(decls, c.drop_last(), s))
    }
}

/// Edges of a module item.
pub open spec fn g_item(decls: Seq<Seq<char>>, it: ItemV, s: GraphState) -> GraphState
    decreases it,
{
    match it {
        ItemV::ContinuousAssigns(c) => g_conts(decls, c, s),
        ItemV::AlwaysConstruct(ev, sts) => if ev == comb_event() {
            g_stmts(decls, sts, s)
        } else {
            s
        },
        ItemV::Commented(_, _, items) => g_items(decls, items, s),
        _ => s,
    }
}

/// Edges of module items, from the first to the last.
pub open spec fn g_items(decls: Seq<Seq<char>>, s: Seq<ItemV>, st: GraphState) -> GraphState
    decreases s,
{
    if s.len() == 0 {
        st
    } else {
        g_item(decls, s.last(), g_items(decls, s.drop_last(), st))
    }
}

/// Items with every commented group replaced, at any depth, by the items it holds.
pub open spec fn flat_items(s: Seq<ItemV>) -> Seq<ItemV>
    decreases s,
{
    if s.len() == 0 {
        seq![]
    } else {
        flat_items(s.drop_last()) + flat_item(s.last())
    }
}

/// An item with commented groups replaced, at any depth, by the items they hold.
pub open spec fn flat_item(it: ItemV) -> Seq<ItemV>
    decreases it,
{
    match it {
        ItemV::Commented(_, _, items) => flat_items(items),
        _ => seq![it],
    }
}

/// Building the graph of two runs of items in turn is building it of both at once.
pub proof fn lemma_g_items_append(decls: Seq<Seq<char>>, a: Seq<ItemV>, b: Seq<ItemV>, st: GraphState)
    ensures
        g_items(decls, a + b, st) == g_items(decls, b, g_items(decls, a, st)),
    decreases b.len(),
{
    if b.len() == 0 {
        assert(a + b =~= a);
    } else {
        lemma_g_items_append(decls, a, b.drop_last(), st);
        assert((a + b).drop_last() =~= a + b.drop_last());
        assert((a + b).last() == b.last());
    }
}

/// Law: the dependency graph takes in the assignments inside commented groups as if they
/// stood in place of the group: building it over items is building it over the items with
/// every commented group, at any depth, spliced in place.
pub proof fn lemma_g_items_flat(decls: Seq<Seq<char>>, s: Seq<ItemV>, st: GraphState)
    ensures
        g_items(decls, s, st) == g_items(decls, flat_items(s), st),
    decreases s, 1nat,
{
    if s.len() > 0 {
        lemma_g_items_flat(decls, s.drop_last(), st);
        let mid = g_items(decls, s.drop_last(), st);
        lemma_g_item_flat(decls, s.last(), mid);
        lemma_g_items_append(decls, flat_items(s.drop_last()), flat_item(s.last()), st);
    }
}

/// Building the graph of an item is building it of the item with its commented groups
/// spliced in place.
pub proof fn lemma_g_item_flat(decls: Seq<Seq<char>>, it: ItemV, st: GraphState)
    ensures
        g_item(decls, it, st) == g_items(decls, flat_item(it), st),
    decreases it, 0nat,
{
    match it {
        ItemV::Commented(_, _, items) => {
            lemma_g_items_flat(decls, items, st);
        },
        _ => {
            let one = seq![it];
            assert(one.drop_last() =~= Seq::<ItemV>::empty());
            assert(one.last() == it);
            assert(g_items(decls, one.drop_last(), st) == st);
            assert(g_items(decls, one, st) == g_item(decls, it, st));
            assert(flat_item(it) == one);
        },
    }
}

/// Law: the dependency graph of a module, and so whether `detect_comb_loop` reports a loop,
/// is that of its items with every commented group (an integrated submodule) spliced in place.
pub proof fn lemma_g_module_flat(m: ModuleV)
    ensures
        g_module(m) == g_items(
            module_decls(m),
            flat_items(m.module_items),
            GraphState::Building { edges: seq![], ctx: seq![] },
        ),
{
    lemma_g_items_flat(module_decls(m), m.module_items, GraphState::Building { edges: seq![], ctx: seq![] });
}

/// Dependency graph of a module, or how building it stops.
pub open spec fn g_module(m: ModuleV) -> GraphState {
    g_items(module_decls(m), m.module_items, GraphState::Building { edges: seq![], ctx: seq![] })
}

/// Views of edges.
pub open spec fn edges_v(e: Seq<(usize, usize)>) -> Seq<(int, int)> {
    e.map_values(|x: (usize, usize)| (x.0 as int, x.1 as int))
}

/// Views of nodes.
pub open spec fn ints_v(e: Seq<usize>) -> Seq<int> {
    e.map_values(|x: usize| x as int)
}

/// The state that exec edges and conditions stand for.
pub open spec fn building(edges: Seq<(usize, usize)>, ctx: Seq<usize>) -> GraphState {
    GraphState::Building { edges: edges_v(edges), ctx: ints_v(ctx) }
}

/// Every edge endpoint and every condition is a node below `n`.
pub open spec fn bounded(e: Seq<(usize, usize)>, c: Seq<usize>, n: int) -> bool {
    &&& forall|k: int| 0 <= k < e.len() ==> (#[trigger] e[k]).0 < n && e[k].1 < n
    &&& forall|k: int| 0 <= k < c.len() ==> #[trigger] c[k] < n
}

/// The nodes of declared names are indices of declarations.
proof fn lemma_nodes_bounded(d: Seq<Seq<char>>, names: Seq<Seq<char>>)
    requires
        all_declared(d, names),
    ensures
        forall|k: int| 0 <= k < names.len() ==> 0 <= #[trigger] nodes_of(d, names)[k] < d.len(),
{
    assert forall|k: int| 0 <= k < names.len() implies 0 <= #[trigger] nodes_of(d, names)[k] < d.len() by {
        assert(first_index(d, names[k]) is Some);
        lemma_first_index(d, names[k]);
    }
}

/// Nodes appended to a list of nodes below `n` keep it below `n`.
proof fn lemma_append_bounded(o: Seq<usize>, f: Seq<usize>, nodes: Seq<int>, n: int)
    requires
        ints_v(f) == ints_v(o) + nodes,
        forall|k: int| 0 <= k < o.len() ==> #[trigger] o[k] < n,
        forall|k: int| 0 <= k < nodes.len() ==> #[trigger] nodes[k] < n,
    ensures
        forall|k: int| 0 <= k < f.len() ==> #[trigger] f[k] < n,
{
    assert(ints_v(f).len() == f.len());
    assert(ints_v(o).len() == o.len());
    assert forall|k: int| 0 <= k < f.len() implies #[trigger] f[k] < n by {
        assert(ints_v(f)[k] == f[k] as int);
        if k < o.len() {
            assert(ints_v(o)[k] == o[k] as int);
            assert((ints_v(o) + nodes)[k] == ints_v(o)[k]);
        } else {
            assert((ints_v(o) + nodes)[k] == nodes[k - o.len()]);
        }
    }
}

/// Name of a string as `{:?}` writes it.
pub uninterp spec fn debug_name(s: Seq<char>) -> Seq<char>;

/// Whether each character of `s` is an ASCII letter, digit or underscore.
pub open spec fn plain_name(s: Seq<char>) -> bool {
    forall|i: int|
        0 <= i < s.len() ==> ('a' <= #[trigger] s[i] <= 'z' || 'A' <= s[i] <= 'Z' || '0' <= s[i] <= '9' || s[i]
            == '_')
}

/// `{:?}` of a string (std's `Debug` for `str`): the string in double quotes,
/// with the characters that `char::escape_debug` escapes escaped; a name of
/// letters, digits and underscores is only quoted.
#[verifier::external_body]
fn debug_str(s: &str) -> (r: String)
    ensures
        r@ == debug_name(s@),
        plain_name(s@) ==> r@ == seq!['"'] + s@ + seq!['"'],
{
    format!("{:?}", s)
}

/// Message of a self loop on `name`.
pub open spec fn self_loop_msg(name: Seq<char>) -> Seq<char> {
    "Self loop detected: "@ + debug_name(name)
}

/// Error of a self loop on `name`.
fn self_loop_error(name: &String) -> (r: VirgenError)
    ensures
        r matches VirgenError::AnalysisError { msg } && msg@ == self_loop_msg(name@),
{
    let mut msg = String::from_str("Self loop detected: ");
    let d = debug_str(name.as_str());
    msg.append(d.as_str());
    proof {
        reveal_strlit("Self loop detected: ");
    }
    VirgenError::AnalysisError { msg }
}

/// Node of a name, when it is declared.
fn node_of_exec(decls: &Vec<String>, name: &String) -> (r: Option<usize>)
    ensures
        r is Some <==> first_index(names_v(decls@), name@) is Some,
        r matches Some(n) ==> n as int == node_of(names_v(decls@), name@) && n < decls.len(),
{
    proof {
        lemma_first_index(names_v(decls@), name@);
    }
    let mut i: usize = 0;
    while i < decls.len()
        invariant
            i <= decls.len(),
            forall|j: int| 0 <= j < i ==> names_v(decls@)[j] != name@,
            first_index(names_v(decls@), name@) matches Some(j) ==> 0 <= j < decls.len() && names_v(decls@)[j]
                == name@ && forall|k: int| 0 <= k < j ==> names_v(decls@)[k] != name@,
            first_index(names_v(decls@), name@) is Some <==> exists|j: int|
                0 <= j < decls.len() && names_v(decls@)[j] == name@,
        decreases decls.len() - i,
    {
        if decls[i].eq(name) {
            assert(names_v(decls@)[i as int] == name@);
            let ghost j = first_index(names_v(decls@), name@)->0;
            assert(j == i) by {
                if j < i {
                    assert(names_v(decls@)[j] != name@);
                } else if j > i {
                    assert(names_v(decls@)[i as int] != name@);
                }
            }
            return Some(i);
        }
        i += 1;
    }
    None
}

/// The names of two lists are declared when those of each are.
proof fn lemma_declared_append(d: Seq<Seq<char>>, a: Seq<Seq<char>>, b: Seq<Seq<char>>)
    ensures
        all_declared(d, a + b) <==> all_declared(d, a) && all_declared(d, b),
        nodes_of(d, a + b) == nodes_of(d, a) + nodes_of(d, b),
{
    if all_declared(d, a + b) {
        assert forall|i: int| 0 <= i < a.len() implies (#[trigger] first_index(d, a[i])) is Some by {
            assert((a + b)[i] == a[i]);
        }
        assert forall|i: int| 0 <= i < b.len() implies (#[trigger] first_index(d, b[i])) is Some by {
            assert((a + b)[a.len() + i] == b[i]);
        }
    }
    if all_declared(d, a) && all_declared(d, b) {
        assert forall|i: int| 0 <= i < (a + b).len() implies (#[trigger] first_index(d, (a + b)[i])) is Some by {
            if i < a.len() {
                assert((a + b)[i] == a[i]);
            } else {
                assert((a + b)[i] == b[i - a.len()]);
            }
        }
    }
    assert(nodes_of(d, a + b) =~= nodes_of(d, a) + nodes_of(d, b));
}

/// Appends the nodes of the identifiers that `e` reads, when all of them are
/// declared; returns whether they are.
fn push_expr_nodes(e: &Expression, decls: &Vec<String>, out: &mut Vec<usize>) -> (ok: bool)
    ensures
        ok == all_declared(names_v(decls@), expr_names(e@)),
        ok ==> ints_v(final(out)@) == ints_v(old(out)@) + nodes_of(names_v(decls@), expr_names(e@)),
    decreases e,
{
    let ghost d = names_v(decls@);
    match e {
        Expression::Primary(p) => push_prim_nodes(p, decls, out),
        Expression::Unary(_, p) => push_prim_nodes(p, decls, out),
        Expression::Binary(l, _, r) => {
            let ghost nl = expr_names(expr_v(**l));
            let ghost nr = expr_names(expr_v(**r));
            proof {
                assert(expr_names(e@) == nl + nr);
                lemma_declared_append(d, nl, nr);
            }
            if !push_expr_nodes(l, decls, out) {
                return false;
            }
            push_expr_nodes(r, decls, out)
        },
        Expression::Conditional(c, t, f) => {
            let ghost nc = expr_names(expr_v(**c));
            let ghost nt = expr_names(expr_v(**t));
            let ghost nf = expr_names(expr_v(**f));
            proof {
                assert(expr_names(e@) == nc + nt + nf);
                lemma_declared_append(d, nc, nt);
                lemma_declared_append(d, nc + nt, nf);
            }
            if !push_expr_nodes(c, decls, out) {
                return false;
            }
            if !push_expr_nodes(t, decls, out) {
                return false;
            }
            push_expr_nodes(f, decls, out)
        },
    }
}

/// Appends the nodes of the identifiers that `p` reads, when all of them are
/// declared; returns whether they are.
fn push_prim_nodes(p: &Primary, decls: &Vec<String>, out: &mut Vec<usize>) -> (ok: bool)
    ensures
        ok == all_declared(names_v(decls@), prim_names(prim_v(*p))),
        ok ==> ints_v(final(out)@) == ints_v(old(out)@) + nodes_of(names_v(decls@), prim_names(prim_v(*p))),
    decreases p,
{
    let ghost d = names_v(decls@);
    let ghost o0 = out@;
    match p {
        Primary::Number(_) => {
            assert(ints_v(out@) =~= ints_v(o0) + nodes_of(d, prim_names(prim_v(*p))));
            true
        },
        Primary::HierarchicalIdentifier(x, _) => {
            assert(prim_names(prim_v(*p)) == seq![x@]);
            match node_of_exec(decls, x) {
                Some(n) => {
                    out.push(n);
                    assert(ints_v(out@) =~= ints_v(o0) + nodes_of(d, prim_names(prim_v(*p))));
                    true
                },
                None => {
                    assert(!(first_index(d, prim_names(prim_v(*p))[0]) is Some));
                    false
                },
            }
        },
        Primary::Concatenation(c) => push_exprs_nodes(&c.exprs, decls, out),
        Primary::MultipleConcatenation(_, c) => push_exprs_nodes(&c.exprs, decls, out),
        Primary::MintypmaxExpression(e) => push_expr_nodes(e, decls, out),
    }
}

/// Appends the nodes of the identifiers that expressions read, when all of
/// them are declared; returns whether they are.
fn push_exprs_nodes(v: &Vec<Expression>, decls: &Vec<String>, out: &mut Vec<usize>) -> (ok: bool)
    ensures
        ok == all_declared(names_v(decls@), exprs_names(exprs_v(v@))),
        ok ==> ints_v(final(out)@) == ints_v(old(out)@) + nodes_of(names_v(decls@), exprs_names(exprs_v(v@))),
    decreases v,
{
    let ghost d = names_v(decls@);
    let ghost ev = exprs_v(v@);
    let ghost o0 = out@;
    let mut i: usize = 0;
    while i < v.len()
        invariant
            i <= v.len(),
            d == names_v(decls@),
            ev == exprs_v(v@),
            all_declared(d, exprs_names(ev.take(i as int))),
            ints_v(out@) == ints_v(o0) + nodes_of(d, exprs_names(ev.take(i as int))),
        decreases v.len() - i,
    {
        let ghost pre = exprs_names(ev.take(i as int));
        let ghost cur = expr_names(expr_v(v@[i as int]));
        proof {
            let t = ev.take(i + 1);
            assert(t.drop_last() =~= ev.take(i as int));
            assert(exprs_names(t) == pre + cur);
            lemma_declared_append(d, pre, cur);
        }
        assert(decreases_to!(v => v@[i as int]));
        if !push_expr_nodes(&v[i], decls, out) {
            proof {
                if all_declared(d, exprs_names(ev)) {
                    lemma_exprs_names_prefix_declared(d, ev, i + 1);
                }
            }
            return false;
        }
        i += 1;
    }
    assert(ev.take(v.len() as int) =~= ev);
    true
}

/// The names read by a prefix of expressions are declared when all the names
/// read by the expressions are.
proof fn lemma_exprs_names_prefix_declared(d: Seq<Seq<char>>, s: Seq<ExprV>, k: int)
    requires
        0 <= k <= s.len(),
        all_declared(d, exprs_names(s)),
    ensures
        all_declared(d, exprs_names(s.take(k))),
    decreases s.len() - k,
{
    if k == s.len() {
        assert(s.take(k) =~= s);
    } else {
        lemma_exprs_names_prefix_declared(d, s, k + 1);
        let t = s.take(k + 1);
        assert(t.drop_last() =~= s.take(k));
        lemma_declared_append(d, exprs_names(s.take(k)), expr_names(t.last()));
    }
}

/// Statements after the graph building stopped leave it stopped.
pub proof fn lemma_stmts_absorb(d: Seq<Seq<char>>, sts: Seq<StmtV>, s: GraphState)
    requires
        !(s is Building),
    ensures
        g_stmts(d, sts, s) == s,
    decreases sts.len(),
{
    if sts.len() > 0 {
        lemma_stmts_absorb(d, sts.drop_last(), s);
        assert(g_stmt(d, sts.last(), s) == s);
    }
}

/// Continuous assignments after the graph building stopped leave it stopped.
pub proof fn lemma_conts_absorb(d: Seq<Seq<char>>, c: Seq<(ExprV, ExprV)>, s: GraphState)
    requires
        !(s is Building),
    ensures
        g_conts(d, c, s) == s,
    decreases c.len(),
{
    if c.len() > 0 {
        lemma_conts_absorb(d, c.drop_last(), s);
        assert(add_edges(d, c.last().0, c.last().1, s) == s);
    }
}

/// Module items after the graph building stopped leave it stopped.
pub proof fn lemma_items_absorb(d: Seq<Seq<char>>, items: Seq<ItemV>, s: GraphState)
    requires
        !(s is Building),
    ensures
        g_items(d, items, s) == s,
    decreases items,
{
    if items.len() > 0 {
        lemma_items_absorb(d, items.drop_last(), s);
        lemma_item_absorb(d, items.last(), s);
        assert(g_items(d, items, s) == g_item(d, items.last(), g_items(d, items.drop_last(), s)));
    }
}

/// A module item after the graph building stopped leaves it stopped.
pub proof fn lemma_item_absorb(d: Seq<Seq<char>>, it: ItemV, s: GraphState)
    requires
        !(s is Building),
    ensures
        g_item(d, it, s) == s,
    decreases it,
{
    match it {
        ItemV::ContinuousAssigns(c) => lemma_conts_absorb(d, c, s),
        ItemV::AlwaysConstruct(_, sts) => lemma_stmts_absorb(d, sts, s),
        ItemV::Commented(_, _, items) => lemma_items_absorb(d, items, s),
        _ => {},
    }
}

/// Once a prefix of the statements stops the graph building, all of them
/// stop it the same way.
proof fn lemma_stmts_prefix(d: Seq<Seq<char>>, sts: Seq<StmtV>, s: GraphState, k: int)
    requires
        0 <= k <= sts.len(),
        !(g_stmts(d, sts.take(k), s) is Building),
    ensures
        g_stmts(d, sts, s) == g_stmts(d, sts.take(k), s),
    decreases sts.len() - k,
{
    if k == sts.len() {
        assert(sts.take(k) =~= sts);
    } else {
        let t = sts.take(k + 1);
        assert(t.drop_last() =~= sts.take(k));
        let x = g_stmts(d, sts.take(k), s);
        assert(g_stmts(d, t, s) == g_stmt(d, t.last(), x));
        assert(g_stmt(d, t.last(), x) == x);
        lemma_stmts_prefix(d, sts, s, k + 1);
    }
}

/// Once a prefix of the branches stops the graph building, all of them stop
/// it the same way.
proof fn lemma_branches_prefix(d: Seq<Seq<char>>, b: Seq<(ExprV, Seq<StmtV>)>, s: GraphState, k: int)
    requires
        0 <= k <= b.len(),
        !(g_branches(d, b.take(k), s) is Building),
    ensures
        g_branches(d, b, s) == g_branches(d, b.take(k), s),
    decreases b.len() - k,
{
    if k == b.len() {
        assert(b.take(k) =~= b);
    } else {
        let t = b.take(k + 1);
        assert(t.drop_last() =~= b.take(k));
        let x = g_branches(d, b.take(k), s);
        assert(add_ctx(d, t.last().0, x) == x);
        lemma_stmts_absorb(d, t.last().1, x);
        assert(g_branches(d, t, s) == g_stmts(d, t.last().1, add_ctx(d, t.last().0, x)));
        lemma_branches_prefix(d, b, s, k + 1);
    }
}

/// Once a prefix of the cases stops the graph building, all of them stop it
/// the same way.
proof fn lemma_cases_prefix(d: Seq<Seq<char>>, b: Seq<(ExprV, Seq<StmtV>)>, s: GraphState, k: int)
    requires
        0 <= k <= b.len(),
        !(g_cases(d, b.take(k), s) is Building),
    ensures
        g_cases(d, b, s) == g_cases(d, b.take(k), s),
    decreases b.len() - k,
{
    if k == b.len() {
        assert(b.take(k) =~= b);
    } else {
        let t = b.take(k + 1);
        assert(t.drop_last() =~= b.take(k));
        let x = g_cases(d, b.take(k), s);
        lemma_stmts_absorb(d, t.last().1, x);
        assert(g_cases(d, t, s) == g_stmts(d, t.last().1, x));
        lemma_cases_prefix(d, b, s, k + 1);
    }
}

/// Once a prefix of the continuous assignments stops the graph building, all
/// of them stop it the same way.
proof fn lemma_conts_prefix(d: Seq<Seq<char>>, c: Seq<(ExprV, ExprV)>, s: GraphState, k: int)
    requires
        0 <= k <= c.len(),
        !(g_conts(d, c.take(k), s) is Building),
    ensures
        g_conts(d, c, s) == g_conts(d, c.take(k), s),
    decreases c.len() - k,
{
    if k == c.len() {
        assert(c.take(k) =~= c);
    } else {
        let t = c.take(k + 1);
        assert(t.drop_last() =~= c.take(k));
        let x = g_conts(d, c.take(k), s);
        assert(g_conts(d, t, s) == add_edges(d, t.last().0, t.last().1, x));
        assert(add_edges(d, t.last().0, t.last().1, x) == x);
        lemma_conts_prefix(d, c, s, k + 1);
    }
}

/// Once a prefix of the module items stops the graph building, all of them
/// stop it the same way.
proof fn lemma_items_prefix(d: Seq<Seq<char>>, items: Seq<ItemV>, s: GraphState, k: int)
    requires
        0 <= k <= items.len(),
        !(g_items(d, items.take(k), s) is Building),
    ensures
        g_items(d, items, s) == g_items(d, items.take(k), s),
    decreases items.len() - k,
{
    if k == items.len() {
        assert(items.take(k) =~= items);
    } else {
        let t = items.take(k + 1);
        assert(t.drop_last() =~= items.take(k));
        let x = g_items(d, items.take(k), s);
        lemma_item_absorb(d, t.last(), x);
        assert(g_items(d, t, s) == g_item(d, t.last(), x));
        lemma_items_prefix(d, items, s, k + 1);
    }
}

/// Why building the dependency graph stopped.
enum BuildStop {
    /// An assignment reads its own target
    SelfLoop(VirgenError),
    /// The module is outside what the analysis handles
    Unsupported,
}

/// The exec outcome `r`, edges `e` and conditions `c` agree with the state `s`.
spec fn built(s: GraphState, r: Result<(), BuildStop>, e: Seq<(usize, usize)>, c: Seq<usize>) -> bool {
    match s {
        GraphState::Building { edges, ctx } => r is Ok && edges_v(e) == edges && ints_v(c) == ctx,
        GraphState::SelfLoop(x) => (r matches Err(BuildStop::SelfLoop(VirgenError::AnalysisError { msg })) && msg@
            == self_loop_msg(x)),
        GraphState::Stuck => r matches Err(BuildStop::Unsupported),
    }
}

/// Adds the edges of the assignment `lhs = rhs`.
#[verifier::loop_isolation(false)]
fn add_assignment_edge(
    decls: &Vec<String>,
    lhs: &Expression,
    rhs: &Expression,
    edges: &mut Vec<(usize, usize)>,
    ctx: &Vec<usize>,
) -> (r: Result<(), BuildStop>)
    requires
        bounded(old(edges)@, ctx@, decls.len() as int),
    ensures
        built(add_edges(names_v(decls@), lhs@, rhs@, building(old(edges)@, ctx@)), r, final(edges)@, ctx@),
        r is Ok ==> bounded(final(edges)@, ctx@, decls.len() as int),
{
    let ghost d = names_v(decls@);
    let ghost e0 = edges_v(edges@);
    let mut ln: Vec<usize> = Vec::new();
    if !push_expr_nodes(lhs, decls, &mut ln) {
        return Err(BuildStop::Unsupported);
    }
    assert(ints_v(ln@) =~= nodes_of(d, expr_names(lhs@)));
    if ln.len() != 1 {
        return Err(BuildStop::Unsupported);
    }
    let mut rs: Vec<usize> = Vec::new();
    if !push_expr_nodes(rhs, decls, &mut rs) {
        return Err(BuildStop::Unsupported);
    }
    assert(ints_v(rs@) =~= nodes_of(d, expr_names(rhs@)));
    proof {
        lemma_nodes_bounded(d, expr_names(rhs@));
        assert forall|k: int| 0 <= k < rs.len() implies #[trigger] rs@[k] < decls.len() by {
            assert(ints_v(rs@)[k] == rs@[k] as int);
        }
    }
    let l = ln[0];
    let ghost lname = expr_names(lhs@)[0];
    proof {
        assert(first_index(d, lname) is Some);
        lemma_first_index(d, lname);
        assert(ints_v(ln@)[0] == l as int);
        assert(l as int == node_of(d, lname));
        assert(d[l as int] == lname);
        assert(decls@[l as int]@ == lname);
    }
    let ghost rsv = ints_v(rs@);
    let mut i: usize = 0;
    while i < rs.len()
        invariant
            i <= rs.len(),
            rsv == ints_v(rs@),
            edges_v(edges@) == e0 + rsv.take(i as int).map_values(|r: int| (l as int, r)),
            forall|j: int| 0 <= j < i ==> rs@[j] != l,
            bounded(edges@, ctx@, decls.len() as int),
        decreases rs.len() - i,
    {
        if rs[i] == l {
            assert(rsv[i as int] == l as int);
            return Err(BuildStop::SelfLoop(self_loop_error(&decls[l])));
        }
        let ghost before = edges@;
        edges.push((l, rs[i]));
        assert(rsv.take(i + 1).map_values(|r: int| (l as int, r)) =~= rsv.take(i as int).map_values(
            |r: int| (l as int, r),
        ).push((l as int, rs@[i as int] as int)));
        assert(edges_v(edges@) =~= edges_v(before).push((l as int, rs@[i as int] as int)));
        i += 1;
    }
    assert(rsv.take(rs.len() as int) =~= rsv);
    assert(!rsv.contains(l as int)) by {
        if rsv.contains(l as int) {
            let j = choose|j: int| 0 <= j < rsv.len() && rsv[j] == l as int;
            assert(rs@[j] == l);
        }
    }
    let ghost e1 = edges_v(edges@);
    let ghost cv = ints_v(ctx@);
    let mut i: usize = 0;
    while i < ctx.len()
        invariant
            i <= ctx.len(),
            cv == ints_v(ctx@),
            edges_v(edges@) == e1 + cv.take(i as int).map_values(|c: int| (l as int, c)),
            forall|j: int| 0 <= j < i ==> ctx@[j] != l,
            bounded(edges@, ctx@, decls.len() as int),
        decreases ctx.len() - i,
    {
        if ctx[i] == l {
            assert(cv[i as int] == l as int);
            return Err(BuildStop::SelfLoop(self_loop_error(&decls[l])));
        }
        let ghost before = edges@;
        edges.push((l, ctx[i]));
        assert(cv.take(i + 1).map_values(|c: int| (l as int, c)) =~= cv.take(i as int).map_values(
            |c: int| (l as int, c),
        ).push((l as int, ctx@[i as int] as int)));
        assert(edges_v(edges@) =~= edges_v(before).push((l as int, ctx@[i as int] as int)));
        i += 1;
    }
    assert(cv.take(ctx.len() as int) =~= cv);
    assert(!cv.contains(l as int)) by {
        if cv.contains(l as int) {
            let j = choose|j: int| 0 <= j < cv.len() && cv[j] == l as int;
            assert(ctx@[j] == l);
        }
    }
    Ok(())
}

/// Adds the edges of a statement of a combinational block.
fn graph_stmt(decls: &Vec<String>, st: &Statement, edges: &mut Vec<(usize, usize)>, ctx: &mut Vec<usize>) -> (r:
    Result<(), BuildStop>)
    requires
        bounded(old(edges)@, old(ctx)@, decls.len() as int),
    ensures
        built(g_stmt(names_v(decls@), st@, building(old(edges)@, old(ctx)@)), r, final(edges)@, final(ctx)@),
        r is Ok ==> bounded(final(edges)@, final(ctx)@, decls.len() as int),
    decreases st,
{
    let ghost d = names_v(decls@);
    let ghost s0 = building(edges@, ctx@);
    match st {
        Statement::BlockingAssignment(l, r) => add_assignment_edge(decls, l, r, edges, ctx),
        Statement::NonblockingAssignment(l, r) => add_assignment_edge(decls, l, r, edges, ctx),
        Statement::Conditional(pairs, els) => {
            if ctx.len() != 0 {
                return Err(BuildStop::Unsupported);
            }
            let ghost bv = branches_v(pairs@);
            let mut j: usize = 0;
            while j < pairs.len()
                invariant
                    j <= pairs.len(),
                    d == names_v(decls@),
                    bv == branches_v(pairs@),
                    building(edges@, ctx@) == g_branches(d, bv.take(j as int), s0),
                    bounded(edges@, ctx@, decls.len() as int),
                    s0 == building(old(edges)@, old(ctx)@),
                    *st == Statement::Conditional(*pairs, *els),
                    st@ == StmtV::Conditional(bv, stmts_v(els@)),
                    s0 is Building,
                    ctx_empty(s0),
                decreases pairs.len() - j,
            {
                let ghost sb = building(edges@, ctx@);
                let ghost t = bv.take(j + 1);
                proof {
                    assert(t.drop_last() =~= bv.take(j as int));
                    assert(t.last() == (expr_v(pairs@[j as int].0), stmts_v(pairs@[j as int].1@)));
                }
                let ghost c0 = ctx@;
                if !push_expr_nodes(&pairs[j].0, decls, ctx) {
                    proof {
                        assert(add_ctx(d, t.last().0, sb) == GraphState::Stuck);
                        lemma_stmts_absorb(d, t.last().1, GraphState::Stuck);
                        assert(g_branches(d, t, s0) == g_stmts(d, t.last().1, add_ctx(d, t.last().0, sb)));
                        lemma_branches_prefix(d, bv, s0, j + 1);
                        lemma_stmts_absorb(d, stmts_v(els@), GraphState::Stuck);
                        assert(g_stmt(d, st@, s0) == clear_ctx(g_stmts(d, stmts_v(els@), g_branches(d, bv, s0))));
                    }
                    return Err(BuildStop::Unsupported);
                }
                proof {
                    assert(ints_v(ctx@) =~= ints_v(c0) + nodes_of(d, expr_names(t.last().0)));
                    assert(building(edges@, ctx@) == add_ctx(d, t.last().0, sb));
                    lemma_nodes_bounded(d, expr_names(t.last().0));
                    lemma_append_bounded(c0, ctx@, nodes_of(d, expr_names(t.last().0)), decls.len() as int);
                }
                assert(decreases_to!(st => st->Conditional_0));
                assert(decreases_to!(pairs => pairs@[j as int]));
                assert(decreases_to!(pairs@[j as int] => pairs@[j as int].1));
                match graph_stmts(decls, &pairs[j].1, edges, ctx) {
                    Ok(()) => {},
                    Err(e) => {
                        proof {
                            let x = g_branches(d, t, s0);
                            assert(x == g_stmts(d, t.last().1, add_ctx(d, t.last().0, sb)));
                            lemma_branches_prefix(d, bv, s0, j + 1);
                            lemma_stmts_absorb(d, stmts_v(els@), x);
                            assert(g_stmt(d, st@, s0) == clear_ctx(g_stmts(d, stmts_v(els@), g_branches(d, bv, s0))));
                        }
                        return Err(e);
                    },
                }
                j += 1;
            }
            assert(bv.take(pairs.len() as int) =~= bv);
            assert(decreases_to!(st => st->Conditional_1));
            match graph_stmts(decls, els, edges, ctx) {
                Ok(()) => {},
                Err(e) => {
                    return Err(e);
                },
            }
            ctx.clear();
            assert(ints_v(ctx@) =~= Seq::<int>::empty());
            Ok(())
        },
        Statement::Loop(_, _, body) => {
            assert(decreases_to!(st => st->Loop_2));
            graph_stmts(decls, body, edges, ctx)
        },
        Statement::Case(e, cases, dflt) => {
            if ctx.len() != 0 {
                return Err(BuildStop::Unsupported);
            }
            let ghost cv = branches_v(cases@);
            let ghost c0 = ctx@;
            if !push_expr_nodes(e, decls, ctx) {
                proof {
                    let x = add_ctx(d, e@, s0);
                    assert(x == GraphState::Stuck);
                    assert(cv.take(0) =~= Seq::<(ExprV, Seq<StmtV>)>::empty());
                    lemma_cases_prefix(d, cv, x, 0);
                    lemma_stmts_absorb(d, stmts_v(dflt@), GraphState::Stuck);
                }
                return Err(BuildStop::Unsupported);
            }
            let ghost s1 = building(edges@, ctx@);
            proof {
                assert(ints_v(ctx@) =~= ints_v(c0) + nodes_of(d, expr_names(e@)));
                assert(s1 == add_ctx(d, e@, s0));
                lemma_nodes_bounded(d, expr_names(e@));
                lemma_append_bounded(c0, ctx@, nodes_of(d, expr_names(e@)), decls.len() as int);
                assert(cv.take(0) =~= Seq::<(ExprV, Seq<StmtV>)>::empty());
            }
            let mut j: usize = 0;
            while j < cases.len()
                invariant
                    j <= cases.len(),
                    d == names_v(decls@),
                    cv == branches_v(cases@),
                    building(edges@, ctx@) == g_cases(d, cv.take(j as int), s1),
                    bounded(edges@, ctx@, decls.len() as int),
                    s0 == building(old(edges)@, old(ctx)@),
                    *st == Statement::Case(*e, *cases, *dflt),
                    st@ == StmtV::Case(e@, cv, stmts_v(dflt@)),
                    s1 == add_ctx(d, e@, s0),
                    s0 is Building,
                    ctx_empty(s0),
                decreases cases.len() - j,
            {
                let ghost t = cv.take(j + 1);
                proof {
                    assert(t.drop_last() =~= cv.take(j as int));
                    assert(t.last() == (expr_v(cases@[j as int].0), stmts_v(cases@[j as int].1@)));
                }
                assert(decreases_to!(st => st->Case_1));
                assert(decreases_to!(cases => cases@[j as int]));
                assert(decreases_to!(cases@[j as int] => cases@[j as int].1));
                match graph_stmts(decls, &cases[j].1, edges, ctx) {
                    Ok(()) => {},
                    Err(err) => {
                        proof {
                            let x = g_cases(d, t, s1);
                            assert(x == g_stmts(d, t.last().1, g_cases(d, cv.take(j as int), s1)));
                            lemma_cases_prefix(d, cv, s1, j + 1);
                            lemma_stmts_absorb(d, stmts_v(dflt@), x);
                            assert(g_stmt(d, st@, s0) == clear_ctx(g_stmts(d, stmts_v(dflt@), g_cases(d, cv, s1))));
                        }
                        return Err(err);
                    },
                }
                j += 1;
            }
            assert(cv.take(cases.len() as int) =~= cv);
            assert(decreases_to!(st => st->Case_2));
            match graph_stmts(decls, dflt, edges, ctx) {
                Ok(()) => {},
                Err(err) => {
                    return Err(err);
                },
            }
            ctx.clear();
            assert(ints_v(ctx@) =~= Seq::<int>::empty());
            Ok(())
        },
        Statement::Display(_, _) => Err(BuildStop::Unsupported),
        Statement::Fatal => Ok(()),
    }
}

/// Adds the edges of statements of a combinational block, from the first to
/// the last.
fn graph_stmts(decls: &Vec<String>, sts: &Vec<Statement>, edges: &mut Vec<(usize, usize)>, ctx: &mut Vec<usize>) -> (r:
    Result<(), BuildStop>)
    requires
        bounded(old(edges)@, old(ctx)@, decls.len() as int),
    ensures
        built(g_stmts(names_v(decls@), stmts_v(sts@), building(old(edges)@, old(ctx)@)), r, final(edges)@, final(ctx)@),
        r is Ok ==> bounded(final(edges)@, final(ctx)@, decls.len() as int),
    decreases sts,
{
    let ghost d = names_v(decls@);
    let ghost s0 = building(edges@, ctx@);
    let ghost sv = stmts_v(sts@);
    let mut i: usize = 0;
    assert(sv.take(0) =~= Seq::<StmtV>::empty());
    while i < sts.len()
        invariant
            i <= sts.len(),
            d == names_v(decls@),
            sv == stmts_v(sts@),
            building(edges@, ctx@) == g_stmts(d, sv.take(i as int), s0),
            bounded(edges@, ctx@, decls.len() as int),
            s0 == building(old(edges)@, old(ctx)@),
        decreases sts.len() - i,
    {
        let ghost t = sv.take(i + 1);
        proof {
            assert(t.drop_last() =~= sv.take(i as int));
            assert(t.last() == stmt_v(sts@[i as int]));
        }
        assert(decreases_to!(sts => sts@[i as int]));
        match graph_stmt(decls, &sts[i], edges, ctx) {
            Ok(()) => {},
            Err(e) => {
                proof {
                    assert(g_stmts(d, t, s0) == g_stmt(d, t.last(), g_stmts(d, sv.take(i as int), s0)));
                    assert(built(g_stmts(d, t, s0), Err(e), edges@, ctx@));
                    assert(!(g_stmts(d, t, s0) is Building));
                    lemma_stmts_prefix(d, sv, s0, i + 1);
                    assert(g_stmts(d, sv, s0) == g_stmts(d, t, s0));
                }
                return Err(e);
            },
        }
        i += 1;
    }
    assert(sv.take(sts.len() as int) =~= sv);
    Ok(())
}

/// Adds the edges of a module item.
fn graph_item(decls: &Vec<String>, item: &ModuleItem, edges: &mut Vec<(usize, usize)>, ctx: &mut Vec<usize>) -> (r:
    Result<(), BuildStop>)
    requires
        bounded(old(edges)@, old(ctx)@, decls.len() as int),
    ensures
        built(g_item(names_v(decls@), item@, building(old(edges)@, old(ctx)@)), r, final(edges)@, final(ctx)@),
        r is Ok ==> bounded(final(edges)@, final(ctx)@, decls.len() as int),
    decreases item,
{
    let ghost d = names_v(decls@);
    let ghost s0 = building(edges@, ctx@);
    match item {
        ModuleItem::ContinuousAssigns(conts) => {
            let ghost cv = conts_v(conts@);
            let mut k: usize = 0;
            assert(cv.take(0) =~= Seq::<(ExprV, ExprV)>::empty());
            assert(g_item(d, item@, s0) == g_conts(d, cv, s0));
            while k < conts.len()
                invariant
                    k <= conts.len(),
                    d == names_v(decls@),
                    cv == conts_v(conts@),
                    building(edges@, ctx@) == g_conts(d, cv.take(k as int), s0),
                    bounded(edges@, ctx@, decls.len() as int),
                    g_item(d, item@, s0) == g_conts(d, cv, s0),
                    s0 == building(old(edges)@, old(ctx)@),
                decreases conts.len() - k,
            {
                let ghost t = cv.take(k + 1);
                proof {
                    assert(t.drop_last() =~= cv.take(k as int));
                    assert(t.last() == (expr_v(conts@[k as int].0), expr_v(conts@[k as int].1)));
                }
                match add_assignment_edge(decls, &conts[k].0, &conts[k].1, edges, ctx) {
                    Ok(()) => {},
                    Err(e) => {
                        proof {
                            assert(g_conts(d, t, s0) == add_edges(d, t.last().0, t.last().1, g_conts(d, cv.take(k as int), s0)));
                            lemma_conts_prefix(d, cv, s0, k + 1);
                        }
                        return Err(e);
                    },
                }
                k += 1;
            }
            assert(cv.take(conts.len() as int) =~= cv);
            Ok(())
        },
        ModuleItem::AlwaysConstruct(event, sts) => {
            if eq_str(event.as_str(), "always @*") {
                graph_stmts(decls, sts, edges, ctx)
            } else {
                Ok(())
            }
        },
        ModuleItem::Commented(_, _, items) => {
            assert(decreases_to!(item => item->Commented_2));
            graph_items(decls, items, edges, ctx)
        },
        _ => Ok(()),
    }
}

/// Adds the edges of module items, from the first to the last.
fn graph_items(decls: &Vec<String>, items: &Vec<ModuleItem>, edges: &mut Vec<(usize, usize)>, ctx: &mut Vec<usize>) -> (r:
    Result<(), BuildStop>)
    requires
        bounded(old(edges)@, old(ctx)@, decls.len() as int),
    ensures
        built(g_items(names_v(decls@), items_v(items@), building(old(edges)@, old(ctx)@)), r, final(edges)@, final(ctx)@),
        r is Ok ==> bounded(final(edges)@, final(ctx)@, decls.len() as int),
    decreases items,
{
    let ghost d = names_v(decls@);
    let ghost s0 = building(edges@, ctx@);
    let ghost iv = items_v(items@);
    let mut i: usize = 0;
    assert(iv.take(0) =~= Seq::<ItemV>::empty());
    while i < items.len()
        invariant
            i <= items.len(),
            d == names_v(decls@),
            iv == items_v(items@),
            building(edges@, ctx@) == g_items(d, iv.take(i as int), s0),
            bounded(edges@, ctx@, decls.len() as int),
            s0 == building(old(edges)@, old(ctx)@),
        decreases items.len() - i,
    {
        let ghost t = iv.take(i + 1);
        proof {
            assert(t.drop_last() =~= iv.take(i as int));
            assert(t.last() == item_v(items@[i as int]));
        }
        assert(decreases_to!(items => items@[i as int]));
        match graph_item(decls, &items[i], edges, ctx) {
            Ok(()) => {},
            Err(e) => {
                proof {
                    assert(g_items(d, t, s0) == g_item(d, t.last(), g_items(d, iv.take(i as int), s0)));
                    lemma_items_prefix(d, iv, s0, i + 1);
                }
                return Err(e);
            },
        }
        i += 1;
    }
    assert(iv.take(items.len() as int) =~= iv);
    Ok(())
}

/// An edge from `a` to `b`.
pub open spec fn has_edge(edges: Seq<(int, int)>, a: int, b: int) -> bool {
    edges.contains((a, b))
}

/// Each node of `p` has an edge to the next one.
pub open spec fn is_path(edges: Seq<(int, int)>, p: Seq<int>) -> bool {
    forall|i: int| 0 <= i < p.len() - 1 ==> #[trigger] has_edge(edges, p[i], p[i + 1])
}

/// The graph has a cycle: a path whose last node has an edge to its first.
pub open spec fn has_cycle(edges: Seq<(int, int)>) -> bool {
    exists|p: Seq<int>| p.len() > 0 && is_path(edges, p) && #[trigger] has_edge(edges, p.last(), p[0])
}

/// Edges of an adjacency list.
pub open spec fn adj_edges(adj: Seq<Vec<usize>>) -> Seq<(int, int)>
    decreases adj.len(),
{
    if adj.len() == 0 {
        seq![]
    } else {
        adj_edges(adj.drop_last()) + adj.last()@.map_values(|b: usize| ((adj.len() - 1) as int, b as int))
    }
}

/// Message of a combinational loop along the nodes `p`.
pub open spec fn loop_msg(d: Seq<Seq<char>>, p: Seq<int>) -> Seq<char> {
    "Combinational loop detected. Stack "@ + seq_join(p.map_values(|i: int| d[i]), " -> "@)
}

/// `msg` reports a combinational loop: the names along a path of nodes below
/// `d.len()` whose last node has an edge back to one of them.
pub open spec fn is_loop_msg(d: Seq<Seq<char>>, edges: Seq<(int, int)>, msg: Seq<char>) -> bool {
    exists|p: Seq<int>|
        #![trigger loop_msg(d, p)]
        p.len() > 0 && is_path(edges, p) && (forall|i: int| 0 <= i < p.len() ==> 0 <= #[trigger] p[i] < d.len())
            && (exists|j: int| 0 <= j < p.len() && #[trigger] has_edge(edges, p.last(), p[j])) && msg == loop_msg(
            d,
            p,
        )
}

/// Number of unvisited nodes.
pub open spec fn count_false(v: Seq<bool>) -> nat
    decreases v.len(),
{
    if v.len() == 0 {
        0
    } else {
        count_false(v.drop_last()) + if v.last() {
            0nat
        } else {
            1nat
        }
    }
}

/// Visiting more nodes leaves no more of them unvisited, and fewer when one
/// more node is visited.
proof fn lemma_count_false(a: Seq<bool>, b: Seq<bool>, k: int)
    requires
        a.len() == b.len(),
        forall|i: int| 0 <= i < a.len() ==> a[i] ==> #[trigger] b[i],
    ensures
        count_false(b) <= count_false(a),
        0 <= k < a.len() && !a[k] && b[k] ==> count_false(b) < count_false(a),
    decreases a.len(),
{
    if a.len() > 0 {
        lemma_count_false(a.drop_last(), b.drop_last(), k);
        assert(a.last() ==> b.last());
        if k == a.len() - 1 {
        }
    }
}

/// Invariant of the depth-first search: visited nodes are those on the stack
/// and the finished ones, the stack is a path, and each edge from a finished
/// node goes to a node finished earlier.
pub open spec fn dfs_inv(
    edges: Seq<(int, int)>,
    n: int,
    visited: Seq<bool>,
    stack: Seq<usize>,
    finished: Seq<usize>,
) -> bool {
    &&& visited.len() == n
    &&& forall|i: int, j: int| 0 <= i < j < stack.len() ==> stack[i] != stack[j]
    &&& forall|i: int, j: int| 0 <= i < j < finished.len() ==> finished[i] != finished[j]
    &&& forall|i: int, j: int| 0 <= i < stack.len() && 0 <= j < finished.len() ==> stack[i] != finished[j]
    &&& forall|i: int| 0 <= i < stack.len() ==> #[trigger] stack[i] < n
    &&& forall|i: int| 0 <= i < finished.len() ==> #[trigger] finished[i] < n
    &&& forall|v: int| 0 <= v < n ==> (#[trigger] visited[v] <==> (stack.contains(v as usize) || finished.contains(v as usize)))
    &&& is_path(edges, ints_v(stack))
    &&& forall|i: int, b: int|
        0 <= i < finished.len() && #[trigger] has_edge(edges, finished[i] as int, b) ==> exists|j: int|
            0 <= j < i && #[trigger] finished[j] as int == b
}

/// The adjacency list holds the edges: `adj[a]` holds `b` when there is an edge
/// from `a` to `b`.
pub open spec fn adj_ok(adj: Seq<Vec<usize>>, edges: Seq<(int, int)>, n: int) -> bool {
    &&& adj.len() == n
    &&& forall|a: int, k: int| 0 <= a < n && 0 <= k < adj[a].len() ==> #[trigger] adj[a]@[k] < n
    &&& forall|a: int, k: int| 0 <= a < n && 0 <= k < adj[a].len() ==> has_edge(edges, a, #[trigger] adj[a]@[k] as int)
    &&& forall|a: int, b: int|
        #[trigger] has_edge(edges, a, b) ==> 0 <= a < n && exists|k: int|
            0 <= k < adj[a].len() && #[trigger] adj[a]@[k] as int == b
}

/// Whether `x` is on the stack.
fn stack_contains(stack: &Vec<usize>, x: usize) -> (r: bool)
    ensures
        r == stack@.contains(x),
{
    let mut i: usize = 0;
    while i < stack.len()
        invariant
            i <= stack.len(),
            forall|j: int| 0 <= j < i ==> stack@[j] != x,
        decreases stack.len() - i,
    {
        if stack[i] == x {
            return true;
        }
        i += 1;
    }
    false
}

/// Depth-first search from `node`: returns whether it found an edge back to
/// a node on the stack. When it did, the stack is a path whose last node has
/// an edge back into it; when it did not, the stack is as before and `node`
/// is finished.
fn dfs(
    adj: &Vec<Vec<usize>>,
    node: usize,
    visited: &mut Vec<bool>,
    stack: &mut Vec<usize>,
    finished: &mut Vec<usize>,
    Ghost(edges): Ghost<Seq<(int, int)>>,
) -> (found: bool)
    requires
        adj_ok(adj@, edges, adj.len() as int),
        dfs_inv(edges, adj.len() as int, old(visited)@, old(stack)@, old(finished)@),
        node < adj.len(),
        !old(stack)@.contains(node),
        old(stack)@.len() > 0 ==> has_edge(edges, old(stack)@.last() as int, node as int),
    ensures
        found ==> final(stack)@.len() > 0 && is_path(edges, ints_v(final(stack)@)) && (forall|i: int|
            0 <= i < final(stack)@.len() ==> #[trigger] final(stack)@[i] < adj.len()) && exists|j: int|
            0 <= j < final(stack)@.len() && #[trigger] has_edge(
                edges,
                final(stack)@.last() as int,
                final(stack)@[j] as int,
            ),
        !found ==> dfs_inv(edges, adj.len() as int, final(visited)@, final(stack)@, final(finished)@),
        !found ==> final(stack)@ == old(stack)@,
        !found ==> final(finished)@.contains(node),
        !found ==> final(finished)@.len() >= old(finished)@.len() && final(finished)@.take(
            old(finished)@.len() as int,
        ) == old(finished)@,
        final(visited)@.len() == old(visited)@.len(),
        forall|i: int| 0 <= i < old(visited)@.len() ==> old(visited)@[i] ==> #[trigger] final(visited)@[i],
    decreases count_false(old(visited)@),
{
    let n = adj.len();
    if visited[node] {
        assert(visited@[node as int]);
        return false;
    }
    let ghost v0 = visited@;
    let ghost s0 = stack@;
    let ghost f0 = finished@;
    visited.set(node, true);
    stack.push(node);
    proof {
        assert forall|v: int| 0 <= v < n implies (#[trigger] visited@[v] <==> (stack@.contains(v as usize)
            || finished@.contains(v as usize))) by {
            if v != node as int {
                assert(visited@[v] == v0[v]);
                if stack@.contains(v as usize) {
                    let j = choose|j: int| 0 <= j < stack@.len() && stack@[j] == v as usize;
                    assert(s0[j] == v as usize);
                }
                if s0.contains(v as usize) {
                    let j = choose|j: int| 0 <= j < s0.len() && s0[j] == v as usize;
                    assert(stack@[j] == v as usize);
                }
            } else {
                assert(stack@[stack@.len() - 1] == node);
            }
        }
        assert(ints_v(stack@) =~= ints_v(s0).push(node as int));
        assert forall|i: int| 0 <= i < ints_v(stack@).len() - 1 implies #[trigger] has_edge(
            edges,
            ints_v(stack@)[i],
            ints_v(stack@)[i + 1],
        ) by {
            if i < s0.len() - 1 {
                assert(ints_v(s0)[i] == ints_v(stack@)[i]);
                assert(ints_v(s0)[i + 1] == ints_v(stack@)[i + 1]);
            } else {
                assert(ints_v(stack@)[i] == s0.last() as int);
            }
        }
        lemma_count_false(v0, visited@, node as int);
    }
    let mut k: usize = 0;
    while k < adj[node].len()
        invariant
            n == adj.len(),
            node < n,
            adj_ok(adj@, edges, n as int),
            k <= adj[node as int].len(),
            stack@ == s0.push(node),
            !s0.contains(node),
            visited@.len() == n,
            visited@[node as int],
            !finished@.contains(node),
            forall|i: int, j: int| 0 <= i < j < stack@.len() ==> stack@[i] != stack@[j],
            forall|i: int, j: int| 0 <= i < j < finished@.len() ==> finished@[i] != finished@[j],
            forall|i: int, j: int| 0 <= i < stack@.len() && 0 <= j < finished@.len() ==> stack@[i] != finished@[j],
            forall|i: int| 0 <= i < stack@.len() ==> #[trigger] stack@[i] < n,
            forall|i: int| 0 <= i < finished@.len() ==> #[trigger] finished@[i] < n,
            forall|v: int|
                0 <= v < n ==> (#[trigger] visited@[v] <==> (stack@.contains(v as usize) || finished@.contains(
                    v as usize,
                ))),
            is_path(edges, ints_v(stack@)),
            forall|i: int, b: int|
                0 <= i < finished@.len() && #[trigger] has_edge(edges, finished@[i] as int, b) ==> exists|j: int|
                    0 <= j < i && #[trigger] finished@[j] as int == b,
            forall|kk: int| 0 <= kk < k ==> finished@.contains(#[trigger] adj[node as int]@[kk]),
            finished@.len() >= f0.len(),
            finished@.take(f0.len() as int) == f0,
            forall|i: int| 0 <= i < v0.len() ==> v0[i] ==> #[trigger] visited@[i],
            count_false(visited@) < count_false(v0),
            v0 == old(visited)@,
            s0 == old(stack)@,
            f0 == old(finished)@,
            v0.len() == n,
        decreases adj[node as int].len() - k,
    {
        let nb = adj[node][k];
        assert(has_edge(edges, node as int, nb as int));
        if stack_contains(stack, nb) {
            proof {
                let j = choose|j: int| 0 <= j < stack@.len() && stack@[j] == nb;
                assert(stack@.last() == node);
                assert(has_edge(edges, stack@.last() as int, stack@[j] as int));
            }
            return true;
        }
        let ghost vb = visited@;
        let ghost fb = finished@;
        proof {
            assert(dfs_inv(edges, n as int, visited@, stack@, finished@));
            assert(stack@.last() == node);
        }
        if dfs(adj, nb, visited, stack, finished, Ghost(edges)) {
            return true;
        }
        proof {
            assert forall|i: int| 0 <= i < v0.len() && v0[i] implies #[trigger] visited@[i] by {
                assert(vb[i]);
                assert(visited@[i]);
            }
            lemma_count_false(vb, visited@, -1);
            assert forall|kk: int| 0 <= kk < k + 1 implies finished@.contains(#[trigger] adj[node as int]@[kk]) by {
                if kk < k {
                    let w = adj[node as int]@[kk];
                    assert(fb.contains(w));
                    let j = choose|j: int| 0 <= j < fb.len() && fb[j] == w;
                    assert(finished@.take(fb.len() as int)[j] == w);
                    assert(finished@[j] == w);
                }
            }
            assert(finished@.take(f0.len() as int) =~= finished@.take(fb.len() as int).take(f0.len() as int));
            if finished@.contains(node) {
                let j = choose|j: int| 0 <= j < finished@.len() && finished@[j] == node;
                assert(stack@[stack@.len() - 1] == node);
            }
        }
        k += 1;
    }
    let ghost sb = stack@;
    let ghost fb = finished@;
    stack.pop();
    finished.push(node);
    proof {
        assert(stack@ =~= s0);
        assert(ints_v(stack@) =~= ints_v(sb).drop_last());
        assert forall|i: int| 0 <= i < ints_v(stack@).len() - 1 implies #[trigger] has_edge(
            edges,
            ints_v(stack@)[i],
            ints_v(stack@)[i + 1],
        ) by {
            assert(ints_v(sb)[i] == ints_v(stack@)[i]);
            assert(ints_v(sb)[i + 1] == ints_v(stack@)[i + 1]);
        }
        assert forall|i: int, b: int|
            0 <= i < finished@.len() && #[trigger] has_edge(edges, finished@[i] as int, b) implies exists|j: int|
            0 <= j < i && #[trigger] finished@[j] as int == b by {
            if i < fb.len() {
                assert(finished@[i] == fb[i]);
                let j = choose|j: int| 0 <= j < i && #[trigger] fb[j] as int == b;
                assert(finished@[j] == fb[j]);
            } else {
                assert(finished@[i] == node);
                let kk = choose|kk: int| 0 <= kk < adj[node as int].len() && #[trigger] adj[node as int]@[kk] as int == b;
                let w = adj[node as int]@[kk];
                assert(fb.contains(w));
                let j = choose|j: int| 0 <= j < fb.len() && fb[j] == w;
                assert(finished@[j] == fb[j]);
                assert(finished@[j] as int == b);
            }
        }
        assert forall|v: int| 0 <= v < n implies (#[trigger] visited@[v] <==> (stack@.contains(v as usize)
            || finished@.contains(v as usize))) by {
            if visited@[v] {
                if sb.contains(v as usize) {
                    let j = choose|j: int| 0 <= j < sb.len() && sb[j] == v as usize;
                    if j == sb.len() - 1 {
                        assert(finished@[finished@.len() - 1] == v as usize);
                    } else {
                        assert(stack@[j] == v as usize);
                    }
                } else {
                    let j = choose|j: int| 0 <= j < fb.len() && fb[j] == v as usize;
                    assert(finished@[j] == v as usize);
                }
            } else {
                if stack@.contains(v as usize) {
                    let j = choose|j: int| 0 <= j < stack@.len() && stack@[j] == v as usize;
                    assert(sb[j] == v as usize);
                }
                if finished@.contains(v as usize) {
                    let j = choose|j: int| 0 <= j < finished@.len() && finished@[j] == v as usize;
                    if j < fb.len() {
                        assert(fb[j] == v as usize);
                    }
                }
            }
        }
        assert(finished@[finished@.len() - 1] == node);
        assert(finished@.take(f0.len() as int) =~= fb.take(f0.len() as int));
        assert forall|i: int, j: int| 0 <= i < stack@.len() && 0 <= j < finished@.len() implies stack@[i]
            != finished@[j] by {
            assert(sb[i] == stack@[i]);
            if j < fb.len() {
                assert(finished@[j] == fb[j]);
            } else {
                assert(sb[sb.len() - 1] == node);
            }
        }
    }
    false
}

/// The adjacency list of `a` holds `b`.
spec fn adj_has(adj: Seq<Vec<usize>>, a: int, b: usize) -> bool {
    exists|kk: int| 0 <= kk < adj[a].len() && adj[a]@[kk] == b
}

/// Adjacency lists of `n` nodes from a list of edges.
fn build_adj(n: usize, edges: &Vec<(usize, usize)>) -> (adj: Vec<Vec<usize>>)
    requires
        bounded(edges@, seq![], n as int),
    ensures
        adj_ok(adj@, edges_v(edges@), n as int),
{
    let ghost ev = edges_v(edges@);
    let mut adj: Vec<Vec<usize>> = Vec::new();
    let mut a: usize = 0;
    while a < n
        invariant
            a <= n,
            adj.len() == a,
            forall|x: int| 0 <= x < a ==> (#[trigger] adj@[x]).len() == 0,
        decreases n - a,
    {
        adj.push(Vec::new());
        a += 1;
    }
    let mut k: usize = 0;
    while k < edges.len()
        invariant
            k <= edges.len(),
            ev == edges_v(edges@),
            bounded(edges@, seq![], n as int),
            adj.len() == n,
            forall|x: int, kk: int| 0 <= x < n && 0 <= kk < adj@[x].len() ==> #[trigger] adj@[x]@[kk] < n,
            forall|x: int, kk: int|
                0 <= x < n && 0 <= kk < adj@[x].len() ==> has_edge(ev, x, #[trigger] adj@[x]@[kk] as int),
            forall|e: int| 0 <= e < k ==> adj_has(adj@, (#[trigger] edges@[e]).0 as int, edges@[e].1),
        decreases edges.len() - k,
    {
        let (x, y) = edges[k];
        assert(edges@[k as int].0 < n && edges@[k as int].1 < n);
        let ghost before = adj@;
        adj[x].push(y);
        proof {
            assert(ev[k as int] == (x as int, y as int));
            assert(has_edge(ev, x as int, y as int));
            assert forall|e: int| 0 <= e < k + 1 implies adj_has(adj@, (#[trigger] edges@[e]).0 as int, edges@[e].1) by {
                if e < k {
                    assert(adj_has(before, edges@[e].0 as int, edges@[e].1));
                    let kk = choose|kk: int|
                        0 <= kk < before[edges@[e].0 as int].len() && before[edges@[e].0 as int]@[kk] == edges@[e].1;
                    if edges@[e].0 == x {
                        assert(adj@[x as int]@[kk] == before[x as int]@[kk]);
                    } else {
                        assert(adj@[edges@[e].0 as int] == before[edges@[e].0 as int]);
                    }
                    assert(0 <= kk < adj@[(edges@[e]).0 as int].len() && adj@[edges@[e].0 as int]@[kk] == edges@[e].1);
                } else {
                    let kk = before[x as int].len() as int;
                    assert(adj@[x as int]@[kk] == y);
                    assert(edges@[e] == (x, y));
                    assert(0 <= kk < adj@[(edges@[e]).0 as int].len() && adj@[edges@[e].0 as int]@[kk] == edges@[e].1);
                }
            }
            assert forall|z: int, kk: int|
                0 <= z < n && 0 <= kk < adj@[z].len() implies has_edge(ev, z, #[trigger] adj@[z]@[kk] as int) by {
                if z == x && kk == before[x as int].len() {
                } else {
                    assert(adj@[z]@[kk] == before[z]@[kk]);
                }
            }
            assert forall|z: int, kk: int| 0 <= z < n && 0 <= kk < adj@[z].len() implies #[trigger] adj@[z]@[kk]
                < n by {
                if z == x && kk == before[x as int].len() {
                } else {
                    assert(adj@[z]@[kk] == before[z]@[kk]);
                }
            }
        }
        k += 1;
    }
    proof {
        assert forall|x: int, y: int| #[trigger] has_edge(ev, x, y) implies 0 <= x < n && exists|kk: int|
            0 <= kk < adj@[x].len() && #[trigger] adj@[x]@[kk] as int == y by {
            let e = choose|e: int| 0 <= e < ev.len() && ev[e] == (x, y);
            assert(ev[e] == (edges@[e].0 as int, edges@[e].1 as int));
            assert(adj_has(adj@, edges@[e].0 as int, edges@[e].1));
            let kk = choose|kk: int|
                0 <= kk < adj@[(edges@[e]).0 as int].len() && adj@[edges@[e].0 as int]@[kk] == edges@[e].1;
            assert(adj@[x]@[kk] as int == y);
        }
    }
    adj
}

/// A graph in which each node with an edge is finished, with each edge from a
/// finished node going to a node finished earlier, has no cycle.
proof fn lemma_finished_acyclic(edges: Seq<(int, int)>, n: int, visited: Seq<bool>, finished: Seq<usize>, adj: Seq<Vec<usize>>)
    requires
        n <= usize::MAX,
        adj_ok(adj, edges, n),
        dfs_inv(edges, n, visited, seq![], finished),
        forall|v: int| 0 <= v < n && adj[v].len() > 0 ==> #[trigger] visited[v],
    ensures
        !has_cycle(edges),
{
    if has_cycle(edges) {
        let p = choose|p: Seq<int>| p.len() > 0 && is_path(edges, p) && #[trigger] has_edge(edges, p.last(), p[0]);
        let empty = Seq::<usize>::empty();
        // Every node of the cycle has an edge, so it is finished; its position in
        // `finished` strictly decreases along each edge.
        assert forall|i: int| 0 <= i < p.len() implies exists|j: int|
            0 <= j < finished.len() && #[trigger] finished[j] as int == #[trigger] p[i] by {
            let b = if i < p.len() - 1 {
                p[i + 1]
            } else {
                p[0]
            };
            assert(has_edge(edges, p[i], b));
            let kk = choose|kk: int| 0 <= kk < adj[p[i]].len() && #[trigger] adj[p[i]]@[kk] as int == b;
            assert(visited[p[i]]);
            assert(!empty.contains(p[i] as usize));
            assert(finished.contains(p[i] as usize));
            let j = choose|j: int| 0 <= j < finished.len() && finished[j] == p[i] as usize;
            assert(finished[j] as int == p[i]);
        }
        let pos = |v: int| choose|j: int| 0 <= j < finished.len() && #[trigger] finished[j] as int == v;
        assert forall|i: int| 0 <= i < p.len() implies 0 <= #[trigger] pos(p[i]) < finished.len() && finished[pos(
            p[i],
        )] as int == p[i] by {
            assert(exists|j: int| 0 <= j < finished.len() && #[trigger] finished[j] as int == p[i]);
        }
        assert forall|i: int| 0 <= i < p.len() - 1 implies #[trigger] pos(p[i + 1]) < pos(p[i]) by {
            assert(has_edge(edges, p[i], p[i + 1]));
            let a = pos(p[i]);
            assert(has_edge(edges, finished[a] as int, p[i + 1]));
            let j = choose|j: int| 0 <= j < a && #[trigger] finished[j] as int == p[i + 1];
            let b = pos(p[i + 1]);
            if j != b {
                assert(finished[j] != finished[b]);
            }
        }
        lemma_pos_decreasing(p, pos, p.len() - 1);
        let a = pos(p.last());
        assert(has_edge(edges, finished[a] as int, p[0]));
        let j = choose|j: int| 0 <= j < a && #[trigger] finished[j] as int == p[0];
        let b = pos(p[0]);
        if j != b {
            assert(finished[j] != finished[b]);
        }
        assert(false);
    }
}

/// Positions that decrease along a path decrease at least by its length.
proof fn lemma_pos_decreasing(p: Seq<int>, pos: spec_fn(int) -> int, k: int)
    requires
        0 <= k < p.len(),
        forall|i: int| 0 <= i < p.len() - 1 ==> #[trigger] pos(p[i + 1]) < pos(p[i]),
    ensures
        pos(p[k]) <= pos(p[0]) - k,
    decreases k,
{
    if k > 0 {
        lemma_pos_decreasing(p, pos, k - 1);
        assert(pos(p[(k - 1) + 1]) < pos(p[k - 1]));
    }
}

/// Error of a combinational loop along the nodes of `stack`.
fn loop_error(decls: &Vec<String>, stack: &Vec<usize>) -> (r: VirgenError)
    requires
        forall|i: int| 0 <= i < stack.len() ==> #[trigger] stack@[i] < decls.len(),
    ensures
        r matches VirgenError::AnalysisError { msg } && msg@ == loop_msg(names_v(decls@), ints_v(stack@)),
{
    let mut names: Vec<String> = Vec::new();
    let mut i: usize = 0;
    while i < stack.len()
        invariant
            i <= stack.len(),
            forall|k: int| 0 <= k < stack.len() ==> #[trigger] stack@[k] < decls.len(),
            names.len() == i,
            forall|k: int| 0 <= k < i ==> (#[trigger] names@[k])@ == decls@[stack@[k] as int]@,
        decreases stack.len() - i,
    {
        names.push(decls[stack[i]].clone());
        i += 1;
    }
    let joined = crate::utils::string::join_strings(&names, " -> ");
    let mut msg = String::from_str("Combinational loop detected. Stack ");
    msg.append(joined.as_str());
    proof {
        reveal_strlit("Combinational loop detected. Stack ");
        assert(names@.map_values(|s: String| s@) =~= ints_v(stack@).map_values(|k: int| names_v(decls@)[k]));
    }
    VirgenError::AnalysisError { msg }
}

/// Looks for a cycle by depth-first search from each node that has an edge;
/// an error along the stack where an edge goes back into it.
fn check_loop(adj: &Vec<Vec<usize>>, decls: &Vec<String>, Ghost(edges): Ghost<Seq<(int, int)>>) -> (r: Result<
    (),
    VirgenError,
>)
    requires
        adj_ok(adj@, edges, decls.len() as int),
    ensures
        r is Ok <==> !has_cycle(edges),
        r is Err ==> (r matches Err(VirgenError::AnalysisError { msg }) && is_loop_msg(
            names_v(decls@),
            edges,
            msg@,
        )),
{
    let n = adj.len();
    let mut visited: Vec<bool> = Vec::new();
    let mut i: usize = 0;
    while i < n
        invariant
            i <= n,
            visited.len() == i,
            forall|v: int| 0 <= v < i ==> !(#[trigger] visited@[v]),
        decreases n - i,
    {
        visited.push(false);
        i += 1;
    }
    let mut stack: Vec<usize> = Vec::new();
    let mut finished: Vec<usize> = Vec::new();
    proof {
        assert(ints_v(stack@) =~= Seq::<int>::empty());
    }
    let mut node: usize = 0;
    while node < n
        invariant
            n == adj.len(),
            n == decls.len(),
            node <= n,
            adj_ok(adj@, edges, n as int),
            stack@ == Seq::<usize>::empty(),
            dfs_inv(edges, n as int, visited@, stack@, finished@),
            forall|v: int| 0 <= v < node && adj@[v].len() > 0 ==> #[trigger] visited@[v],
        decreases n - node,
    {
        if adj[node].len() > 0 && !visited[node] {
            let ghost vb = visited@;
            if dfs(adj, node, &mut visited, &mut stack, &mut finished, Ghost(edges)) {
                let err = loop_error(decls, &stack);
                proof {
                    let p = ints_v(stack@);
                    let j = choose|j: int|
                        0 <= j < stack@.len() && #[trigger] has_edge(edges, stack@.last() as int, stack@[j] as int);
                    assert(p[j] == stack@[j] as int);
                    assert(p.last() == stack@.last() as int);
                    assert(has_edge(edges, p.last(), p[j]));
                    assert(p.subrange(j, p.len() as int).last() == p.last());
                    assert forall|i: int| 0 <= i < p.subrange(j, p.len() as int).len() - 1 implies #[trigger] has_edge(
                        edges,
                        p.subrange(j, p.len() as int)[i],
                        p.subrange(j, p.len() as int)[i + 1],
                    ) by {
                        assert(has_edge(edges, p[j + i], p[j + i + 1]));
                    }
                    assert(has_edge(edges, p.subrange(j, p.len() as int).last(), p.subrange(j, p.len() as int)[0]));
                    assert(loop_msg(names_v(decls@), p) == loop_msg(names_v(decls@), p));
                    assert forall|i: int| 0 <= i < p.len() implies 0 <= #[trigger] p[i] < names_v(decls@).len() by {
                        assert(stack@[i] < n);
                    }
                }
                return Err(err);
            }
            proof {
                assert forall|v: int| 0 <= v < node + 1 && adj@[v].len() > 0 implies #[trigger] visited@[v] by {
                    if v < node {
                        assert(vb[v]);
                    } else {
                        assert(finished@.contains(node));
                        let j = choose|j: int| 0 <= j < finished@.len() && finished@[j] == node;
                        assert(finished@[j] < n);
                    }
                }
            }
        }
        node += 1;
    }
    proof {
        lemma_finished_acyclic(edges, n as int, visited@, finished@, adj@);
    }
    Ok(())
}

/// What `detect_comb_loop` returns for the module `m`: an error for an
/// assignment that reads its own target, else an error exactly when the
/// dependency graph has a cycle, reporting the names along it.
pub open spec fn comb_loop_result(m: ModuleV, r: Result<(), VirgenError>) -> bool {
    match g_module(m) {
        GraphState::Building { edges, .. } => {
            &&& (r is Ok <==> !has_cycle(edges))
            &&& r is Err ==> (r matches Err(VirgenError::AnalysisError { msg }) && is_loop_msg(
                module_decls(m),
                edges,
                msg@,
            ))
        },
        GraphState::SelfLoop(x) => r matches Err(VirgenError::AnalysisError { msg }) && msg@ == self_loop_msg(x),
        GraphState::Stuck => false,
    }
}

/// Detects a combinational loop in a flattened module.
///
/// Each assignment of a continuous assignment or of a combinational always
/// block (`always @*`) makes its target depend on the identifiers it reads
/// and on those of the conditions of the `if` or `case` around it. An
/// assignment that reads its own target is a self loop; otherwise the module
/// has a combinational loop when the dependencies have a cycle.
pub fn detect_comb_loop(module: &Module) -> (r: Result<(), VirgenError>)
    requires
        !(g_module(module@) is Stuck),
    ensures
        comb_loop_result(module@, r),
{
    let decls = extract_decls(module);
    let mut edges: Vec<(usize, usize)> = Vec::new();
    let mut ctx: Vec<usize> = Vec::new();
    proof {
        assert(edges_v(edges@) =~= Seq::<(int, int)>::empty());
        assert(ints_v(ctx@) =~= Seq::<int>::empty());
    }
    match graph_items(&decls, &module.module_items, &mut edges, &mut ctx) {
        Ok(()) => {},
        Err(BuildStop::SelfLoop(e)) => {
            return Err(e);
        },
        Err(BuildStop::Unsupported) => {
            vstd::pervasive::unreached()
        },
    }
    let adj = build_adj(decls.len(), &edges);
    check_loop(&adj, &decls, Ghost(edges_v(edges@)))
}

} // verus!
