//! Inlining of combinational always blocks into continuous assignments.

use vstd::prelude::*;

use crate::utils::string::{eq_str, opt_view};
use crate::vir::ir::{
    branches_v, conts_v, decls_v, expr_v, exprs_v, item_v, items_v, prim_v, stmt_v, stmts_v, ContinuousAssign, DeclV,
    Declaration, ExprV, Expression, ItemV, Module, ModuleItem, ModuleV, PrimV, Primary, Statement, StmtV,
};
use crate::vir::utils::{item_decls, items_decls, module_decls, names_v};

verus! {

/// Event control of a combinational always block.
pub open spec fn comb_event() -> Seq<char> {
    "always @*"@
}

/// The identifier assigned by `e` when it is an identifier with a range.
pub open spec fn lhs_ident_indexing(e: ExprV) -> Option<Seq<char>> {
    match e {
        ExprV::Primary(PrimV::Ident(x, Some(_))) => Some(x),
        _ => None,
    }
}

/// The identifier assigned by `e` when it is an identifier, with or without
/// a range.
pub open spec fn lhs_ident(e: ExprV) -> Option<Seq<char>> {
    match e {
        ExprV::Primary(PrimV::Ident(x, _)) => Some(x),
        _ => None,
    }
}

/// The names in an optional name.
pub open spec fn opt_seq(o: Option<Seq<char>>) -> Seq<Seq<char>> {
    match o {
        Some(x) => seq![x],
        None => seq![],
    }
}

/// Identifiers assigned by statements, at any depth of conditionals and
/// loops, in order.
pub open spec fn lhs_idents(s: Seq<StmtV>) -> Seq<Seq<char>>
    decreases s,
{
    if s.len() == 0 {
        seq![]
    } else {
        lhs_idents(s.drop_last()) + stmt_lhs_idents(s.last())
    }
}

/// Identifiers assigned by one statement.
pub open spec fn stmt_lhs_idents(st: StmtV) -> Seq<Seq<char>>
    decreases st,
{
    match st {
        StmtV::Blocking(l, _) => opt_seq(lhs_ident(l)),
        StmtV::Conditional(b, e) => branches_lhs_idents(b) + lhs_idents(e),
        StmtV::Loop(_, _, b) => lhs_idents(b),
        StmtV::Nonblocking(l, _) => opt_seq(lhs_ident(l)),
        _ => seq![],
    }
}

/// Identifiers assigned in guarded branches.
pub open spec fn branches_lhs_idents(b: Seq<(ExprV, Seq<StmtV>)>) -> Seq<Seq<char>>
    decreases b,
{
    if b.len() == 0 {
        seq![]
    } else {
        branches_lhs_idents(b.drop_last()) + lhs_idents(b.last().1)
    }
}

/// Right-hand sides of the blocking assignments among `s` (not inside
/// conditionals or loops), in order.
pub open spec fn rhs_of(s: Seq<StmtV>) -> Seq<ExprV>
    decreases s.len(),
{
    if s.len() == 0 {
        seq![]
    } else {
        rhs_of(s.drop_last()) + match s.last() {
            StmtV::Blocking(_, r) => seq![r],
            _ => seq![],
        }
    }
}

/// Identifiers that a statement of a combinational block keeps in the block:
/// indexed targets of blocking assignments, the count and the targets of
/// loops, and the targets of non-blocking assignments.
pub open spec fn stmt_preserved(st: StmtV) -> Seq<Seq<char>> {
    match st {
        StmtV::Blocking(l, _) => opt_seq(lhs_ident_indexing(l)),
        StmtV::Loop(_, c, b) => opt_seq(lhs_ident(c)) + lhs_idents(b),
        StmtV::Nonblocking(l, _) => opt_seq(lhs_ident(l)),
        _ => seq![],
    }
}

/// Identifiers kept in a combinational block.
pub open spec fn preserved_of(s: Seq<StmtV>) -> Seq<Seq<char>>
    decreases s.len(),
{
    if s.len() == 0 {
        seq![]
    } else {
        preserved_of(s.drop_last()) + stmt_preserved(s.last())
    }
}

/// `c ? th[i] : acc[i]` for each `i` that both lists have.
pub open spec fn zip_cond(c: ExprV, acc: Seq<ExprV>, th: Seq<ExprV>) -> Seq<ExprV> {
    Seq::new(
        if acc.len() <= th.len() {
            acc.len()
        } else {
            th.len()
        },
        |i: int| ExprV::Conditional(Box::new(c), Box::new(th[i]), Box::new(acc[i])),
    )
}

/// Values of a conditional statement's targets as conditional expressions:
/// the branches are folded from the last to the first around the values of
/// the else branch.
pub open spec fn fold_cond(pairs: Seq<(ExprV, Seq<StmtV>)>, init: Seq<ExprV>) -> Seq<ExprV>
    decreases pairs.len(),
{
    if pairs.len() == 0 {
        init
    } else {
        zip_cond(pairs[0].0, fold_cond(pairs.drop_first(), init), rhs_of(pairs[0].1))
    }
}

/// `assign ids[i] = exprs[i]` for each `i` that both lists have.
pub open spec fn zip_assigns(ids: Seq<Seq<char>>, exprs: Seq<ExprV>) -> Seq<(ExprV, ExprV)> {
    Seq::new(
        if ids.len() <= exprs.len() {
            ids.len()
        } else {
            exprs.len()
        },
        |i: int| (ExprV::Primary(PrimV::Ident(ids[i], None)), exprs[i]),
    )
}

/// State while a combinational block is inlined: the continuous assignments
/// made so far, the identifiers removed from blocks, and the statements kept.
pub struct InlineState {
    /// Continuous assignments, as (lhs, rhs)
    pub conts: Seq<(ExprV, ExprV)>,
    /// Removed identifiers
    pub removed: Seq<Seq<char>>,
    /// Kept statements
    pub kept: Seq<StmtV>,
}

/// One statement of a combinational block: an assignment to a target that is
/// not kept becomes a continuous assignment, a conditional becomes
/// continuous assignments of conditional expressions to the targets of its
/// else branch, and every other statement stays.
pub open spec fn inline_step(st: StmtV, pres: Seq<Seq<char>>, s: InlineState) -> InlineState {
    let keep = InlineState { kept: s.kept.push(st), ..s };
    match st {
        StmtV::Blocking(l, r) => match lhs_ident(l) {
            Some(x) => if pres.contains(x) {
                keep
            } else {
                InlineState { conts: s.conts.push((l, r)), removed: s.removed.push(x), kept: s.kept }
            },
            None => keep,
        },
        StmtV::Conditional(pairs, els) => {
            let ids = lhs_idents(els);
            InlineState {
                conts: s.conts + zip_assigns(ids, fold_cond(pairs, rhs_of(els))),
                removed: s.removed + ids,
                kept: s.kept,
            }
        },
        StmtV::Nonblocking(l, r) => match lhs_ident(l) {
            Some(x) => if pres.contains(x) {
                keep
            } else {
                InlineState { conts: s.conts.push((l, r)), ..s }
            },
            None => keep,
        },
        _ => keep,
    }
}

/// The statements of a combinational block, one by one from the start.
pub open spec fn inline_run(s: Seq<StmtV>, pres: Seq<Seq<char>>, removed: Seq<Seq<char>>) -> InlineState
    decreases s.len(),
{
    if s.len() == 0 {
        InlineState { conts: seq![], removed, kept: seq![] }
    } else {
        inline_step(s.last(), pres, inline_run(s.drop_last(), pres, removed))
    }
}

/// A register whose name was removed becomes a wire.
pub open spec fn decl_to_net(d: DeclV, removed: Seq<Seq<char>>) -> DeclV {
    match d {
        DeclV::Reg(shape, x, _) => if removed.contains(x) {
            DeclV::Net(shape, x)
        } else {
            d
        },
        _ => d,
    }
}

/// The registers of a declarations item whose names were removed become
/// wires; other items stay.
pub open spec fn item_to_nets(it: ItemV, removed: Seq<Seq<char>>) -> ItemV {
    match it {
        ItemV::Declarations(d) => ItemV::Declarations(d.map_values(|x: DeclV| decl_to_net(x, removed))),
        _ => it,
    }
}

/// Result of the pass over module items, with the removed identifiers.
pub open spec fn opt_items(s: Seq<ItemV>, removed: Seq<Seq<char>>) -> (Seq<ItemV>, Seq<Seq<char>>)
    decreases s, 1int,
{
    let t = opt_items_temp(s, removed);
    (t.0.map_values(|it: ItemV| item_to_nets(it, t.1)), t.1)
}

/// The items of the pass before registers become wires, with the removed
/// identifiers.
pub open spec fn opt_items_temp(s: Seq<ItemV>, removed: Seq<Seq<char>>) -> (Seq<ItemV>, Seq<Seq<char>>)
    decreases s, 0int,
{
    if s.len() == 0 {
        (seq![], removed)
    } else {
        let a = opt_items_temp(s.drop_last(), removed);
        let b = opt_item(s.last(), a.1);
        (a.0 + b.0, b.1)
    }
}

/// One item of the pass: a combinational block becomes continuous
/// assignments followed by what stays of the block, and commented items are
/// passed over in turn.
pub open spec fn opt_item(it: ItemV, removed: Seq<Seq<char>>) -> (Seq<ItemV>, Seq<Seq<char>>)
    decreases it, 0int,
{
    match it {
        ItemV::AlwaysConstruct(ev, stmts) => if ev == comb_event() {
            let r = inline_run(stmts, preserved_of(stmts), removed);
            (seq![ItemV::ContinuousAssigns(r.conts), ItemV::AlwaysConstruct(ev, r.kept)], r.removed)
        } else {
            (seq![it], removed)
        },
        ItemV::Commented(b, a, items) => {
            let r = opt_items(items, removed);
            (seq![ItemV::Commented(b, a, r.0)], r.1)
        },
        _ => (seq![it], removed),
    }
}

/// A register with an initial value is not among the removed identifiers.
pub open spec fn reg_init_ok(d: DeclV, removed: Seq<Seq<char>>) -> bool {
    match d {
        DeclV::Reg(_, x, Some(_)) => !removed.contains(x),
        _ => true,
    }
}

/// No register with an initial value turns into a wire at any level of the
/// pass over `s`.
pub open spec fn opt_items_ok(s: Seq<ItemV>, removed: Seq<Seq<char>>) -> bool
    decreases s, 1int,
{
    let t = opt_items_temp(s, removed);
    &&& opt_items_temp_ok(s, removed)
    &&& forall|i: int, j: int|
        #![trigger t.0[i]->Declarations_0[j]]
        0 <= i < t.0.len() && t.0[i] is Declarations && 0 <= j < t.0[i]->Declarations_0.len() ==> reg_init_ok(
            t.0[i]->Declarations_0[j],
            t.1,
        )
}

/// Every item of `s` passes without a register with an initial value turning
/// into a wire.
pub open spec fn opt_items_temp_ok(s: Seq<ItemV>, removed: Seq<Seq<char>>) -> bool
    decreases s, 0int,
{
    if s.len() == 0 {
        true
    } else {
        opt_items_temp_ok(s.drop_last(), removed) && opt_item_ok(
            s.last(),
            opt_items_temp(s.drop_last(), removed).1,
        )
    }
}

/// One item passes without a register with an initial value turning into a
/// wire.
pub open spec fn opt_item_ok(it: ItemV, removed: Seq<Seq<char>>) -> bool
    decreases it, 0int,
{
    match it {
        ItemV::Commented(_, _, items) => opt_items_ok(items, removed),
        _ => true,
    }
}

/// The module that `inline_always` returns.
pub open spec fn inline_always_spec(m: ModuleV) -> ModuleV {
    ModuleV { module_items: opt_items(m.module_items, seq![]).0, ..m }
}

/// The pass over a prefix of the items passes when the pass over all of them
/// does.
proof fn lemma_temp_ok_prefix(s: Seq<ItemV>, removed: Seq<Seq<char>>, k: int)
    requires
        opt_items_temp_ok(s, removed),
        0 <= k <= s.len(),
    ensures
        opt_items_temp_ok(s.take(k), removed),
        k < s.len() ==> opt_item_ok(s[k], opt_items_temp(s.take(k), removed).1),
    decreases s.len(),
{
    if k == s.len() {
        assert(s.take(k) =~= s);
    } else {
        assert(s.drop_last().take(k) =~= s.take(k));
        if k == s.len() - 1 {
            assert(s.take(k) =~= s.drop_last());
        } else {
            lemma_temp_ok_prefix(s.drop_last(), removed, k);
            assert(s.drop_last()[k] == s[k]);
        }
    }
}

/// The identifier assigned by an indexed identifier.
fn extract_lhs_ident_from_indexing_expr(expr: &Expression) -> (r: Option<String>)
    ensures
        opt_view(r) == lhs_ident_indexing(expr@),
{
    match expr {
        Expression::Primary(p) => {
            assert(expr@ == ExprV::Primary(prim_v(*p)));
            match p {
                Primary::HierarchicalIdentifier(ident, Some(_)) => Some(ident.clone()),
                Primary::HierarchicalIdentifier(_, None) => None,
                _ => {
                    assert(!(prim_v(*p) is Ident));
                    None
                },
            }
        },
        _ => None,
    }
}

/// The identifier assigned by an identifier expression.
fn extract_lhs_ident_from_expr(expr: &Expression) -> (r: Option<String>)
    ensures
        opt_view(r) == lhs_ident(expr@),
{
    match expr {
        Expression::Primary(p) => {
            assert(expr@ == ExprV::Primary(prim_v(*p)));
            match p {
                Primary::HierarchicalIdentifier(ident, _) => Some(ident.clone()),
                _ => {
                    assert(!(prim_v(*p) is Ident));
                    None
                },
            }
        },
        _ => None,
    }
}

/// Appends the identifier of an optional name.
fn push_opt(o: Option<String>, out: &mut Vec<String>)
    ensures
        names_v(final(out)@) == names_v(old(out)@) + opt_seq(opt_view(o)),
{
    let ghost before = out@;
    if let Some(x) = o {
        out.push(x);
        assert(names_v(out@) =~= names_v(before) + opt_seq(opt_view(Some(x))));
    } else {
        assert(names_v(out@) =~= names_v(before) + seq![]);
    }
}

/// Appends the identifiers assigned by `stmt`.
fn push_stmt_lhs_idents(stmt: &Statement, out: &mut Vec<String>)
    ensures
        names_v(final(out)@) == names_v(old(out)@) + stmt_lhs_idents(stmt@),
    decreases stmt,
{
    match stmt {
        Statement::BlockingAssignment(lhs, _) => push_opt(extract_lhs_ident_from_expr(lhs), out),
        Statement::Conditional(pairs, els) => {
            let ghost start = names_v(out@);
            let ghost bv = branches_v(pairs@);
            let mut j: usize = 0;
            while j < pairs.len()
                invariant
                    j <= pairs.len(),
                    bv == branches_v(pairs@),
                    names_v(out@) == start + branches_lhs_idents(bv.take(j as int)),
                    *stmt == Statement::Conditional(*pairs, *els),
                decreases pairs.len() - j,
            {
                assert(decreases_to!(stmt => stmt->Conditional_0));
                assert(decreases_to!(pairs => pairs@[j as int]));
                assert(decreases_to!(pairs@[j as int] => pairs@[j as int].1));
                push_lhs_idents(&pairs[j].1, out);
                proof {
                    let t = bv.take(j + 1);
                    assert(t.drop_last() =~= bv.take(j as int));
                    assert(t.last().1 == stmts_v(pairs@[j as int].1@));
                }
                j += 1;
            }
            assert(bv.take(pairs.len() as int) =~= bv);
            proof {
                assert(decreases_to!(stmt => stmt->Conditional_1));
            }
            push_lhs_idents(els, out);
        },
        Statement::Loop(_, _, body) => {
            proof {
                assert(decreases_to!(stmt => stmt->Loop_2));
            }
            push_lhs_idents(body, out);
        },
        Statement::NonblockingAssignment(lhs, _) => push_opt(extract_lhs_ident_from_expr(lhs), out),
        _ => {
            assert(names_v(out@) =~= names_v(out@) + seq![]);
        },
    }
}

/// Appends the identifiers assigned by `stmts`.
fn push_lhs_idents(stmts: &Vec<Statement>, out: &mut Vec<String>)
    ensures
        names_v(final(out)@) == names_v(old(out)@) + lhs_idents(stmts_v(stmts@)),
    decreases stmts,
{
    let ghost start = names_v(out@);
    let ghost sv = stmts_v(stmts@);
    let mut i: usize = 0;
    while i < stmts.len()
        invariant
            i <= stmts.len(),
            sv == stmts_v(stmts@),
            names_v(out@) == start + lhs_idents(sv.take(i as int)),
        decreases stmts.len() - i,
    {
        assert(decreases_to!(stmts => stmts@[i as int]));
        push_stmt_lhs_idents(&stmts[i], out);
        proof {
            let t = sv.take(i + 1);
            assert(t.drop_last() =~= sv.take(i as int));
            assert(t.last() == stmt_v(stmts@[i as int]));
        }
        i += 1;
    }
    assert(sv.take(stmts.len() as int) =~= sv);
}

/// Identifiers assigned by statements.
fn extract_lhs_idents_from_stmts(stmts: &Vec<Statement>) -> (r: Vec<String>)
    ensures
        names_v(r@) == lhs_idents(stmts_v(stmts@)),
{
    let mut out: Vec<String> = Vec::new();
    push_lhs_idents(stmts, &mut out);
    assert(names_v(out@) =~= lhs_idents(stmts_v(stmts@)));
    out
}

/// Right-hand sides of the blocking assignments among `stmts`.
fn extract_rhs_from_stmts(stmts: &Vec<Statement>) -> (r: Vec<Expression>)
    ensures
        exprs_v(r@) == rhs_of(stmts_v(stmts@)),
{
    let ghost sv = stmts_v(stmts@);
    let mut out: Vec<Expression> = Vec::new();
    let mut i: usize = 0;
    while i < stmts.len()
        invariant
            i <= stmts.len(),
            sv == stmts_v(stmts@),
            exprs_v(out@) == rhs_of(sv.take(i as int)),
        decreases stmts.len() - i,
    {
        let ghost before = out@;
        proof {
            let t = sv.take(i + 1);
            assert(t.drop_last() =~= sv.take(i as int));
            assert(t.last() == stmt_v(stmts@[i as int]));
        }
        if let Statement::BlockingAssignment(_, rhs) = &stmts[i] {
            out.push(rhs.clone());
            assert(exprs_v(out@) =~= exprs_v(before) + seq![expr_v(*rhs)]);
        } else {
            assert(exprs_v(out@) =~= exprs_v(before) + seq![]);
        }
        i += 1;
    }
    assert(sv.take(stmts.len() as int) =~= sv);
    out
}

/// Identifiers kept in a combinational block.
fn preserved_idents(stmts: &Vec<Statement>) -> (r: Vec<String>)
    ensures
        names_v(r@) == preserved_of(stmts_v(stmts@)),
{
    let ghost sv = stmts_v(stmts@);
    let mut out: Vec<String> = Vec::new();
    let mut i: usize = 0;
    while i < stmts.len()
        invariant
            i <= stmts.len(),
            sv == stmts_v(stmts@),
            names_v(out@) == preserved_of(sv.take(i as int)),
        decreases stmts.len() - i,
    {
        proof {
            let t = sv.take(i + 1);
            assert(t.drop_last() =~= sv.take(i as int));
            assert(t.last() == stmt_v(stmts@[i as int]));
        }
        match &stmts[i] {
            Statement::BlockingAssignment(lhs, _) => push_opt(extract_lhs_ident_from_indexing_expr(lhs), &mut out),
            Statement::Loop(_, count, body) => {
                push_opt(extract_lhs_ident_from_expr(count), &mut out);
                push_lhs_idents(body, &mut out);
                assert(names_v(out@) =~= preserved_of(sv.take(i as int)) + stmt_preserved(sv[i as int]));
            },
            Statement::NonblockingAssignment(lhs, _) => push_opt(extract_lhs_ident_from_expr(lhs), &mut out),
            _ => {
                assert(names_v(out@) =~= names_v(out@) + seq![]);
            },
        }
        i += 1;
    }
    assert(sv.take(stmts.len() as int) =~= sv);
    out
}

/// Whether `name` is among `names`.
pub fn contains_name(names: &Vec<String>, name: &String) -> (r: bool)
    ensures
        r == names_v(names@).contains(name@),
{
    let mut i: usize = 0;
    while i < names.len()
        invariant
            i <= names.len(),
            forall|j: int| 0 <= j < i ==> names@[j]@ != name@,
        decreases names.len() - i,
    {
        if names[i].eq(name) {
            assert(names_v(names@)[i as int] == name@);
            return true;
        }
        i += 1;
    }
    proof {
        if names_v(names@).contains(name@) {
            let j = choose|j: int| 0 <= j < names.len() && names_v(names@)[j] == name@;
            assert(names@[j]@ == name@);
        }
    }
    false
}

/// Values of the targets of a conditional statement, folded over its
/// branches from the last to the first.
fn fold_conditions(pairs: &Vec<(Expression, Vec<Statement>)>, init: Vec<Expression>) -> (r: Vec<Expression>)
    ensures
        exprs_v(r@) == fold_cond(branches_v(pairs@), exprs_v(init@)),
{
    let ghost bv = branches_v(pairs@);
    let mut acc = init;
    let mut k: usize = pairs.len();
    proof {
        assert(bv.subrange(k as int, bv.len() as int).len() == 0);
    }
    while k > 0
        invariant
            k <= pairs.len(),
            bv == branches_v(pairs@),
            exprs_v(acc@) == fold_cond(bv.subrange(k as int, bv.len() as int), exprs_v(init@)),
        decreases k,
    {
        let then_exprs = extract_rhs_from_stmts(&pairs[k - 1].1);
        let ghost sub = bv.subrange(k - 1, bv.len() as int);
        proof {
            assert(sub.drop_first() =~= bv.subrange(k as int, bv.len() as int));
            assert(sub[0] == bv[k - 1]);
        }
        let mut next: Vec<Expression> = Vec::new();
        let mut i: usize = 0;
        while i < acc.len() && i < then_exprs.len()
            invariant
                i <= acc.len(),
                i <= then_exprs.len(),
                next.len() == i,
                k > 0,
                k <= pairs.len(),
                forall|j: int|
                    0 <= j < i ==> expr_v(#[trigger] next@[j]) == ExprV::Conditional(
                        Box::new(expr_v(pairs@[k - 1].0)),
                        Box::new(expr_v(then_exprs@[j])),
                        Box::new(expr_v(acc@[j])),
                    ),
            decreases acc.len() - i,
        {
            let e = Expression::conditional(pairs[k - 1].0.clone(), then_exprs[i].clone(), acc[i].clone());
            next.push(e);
            i += 1;
        }
        proof {
            assert(exprs_v(next@) =~= zip_cond(sub[0].0, exprs_v(acc@), rhs_of(sub[0].1)));
        }
        acc = next;
        k -= 1;
    }
    assert(bv.subrange(0, bv.len() as int) =~= bv);
    acc
}

/// Inlines one combinational block: returns its continuous assignments and
/// the statements that stay, and adds the identifiers it removes to
/// `removed`.
fn inline_block(stmts: &Vec<Statement>, removed: &mut Vec<String>) -> (r: (Vec<ContinuousAssign>, Vec<Statement>))
    ensures
        ({
            let s = inline_run(stmts_v(stmts@), preserved_of(stmts_v(stmts@)), names_v(old(removed)@));
            &&& conts_v(r.0@) == s.conts
            &&& names_v(final(removed)@) == s.removed
            &&& stmts_v(r.1@) == s.kept
        }),
{
    let ghost sv = stmts_v(stmts@);
    let ghost rem0 = names_v(removed@);
    let preserved = preserved_idents(stmts);
    let ghost pres = names_v(preserved@);
    let mut conts: Vec<ContinuousAssign> = Vec::new();
    let mut kept: Vec<Statement> = Vec::new();
    let mut i: usize = 0;
    while i < stmts.len()
        invariant
            i <= stmts.len(),
            sv == stmts_v(stmts@),
            pres == preserved_of(sv),
            pres == names_v(preserved@),
            ({
                let s = inline_run(sv.take(i as int), pres, rem0);
                &&& conts_v(conts@) == s.conts
                &&& names_v(removed@) == s.removed
                &&& stmts_v(kept@) == s.kept
            }),
        decreases stmts.len() - i,
    {
        let ghost s0 = inline_run(sv.take(i as int), pres, rem0);
        let ghost c0 = conts@;
        let ghost r0 = removed@;
        let ghost k0 = kept@;
        proof {
            let t = sv.take(i + 1);
            assert(t.drop_last() =~= sv.take(i as int));
            assert(t.last() == stmt_v(stmts@[i as int]));
        }
        let stmt = &stmts[i];
        let mut keep = false;
        match stmt {
            Statement::BlockingAssignment(lhs, rhs) => {
                match extract_lhs_ident_from_expr(lhs) {
                    Some(x) => {
                        if contains_name(&preserved, &x) {
                            keep = true;
                        } else {
                            removed.push(x);
                            conts.push(ContinuousAssign(lhs.clone(), rhs.clone()));
                            assert(names_v(removed@) =~= names_v(r0).push(x@));
                            assert(conts_v(conts@) =~= conts_v(c0).push((expr_v(*lhs), expr_v(*rhs))));
                        }
                    },
                    None => {
                        keep = true;
                    },
                }
            },
            Statement::Conditional(pairs, els) => {
                let idents = extract_lhs_idents_from_stmts(els);
                let init_exprs = extract_rhs_from_stmts(els);
                let mut j: usize = 0;
                while j < idents.len()
                    invariant
                        j <= idents.len(),
                        names_v(removed@) == names_v(r0) + names_v(idents@).take(j as int),
                    decreases idents.len() - j,
                {
                    let ghost before = removed@;
                    removed.push(idents[j].clone());
                    assert(names_v(idents@).take(j + 1) =~= names_v(idents@).take(j as int).push(idents@[j as int]@));
                    assert(names_v(removed@) =~= names_v(before).push(idents@[j as int]@));
                    j += 1;
                }
                assert(names_v(idents@).take(idents.len() as int) =~= names_v(idents@));
                let exprs = fold_conditions(pairs, init_exprs);
                let ghost zs = zip_assigns(names_v(idents@), exprs_v(exprs@));
                let mut j: usize = 0;
                while j < idents.len() && j < exprs.len()
                    invariant
                        j <= idents.len(),
                        j <= exprs.len(),
                        zs == zip_assigns(names_v(idents@), exprs_v(exprs@)),
                        j <= zs.len(),
                        conts_v(conts@) == conts_v(c0) + zs.take(j as int),
                    decreases idents.len() - j,
                {
                    let ghost before = conts@;
                    let c = ContinuousAssign(Expression::ident(idents[j].clone()), exprs[j].clone());
                    conts.push(c);
                    assert(zs.take(j + 1) =~= zs.take(j as int).push(zs[j as int]));
                    assert(conts_v(conts@) =~= conts_v(before).push((expr_v(c.0), expr_v(c.1))));
                    j += 1;
                }
                assert(zs.take(j as int) =~= zs);
            },
            Statement::NonblockingAssignment(lhs, rhs) => {
                match extract_lhs_ident_from_expr(lhs) {
                    Some(x) => {
                        if contains_name(&preserved, &x) {
                            keep = true;
                        } else {
                            conts.push(ContinuousAssign(lhs.clone(), rhs.clone()));
                            assert(conts_v(conts@) =~= conts_v(c0).push((expr_v(*lhs), expr_v(*rhs))));
                        }
                    },
                    None => {
                        keep = true;
                    },
                }
            },
            _ => {
                keep = true;
            },
        }
        if keep {
            kept.push(stmt.clone());
            assert(stmts_v(kept@) =~= stmts_v(k0).push(stmt_v(*stmt)));
        }
        i += 1;
    }
    assert(sv.take(stmts.len() as int) =~= sv);
    (conts, kept)
}

/// The register of `decl`, or the wire it becomes when its name was removed.
fn decl_to_net_exec(decl: &Declaration, removed: &Vec<String>) -> (r: Declaration)
    requires
        reg_init_ok(decl@, names_v(removed@)),
    ensures
        r@ == decl_to_net(decl@, names_v(removed@)),
{
    if let Declaration::Reg(shape, ident, init) = decl {
        if contains_name(removed, ident) {
            if init.is_some() {
                proof {
                    assert(false);
                }
            }
            Declaration::Net(shape.clone(), ident.clone())
        } else {
            decl.clone()
        }
    } else {
        decl.clone()
    }
}

/// Inlines the combinational blocks of `items`, at every depth of commented
/// items, and turns the registers of the removed identifiers into wires.
fn optimize(items: &Vec<ModuleItem>, removed: &mut Vec<String>) -> (r: Vec<ModuleItem>)
    requires
        opt_items_ok(items_v(items@), names_v(old(removed)@)),
    ensures
        items_v(r@) == opt_items(items_v(items@), names_v(old(removed)@)).0,
        names_v(final(removed)@) == opt_items(items_v(items@), names_v(old(removed)@)).1,
    decreases items,
{
    let ghost iv = items_v(items@);
    let ghost rem0 = names_v(removed@);
    let mut temp: Vec<ModuleItem> = Vec::new();
    let mut i: usize = 0;
    while i < items.len()
        invariant
            i <= items.len(),
            iv == items_v(items@),
            opt_items_temp_ok(iv, rem0),
            items_v(temp@) == opt_items_temp(iv.take(i as int), rem0).0,
            names_v(removed@) == opt_items_temp(iv.take(i as int), rem0).1,
        decreases items.len() - i,
    {
        proof {
            lemma_temp_ok_prefix(iv, rem0, i as int);
            let t = iv.take(i + 1);
            assert(t.drop_last() =~= iv.take(i as int));
            assert(t.last() == item_v(items@[i as int]));
        }
        let ghost t0 = temp@;
        let item = &items[i];
        match item {
            ModuleItem::AlwaysConstruct(event, stmts) => {
                if eq_str(event.as_str(), "always @*") {
                    let (conts, kept) = inline_block(stmts, removed);
                    temp.push(ModuleItem::ContinuousAssigns(conts));
                    temp.push(ModuleItem::AlwaysConstruct(event.clone(), kept));
                    assert(items_v(temp@) =~= items_v(t0) + opt_item(item_v(*item), opt_items_temp(
                        iv.take(i as int),
                        rem0,
                    ).1).0);
                } else {
                    temp.push(item.clone());
                    assert(items_v(temp@) =~= items_v(t0) + seq![item_v(*item)]);
                }
            },
            ModuleItem::Commented(before, after, inner) => {
                assert(decreases_to!(items => items@[i as int]));
                assert(decreases_to!(item => item->Commented_2));
                let inner2 = optimize(inner, removed);
                let a2 = match after {
                    Some(x) => Some(x.clone()),
                    None => None,
                };
                let c = ModuleItem::Commented(before.clone(), a2, inner2);
                temp.push(c);
                assert(items_v(temp@) =~= items_v(t0) + seq![item_v(c)]);
            },
            _ => {
                temp.push(item.clone());
                assert(items_v(temp@) =~= items_v(t0) + seq![item_v(*item)]);
            },
        }
        i += 1;
    }
    assert(iv.take(items.len() as int) =~= iv);
    let ghost tv = items_v(temp@);
    let ghost rem = names_v(removed@);
    let mut out: Vec<ModuleItem> = Vec::new();
    let mut i: usize = 0;
    while i < temp.len()
        invariant
            i <= temp.len(),
            tv == items_v(temp@),
            rem == names_v(removed@),
            forall|a: int, b: int|
                #![trigger tv[a]->Declarations_0[b]]
                0 <= a < tv.len() && tv[a] is Declarations && 0 <= b < tv[a]->Declarations_0.len() ==> reg_init_ok(
                    tv[a]->Declarations_0[b],
                    rem,
                ),
            out.len() == i,
            forall|j: int| 0 <= j < i ==> item_v(#[trigger] out@[j]) == item_to_nets(tv[j], rem),
        decreases temp.len() - i,
    {
        match &temp[i] {
            ModuleItem::Declarations(decls) => {
                let mut nd: Vec<Declaration> = Vec::new();
                let mut j: usize = 0;
                while j < decls.len()
                    invariant
                        j <= decls.len(),
                        i < temp.len(),
                        tv == items_v(temp@),
                        temp@[i as int] == ModuleItem::Declarations(*decls),
                        rem == names_v(removed@),
                        forall|b: int|
                            0 <= b < decls.len() ==> reg_init_ok(#[trigger] tv[i as int]->Declarations_0[b], rem),
                        nd.len() == j,
                        forall|b: int| 0 <= b < j ==> (#[trigger] nd@[b])@ == decl_to_net(decls@[b]@, rem),
                    decreases decls.len() - j,
                {
                    assert(tv[i as int]->Declarations_0[j as int] == decls@[j as int]@);
                    nd.push(decl_to_net_exec(&decls[j], removed));
                    j += 1;
                }
                assert(decls_v(nd@) =~= decls_v(decls@).map_values(|x: DeclV| decl_to_net(x, rem)));
                out.push(ModuleItem::Declarations(nd));
            },
            _ => {
                out.push(temp[i].clone());
            },
        }
        i += 1;
    }
    assert(items_v(out@) =~= tv.map_values(|it: ItemV| item_to_nets(it, rem)));
    out
}

/// Inlines the combinational always blocks (`always @*`) of a module into
/// continuous assignments: an assignment to a target that the block does not
/// have to keep becomes `assign`, a conditional becomes `assign`s of
/// conditional expressions, and the registers of the removed targets become
/// wires. The name and port declarations stay.
pub fn inline_always(module: Module) -> (r: Module)
    requires
        opt_items_ok(module@.module_items, seq![]),
    ensures
        r@ == inline_always_spec(module@),
{
    let mut removed: Vec<String> = Vec::new();
    assert(names_v(removed@) =~= seq![]);
    let module_items = optimize(&module.module_items, &mut removed);
    Module { name: module.name, port_decls: module.port_decls, module_items }
}

/// The names declared by two lists of items one after the other.
pub proof fn lemma_items_decls_append(a: Seq<ItemV>, b: Seq<ItemV>)
    ensures
        items_decls(a + b) == items_decls(a) + items_decls(b),
    decreases b.len(),
{
    if b.len() == 0 {
        assert(a + b =~= a);
        assert(items_decls(a) + items_decls(b) =~= items_decls(a));
    } else {
        assert((a + b).drop_last() =~= a + b.drop_last());
        assert((a + b).last() == b.last());
        lemma_items_decls_append(a, b.drop_last());
        assert(items_decls(a + b) =~= items_decls(a) + items_decls(b));
    }
}

/// A wire made from a register keeps its name.
proof fn lemma_item_to_nets_decls(it: ItemV, removed: Seq<Seq<char>>)
    ensures
        item_decls(item_to_nets(it, removed)) == item_decls(it),
{
    assert(item_decls(item_to_nets(it, removed)) =~= item_decls(it));
}

/// Items of which each keeps its declared names keep them all.
proof fn lemma_items_to_nets_decls(s: Seq<ItemV>, removed: Seq<Seq<char>>)
    ensures
        items_decls(s.map_values(|it: ItemV| item_to_nets(it, removed))) == items_decls(s),
    decreases s.len(),
{
    if s.len() > 0 {
        let m = s.map_values(|it: ItemV| item_to_nets(it, removed));
        assert(m.drop_last() =~= s.drop_last().map_values(|it: ItemV| item_to_nets(it, removed)));
        lemma_items_to_nets_decls(s.drop_last(), removed);
        lemma_item_to_nets_decls(s.last(), removed);
    } else {
        assert(s.map_values(|it: ItemV| item_to_nets(it, removed)) =~= s);
    }
}

/// The pass over items keeps the names they declare.
pub proof fn lemma_opt_items_decls(s: Seq<ItemV>, removed: Seq<Seq<char>>)
    ensures
        items_decls(opt_items(s, removed).0) == items_decls(s),
        items_decls(opt_items_temp(s, removed).0) == items_decls(s),
    decreases s, 1int,
{
    lemma_opt_items_temp_decls(s, removed);
    let t = opt_items_temp(s, removed);
    lemma_items_to_nets_decls(t.0, t.1);
}

/// The pass over items, before registers become wires, keeps the names they
/// declare.
proof fn lemma_opt_items_temp_decls(s: Seq<ItemV>, removed: Seq<Seq<char>>)
    ensures
        items_decls(opt_items_temp(s, removed).0) == items_decls(s),
    decreases s, 0int,
{
    if s.len() > 0 {
        let a = opt_items_temp(s.drop_last(), removed);
        let b = opt_item(s.last(), a.1);
        lemma_opt_items_temp_decls(s.drop_last(), removed);
        lemma_opt_item_decls(s.last(), a.1);
        lemma_items_decls_append(a.0, b.0);
    }
}

/// The pass over one item keeps the names it declares.
#[verifier::spinoff_prover]
proof fn lemma_opt_item_decls(it: ItemV, removed: Seq<Seq<char>>)
    ensures
        items_decls(opt_item(it, removed).0) == item_decls(it),
    decreases it, 0int,
{
    let r = opt_item(it, removed).0;
    assert(items_decls(Seq::<ItemV>::empty()) =~= Seq::<Seq<char>>::empty());
    match it {
        ItemV::AlwaysConstruct(ev, stmts) => {
            if ev == comb_event() {
                assert(r.drop_last() =~= seq![r[0]]);
                assert(seq![r[0]].drop_last() =~= Seq::<ItemV>::empty());
                let rr = inline_run(stmts, preserved_of(stmts), removed);
                assert(r[0] == ItemV::ContinuousAssigns(rr.conts));
                assert(item_decls(r[0]) =~= Seq::<Seq<char>>::empty());
                assert(items_decls(Seq::<ItemV>::empty()) =~= Seq::<Seq<char>>::empty());
                assert(items_decls(seq![r[0]]) =~= Seq::<Seq<char>>::empty());
                assert(r.last() == r[1]);
                assert(item_decls(r[1]) =~= Seq::<Seq<char>>::empty());
                assert(item_decls(it) =~= Seq::<Seq<char>>::empty());
                assert(items_decls(r) =~= Seq::<Seq<char>>::empty());
            } else {
                assert(r.drop_last() =~= Seq::<ItemV>::empty());
                assert(items_decls(r) =~= item_decls(it));
            }
        },
        ItemV::Commented(b, a, items) => {
            lemma_opt_items_decls(items, removed);
            assert(r.drop_last() =~= Seq::<ItemV>::empty());
            assert(item_decls(r.last()) == items_decls(opt_items(items, removed).0));
            assert(items_decls(r) =~= item_decls(it));
        },
        _ => {
            assert(r.drop_last() =~= Seq::<ItemV>::empty());
            assert(items_decls(r) =~= item_decls(it));
        },
    }
}

/// Inlining always blocks declares the same names as before, in the same
/// order: registers become wires under their own names, and no declaration
/// is added or dropped.
pub proof fn lemma_inline_always_decls(m: ModuleV)
    ensures
        module_decls(inline_always_spec(m)) == module_decls(m),
{
    lemma_opt_items_decls(m.module_items, seq![]);
}

/// Whether some item, at any depth of commented items, is a combinational
/// always block.
pub open spec fn has_comb(s: Seq<ItemV>) -> bool
    decreases s,
{
    s.len() > 0 && (has_comb(s.drop_last()) || item_has_comb(s.last()))
}

/// Whether an item is, or holds at any depth, a combinational always block.
pub open spec fn item_has_comb(it: ItemV) -> bool
    decreases it,
{
    match it {
        ItemV::AlwaysConstruct(ev, _) => ev == comb_event(),
        ItemV::Commented(_, _, items) => has_comb(items),
        _ => false,
    }
}

/// Items without a combinational always block come out of the pass unchanged,
/// and nothing is removed.
pub proof fn lemma_opt_items_no_comb(s: Seq<ItemV>)
    requires
        !has_comb(s),
    ensures
        opt_items(s, seq![]) == (s, Seq::<Seq<char>>::empty()),
        opt_items_temp(s, seq![]) == (s, Seq::<Seq<char>>::empty()),
    decreases s, 1int,
{
    lemma_opt_items_temp_no_comb(s);
    assert forall|i: int| 0 <= i < s.len() implies item_to_nets(s[i], seq![]) == s[i] by {
        if let ItemV::Declarations(d) = s[i] {
            assert(d.map_values(|x: DeclV| decl_to_net(x, seq![])) =~= d);
        }
    }
    assert(s.map_values(|it: ItemV| item_to_nets(it, seq![])) =~= s);
}

/// Items without a combinational always block come out of the first stage of
/// the pass unchanged.
proof fn lemma_opt_items_temp_no_comb(s: Seq<ItemV>)
    requires
        !has_comb(s),
    ensures
        opt_items_temp(s, seq![]) == (s, Seq::<Seq<char>>::empty()),
    decreases s, 0int,
{
    if s.len() > 0 {
        lemma_opt_items_temp_no_comb(s.drop_last());
        let last = s.last();
        assert(s[s.len() - 1] == last);
        assert(!item_has_comb(last));
        if let ItemV::Commented(b, a, items) = last {
            assert(!has_comb(items));
            lemma_opt_items_no_comb(items);
        }
        assert(opt_item(last, seq![]) == (seq![last], Seq::<Seq<char>>::empty()));
        assert(s.drop_last() + seq![last] =~= s);
    }
}

/// A module without a combinational always block is left unchanged.
pub proof fn lemma_inline_always_no_comb(m: ModuleV)
    requires
        !has_comb(m.module_items),
    ensures
        inline_always_spec(m) == m,
{
    lemma_opt_items_no_comb(m.module_items);
}

} // verus!
