//! Pieces of the translation of expressions into statements: temporaries that hold values,
//! assignments to them, and operators applied to translated operands.

use vstd::prelude::*;

use crate::compiler::codegen::{
    ce_leaves, ce_skel, ces_leaves, ces_skel, lemma_ces_take, lemma_zip_same_skel, named_view, pdv_skel, zip_leaves, zip_ok,
    CompositeExpr, Skel,
};
use crate::compiler::expr::{e_pd, e_pok, Expr, ExprTable};
use crate::compiler::naming::{id_name, prefix_spec, Context, Scope};
use crate::compiler::ops::{BinaryOp, UnaryOp};
use crate::compiler::prelude::{pdv_leaves, PortDecls, PortDeclsView, Shape};
use crate::utils::string::{join2, join_two, opt_view};
use crate::compiler::system_task::{all_decls, all_stmts};
use crate::vir::ir::{
    branches_v, decls_v, expr_v, exprs_v, is_plain_ident, stmt_v, stmts_v, DeclV, Declaration, ExprV, Expression, PrimV, Statement, StmtV,
};

verus! {

/// Blocking assignments of the second of each pair to the first.
pub open spec fn assigns_spec(pairs: Seq<(Expression, Expression)>) -> Seq<StmtV> {
    Seq::new(pairs.len(), |i: int| StmtV::Blocking(expr_v(pairs[i].0), expr_v(pairs[i].1)))
}

/// Blocking assignments of the values `rhs` to `lhs`, index by index.
pub open spec fn assigns_leaves(lhs: Seq<ExprV>, rhs: Seq<ExprV>) -> Seq<StmtV> {
    Seq::new(lhs.len(), |i: int| StmtV::Blocking(lhs[i], rhs[i]))
}

/// Returns blocking assignments of the leaves of `rhs` to those of `lhs`, zipped member by member.
pub fn assign_exprs(lhs: CompositeExpr<Expression>, rhs: CompositeExpr<Expression>) -> (r: Vec<Statement>)
    requires
        zip_ok(lhs, rhs),
    ensures
        stmts_v(r@) == assigns_spec(zip_leaves(lhs, rhs)),
        ce_skel(lhs) == ce_skel(rhs) ==> stmts_v(r@) == assigns_leaves(
            exprs_v(ce_leaves(lhs)),
            exprs_v(ce_leaves(rhs)),
        ),
{
    proof {
        if ce_skel(lhs) == ce_skel(rhs) {
            lemma_zip_same_skel(lhs, rhs);
            assert(assigns_spec(zip_leaves(lhs, rhs)) =~= assigns_leaves(
                exprs_v(ce_leaves(lhs)),
                exprs_v(ce_leaves(rhs)),
            ));
        }
    }
    let ghost pairs = zip_leaves(lhs, rhs);
    let mut it = lhs.zip(rhs).into_iter();
    let mut out: Vec<Statement> = Vec::new();
    while it.inner.len() > 0
        invariant
            out@.len() + it.inner@.len() == pairs.len(),
            it.inner@ == pairs.subrange(out@.len() as int, pairs.len() as int),
            stmts_v(out@) == assigns_spec(pairs.take(out@.len() as int)),
        decreases it.inner@.len(),
    {
        let ghost k = out@.len() as int;
        let (l, v) = match it.next() {
            Some(p) => p,
            None => vstd::pervasive::unreached(),
        };
        assert((l, v) == pairs[k]);
        let ghost prev = out@;
        out.push(Statement::BlockingAssignment(l, v));
        assert forall|j: int| 0 <= j < k + 1 implies #[trigger] stmts_v(out@)[j] == assigns_spec(pairs.take(k + 1))[j] by {
            if j < k {
                assert(stmts_v(prev)[j] == assigns_spec(pairs.take(k))[j]);
                assert(out@[j] == prev[j]);
            }
        }
        assert(stmts_v(out@) =~= assigns_spec(pairs.take(k + 1)));
    }
    assert(pairs.take(pairs.len() as int) =~= pairs);
    out
}

/// Registers named after `prefix` for the leaves of a value type.
pub open spec fn leaf_regs(typ: PortDeclsView, prefix: Seq<char>) -> Seq<DeclV> {
    let leaves = pdv_leaves(typ, Some(prefix), true);
    Seq::new(leaves.len(), |i: int| DeclV::Reg(leaves[i].1, leaves[i].0.unwrap(), None))
}

/// Identifiers named after `prefix` for the leaves of a value type.
pub open spec fn leaf_idents(typ: PortDeclsView, prefix: Seq<char>) -> Seq<ExprV> {
    let leaves = pdv_leaves(typ, Some(prefix), true);
    Seq::new(leaves.len(), |i: int| ExprV::Primary(PrimV::Ident(leaves[i].0.unwrap(), None)))
}

/// The identifier of a named shape.
fn ident_of(named: (String, Shape)) -> (r: Expression)
    ensures
        r@ == ExprV::Primary(PrimV::Ident(named.0@, None)),
{
    Expression::ident(named.0)
}

/// Registers named after `prefix` for the leaves of `typ`, and their identifiers.
fn temp_exprs(typ: &PortDecls, prefix: &String) -> (r: (Vec<Declaration>, CompositeExpr<Expression>))
    ensures
        decls_v(r.0@) == leaf_regs(typ@, prefix@),
        ce_skel(r.1) == pdv_skel(typ@),
        exprs_v(ce_leaves(r.1)) == leaf_idents(typ@, prefix@),
{
    let ghost leaves = pdv_leaves(typ@, Some(prefix@), true);
    let named = CompositeExpr::from_typ(typ.clone(), prefix.clone());
    let named2 = CompositeExpr::from_typ(typ.clone(), prefix.clone());
    let ghost nl = ce_leaves(named);
    assert(named_view(nl) == leaves);
    let mut it = named.into_iter();
    let mut decls: Vec<Declaration> = Vec::new();
    while it.inner.len() > 0
        invariant
            decls@.len() + it.inner@.len() == nl.len(),
            it.inner@ == nl.subrange(decls@.len() as int, nl.len() as int),
            named_view(nl) == leaves,
            leaves == pdv_leaves(typ@, Some(prefix@), true),
            leaf_regs(typ@, prefix@).len() == nl.len(),
            decls_v(decls@) == leaf_regs(typ@, prefix@).take(decls@.len() as int),
        decreases it.inner@.len(),
    {
        let ghost k = decls@.len() as int;
        let (name, shape) = match it.next() {
            Some(p) => p,
            None => vstd::pervasive::unreached(),
        };
        assert((name, shape) == nl[k]);
        assert(named_view(nl)[k] == (Some(name@), shape@));
        let ghost prev = decls@;
        let d = Declaration::reg(shape, name);
        assert(d@ == leaf_regs(typ@, prefix@)[k]);
        decls.push(d);
        assert forall|j: int| 0 <= j < k + 1 implies #[trigger] decls_v(decls@)[j] == leaf_regs(typ@, prefix@).take(
            k + 1,
        )[j] by {
            if j < k {
                assert(decls_v(prev)[j] == leaf_regs(typ@, prefix@).take(k)[j]);
                assert(decls@[j] == prev[j]);
            }
        }
        assert(decls_v(decls@) =~= leaf_regs(typ@, prefix@).take(k + 1));
    }
    assert(leaf_regs(typ@, prefix@).take(nl.len() as int) =~= leaf_regs(typ@, prefix@));
    let ghost nl2 = ce_leaves(named2);
    let exprs = named2.map(ident_of);
    assert(exprs_v(ce_leaves(exprs)) =~= leaf_idents(typ@, prefix@)) by {
        assert forall|i: int| 0 <= i < nl2.len() implies exprs_v(ce_leaves(exprs))[i] == leaf_idents(
            typ@,
            prefix@,
        )[i] by {
            assert(named_view(nl2)[i] == leaves[i]);
        }
    }
    (decls, exprs)
}

/// The scopes of a context after a temporary is allocated in the innermost one.
pub open spec fn after_temp(scopes: Seq<Scope>) -> Seq<Scope> {
    scopes.update(scopes.len() - 1, Scope { temp_id: (scopes.last().temp_id + 1) as usize, ..scopes.last() })
}

/// The prefix of the temporaries allocated next in a context.
pub open spec fn next_temp_prefix(scopes: Seq<Scope>) -> Seq<char> {
    join2("_"@, prefix_spec(scopes), Some(id_name('t', scopes.last().temp_id as nat))).unwrap()
}

/// Allocates temporaries for the value of `expr`, whose operands are in `table`: registers
/// named after a fresh prefix, one for each leaf of its type, and their identifiers.
/// Returns the declarations, the identifiers and the prefix.
pub fn alloc_exprs(expr: &Expr, table: &ExprTable, ctx: &mut Context) -> (r: (
    Vec<Declaration>,
    CompositeExpr<Expression>,
    String,
))
    requires
        e_pok(table.exprs@, *expr, table.exprs@.len()),
        old(ctx).scopes@.len() > 0,
        old(ctx).scopes@.last().temp_id < usize::MAX,
    ensures
        r.2@ == next_temp_prefix(old(ctx).scopes@),
        final(ctx).scopes@ == after_temp(old(ctx).scopes@),
        final(ctx).genvar_id == old(ctx).genvar_id,
        decls_v(r.0@) == leaf_regs(e_pd(table.exprs@, *expr, table.exprs@.len()), r.2@),
        ce_skel(r.1) == pdv_skel(e_pd(table.exprs@, *expr, table.exprs@.len())),
        exprs_v(ce_leaves(r.1)) == leaf_idents(e_pd(table.exprs@, *expr, table.exprs@.len()), r.2@),
{
    let typ = expr.port_decls(table);
    let prefix = ctx.alloc_temp_id_with_prefix();
    let (decls, exprs) = temp_exprs(&typ, &prefix);
    (decls, exprs, prefix)
}

/// `op` applied to the first `n` pairs of leaves, the results joined by `join`, first pair first.
pub open spec fn fold_pairs(op: BinaryOp, join: BinaryOp, l: Seq<ExprV>, r: Seq<ExprV>, n: nat) -> ExprV
    decreases n,
{
    if n <= 1 {
        ExprV::Binary(Box::new(l[0]), op, Box::new(r[0]))
    } else {
        ExprV::Binary(
            Box::new(fold_pairs(op, join, l, r, (n - 1) as nat)),
            join,
            Box::new(ExprV::Binary(Box::new(l[n - 1]), op, Box::new(r[n - 1]))),
        )
    }
}

/// The operands of a binary operation are translated fit for it: those of an equality or
/// inequality have as many leaves, at least one; those of another operator are single values.
pub open spec fn binary_operands_ok(op: BinaryOp, lhs: CompositeExpr<Expression>, rhs: CompositeExpr<Expression>) -> bool {
    match op {
        BinaryOp::EqArithmetic | BinaryOp::NeArithmetic => ce_leaves(lhs).len() == ce_leaves(rhs).len()
            && ce_leaves(lhs).len() > 0,
        _ => lhs is Bits && rhs is Bits,
    }
}

/// The value of a binary operation on translated operands: an equality compares leaf by leaf
/// and joins the comparisons by `&`, an inequality joins them by `|`; another operator is
/// applied to the two values.
pub open spec fn binary_op_spec(op: BinaryOp, lhs: CompositeExpr<Expression>, rhs: CompositeExpr<Expression>) -> ExprV {
    let l = exprs_v(ce_leaves(lhs));
    let r = exprs_v(ce_leaves(rhs));
    match op {
        BinaryOp::EqArithmetic => fold_pairs(op, BinaryOp::And, l, r, l.len()),
        BinaryOp::NeArithmetic => fold_pairs(op, BinaryOp::Or, l, r, l.len()),
        _ => ExprV::Binary(Box::new(expr_v(lhs->Bits_0)), op, Box::new(expr_v(rhs->Bits_0))),
    }
}

/// Returns the value of binary operation `op` on translated operands.
pub fn binary_op_expr(op: BinaryOp, lhs: CompositeExpr<Expression>, rhs: CompositeExpr<Expression>) -> (r: Expression)
    requires
        binary_operands_ok(op, lhs, rhs),
    ensures
        r@ == binary_op_spec(op, lhs, rhs),
{
    match op {
        BinaryOp::EqArithmetic | BinaryOp::NeArithmetic => {
            let join = match op {
                BinaryOp::EqArithmetic => BinaryOp::And,
                _ => BinaryOp::Or,
            };
            let ghost l = exprs_v(ce_leaves(lhs));
            let ghost rv = exprs_v(ce_leaves(rhs));
            let ghost n = ce_leaves(lhs).len();
            let mut ls = lhs.into_iter();
            let mut rs = rhs.into_iter();
            let cnt = ls.inner.len();
            let ghost l0 = ls.inner@;
            let ghost r0 = rs.inner@;
            let a = match ls.next() {
                Some(x) => x,
                None => vstd::pervasive::unreached(),
            };
            let b = match rs.next() {
                Some(x) => x,
                None => vstd::pervasive::unreached(),
            };
            let mut acc = Expression::binary(op, a, b);
            let mut k: usize = 1;
            assert(acc@ == fold_pairs(op, join, l, rv, 1));
            while ls.inner.len() > 0
                invariant
                    1 <= k <= n,
                    l0.len() == n,
                    n == cnt,
                    r0.len() == n,
                    l == exprs_v(l0),
                    rv == exprs_v(r0),
                    ls.inner@ == l0.subrange(k as int, n as int),
                    rs.inner@ == r0.subrange(k as int, n as int),
                    acc@ == fold_pairs(op, join, l, rv, k as nat),
                decreases ls.inner@.len(),
            {
                let a = match ls.next() {
                    Some(x) => x,
                    None => vstd::pervasive::unreached(),
                };
                let b = match rs.next() {
                    Some(x) => x,
                    None => vstd::pervasive::unreached(),
                };
                assert(a == l0[k as int] && b == r0[k as int]);
                acc = Expression::binary(join, acc, Expression::binary(op, a, b));
                k = k + 1;
            }
            acc
        },
        _ => Expression::binary(op, lhs.into_expr(), rhs.into_expr()),
    }
}

/// Returns what a binary operation is translated into, given the translations of its
/// operands: their declarations, then the register that holds the result; their
/// statements, then the assignment of the result to the register; and the register's
/// identifier. Returns the prefix of the register too.
#[verifier::rlimit(40)]
pub fn gen_binary_op(
    expr: &Expr,
    table: &ExprTable,
    op: BinaryOp,
    lhs: (Vec<Declaration>, Vec<Statement>, CompositeExpr<Expression>),
    rhs: (Vec<Declaration>, Vec<Statement>, CompositeExpr<Expression>),
    ctx: &mut Context,
) -> (r: (Vec<Declaration>, Vec<Statement>, CompositeExpr<Expression>, String))
    requires
        *expr matches Expr::BinaryOp { op: o, .. } && o == op,
        e_pok(table.exprs@, *expr, table.exprs@.len()),
        binary_operands_ok(op, lhs.2, rhs.2),
        old(ctx).scopes@.len() > 0,
        old(ctx).scopes@.last().temp_id < usize::MAX,
    ensures
        r.3@ == next_temp_prefix(old(ctx).scopes@),
        final(ctx).scopes@ == after_temp(old(ctx).scopes@),
        final(ctx).genvar_id == old(ctx).genvar_id,
        decls_v(r.0@) == decls_v(lhs.0@) + decls_v(rhs.0@) + leaf_regs(
            e_pd(table.exprs@, *expr, table.exprs@.len()),
            r.3@,
        ),
        stmts_v(r.1@) == stmts_v(lhs.1@) + stmts_v(rhs.1@) + seq![
            StmtV::Blocking(ExprV::Primary(PrimV::Ident(r.3@, None)), binary_op_spec(op, lhs.2, rhs.2)),
        ],
        r.2 matches CompositeExpr::Bits(x) && x@ == ExprV::Primary(PrimV::Ident(r.3@, None)),
{
    let ghost pd = e_pd(table.exprs@, *expr, table.exprs@.len());
    let (mut decls, mut stmts, l) = lhs;
    let (mut rdecls, mut rstmts, rv) = rhs;
    let (mut out_decls, out, prefix) = alloc_exprs(expr, table, ctx);
    assert(pd is Bits);
    assert(pdv_leaves(pd, Some(prefix@), true) =~= seq![(Some(prefix@), pd->Bits_0)]);
    let value = binary_op_expr(op, l, rv);
    let ghost vv = value@;
    assert(out is Bits);
    let ghost outv = out;
    let target = out.into_expr();
    let ghost tv = target@;
    assert(ce_leaves(outv) == seq![target]);
    assert(exprs_v(ce_leaves(outv))[0] == tv);
    assert(tv == ExprV::Primary(PrimV::Ident(prefix@, None)));
    let target2 = target.clone();
    let mut assign = assign_exprs(CompositeExpr::Bits(target), CompositeExpr::Bits(value));
    assert(stmts_v(assign@) =~= seq![StmtV::Blocking(tv, vv)]);
    let ghost d0 = decls@;
    let ghost s0 = stmts@;
    let ghost d1 = rdecls@;
    let ghost s1 = rstmts@;
    let ghost d2 = out_decls@;
    decls.append(&mut rdecls);
    decls.append(&mut out_decls);
    stmts.append(&mut rstmts);
    stmts.append(&mut assign);
    assert(decls_v(decls@) =~= decls_v(d0) + decls_v(d1) + decls_v(d2));
    assert(stmts_v(stmts@) =~= stmts_v(s0) + stmts_v(s1) + seq![StmtV::Blocking(tv, vv)]);
    (decls, stmts, CompositeExpr::Bits(target2), prefix)
}

/// Returns what a unary operation is translated into, given the translation of its
/// operand, a single value: its declarations and statements, and the operation on it.
pub fn gen_unary_op(op: UnaryOp, inner: (Vec<Declaration>, Vec<Statement>, CompositeExpr<Expression>)) -> (r: (
    Vec<Declaration>,
    Vec<Statement>,
    CompositeExpr<Expression>,
))
    requires
        inner.2 is Bits,
    ensures
        r.0 == inner.0,
        r.1 == inner.1,
        r.2 matches CompositeExpr::Bits(x) && x@ == ExprV::Unary(op, PrimV::Mintypmax(Box::new(expr_v(inner.2->Bits_0)))),
{
    let (decls, stmts, e) = inner;
    (decls, stmts, CompositeExpr::Bits(Expression::unary(op, e.into_expr())))
}

/// Returns a copy of translated values.
pub fn clone_composite(e: &CompositeExpr<Expression>) -> (r: CompositeExpr<Expression>)
    ensures
        ce_skel(r) == ce_skel(*e),
        exprs_v(ce_leaves(r)) == exprs_v(ce_leaves(*e)),
    decreases e,
{
    match e {
        CompositeExpr::Bits(x) => {
            let c = x.clone();
            assert(exprs_v(ce_leaves(CompositeExpr::Bits(c))) =~= exprs_v(ce_leaves(*e)));
            CompositeExpr::Bits(c)
        },
        CompositeExpr::Struct(v) => {
            let mut out: Vec<CompositeExpr<Expression>> = Vec::new();
            let mut i: usize = 0;
            while i < v.len()
                invariant
                    *e == CompositeExpr::Struct(*v),
                    i <= v@.len(),
                    out@.len() == i,
                    ces_skel(out@) == ces_skel(v@.take(i as int)),
                    exprs_v(ces_leaves(out@)) == exprs_v(ces_leaves(v@.take(i as int))),
                decreases v@.len() - i,
            {
                proof {
                    crate::compiler::codegen::lemma_ce_member_decreases(*e, i as int);
                }
                let c = clone_composite(&v[i]);
                let ghost prev = out@;
                out.push(c);
                proof {
                    lemma_ces_take(v@, i as int);
                    assert(out@.drop_last() =~= prev);
                    assert(exprs_v(ces_leaves(out@)) =~= exprs_v(ces_leaves(prev)) + exprs_v(ce_leaves(c)));
                    assert(exprs_v(ces_leaves(v@.take(i as int + 1))) =~= exprs_v(ces_leaves(v@.take(i as int)))
                        + exprs_v(ce_leaves(v@[i as int])));
                }
                i = i + 1;
            }
            assert(v@.take(v@.len() as int) =~= v@);
            CompositeExpr::Struct(out)
        },
    }
}

/// Returns the identifiers of the leaves of a variable, named after the prefix of the
/// innermost scope and the variable's name, and that joined name.
pub fn gen_var(expr: &Expr, table: &ExprTable, ctx: &Context) -> (r: (CompositeExpr<Expression>, String))
    requires
        *expr is Var,
        join2("_"@, prefix_spec(ctx.scopes@), opt_view(expr->Var_name)) is Some,
    ensures
        r.1@ == join2("_"@, prefix_spec(ctx.scopes@), opt_view(expr->Var_name)).unwrap(),
        ce_skel(r.0) == pdv_skel(e_pd(table.exprs@, *expr, table.exprs@.len())),
        exprs_v(ce_leaves(r.0)) == leaf_idents(e_pd(table.exprs@, *expr, table.exprs@.len()), r.1@),
{
    let (name, typ) = match expr {
        Expr::Var { name, typ } => (name, typ),
        _ => vstd::pervasive::unreached(),
    };
    let n = match name {
        Some(s) => Some(s.clone()),
        None => None,
    };
    let prefix = match join_two("_", ctx.get_prefix(), n) {
        Some(p) => p,
        None => vstd::pervasive::unreached(),
    };
    let (_, exprs) = temp_exprs(typ, &prefix);
    (exprs, prefix)
}

/// Returns what a member of a struct is translated into, given the translation of the struct:
/// its declarations and statements, and the values of the member.
pub fn gen_member(inner: (Vec<Declaration>, Vec<Statement>, CompositeExpr<Expression>), index: usize) -> (r: (
    Vec<Declaration>,
    Vec<Statement>,
    CompositeExpr<Expression>,
))
    requires
        inner.2 is Struct,
        index < inner.2->Struct_0@.len(),
    ensures
        r.0 == inner.0,
        r.1 == inner.1,
        r.2 == inner.2->Struct_0@[index as int],
{
    let (decls, stmts, exprs) = inner;
    match exprs {
        CompositeExpr::Struct(fields) => {
            let mut fields = fields;
            let member = fields.swap_remove(index);
            (decls, stmts, member)
        },
        CompositeExpr::Bits(_) => vstd::pervasive::unreached(),
    }
}

/// The translations of pairs, first and second of each pair in turn.
pub open spec fn pair_gens(
    p: Seq<(
        (Vec<Declaration>, Vec<Statement>, CompositeExpr<Expression>),
        (Vec<Declaration>, Vec<Statement>, CompositeExpr<Expression>),
    )>,
) -> Seq<(Vec<Declaration>, Vec<Statement>, CompositeExpr<Expression>)>
    decreases p.len(),
{
    if p.len() == 0 {
        seq![]
    } else {
        pair_gens(p.drop_last()).push(p.last().0).push(p.last().1)
    }
}

/// The first translation of each pair.
pub open spec fn firsts(
    p: Seq<(
        (Vec<Declaration>, Vec<Statement>, CompositeExpr<Expression>),
        (Vec<Declaration>, Vec<Statement>, CompositeExpr<Expression>),
    )>,
) -> Seq<(Vec<Declaration>, Vec<Statement>, CompositeExpr<Expression>)> {
    Seq::new(p.len(), |i: int| p[i].0)
}

/// The second translation of each pair.
pub open spec fn seconds(
    p: Seq<(
        (Vec<Declaration>, Vec<Statement>, CompositeExpr<Expression>),
        (Vec<Declaration>, Vec<Statement>, CompositeExpr<Expression>),
    )>,
) -> Seq<(Vec<Declaration>, Vec<Statement>, CompositeExpr<Expression>)> {
    Seq::new(p.len(), |i: int| p[i].1)
}

/// Branches guarded by the value of the first translation of each pair, each assigning the
/// values of the second to `out`.
pub open spec fn guarded_assigns(
    p: Seq<(
        (Vec<Declaration>, Vec<Statement>, CompositeExpr<Expression>),
        (Vec<Declaration>, Vec<Statement>, CompositeExpr<Expression>),
    )>,
    out: Seq<ExprV>,
) -> Seq<(ExprV, Seq<StmtV>)> {
    Seq::new(p.len(), |i: int| (expr_v(p[i].0.2->Bits_0), assigns_leaves(out, exprs_v(ce_leaves(p[i].1.2)))))
}

/// The pairs translate a guard to a single value and a value of the structure of `out`.
pub open spec fn guarded_ok(
    p: Seq<(
        (Vec<Declaration>, Vec<Statement>, CompositeExpr<Expression>),
        (Vec<Declaration>, Vec<Statement>, CompositeExpr<Expression>),
    )>,
    out: CompositeExpr<Expression>,
) -> bool {
    forall|i: int| 0 <= i < p.len() ==> (#[trigger] p[i]).0.2 is Bits && ce_skel(p[i].1.2) == ce_skel(out)
}

/// Returns the branch of a guarded assignment to `out`, from the translations of its guard
/// and value.
fn guarded_branch(
    out: &CompositeExpr<Expression>,
    guard: CompositeExpr<Expression>,
    value: CompositeExpr<Expression>,
) -> (r: (Expression, Vec<Statement>))
    requires
        guard is Bits,
        ce_skel(value) == ce_skel(*out),
    ensures
        expr_v(r.0) == expr_v(guard->Bits_0),
        stmts_v(r.1@) == assigns_leaves(exprs_v(ce_leaves(*out)), exprs_v(ce_leaves(value))),
{
    let target = clone_composite(out);
    proof {
        lemma_zip_same_skel(target, value);
    }
    (guard.into_expr(), assign_exprs(target, value))
}

/// Returns what a conditional value is translated into, given the translations of its
/// guards and values, the registers of its result (declarations and identifiers), and the
/// translation of its default value: the declarations of the guards and values, of the
/// default and of the result; their statements, then the conditional assignment of the
/// value of the first true guard, else of the default, to the result; and the result.
pub fn gen_cond(
    pairs: Vec<(
        (Vec<Declaration>, Vec<Statement>, CompositeExpr<Expression>),
        (Vec<Declaration>, Vec<Statement>, CompositeExpr<Expression>),
    )>,
    output: (Vec<Declaration>, CompositeExpr<Expression>),
    default: (Vec<Declaration>, Vec<Statement>, CompositeExpr<Expression>),
) -> (r: (Vec<Declaration>, Vec<Statement>, CompositeExpr<Expression>))
    requires
        pairs@.len() > 0,
        guarded_ok(pairs@, output.1),
        ce_skel(default.2) == ce_skel(output.1),
    ensures
        decls_v(r.0@) == all_decls(pair_gens(pairs@)) + decls_v(default.0@) + decls_v(output.0@),
        stmts_v(r.1@) == all_stmts(pair_gens(pairs@)) + stmts_v(default.1@) + seq![
            StmtV::Conditional(
                guarded_assigns(pairs@, exprs_v(ce_leaves(output.1))),
                assigns_leaves(exprs_v(ce_leaves(output.1)), exprs_v(ce_leaves(default.2))),
            ),
        ],
        r.2 == output.1,
{
    let ghost p0 = pairs@;
    let (mut out_decls, out) = output;
    let ghost outl = exprs_v(ce_leaves(out));
    let mut decls: Vec<Declaration> = Vec::new();
    let mut stmts: Vec<Statement> = Vec::new();
    let mut branches: Vec<(Expression, Vec<Statement>)> = Vec::new();
    let n = pairs.len();
    let mut rest = pairs;
    let mut i: usize = 0;
    while rest.len() > 0
        invariant
            guarded_ok(p0, out),
            outl == exprs_v(ce_leaves(out)),
            p0.len() == n,
            i + rest@.len() == n,
            rest@ == p0.subrange(i as int, n as int),
            decls_v(decls@) == all_decls(pair_gens(p0.take(i as int))),
            stmts_v(stmts@) == all_stmts(pair_gens(p0.take(i as int))),
            branches_v(branches@) == guarded_assigns(p0.take(i as int), outl),
            branches@.len() == i,
        decreases rest@.len(),
    {
        let ((mut cd, mut cs, ce), (mut bd, mut bs, be)) = rest.remove(0);
        let ghost c = p0[i as int].0;
        let ghost b = p0[i as int].1;
        assert(p0[i as int] == ((cd, cs, ce), (bd, bs, be)));
        assert(guarded_ok(p0, out) ==> (p0[i as int]).0.2 is Bits);
        let ghost d0 = decls@;
        let ghost s0 = stmts@;
        let ghost br0 = branches@;
        decls.append(&mut cd);
        decls.append(&mut bd);
        stmts.append(&mut cs);
        stmts.append(&mut bs);
        let br = guarded_branch(&out, ce, be);
        branches.push(br);
        proof {
            let t0 = p0.take(i as int);
            let t1 = p0.take(i as int + 1);
            assert(t1.drop_last() =~= t0);
            assert(pair_gens(t1) == pair_gens(t0).push(c).push(b));
            assert(pair_gens(t0).push(c).push(b).drop_last() =~= pair_gens(t0).push(c));
            assert(pair_gens(t0).push(c).drop_last() =~= pair_gens(t0));
            let pg = pair_gens(t0);
            assert(all_decls(pg.push(c).push(b)) == all_decls(pg.push(c)) + decls_v(b.0@));
            assert(all_decls(pg.push(c)) == all_decls(pg) + decls_v(c.0@));
            assert(all_stmts(pg.push(c).push(b)) == all_stmts(pg.push(c)) + stmts_v(b.1@));
            assert(all_stmts(pg.push(c)) == all_stmts(pg) + stmts_v(c.1@));
            assert(decls_v(decls@) =~= decls_v(d0) + decls_v(c.0@) + decls_v(b.0@));
            assert(stmts_v(stmts@) =~= stmts_v(s0) + stmts_v(c.1@) + stmts_v(b.1@));
            assert(branches@ == br0.push(br));
            assert forall|j: int| 0 <= j < i + 1 implies #[trigger] branches_v(branches@)[j] == guarded_assigns(t1, outl)[j] by {
                if j < i {
                    assert(branches_v(br0)[j] == guarded_assigns(t0, outl)[j]);
                    assert(t0[j] == t1[j]);
                } else {
                    assert(t1[j] == p0[i as int]);
                }
            }
            assert(branches_v(branches@) =~= guarded_assigns(t1, outl));
        }
        i = i + 1;
    }
    assert(p0.take(n as int) =~= p0);
    let (mut dd, mut ds, de) = default;
    let target = clone_composite(&out);
    proof {
        lemma_zip_same_skel(target, de);
    }
    let other = assign_exprs(target, de);
    let ghost d1 = decls@;
    let ghost s1 = stmts@;
    let ghost dd0 = dd@;
    let ghost ds0 = ds@;
    let ghost od0 = out_decls@;
    let ghost bv = branches_v(branches@);
    let ghost ov = stmts_v(other@);
    decls.append(&mut dd);
    decls.append(&mut out_decls);
    stmts.append(&mut ds);
    let cond = Statement::Conditional(branches, other);
    assert(stmt_v(cond) == StmtV::Conditional(bv, ov));
    stmts.push(cond);
    assert(decls_v(decls@) =~= decls_v(d1) + decls_v(dd0) + decls_v(od0));
    assert(stmts_v(stmts@) =~= stmts_v(s1) + stmts_v(ds0) + seq![StmtV::Conditional(bv, ov)]);
    (decls, stmts, out)
}

/// Declarations of an optional translation.
pub open spec fn opt_decls(g: Option<(Vec<Declaration>, Vec<Statement>, CompositeExpr<Expression>)>) -> Seq<DeclV> {
    match g {
        Some(x) => decls_v(x.0@),
        None => seq![],
    }
}

/// Statements of an optional translation.
pub open spec fn opt_stmts(g: Option<(Vec<Declaration>, Vec<Statement>, CompositeExpr<Expression>)>) -> Seq<StmtV> {
    match g {
        Some(x) => stmts_v(x.1@),
        None => seq![],
    }
}

/// Declarations and statements of one more translation.
proof fn lemma_all_push(
    s: Seq<(Vec<Declaration>, Vec<Statement>, CompositeExpr<Expression>)>,
    x: (Vec<Declaration>, Vec<Statement>, CompositeExpr<Expression>),
)
    ensures
        all_decls(s.push(x)) == all_decls(s) + decls_v(x.0@),
        all_stmts(s.push(x)) == all_stmts(s) + stmts_v(x.1@),
{
    assert(s.push(x).drop_last() =~= s);
}

/// Returns what a case analysis is translated into, given the translations of its
/// scrutinee, of the labels and values of its cases, of its default value if any, and the
/// registers of its result: the declarations of the scrutinee, of all labels, of all
/// values, of the default and of the result; their statements, then the case statement that
/// assigns the value of the matching case, else the default, to the result; and the result.
pub fn gen_case(
    scrutinee: (Vec<Declaration>, Vec<Statement>, CompositeExpr<Expression>),
    items: Vec<(
        (Vec<Declaration>, Vec<Statement>, CompositeExpr<Expression>),
        (Vec<Declaration>, Vec<Statement>, CompositeExpr<Expression>),
    )>,
    default: Option<(Vec<Declaration>, Vec<Statement>, CompositeExpr<Expression>)>,
    output: (Vec<Declaration>, CompositeExpr<Expression>),
) -> (r: (Vec<Declaration>, Vec<Statement>, CompositeExpr<Expression>))
    requires
        scrutinee.2 is Bits,
        guarded_ok(items@, output.1),
        match default {
            Some(d) => ce_skel(d.2) == ce_skel(output.1),
            None => true,
        },
    ensures
        decls_v(r.0@) == decls_v(scrutinee.0@) + all_decls(firsts(items@)) + all_decls(seconds(items@))
            + opt_decls(default) + decls_v(output.0@),
        stmts_v(r.1@) == stmts_v(scrutinee.1@) + all_stmts(firsts(items@)) + all_stmts(seconds(items@))
            + opt_stmts(default) + seq![
            StmtV::Case(
                expr_v(scrutinee.2->Bits_0),
                guarded_assigns(items@, exprs_v(ce_leaves(output.1))),
                match default {
                    Some(d) => assigns_leaves(exprs_v(ce_leaves(output.1)), exprs_v(ce_leaves(d.2))),
                    None => seq![],
                },
            ),
        ],
        r.2 == output.1,
{
    let ghost p0 = items@;
    let ghost dflt = default;
    let (mut out_decls, out) = output;
    let ghost outl = exprs_v(ce_leaves(out));
    let mut cdecls: Vec<Declaration> = Vec::new();
    let mut cstmts: Vec<Statement> = Vec::new();
    let mut edecls: Vec<Declaration> = Vec::new();
    let mut estmts: Vec<Statement> = Vec::new();
    let mut branches: Vec<(Expression, Vec<Statement>)> = Vec::new();
    let n = items.len();
    let mut rest = items;
    let mut i: usize = 0;
    while rest.len() > 0
        invariant
            guarded_ok(p0, out),
            outl == exprs_v(ce_leaves(out)),
            p0.len() == n,
            i + rest@.len() == n,
            rest@ == p0.subrange(i as int, n as int),
            decls_v(cdecls@) == all_decls(firsts(p0.take(i as int))),
            stmts_v(cstmts@) == all_stmts(firsts(p0.take(i as int))),
            decls_v(edecls@) == all_decls(seconds(p0.take(i as int))),
            stmts_v(estmts@) == all_stmts(seconds(p0.take(i as int))),
            branches_v(branches@) == guarded_assigns(p0.take(i as int), outl),
            branches@.len() == i,
        decreases rest@.len(),
    {
        let ((mut cd, mut cs, ce), (mut bd, mut bs, be)) = rest.remove(0);
        let ghost c = p0[i as int].0;
        let ghost b = p0[i as int].1;
        assert(p0[i as int] == ((cd, cs, ce), (bd, bs, be)));
        assert(guarded_ok(p0, out) ==> (p0[i as int]).0.2 is Bits);
        let ghost cd0 = cdecls@;
        let ghost cs0 = cstmts@;
        let ghost ed0 = edecls@;
        let ghost es0 = estmts@;
        let ghost br0 = branches@;
        cdecls.append(&mut cd);
        cstmts.append(&mut cs);
        edecls.append(&mut bd);
        estmts.append(&mut bs);
        let br = guarded_branch(&out, ce, be);
        branches.push(br);
        proof {
            let t0 = p0.take(i as int);
            let t1 = p0.take(i as int + 1);
            assert(firsts(t1) =~= firsts(t0).push(c));
            assert(seconds(t1) =~= seconds(t0).push(b));
            lemma_all_push(firsts(t0), c);
            lemma_all_push(seconds(t0), b);
            assert(decls_v(cdecls@) =~= decls_v(cd0) + decls_v(c.0@));
            assert(stmts_v(cstmts@) =~= stmts_v(cs0) + stmts_v(c.1@));
            assert(decls_v(edecls@) =~= decls_v(ed0) + decls_v(b.0@));
            assert(stmts_v(estmts@) =~= stmts_v(es0) + stmts_v(b.1@));
            assert(branches@ == br0.push(br));
            assert forall|j: int| 0 <= j < i + 1 implies #[trigger] branches_v(branches@)[j] == guarded_assigns(t1, outl)[j] by {
                if j < i {
                    assert(branches_v(br0)[j] == guarded_assigns(t0, outl)[j]);
                    assert(t0[j] == t1[j]);
                } else {
                    assert(t1[j] == p0[i as int]);
                }
            }
            assert(branches_v(branches@) =~= guarded_assigns(t1, outl));
        }
        i = i + 1;
    }
    assert(p0.take(n as int) =~= p0);
    let (mut decls, mut stmts, se) = scrutinee;
    let (mut dd, mut ds, other): (Vec<Declaration>, Vec<Statement>, Vec<Statement>) = match default {
        Some((dd, ds, de)) => {
            let target = clone_composite(&out);
            proof {
                lemma_zip_same_skel(target, de);
            }
            (dd, ds, assign_exprs(target, de))
        },
        None => (Vec::new(), Vec::new(), Vec::new()),
    };
    let ghost other_v = match dflt {
        Some(d) => assigns_leaves(outl, exprs_v(ce_leaves(d.2))),
        None => seq![],
    };
    assert(decls_v(dd@) == opt_decls(dflt));
    assert(stmts_v(ds@) == opt_stmts(dflt));
    assert(stmts_v(other@) =~= other_v);
    let ghost d0 = decls@;
    let ghost s0 = stmts@;
    let ghost a1 = cdecls@;
    let ghost a2 = edecls@;
    let ghost a3 = dd@;
    let ghost a4 = out_decls@;
    let ghost b1 = cstmts@;
    let ghost b2 = estmts@;
    let ghost b3 = ds@;
    decls.append(&mut cdecls);
    decls.append(&mut edecls);
    decls.append(&mut dd);
    decls.append(&mut out_decls);
    stmts.append(&mut cstmts);
    stmts.append(&mut estmts);
    stmts.append(&mut ds);
    let ghost sv = expr_v(se->Bits_0);
    let ghost bv = branches_v(branches@);
    let case = Statement::Case(se.into_expr(), branches, other);
    assert(stmt_v(case) == StmtV::Case(sv, bv, other_v));
    stmts.push(case);
    assert(decls_v(decls@) =~= decls_v(d0) + decls_v(a1) + decls_v(a2) + decls_v(a3) + decls_v(a4));
    assert(stmts_v(stmts@) =~= stmts_v(s0) + stmts_v(b1) + stmts_v(b2) + stmts_v(b3) + seq![
        StmtV::Case(sv, bv, other_v),
    ]);
    (decls, stmts, out)
}

/// The values of translations, as members of a struct.
pub open spec fn gen_values(g: Seq<(Vec<Declaration>, Vec<Statement>, CompositeExpr<Expression>)>) -> Seq<
    CompositeExpr<Expression>,
> {
    Seq::new(g.len(), |i: int| g[i].2)
}

/// Moves the declarations, statements and values of translations out, in order.
fn split_gens(gens: Vec<(Vec<Declaration>, Vec<Statement>, CompositeExpr<Expression>)>) -> (r: (
    Vec<Declaration>,
    Vec<Statement>,
    Vec<CompositeExpr<Expression>>,
))
    ensures
        decls_v(r.0@) == all_decls(gens@),
        stmts_v(r.1@) == all_stmts(gens@),
        r.2@ == gen_values(gens@),
{
    let ghost g0 = gens@;
    let n = gens.len();
    let mut rest = gens;
    let mut decls: Vec<Declaration> = Vec::new();
    let mut stmts: Vec<Statement> = Vec::new();
    let mut values: Vec<CompositeExpr<Expression>> = Vec::new();
    let mut i: usize = 0;
    while rest.len() > 0
        invariant
            g0.len() == n,
            i + rest@.len() == n,
            rest@ == g0.subrange(i as int, n as int),
            decls_v(decls@) == all_decls(g0.take(i as int)),
            stmts_v(stmts@) == all_stmts(g0.take(i as int)),
            values@ == gen_values(g0.take(i as int)),
        decreases rest@.len(),
    {
        let (mut d, mut s, v) = rest.remove(0);
        let ghost x = g0[i as int];
        assert(x == (d, s, v));
        let ghost d0 = decls@;
        let ghost s0 = stmts@;
        decls.append(&mut d);
        stmts.append(&mut s);
        values.push(v);
        proof {
            assert(g0.take(i as int + 1) =~= g0.take(i as int).push(x));
            lemma_all_push(g0.take(i as int), x);
            assert(decls_v(decls@) =~= decls_v(d0) + decls_v(x.0@));
            assert(stmts_v(stmts@) =~= stmts_v(s0) + stmts_v(x.1@));
            assert(values@ =~= gen_values(g0.take(i as int + 1)));
        }
        i = i + 1;
    }
    assert(g0.take(n as int) =~= g0);
    (decls, stmts, values)
}

/// Returns what a struct is translated into, given the translations of its members: their
/// declarations and statements, and the struct of their values.
pub fn gen_struct(members: Vec<(Vec<Declaration>, Vec<Statement>, CompositeExpr<Expression>)>) -> (r: (
    Vec<Declaration>,
    Vec<Statement>,
    CompositeExpr<Expression>,
))
    ensures
        decls_v(r.0@) == all_decls(members@),
        stmts_v(r.1@) == all_stmts(members@),
        r.2 matches CompositeExpr::Struct(v) && v@ == gen_values(members@),
{
    let (decls, stmts, values) = split_gens(members);
    (decls, stmts, CompositeExpr::Struct(values))
}

/// Returns what zipped arrays are translated into, given the translations of the arrays and
/// the registers of the result: their declarations, then those of the result; their
/// statements, then the assignment of the struct of their values to the result; and the
/// result.
pub fn gen_zip(
    arrays: Vec<(Vec<Declaration>, Vec<Statement>, CompositeExpr<Expression>)>,
    output: (Vec<Declaration>, CompositeExpr<Expression>),
) -> (r: (Vec<Declaration>, Vec<Statement>, CompositeExpr<Expression>))
    requires
        Skel::Node(ces_skel(gen_values(arrays@))) == ce_skel(output.1),
    ensures
        decls_v(r.0@) == all_decls(arrays@) + decls_v(output.0@),
        stmts_v(r.1@) == all_stmts(arrays@) + assigns_leaves(
            exprs_v(ce_leaves(output.1)),
            exprs_v(ces_leaves(gen_values(arrays@))),
        ),
        r.2 == output.1,
{
    let (mut decls, mut stmts, values) = split_gens(arrays);
    let (mut out_decls, out) = output;
    let zipped = CompositeExpr::Struct(values);
    assert(ce_leaves(zipped) == ces_leaves(gen_values(arrays@)));
    assert(ce_skel(zipped) == Skel::Node(ces_skel(gen_values(arrays@))));
    let target = clone_composite(&out);
    proof {
        lemma_zip_same_skel(target, zipped);
    }
    let mut assign = assign_exprs(target, zipped);
    let ghost d0 = decls@;
    let ghost s0 = stmts@;
    let ghost od = out_decls@;
    let ghost av = assign@;
    decls.append(&mut out_decls);
    stmts.append(&mut assign);
    assert(decls_v(decls@) =~= decls_v(d0) + decls_v(od));
    assert(stmts_v(stmts@) =~= stmts_v(s0) + stmts_v(av));
    (decls, stmts, out)
}

/// Every value is a plain identifier.
pub open spec fn all_idents(s: Seq<ExprV>) -> bool {
    forall|i: int| 0 <= i < s.len() ==> is_plain_ident(#[trigger] s[i])
}

/// Whether every leaf of translated values is a plain identifier.
fn leaves_are_idents(e: &CompositeExpr<Expression>) -> (r: bool)
    ensures
        r == all_idents(exprs_v(ce_leaves(*e))),
{
    let copy = clone_composite(e);
    let mut it = copy.into_iter();
    let cnt = it.inner.len();
    let ghost all = exprs_v(ce_leaves(*e));
    let ghost n = all.len();
    let mut k: usize = 0;
    while it.inner.len() > 0
        invariant
            exprs_v(ce_leaves(copy)) == all,
            all == exprs_v(ce_leaves(*e)),
            n == all.len(),
            n == cnt,
            k + it.inner@.len() == n,
            it.inner@ == ce_leaves(copy).subrange(k as int, n as int),
            forall|i: int| 0 <= i < k ==> is_plain_ident(#[trigger] all[i]),
        decreases it.inner@.len(),
    {
        let x = match it.next() {
            Some(x) => x,
            None => vstd::pervasive::unreached(),
        };
        assert(expr_v(x) == all[k as int]);
        if !x.is_identifier() {
            assert(!is_plain_ident(all[k as int]));
            assert(!all_idents(all));
            return false;
        }
        k = k + 1;
    }
    true
}

/// Returns the translation of `expr`, whose operands are in `table`, with plain identifiers
/// for values: as it is if every value is one; else with registers for the values, their
/// declarations and assignments added, and their identifiers as the values.
#[verifier::rlimit(50)]
pub fn gen_to_idents(
    expr: &Expr,
    table: &ExprTable,
    gen: (Vec<Declaration>, Vec<Statement>, CompositeExpr<Expression>),
    ctx: &mut Context,
) -> (r: (Vec<Declaration>, Vec<Statement>, CompositeExpr<Expression>))
    requires
        e_pok(table.exprs@, *expr, table.exprs@.len()),
        ce_skel(gen.2) == pdv_skel(e_pd(table.exprs@, *expr, table.exprs@.len())),
        old(ctx).scopes@.len() > 0,
        old(ctx).scopes@.last().temp_id < usize::MAX,
    ensures
        all_idents(exprs_v(ce_leaves(gen.2))) ==> r == gen && *final(ctx) == *old(ctx),
        !all_idents(exprs_v(ce_leaves(gen.2))) ==> {
            let pd = e_pd(table.exprs@, *expr, table.exprs@.len());
            let prefix = next_temp_prefix(old(ctx).scopes@);
            &&& final(ctx).scopes@ == after_temp(old(ctx).scopes@)
            &&& final(ctx).genvar_id == old(ctx).genvar_id
            &&& decls_v(r.0@) == decls_v(gen.0@) + leaf_regs(pd, prefix)
            &&& stmts_v(r.1@) == stmts_v(gen.1@) + assigns_leaves(leaf_idents(pd, prefix), exprs_v(ce_leaves(gen.2)))
            &&& ce_skel(r.2) == pdv_skel(pd)
            &&& exprs_v(ce_leaves(r.2)) == leaf_idents(pd, prefix)
        },
{
    if leaves_are_idents(&gen.2) {
        return gen;
    }
    let (mut decls, mut stmts, exprs) = gen;
    let (mut new_decls, new_exprs, _) = alloc_exprs(expr, table, ctx);
    let target = clone_composite(&new_exprs);
    proof {
        lemma_zip_same_skel(target, exprs);
    }
    let mut assign = assign_exprs(target, exprs);
    let ghost d0 = decls@;
    let ghost s0 = stmts@;
    let ghost nd = new_decls@;
    let ghost av = assign@;
    decls.append(&mut new_decls);
    stmts.append(&mut assign);
    assert(decls_v(decls@) =~= decls_v(d0) + decls_v(nd));
    assert(stmts_v(stmts@) =~= stmts_v(s0) + stmts_v(av));
    (decls, stmts, new_exprs)
}

} // verus!
