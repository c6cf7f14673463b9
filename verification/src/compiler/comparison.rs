//! The meaning of the translation of equality and inequality on composite values.

use vstd::prelude::*;

use crate::compiler::codegen::{ce_leaves, CompositeExpr};
use crate::compiler::expr_gen::{binary_op_spec, binary_operands_ok, fold_pairs};
use crate::compiler::ops::BinaryOp;
use crate::vir::ir::{expr_v, exprs_v, ExprV, Expression};

verus! {

/// Truth of a comparison built from `==`, `!=`, `&` and `|`, where `val` gives the value of
/// each compared operand.
pub open spec fn comparison_holds(e: ExprV, val: spec_fn(ExprV) -> int) -> bool
    decreases e,
{
    match e {
        ExprV::Binary(a, op, b) => match op {
            BinaryOp::EqArithmetic => val(*a) == val(*b),
            BinaryOp::NeArithmetic => val(*a) != val(*b),
            BinaryOp::And => comparison_holds(*a, val) && comparison_holds(*b, val),
            BinaryOp::Or => comparison_holds(*a, val) || comparison_holds(*b, val),
            _ => false,
        },
        _ => false,
    }
}

/// The comparisons of the first `n` pairs, joined by `&` (equality) or `|` (inequality),
/// hold exactly when all pairs are equal, or when some pair differs.
proof fn lemma_fold_pairs_holds(op: BinaryOp, l: Seq<ExprV>, r: Seq<ExprV>, n: nat, val: spec_fn(ExprV) -> int)
    requires
        1 <= n <= l.len(),
        n <= r.len(),
        op is EqArithmetic || op is NeArithmetic,
    ensures
        op is EqArithmetic ==> (comparison_holds(fold_pairs(op, BinaryOp::And, l, r, n), val) <==> forall|i: int|
            0 <= i < n ==> val(#[trigger] l[i]) == val(r[i])),
        op is NeArithmetic ==> (comparison_holds(fold_pairs(op, BinaryOp::Or, l, r, n), val) <==> exists|i: int|
            0 <= i < n && val(#[trigger] l[i]) != val(r[i])),
    decreases n,
{
    let join = if op is EqArithmetic { BinaryOp::And } else { BinaryOp::Or };
    let last = ExprV::Binary(Box::new(l[n - 1]), op, Box::new(r[n - 1]));
    assert(comparison_holds(last, val) == if op is EqArithmetic {
        val(l[n - 1]) == val(r[n - 1])
    } else {
        val(l[n - 1]) != val(r[n - 1])
    });
    if n > 1 {
        let m = (n - 1) as nat;
        lemma_fold_pairs_holds(op, l, r, m, val);
        let prev = fold_pairs(op, join, l, r, m);
        assert(fold_pairs(op, join, l, r, n) == ExprV::Binary(Box::new(prev), join, Box::new(last)));
        if op is EqArithmetic {
            assert(comparison_holds(fold_pairs(op, join, l, r, n), val) == (comparison_holds(prev, val)
                && comparison_holds(last, val)));
            if comparison_holds(fold_pairs(op, join, l, r, n), val) {
                assert forall|i: int| 0 <= i < n implies val(#[trigger] l[i]) == val(r[i]) by {
                    if i < m {
                        assert(0 <= i < m);
                    }
                }
            }
            if forall|i: int| 0 <= i < n ==> val(#[trigger] l[i]) == val(r[i]) {
                assert(val(l[m as int]) == val(r[m as int]));
                assert forall|i: int| 0 <= i < m implies val(#[trigger] l[i]) == val(r[i]) by {}
            }
        } else {
            assert(comparison_holds(fold_pairs(op, join, l, r, n), val) == (comparison_holds(prev, val)
                || comparison_holds(last, val)));
            if val(l[m as int]) != val(r[m as int]) {
                assert(exists|i: int| 0 <= i < n && val(#[trigger] l[i]) != val(r[i]));
            }
            if comparison_holds(prev, val) {
                let i = choose|i: int| 0 <= i < m && val(#[trigger] l[i]) != val(r[i]);
                assert(0 <= i < n && val(l[i]) != val(r[i]));
            }
            if exists|i: int| 0 <= i < n && val(#[trigger] l[i]) != val(r[i]) {
                let i = choose|i: int| 0 <= i < n && val(#[trigger] l[i]) != val(r[i]);
                if i < m {
                    assert(exists|j: int| 0 <= j < m && val(#[trigger] l[j]) != val(r[j]));
                }
            }
        }
    } else {
        assert(fold_pairs(op, join, l, r, n) == last);
        if op is NeArithmetic && val(l[0]) != val(r[0]) {
            assert(exists|i: int| 0 <= i < n && val(#[trigger] l[i]) != val(r[i]));
        }
    }
}

/// Law: the translation of `==` on composite operands holds exactly when every pair of leaves
/// is equal, and that of `!=` exactly when some pair of leaves differs, so that `!=` is the
/// negation of `==`, whatever values the leaves have.
pub proof fn lemma_struct_eq_ne(lhs: CompositeExpr<Expression>, rhs: CompositeExpr<Expression>, val: spec_fn(ExprV) -> int)
    requires
        binary_operands_ok(BinaryOp::EqArithmetic, lhs, rhs),
    ensures
        comparison_holds(binary_op_spec(BinaryOp::EqArithmetic, lhs, rhs), val) <==> forall|i: int|
            0 <= i < ce_leaves(lhs).len() ==> val(expr_v(#[trigger] ce_leaves(lhs)[i])) == val(expr_v(ce_leaves(rhs)[i])),
        comparison_holds(binary_op_spec(BinaryOp::NeArithmetic, lhs, rhs), val) <==> exists|i: int|
            0 <= i < ce_leaves(lhs).len() && val(expr_v(#[trigger] ce_leaves(lhs)[i])) != val(expr_v(ce_leaves(rhs)[i])),
        comparison_holds(binary_op_spec(BinaryOp::NeArithmetic, lhs, rhs), val) == !comparison_holds(
            binary_op_spec(BinaryOp::EqArithmetic, lhs, rhs),
            val,
        ),
{
    let l = exprs_v(ce_leaves(lhs));
    let r = exprs_v(ce_leaves(rhs));
    let n = ce_leaves(lhs).len();
    assert(l.len() == n && r.len() == n);
    lemma_fold_pairs_holds(BinaryOp::EqArithmetic, l, r, n, val);
    lemma_fold_pairs_holds(BinaryOp::NeArithmetic, l, r, n, val);
    assert forall|i: int| 0 <= i < n implies #[trigger] l[i] == expr_v(ce_leaves(lhs)[i]) && r[i] == expr_v(ce_leaves(rhs)[i]) by {}
    if comparison_holds(binary_op_spec(BinaryOp::NeArithmetic, lhs, rhs), val) {
        let i = choose|i: int| 0 <= i < n && val(#[trigger] l[i]) != val(r[i]);
        assert(val(expr_v(ce_leaves(lhs)[i])) != val(expr_v(ce_leaves(rhs)[i])));
    }
    if exists|i: int| 0 <= i < n && val(expr_v(#[trigger] ce_leaves(lhs)[i])) != val(expr_v(ce_leaves(rhs)[i])) {
        let i = choose|i: int| 0 <= i < n && val(expr_v(#[trigger] ce_leaves(lhs)[i])) != val(expr_v(ce_leaves(rhs)[i]));
        assert(val(l[i]) != val(r[i]));
    }
}

} // verus!
