//! What inlining a conditional statement of a combinational block means: each target gets,
//! as a conditional expression, the value that the statement gives it.

use vstd::prelude::*;

use crate::vir::ir::{ExprV, PrimV, StmtV};
use crate::vir::opt::inline_always::{fold_cond, inline_step, lhs_ident, lhs_idents, rhs_of, stmt_lhs_idents, InlineState};

verus! {

/// The statements are blocking assignments to `ids`, one each, in that order.
pub open spec fn plain_assigns(s: Seq<StmtV>, ids: Seq<Seq<char>>) -> bool {
    &&& s.len() == ids.len()
    &&& forall|i: int|
        0 <= i < s.len() ==> (#[trigger] s[i]) is Blocking && lhs_ident(s[i]->Blocking_0) == Some(ids[i])
}

/// The value that a blocking assignment assigns.
pub open spec fn assigned_value(st: StmtV) -> ExprV {
    match st {
        StmtV::Blocking(_, r) => r,
        _ => ExprV::Primary(PrimV::Number(seq![])),
    }
}

/// The value that the conditional statement with guarded branches `pairs` and else branch
/// `els` gives its `i`-th target, when the conditions that `holds` are the true ones: that of
/// the first branch whose condition is true, or that of the else branch if none is.
pub open spec fn taken_value(
    pairs: Seq<(ExprV, Seq<StmtV>)>,
    els: Seq<StmtV>,
    holds: spec_fn(ExprV) -> bool,
    i: int,
) -> ExprV
    decreases pairs.len(),
{
    if pairs.len() == 0 {
        assigned_value(els[i])
    } else if holds(pairs[0].0) {
        assigned_value(pairs[0].1[i])
    } else {
        taken_value(pairs.drop_first(), els, holds, i)
    }
}

/// The value a conditional expression takes when the conditions that `holds` are the true
/// ones; an expression that is not conditional is its own value.
pub open spec fn select(e: ExprV, holds: spec_fn(ExprV) -> bool) -> ExprV
    decreases e,
{
    match e {
        ExprV::Conditional(c, t, f) => if holds(*c) {
            select(*t, holds)
        } else {
            select(*f, holds)
        },
        _ => e,
    }
}

/// Plain assignments to `ids` assign `ids`, and their values are, in order, their right-hand
/// sides.
proof fn lemma_plain_assigns(s: Seq<StmtV>, ids: Seq<Seq<char>>)
    requires
        plain_assigns(s, ids),
    ensures
        lhs_idents(s) == ids,
        rhs_of(s).len() == s.len(),
        forall|i: int| 0 <= i < s.len() ==> #[trigger] rhs_of(s)[i] == assigned_value(s[i]),
    decreases s.len(),
{
    if s.len() > 0 {
        let q = s.drop_last();
        assert forall|i: int| 0 <= i < q.len() implies (#[trigger] q[i]) is Blocking && lhs_ident(q[i]->Blocking_0)
            == Some(ids.drop_last()[i]) by {
            assert(q[i] == s[i]);
        }
        lemma_plain_assigns(q, ids.drop_last());
        let last = s.last();
        assert(s[s.len() - 1] == last);
        assert(last is Blocking);
        assert(lhs_ident(last->Blocking_0) == Some(ids[ids.len() - 1]));
        assert(stmt_lhs_idents(last) == seq![ids[ids.len() - 1]]);
        assert(lhs_idents(s) == lhs_idents(q) + stmt_lhs_idents(last));
        assert(lhs_idents(s) =~= ids);
        assert forall|i: int| 0 <= i < s.len() implies #[trigger] rhs_of(s)[i] == assigned_value(s[i]) by {
            if i < s.len() - 1 {
                assert(rhs_of(q)[i] == assigned_value(q[i]));
                assert(q[i] == s[i]);
            }
        }
    }
}

/// Folding the branches around the values of the else branch gives, for each target, a
/// conditional expression that selects the value of the branch taken.
proof fn lemma_fold_cond_selects(
    pairs: Seq<(ExprV, Seq<StmtV>)>,
    els: Seq<StmtV>,
    ids: Seq<Seq<char>>,
    init: Seq<ExprV>,
    holds: spec_fn(ExprV) -> bool,
)
    requires
        plain_assigns(els, ids),
        forall|k: int| 0 <= k < pairs.len() ==> plain_assigns(#[trigger] pairs[k].1, ids),
        init.len() == ids.len(),
        forall|i: int| 0 <= i < init.len() ==> #[trigger] init[i] == assigned_value(els[i]),
    ensures
        fold_cond(pairs, init).len() == ids.len(),
        forall|i: int|
            0 <= i < ids.len() ==> select(#[trigger] fold_cond(pairs, init)[i], holds) == select(
                taken_value(pairs, els, holds, i),
                holds,
            ),
    decreases pairs.len(),
{
    if pairs.len() > 0 {
        let rest = pairs.drop_first();
        assert forall|k: int| 0 <= k < rest.len() implies plain_assigns(#[trigger] rest[k].1, ids) by {
            assert(rest[k] == pairs[k + 1]);
        }
        lemma_fold_cond_selects(rest, els, ids, init, holds);
        assert(plain_assigns(pairs[0].1, ids));
        lemma_plain_assigns(pairs[0].1, ids);
        let acc = fold_cond(rest, init);
        let th = rhs_of(pairs[0].1);
        assert forall|i: int| 0 <= i < ids.len() implies select(#[trigger] fold_cond(pairs, init)[i], holds) == select(
            taken_value(pairs, els, holds, i),
            holds,
        ) by {
            assert(fold_cond(pairs, init)[i] == ExprV::Conditional(
                Box::new(pairs[0].0),
                Box::new(th[i]),
                Box::new(acc[i]),
            ));
            assert(th[i] == assigned_value(pairs[0].1[i]));
        }
    } else {
        assert forall|i: int| 0 <= i < ids.len() implies select(#[trigger] fold_cond(pairs, init)[i], holds) == select(
            taken_value(pairs, els, holds, i),
            holds,
        ) by {}
    }
}

/// Law: inlining a conditional statement whose branches all assign the same targets, one
/// plain assignment each, in the same order, appends one continuous assignment per target,
/// in that order; the one to target `ids[i]` has a conditional expression that, however the
/// conditions turn out, takes the value the statement gives `ids[i]`: that of the first
/// branch whose condition is true, else that of the else branch.
pub proof fn lemma_inline_conditional(
    pairs: Seq<(ExprV, Seq<StmtV>)>,
    els: Seq<StmtV>,
    ids: Seq<Seq<char>>,
    pres: Seq<Seq<char>>,
    s: InlineState,
    holds: spec_fn(ExprV) -> bool,
)
    requires
        plain_assigns(els, ids),
        forall|k: int| 0 <= k < pairs.len() ==> plain_assigns(#[trigger] pairs[k].1, ids),
    ensures
        ({
            let r = inline_step(StmtV::Conditional(pairs, els), pres, s);
            let n = s.conts.len() as int;
            &&& r.conts.len() == n + ids.len()
            &&& r.conts.take(n) == s.conts
            &&& r.removed == s.removed + ids
            &&& r.kept == s.kept
            &&& forall|i: int|
                0 <= i < ids.len() ==> (#[trigger] r.conts[n + i]).0 == ExprV::Primary(PrimV::Ident(ids[i], None))
                    && select(r.conts[n + i].1, holds) == select(taken_value(pairs, els, holds, i), holds)
        }),
{
    lemma_plain_assigns(els, ids);
    let init = rhs_of(els);
    lemma_fold_cond_selects(pairs, els, ids, init, holds);
    let r = inline_step(StmtV::Conditional(pairs, els), pres, s);
    let n = s.conts.len() as int;
    assert(r.conts.take(n) =~= s.conts);
    assert forall|i: int| 0 <= i < ids.len() implies (#[trigger] r.conts[n + i]).0 == ExprV::Primary(
        PrimV::Ident(ids[i], None),
    ) && select(r.conts[n + i].1, holds) == select(taken_value(pairs, els, holds, i), holds) by {
        assert(r.conts[n + i] == (ExprV::Primary(PrimV::Ident(ids[i], None)), fold_cond(pairs, init)[i]));
    }
}

} // verus!
