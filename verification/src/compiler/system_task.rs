//! System tasks (`$display`, and assertions that end the simulation) in generated modules.

use vstd::prelude::*;

use crate::compiler::codegen::CompositeExpr;
use crate::compiler::expr::ExprId;
use crate::compiler::ops::BinaryOp;
use crate::vir::ir::{branches_v, decls_v, expr_v, exprs_v, stmt_v, stmts_v, DeclV, Declaration, ExprV, Expression, PrimV, Statement, StmtV};

verus! {

/// System task kind.
#[derive(Debug, Clone, Copy)]
pub enum SystemTaskKind {
    /// Display
    Display,
    /// Assert
    Assert {
        /// Condition
        cond: ExprId,
    },
}

/// Declarations of all the translations, in order.
pub open spec fn all_decls(g: Seq<(Vec<Declaration>, Vec<Statement>, CompositeExpr<Expression>)>) -> Seq<DeclV>
    decreases g.len(),
{
    if g.len() == 0 {
        seq![]
    } else {
        all_decls(g.drop_last()) + decls_v(g.last().0@)
    }
}

/// Statements of all the translations, in order.
pub open spec fn all_stmts(g: Seq<(Vec<Declaration>, Vec<Statement>, CompositeExpr<Expression>)>) -> Seq<StmtV>
    decreases g.len(),
{
    if g.len() == 0 {
        seq![]
    } else {
        all_stmts(g.drop_last()) + stmts_v(g.last().1@)
    }
}

/// Values of all the translations, in order.
pub open spec fn all_values(g: Seq<(Vec<Declaration>, Vec<Statement>, CompositeExpr<Expression>)>) -> Seq<ExprV> {
    Seq::new(g.len(), |i: int| expr_v(g[i].2->Bits_0))
}

/// The translation of an expression has a single value.
pub open spec fn single(g: (Vec<Declaration>, Vec<Statement>, CompositeExpr<Expression>)) -> bool {
    g.2 is Bits
}

/// What a system task is translated into: its declarations and its statements.
/// `assert_cond` is the translation of the asserted condition for an assertion, `None`
/// for a display; `path_cond` that of the path condition, if any; `args` those of the
/// arguments of the format string.
pub open spec fn system_task_spec(
    enabled: bool,
    fstring: Seq<char>,
    assert_cond: Option<(Vec<Declaration>, Vec<Statement>, CompositeExpr<Expression>)>,
    path_cond: Option<(Vec<Declaration>, Vec<Statement>, CompositeExpr<Expression>)>,
    args: Seq<(Vec<Declaration>, Vec<Statement>, CompositeExpr<Expression>)>,
) -> (Seq<DeclV>, Seq<StmtV>) {
    if !enabled {
        (seq![], seq![])
    } else {
        let pd = match path_cond {
            Some(g) => decls_v(g.0@),
            None => seq![],
        };
        let ps = match path_cond {
            Some(g) => stmts_v(g.1@),
            None => seq![],
        };
        match assert_cond {
            None => {
                let display = StmtV::Display(fstring, all_values(args));
                let stmt = match path_cond {
                    Some(g) => StmtV::Conditional(seq![(expr_v(g.2->Bits_0), seq![display])], seq![]),
                    None => display,
                };
                (pd + all_decls(args), ps + all_stmts(args) + seq![stmt])
            },
            Some(c) => {
                let failed = ExprV::Binary(
                    Box::new(expr_v(c.2->Bits_0)),
                    BinaryOp::NeStrict,
                    Box::new(ExprV::Primary(PrimV::Ident("1"@, None))),
                );
                let cond = match path_cond {
                    Some(g) => ExprV::Binary(Box::new(expr_v(g.2->Bits_0)), BinaryOp::And, Box::new(failed)),
                    None => failed,
                };
                let display = StmtV::Display("ERROR: "@ + fstring, all_values(args));
                (
                    decls_v(c.0@) + pd + all_decls(args),
                    ps + all_stmts(args) + stmts_v(c.1@) + seq![
                        StmtV::Conditional(seq![(cond, seq![display, StmtV::Fatal])], seq![]),
                    ],
                )
            },
        }
    }
}

/// Returns the declarations and statements of a system task, given the translations of
/// its asserted condition (`None` for a display), of its path condition, if any, and of
/// its arguments; nothing if system tasks are not enabled.
pub fn gen_system_task(
    enabled: bool,
    fstring: String,
    assert_cond: Option<(Vec<Declaration>, Vec<Statement>, CompositeExpr<Expression>)>,
    path_cond: Option<(Vec<Declaration>, Vec<Statement>, CompositeExpr<Expression>)>,
    args: Vec<(Vec<Declaration>, Vec<Statement>, CompositeExpr<Expression>)>,
) -> (r: (Vec<Declaration>, Vec<Statement>))
    requires
        enabled ==> match assert_cond {
            Some(g) => single(g),
            None => true,
        },
        enabled ==> match path_cond {
            Some(g) => single(g),
            None => true,
        },
        enabled ==> forall|i: int| 0 <= i < args@.len() ==> single(#[trigger] args@[i]),
    ensures
        (decls_v(r.0@), stmts_v(r.1@)) == system_task_spec(enabled, fstring@, assert_cond, path_cond, args@),
{
    if !enabled {
        return (vec![], vec![]);
    }
    let ghost a0 = assert_cond;
    let ghost p0 = path_cond;
    let ghost args0 = args@;
    let (mut decls, mut stmts, assert_expr) = match assert_cond {
        Some((d, s, e)) => (d, s, Some(e.into_expr())),
        None => (vec![], vec![], None),
    };
    let (mut path_decls, mut path_stmts, path_expr) = match path_cond {
        Some((d, s, e)) => (d, s, Some(e.into_expr())),
        None => (vec![], vec![], None),
    };
    let mut arg_decls: Vec<Declaration> = Vec::new();
    let mut arg_stmts: Vec<Statement> = Vec::new();
    let mut arg_exprs: Vec<Expression> = Vec::new();
    let n = args.len();
    let mut rest = args;
    let mut i: usize = 0;
    while rest.len() > 0
        invariant
            forall|j: int| 0 <= j < args0.len() ==> single(#[trigger] args0[j]),
            i + rest@.len() == args0.len(),
            args0.len() == n,
            rest@ == args0.subrange(i as int, args0.len() as int),
            decls_v(arg_decls@) == all_decls(args0.take(i as int)),
            stmts_v(arg_stmts@) == all_stmts(args0.take(i as int)),
            exprs_v(arg_exprs@) == all_values(args0.take(i as int)),
            arg_exprs@.len() == i,
        decreases rest@.len(),
    {
        let (mut d, mut s, e) = rest.remove(0);
        proof {
            assert(args0.take(i as int + 1).drop_last() =~= args0.take(i as int));
            assert(args0[i as int] == (d, s, e));
        }
        let ghost dv = arg_decls@;
        let ghost sv = arg_stmts@;
        let ghost d0 = d@;
        let ghost s0 = s@;
        let ghost ev = arg_exprs@;
        let ghost eb = e->Bits_0;
        assert(args0[i as int].2 == e);
        arg_decls.append(&mut d);
        arg_stmts.append(&mut s);
        arg_exprs.push(e.into_expr());
        proof {
            assert(decls_v(arg_decls@) =~= decls_v(dv) + decls_v(d0));
            assert(stmts_v(arg_stmts@) =~= stmts_v(sv) + stmts_v(s0));
            assert(arg_exprs@ == ev.push(eb));
            assert forall|j: int| 0 <= j < i + 1 implies #[trigger] exprs_v(arg_exprs@)[j] == all_values(
                args0.take(i as int + 1),
            )[j] by {
                if j < i {
                    assert(exprs_v(ev)[j] == all_values(args0.take(i as int))[j]);
                    assert(args0.take(i as int)[j] == args0.take(i as int + 1)[j]);
                } else {
                    assert(args0.take(i as int + 1)[j] == args0[i as int]);
                }
            }
            assert(exprs_v(arg_exprs@) =~= all_values(args0.take(i as int + 1)));
        }
        i = i + 1;
    }
    assert(args0.take(i as int) =~= args0);
    match assert_expr {
        None => {
            let ghost fv = fstring@;
            let display = Statement::Display(fstring, arg_exprs);
            let ghost dispv = stmt_v(display);
            assert(dispv == StmtV::Display(fv, all_values(args0)));
            let stmt = match path_expr {
                Some(c) => {
                    let ghost cv = expr_v(c);
                    let branch = vec![display];
                    assert(stmts_v(branch@) =~= seq![dispv]);
                    let branches = vec![(c, branch)];
                    let other: Vec<Statement> = vec![];
                    assert(branches_v(branches@) =~= seq![(cv, seq![dispv])]);
                    assert(stmts_v(other@) =~= Seq::<StmtV>::empty());
                    Statement::Conditional(branches, other)
                },
                None => display,
            };
            let ghost pdv = decls_v(path_decls@);
            let ghost psv = stmts_v(path_stmts@);
            let ghost adv = arg_decls@;
            let ghost asv = arg_stmts@;
            let ghost pd0 = path_decls@;
            let ghost ps0 = path_stmts@;
            path_decls.append(&mut arg_decls);
            path_stmts.append(&mut arg_stmts);
            path_stmts.push(stmt);
            proof {
                assert(path_decls@ == pd0 + adv);
                assert(path_stmts@ == ps0 + asv + seq![stmt]);
                assert(decls_v(path_decls@) =~= system_task_spec(enabled, fstring@, a0, p0, args0).0);
                assert(stmts_v(path_stmts@) =~= system_task_spec(enabled, fstring@, a0, p0, args0).1);
            }
            (path_decls, path_stmts)
        },
        Some(a) => {
            let failed = Expression::binary(BinaryOp::NeStrict, a, Expression::ident(String::from_str("1")));
            let cond = match path_expr {
                Some(c) => Expression::binary(BinaryOp::And, c, failed),
                None => failed,
            };
            let ghost condv = expr_v(cond);
            let mut msg = String::from_str("ERROR: ");
            msg.append(fstring.as_str());
            let display = Statement::Display(msg, arg_exprs);
            let ghost dispv = stmt_v(display);
            let branch = vec![display, Statement::Fatal];
            assert(stmts_v(branch@) =~= seq![dispv, StmtV::Fatal]);
            let branches = vec![(cond, branch)];
            let other: Vec<Statement> = vec![];
            assert(branches_v(branches@) =~= seq![(condv, seq![dispv, StmtV::Fatal])]);
            assert(stmts_v(other@) =~= Seq::<StmtV>::empty());
            let check = Statement::Conditional(branches, other);
            let ghost ps0 = path_stmts@;
            let ghost asv = arg_stmts@;
            let ghost cs0 = stmts@;
            decls.append(&mut path_decls);
            decls.append(&mut arg_decls);
            path_stmts.append(&mut arg_stmts);
            path_stmts.append(&mut stmts);
            path_stmts.push(check);
            proof {
                assert(path_stmts@ == ps0 + asv + cs0 + seq![check]);
                assert(decls_v(decls@) =~= system_task_spec(enabled, fstring@, a0, p0, args0).0);
                assert(stmts_v(path_stmts@) =~= system_task_spec(enabled, fstring@, a0, p0, args0).1);
            }
            (decls, path_stmts)
        },
    }
}

} // verus!
