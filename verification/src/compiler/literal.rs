//! Literals of constant expressions: the logic values that a Verilog literal spells.

use vstd::prelude::*;

use crate::compiler::codegen::{
    ce_leaves, ce_skel, lemma_lv_tree_parts, lemma_lv_trees, logic_char, lv_tree, lv_trees, tree_leaves, tree_repeat,
    tree_skel, CompositeExpr, LogicTree, LogicValue, LogicValues,
};
use crate::utils::string::{nat_to_decimal, usize_to_string};
use crate::vir::ir::{expr_v, exprs_v, ExprV, Expression, PrimV};
use crate::compiler::prelude::{
    fields_view, fieldsv_fit, fieldsv_width, lemma_fields_view, lemma_fieldsv_fit_prefix, lemma_member_decreases,
    pdv_fits, pdv_width, shape_fits, shape_width, PortDecls, PortDeclsView,
};

verus! {

/// An expression built of literal values, as a literal is generated from it.
#[derive(Debug)]
pub enum LiteralExpr {
    /// Don't-care value of a type.
    X {
        /// Value type
        typ: PortDecls,
    },
    /// Constant of a type, with its bits, least significant first.
    Constant {
        /// Bits, least significant first
        bits: Vec<bool>,
        /// Value type
        typ: PortDecls,
    },
    /// Struct of named members.
    Struct {
        /// Members
        inner: Vec<(Option<String>, LiteralExpr)>,
    },
    /// A value repeated `count` times.
    Repeat {
        /// Repeated value
        inner: Box<LiteralExpr>,
        /// Number of repetitions
        count: usize,
    },
    /// Member `index` of a struct.
    Member {
        /// The struct
        inner: Box<LiteralExpr>,
        /// Index of the member
        index: usize,
    },
}

/// Don't-care values for each primitive member of a type.
pub open spec fn x_tree(p: PortDeclsView) -> LogicTree
    decreases p,
{
    match p {
        PortDeclsView::Struct(f) => LogicTree::Struct(fieldsx_trees(f)),
        PortDeclsView::Bits(s) => LogicTree::Bits(Seq::new(shape_width(s.dims), |i: int| LogicValue::X)),
    }
}

/// Don't-care values for each member.
pub open spec fn fieldsx_trees(f: Seq<(Option<Seq<char>>, PortDeclsView)>) -> Seq<LogicTree>
    decreases f,
{
    if f.len() == 0 {
        seq![]
    } else {
        fieldsx_trees(f.drop_last()).push(x_tree(f.last().1))
    }
}

/// The width of each primitive member of a type fits in a `usize`.
pub open spec fn x_ok(p: PortDeclsView) -> bool
    decreases p,
{
    match p {
        PortDeclsView::Struct(f) => fieldsx_ok(f),
        PortDeclsView::Bits(s) => shape_fits(s.dims),
    }
}

/// The width of each primitive member of each member fits in a `usize`.
pub open spec fn fieldsx_ok(f: Seq<(Option<Seq<char>>, PortDeclsView)>) -> bool
    decreases f,
{
    if f.len() == 0 {
        true
    } else {
        fieldsx_ok(f.drop_last()) && x_ok(f.last().1)
    }
}

/// The logic value of a bit.
pub open spec fn bit_logic(b: bool) -> LogicValue {
    if b {
        LogicValue::True
    } else {
        LogicValue::False
    }
}

/// Logic values of bits, most significant first.
pub open spec fn bits_logic(bits: Seq<bool>) -> Seq<LogicValue> {
    Seq::new(bits.len(), |i: int| bit_logic(bits[bits.len() - 1 - i]))
}

/// The constant of a type with the given bits: a primitive type takes all the bits, a
/// struct gives each member its own bits in turn.
pub open spec fn const_tree(bits: Seq<bool>, p: PortDeclsView) -> LogicTree
    decreases p,
{
    match p {
        PortDeclsView::Struct(f) => LogicTree::Struct(const_trees(bits, f)),
        PortDeclsView::Bits(_) => LogicTree::Bits(bits_logic(bits)),
    }
}

/// Constants of the members, each taking the bits after those of the members before it.
pub open spec fn const_trees(bits: Seq<bool>, f: Seq<(Option<Seq<char>>, PortDeclsView)>) -> Seq<LogicTree>
    decreases f,
{
    if f.len() == 0 {
        seq![]
    } else {
        let off = fieldsv_width(f.drop_last());
        const_trees(bits, f.drop_last()).push(
            const_tree(bits.subrange(off as int, (off + pdv_width(f.last().1)) as int), f.last().1),
        )
    }
}

/// A constant of `len` bits can be split among the members of its type.
pub open spec fn const_ok(len: nat, p: PortDeclsView) -> bool {
    match p {
        PortDeclsView::Struct(f) => fieldsv_fit(f) && fieldsv_width(f) <= len,
        PortDeclsView::Bits(_) => true,
    }
}

/// The logic values of a literal expression.
pub open spec fn lit_tree(e: LiteralExpr) -> LogicTree
    decreases e,
{
    match e {
        LiteralExpr::X { typ } => x_tree(typ@),
        LiteralExpr::Constant { bits, typ } => const_tree(bits@, typ@),
        LiteralExpr::Struct { inner } => LogicTree::Struct(lits_trees(inner@)),
        LiteralExpr::Repeat { inner, count } => tree_repeat(lit_tree(*inner), count as nat),
        LiteralExpr::Member { inner, index } => match lit_tree(*inner) {
            LogicTree::Struct(s) => s[index as int],
            t => t,
        },
    }
}

/// The logic values of the members.
pub open spec fn lits_trees(s: Seq<(Option<String>, LiteralExpr)>) -> Seq<LogicTree>
    decreases s,
{
    if s.len() == 0 {
        seq![]
    } else {
        lits_trees(s.drop_last()).push(lit_tree(s.last().1))
    }
}

/// A literal can be generated: widths fit, constants can be split among the members of
/// their types, and a member is taken of a struct that has it.
pub open spec fn lit_ok(e: LiteralExpr) -> bool
    decreases e,
{
    match e {
        LiteralExpr::X { typ } => x_ok(typ@),
        LiteralExpr::Constant { bits, typ } => const_ok(bits@.len(), typ@),
        LiteralExpr::Struct { inner } => lits_ok(inner@),
        LiteralExpr::Repeat { inner, .. } => lit_ok(*inner),
        LiteralExpr::Member { inner, index } => lit_ok(*inner) && (lit_tree(*inner) matches LogicTree::Struct(s)
            && index < s.len()),
    }
}

/// Literals of all members can be generated.
pub open spec fn lits_ok(s: Seq<(Option<String>, LiteralExpr)>) -> bool
    decreases s,
{
    if s.len() == 0 {
        true
    } else {
        lits_ok(s.drop_last()) && lit_ok(s.last().1)
    }
}

/// Member by member.
pub proof fn lemma_lits(s: Seq<(Option<String>, LiteralExpr)>)
    ensures
        lits_trees(s).len() == s.len(),
        forall|i: int| 0 <= i < s.len() ==> #[trigger] lits_trees(s)[i] == lit_tree(s[i].1),
        lits_ok(s) ==> forall|i: int| 0 <= i < s.len() ==> lit_ok(#[trigger] s[i].1),
    decreases s.len(),
{
    if s.len() > 0 {
        lemma_lits(s.drop_last());
        assert forall|i: int| 0 <= i < s.len() - 1 implies s[i] == #[trigger] s.drop_last()[i] by {}
        if lits_ok(s) {
            assert forall|i: int| 0 <= i < s.len() implies lit_ok(#[trigger] s[i].1) by {
                if i < s.len() - 1 {
                    assert(s[i] == s.drop_last()[i]);
                    assert(lit_ok(s.drop_last()[i].1));
                }
            }
        }
    }
}

/// Member by member.
pub proof fn lemma_fieldsx(f: Seq<(Option<Seq<char>>, PortDeclsView)>)
    ensures
        fieldsx_trees(f).len() == f.len(),
        forall|i: int| 0 <= i < f.len() ==> #[trigger] fieldsx_trees(f)[i] == x_tree(f[i].1),
        fieldsx_ok(f) ==> forall|i: int| 0 <= i < f.len() ==> x_ok(#[trigger] f[i].1),
    decreases f.len(),
{
    if f.len() > 0 {
        lemma_fieldsx(f.drop_last());
        assert forall|i: int| 0 <= i < f.len() - 1 implies f[i] == #[trigger] f.drop_last()[i] by {}
        if fieldsx_ok(f) {
            assert forall|i: int| 0 <= i < f.len() implies x_ok(#[trigger] f[i].1) by {
                if i < f.len() - 1 {
                    assert(f[i] == f.drop_last()[i]);
                    assert(x_ok(f.drop_last()[i].1));
                }
            }
        }
    }
}

/// The members' widths add up along the members.
pub proof fn lemma_fieldsv_width_prefix(f: Seq<(Option<Seq<char>>, PortDeclsView)>, k: int)
    requires
        0 <= k <= f.len(),
    ensures
        fieldsv_width(f.take(k)) <= fieldsv_width(f),
    decreases f.len() - k,
{
    if k < f.len() {
        lemma_fieldsv_width_prefix(f, k + 1);
        assert(f.take(k + 1).drop_last() =~= f.take(k));
    } else {
        assert(f.take(k) =~= f);
    }
}

/// A member of a struct literal is smaller than the literal.
pub proof fn lemma_lit_member_decreases(e: LiteralExpr, k: int)
    requires
        e is Struct,
        0 <= k < e->Struct_inner@.len(),
    ensures
        decreases_to!(e => e->Struct_inner@[k].1),
{
    let v = e->Struct_inner;
    assert(decreases_to!(e => v));
    assert(decreases_to!(v => v@));
    assert(decreases_to!(v@ => v@[k]));
}

/// Don't-care values for each primitive member of a type.
fn x_literal(typ: &PortDecls) -> (r: CompositeExpr<LogicValues>)
    requires
        x_ok(typ@),
    ensures
        lv_tree(r) == x_tree(typ@),
    decreases typ,
{
    match typ {
        PortDecls::Bits(shape) => {
            let w = shape.width();
            let mut v: Vec<LogicValue> = Vec::new();
            let mut i: usize = 0;
            while i < w
                invariant
                    i <= w,
                    v@ == Seq::new(i as nat, |j: int| LogicValue::X),
                decreases w - i,
            {
                v.push(LogicValue::X);
                assert(v@ =~= Seq::new(i as nat + 1, |j: int| LogicValue::X));
                i += 1;
            }
            CompositeExpr::Bits(LogicValues(v))
        },
        PortDecls::Struct(inner) => {
            let ghost fv = fields_view(inner@);
            proof {
                lemma_fields_view(inner@);
                lemma_fieldsx(fv);
            }
            let mut out: Vec<CompositeExpr<LogicValues>> = Vec::new();
            let mut k: usize = 0;
            assert(lv_trees(out@) =~= fieldsx_trees(fv.take(0)));
            while k < inner.len()
                invariant
                    *typ == PortDecls::Struct(*inner),
                    fv == fields_view(inner@),
                    fv.len() == inner@.len(),
                    fieldsx_ok(fv),
                    forall|i: int| 0 <= i < fv.len() ==> x_ok(#[trigger] fv[i].1),
                    k <= inner@.len(),
                    lv_trees(out@) == fieldsx_trees(fv.take(k as int)),
                decreases inner@.len() - k,
            {
                proof {
                    lemma_member_decreases(*typ, k as int);
                    lemma_fields_view(inner@);
                    assert(fv[k as int].1 == inner@[k as int].1@);
                }
                let m = x_literal(&inner[k].1);
                let ghost prev = out@;
                out.push(m);
                proof {
                    assert(out@.drop_last() =~= prev);
                    assert(fv.take(k as int + 1).drop_last() =~= fv.take(k as int));
                }
                k += 1;
            }
            assert(fv.take(inner@.len() as int) =~= fv);
            CompositeExpr::Struct(out)
        },
    }
}

/// Logic values of bits, most significant first.
fn bits_literal(bits: &Vec<bool>) -> (r: Vec<LogicValue>)
    ensures
        r@ == bits_logic(bits@),
{
    let n = bits.len();
    let mut v: Vec<LogicValue> = Vec::new();
    let mut i: usize = 0;
    while i < n
        invariant
            n == bits@.len(),
            i <= n,
            v@ == bits_logic(bits@).take(i as int),
        decreases n - i,
    {
        let b = bits[n - 1 - i];
        v.push(
            if b {
                LogicValue::True
            } else {
                LogicValue::False
            },
        );
        assert(bits_logic(bits@).take(i as int + 1) =~= bits_logic(bits@).take(i as int).push(bit_logic(b)));
        i += 1;
    }
    assert(bits_logic(bits@).take(n as int) =~= bits_logic(bits@));
    v
}

/// The constant of a type with the given bits.
fn const_literal(bits: &Vec<bool>, typ: &PortDecls) -> (r: CompositeExpr<LogicValues>)
    requires
        const_ok(bits@.len(), typ@),
    ensures
        lv_tree(r) == const_tree(bits@, typ@),
    decreases typ,
{
    match typ {
        PortDecls::Bits(_) => CompositeExpr::Bits(LogicValues(bits_literal(bits))),
        PortDecls::Struct(inner) => {
            let ghost fv = fields_view(inner@);
            proof {
                lemma_fields_view(inner@);
            }
            let mut out: Vec<CompositeExpr<LogicValues>> = Vec::new();
            let mut offset: usize = 0;
            let mut k: usize = 0;
            assert(lv_trees(out@) =~= const_trees(bits@, fv.take(0)));
            while k < inner.len()
                invariant
                    *typ == PortDecls::Struct(*inner),
                    fv == fields_view(inner@),
                    fv.len() == inner@.len(),
                    fieldsv_fit(fv),
                    fieldsv_width(fv) <= bits@.len(),
                    k <= inner@.len(),
                    offset == fieldsv_width(fv.take(k as int)),
                    lv_trees(out@) == const_trees(bits@, fv.take(k as int)),
                decreases inner@.len() - k,
            {
                proof {
                    lemma_member_decreases(*typ, k as int);
                    lemma_fields_view(inner@);
                    lemma_fieldsv_fit_prefix(fv, k as int);
                    lemma_fieldsv_width_prefix(fv, k as int + 1);
                    assert(fv.take(k as int + 1).drop_last() =~= fv.take(k as int));
                    assert(fv.take(k as int + 1).last() == fv[k as int]);
                    assert(fv[k as int].1 == inner@[k as int].1@);
                }
                let w = inner[k].1.width();
                let mut sub: Vec<bool> = Vec::new();
                let mut j: usize = 0;
                while j < w
                    invariant
                        j <= w,
                        offset + w <= bits.len(),
                        sub@ == bits@.subrange(offset as int, offset + j),
                    decreases w - j,
                {
                    sub.push(bits[offset + j]);
                    assert(sub@ =~= bits@.subrange(offset as int, offset + j + 1));
                    j += 1;
                }
                proof {
                    let mv = fv[k as int].1;
                    match mv {
                        PortDeclsView::Struct(g) => {
                            assert(pdv_fits(mv));
                            assert(pdv_width(mv) == fieldsv_width(g));
                        },
                        PortDeclsView::Bits(_) => {},
                    }
                }
                let m = const_literal(&sub, &inner[k].1);
                let ghost prev = out@;
                out.push(m);
                proof {
                    assert(out@.drop_last() =~= prev);
                }
                offset = offset + w;
                k += 1;
            }
            assert(fv.take(inner@.len() as int) =~= fv);
            CompositeExpr::Struct(out)
        },
    }
}

/// Generates the logic values that a literal expression spells, most significant bit
/// first in each primitive member.
pub fn gen_expr_literal(expr: &LiteralExpr) -> (r: CompositeExpr<LogicValues>)
    requires
        lit_ok(*expr),
    ensures
        lv_tree(r) == lit_tree(*expr),
    decreases expr,
{
    match expr {
        LiteralExpr::X { typ } => x_literal(typ),
        LiteralExpr::Constant { bits, typ } => const_literal(bits, typ),
        LiteralExpr::Struct { inner } => {
            proof {
                lemma_lits(inner@);
            }
            let mut out: Vec<CompositeExpr<LogicValues>> = Vec::new();
            let mut k: usize = 0;
            assert(lv_trees(out@) =~= lits_trees(inner@.take(0)));
            while k < inner.len()
                invariant
                    *expr == (LiteralExpr::Struct { inner: *inner }),
                    lits_ok(inner@),
                    forall|i: int| 0 <= i < inner@.len() ==> lit_ok(#[trigger] inner@[i].1),
                    k <= inner@.len(),
                    lv_trees(out@) == lits_trees(inner@.take(k as int)),
                decreases inner@.len() - k,
            {
                proof {
                    lemma_lit_member_decreases(*expr, k as int);
                }
                let m = gen_expr_literal(&inner[k].1);
                let ghost prev = out@;
                out.push(m);
                proof {
                    assert(out@.drop_last() =~= prev);
                    assert(inner@.take(k as int + 1).drop_last() =~= inner@.take(k as int));
                }
                k += 1;
            }
            assert(inner@.take(inner@.len() as int) =~= inner@);
            CompositeExpr::Struct(out)
        },
        LiteralExpr::Repeat { inner, count } => {
            let r = gen_expr_literal(inner);
            r.repeat(*count)
        },
        LiteralExpr::Member { inner, index } => {
            let r = gen_expr_literal(inner);
            match r {
                CompositeExpr::Struct(v) => {
                    let mut v = v;
                    proof {
                        lemma_lv_trees(v@);
                    }
                    v.remove(*index)
                },
                CompositeExpr::Bits(_) => vstd::pervasive::unreached(),
            }
        },
    }
}

/// The Verilog number of a run of logic values: `0` for none, `N'b0` when all are
/// zero, `N'bx` when all are don't-care, else `N'b` and the values.
pub open spec fn lit_number(v: Seq<LogicValue>) -> Seq<char> {
    if v.len() == 0 {
        "0"@
    } else if forall|i: int| 0 <= i < v.len() ==> v[i] == LogicValue::False {
        nat_to_decimal(v.len()) + "'b0"@
    } else if forall|i: int| 0 <= i < v.len() ==> v[i] == LogicValue::X {
        nat_to_decimal(v.len()) + "'bx"@
    } else {
        nat_to_decimal(v.len()) + "'b"@ + v.map_values(|x: LogicValue| logic_char(x))
    }
}

/// The number expression of a run of logic values.
pub open spec fn number_v(v: Seq<LogicValue>) -> ExprV {
    ExprV::Primary(PrimV::Number(lit_number(v)))
}

/// Whether all values are `x`; `all_false` tells the same of zeros.
fn uniform(v: &LogicValues) -> (r: (bool, bool))
    ensures
        r.0 == (forall|i: int| 0 <= i < v.0@.len() ==> v.0@[i] == LogicValue::False),
        r.1 == (forall|i: int| 0 <= i < v.0@.len() ==> v.0@[i] == LogicValue::X),
{
    let mut all_false = true;
    let mut all_x = true;
    let mut i: usize = 0;
    while i < v.0.len()
        invariant
            i <= v.0@.len(),
            all_false == (forall|j: int| 0 <= j < i ==> v.0@[j] == LogicValue::False),
            all_x == (forall|j: int| 0 <= j < i ==> v.0@[j] == LogicValue::X),
        decreases v.0@.len() - i,
    {
        match v.0[i] {
            LogicValue::False => {
                all_x = false;
            },
            LogicValue::X => {
                all_false = false;
            },
            _ => {
                all_false = false;
                all_x = false;
            },
        }
        i += 1;
    }
    (all_false, all_x)
}

/// The number expression of a run of logic values.
pub fn literal_number(v: LogicValues) -> (r: Expression)
    ensures
        r@ == number_v(v.0@),
{
    proof {
        reveal_strlit("0");
        reveal_strlit("'b0");
        reveal_strlit("'bx");
        reveal_strlit("'b");
    }
    if v.0.len() == 0 {
        return Expression::number(String::from_str("0"));
    }
    let (all_false, all_x) = uniform(&v);
    let mut s = usize_to_string(v.0.len());
    if all_false {
        s.append("'b0");
    } else if all_x {
        s.append("'bx");
    } else {
        s.append("'b");
        let bits = v.to_string();
        s.append(bits.as_str());
    }
    Expression::number(s)
}

/// Generates the Verilog numbers of a literal expression, one for each primitive
/// member.
pub fn gen_literal_expr(expr: &LiteralExpr) -> (r: CompositeExpr<Expression>)
    requires
        lit_ok(*expr),
    ensures
        ce_skel(r) == tree_skel(lit_tree(*expr)),
        exprs_v(ce_leaves(r)) == tree_leaves(lit_tree(*expr)).map_values(|v: Seq<LogicValue>| number_v(v)),
{
    let lit = gen_expr_literal(expr);
    let ghost leaves = ce_leaves(lit);
    proof {
        lemma_lv_tree_parts(lit);
    }
    let r = lit.map(literal_number);
    assert(exprs_v(ce_leaves(r)) =~= tree_leaves(lit_tree(*expr)).map_values(|v: Seq<LogicValue>| number_v(v))) by {
        assert forall|i: int| 0 <= i < ce_leaves(r).len() implies expr_v(#[trigger] ce_leaves(r)[i]) == number_v(
            leaves[i].0@,
        ) by {
            assert(leaves.map_values(|v: LogicValues| v.0@)[i] == leaves[i].0@);
        }
    }
    r
}

} // verus!
