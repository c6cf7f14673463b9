//! Pure expressions of hardware values. Expressions refer to their operands by index in
//! a table, where every operand comes before the expressions that use it.

use vstd::prelude::*;

use crate::compiler::ops::BinaryOp;
use crate::compiler::prelude::{
    fields_view, lemma_fields_view, pdv_fits, pdv_scalable, pdv_scale, pdv_width, shape_fits, shape_width, PortDecls, PortDeclsView, Shape, ShapeView,
};
use crate::utils::math::{clog2, clog2_spec, low_bits_spec, usize_to_bitvec};
use crate::utils::string::{nat_to_decimal, opt_view, usize_to_string};

verus! {

/// Index of an expression in its table.
#[derive(Debug, Clone, Copy)]
pub struct ExprId(pub usize);

/// Index of a function in its table.
#[derive(Debug, Clone, Copy)]
pub struct FunctionId(pub usize);

/// Expressions.
#[derive(Debug)]
pub enum Expr {
    /// Don't-care value
    X {
        /// Value type of the expr
        typ: PortDecls,
    },
    /// Constant value, least significant bit first
    Constant {
        /// Bits
        bits: Vec<bool>,
        /// Value type
        typ: PortDecls,
    },
    /// Repeated value
    Repeat {
        /// Repeated expression
        inner: ExprId,
        /// Number of repetitions
        count: usize,
    },
    /// Variable
    Var {
        /// Name
        name: Option<String>,
        /// Value type
        typ: PortDecls,
    },
    /// Member of a struct
    Member {
        /// The struct
        inner: ExprId,
        /// Index of the member
        index: usize,
    },
    /// Struct of named members
    Struct {
        /// Members
        inner: Vec<(Option<String>, ExprId)>,
    },
    /// Bitwise negation
    Not {
        /// Operand
        inner: ExprId,
    },
    /// Binary operation
    BinaryOp {
        /// Operator
        op: BinaryOp,
        /// Left operand
        lhs: ExprId,
        /// Right operand
        rhs: ExprId,
    },
    /// Fold of an array
    Fold {
        /// The array
        inner: ExprId,
        /// Element type
        typ_elt: PortDecls,
        /// Folding function
        func: FunctionId,
        /// Initial value
        init: ExprId,
    },
    /// Tree-shaped fold of an array
    TreeFold {
        /// The array
        inner: ExprId,
        /// Accumulator
        acc: ExprId,
        /// Operation
        op: ExprId,
        /// Left operand
        lhs: ExprId,
        /// Right operand
        rhs: ExprId,
    },
    /// Map over an array
    MapElements {
        /// The array
        inner: ExprId,
        /// Element type
        typ_elt: PortDecls,
        /// Number of elements
        len: usize,
        /// Mapped function
        func: FunctionId,
        /// Result type of the function
        func_ret_typ: PortDecls,
    },
    /// The array of indices `0..len`
    Range {
        /// Number of elements
        len: usize,
        /// Element type
        typ_elt: PortDecls,
    },
    /// Element of an array
    Get {
        /// The array
        inner: ExprId,
        /// Element type
        typ_elt: PortDecls,
        /// Index
        index: ExprId,
    },
    /// Cast between bit shapes
    Cast {
        /// Operand
        from: ExprId,
        /// Target shape
        to: Shape,
    },
    /// Elements `from..from + size` of an array
    Clip {
        /// The array
        inner: ExprId,
        /// Element type
        typ_elt: PortDecls,
        /// First index
        from: ExprId,
        /// Number of elements
        size: usize,
    },
    /// Concatenation of two arrays
    Append {
        /// First array
        lhs: ExprId,
        /// Second array
        rhs: ExprId,
        /// Element type
        typ_elt: PortDecls,
    },
    /// Arrays zipped element by element
    Zip {
        /// The arrays
        inner: Vec<ExprId>,
        /// Their element types
        typ_inner: Vec<PortDecls>,
    },
    /// Flattened array of arrays
    Concat {
        /// The array
        inner: ExprId,
        /// Element type
        typ_elt: PortDecls,
    },
    /// Array split into chunks
    Chunk {
        /// The array
        inner: ExprId,
        /// Elements in a chunk
        chunk_size: usize,
    },
    /// Bits of a value
    Repr {
        /// Operand
        inner: ExprId,
    },
    /// Value of the first true condition, else the default
    Cond {
        /// Conditions and values
        cond_expr_pair: Vec<(ExprId, ExprId)>,
        /// Default value
        default: ExprId,
    },
    /// Array with one element set
    SetElement {
        /// The array
        inner: ExprId,
        /// Index
        index: ExprId,
        /// New element
        elt: ExprId,
    },
    /// Array with a range of elements set
    SetRange {
        /// The array
        inner: ExprId,
        /// Element type
        typ_elt: PortDecls,
        /// First index
        index: ExprId,
        /// New elements
        elts: ExprId,
    },
    /// Case analysis
    Case {
        /// Scrutinee
        case_expr: ExprId,
        /// Cases and values
        case_items: Vec<(ExprId, ExprId)>,
        /// Default value
        default: Option<ExprId>,
    },
    /// Array of elements
    ConcatArray {
        /// The elements
        inner: Vec<ExprId>,
        /// Element type
        elt_typ: PortDecls,
    },
}

/// The operands of expressions are in a table, each before the expressions that use it.
pub struct ExprTable {
    /// Expressions, by index
    pub exprs: Vec<Expr>,
}

/// Indices of expressions.
pub open spec fn ids_v(s: Seq<ExprId>) -> Seq<usize> {
    s.map_values(|e: ExprId| e.0)
}

/// Indices of the members of a struct.
pub open spec fn member_ids(s: Seq<(Option<String>, ExprId)>) -> Seq<usize> {
    s.map_values(|m: (Option<String>, ExprId)| m.1.0)
}

/// Signedness of a value type: that of its shape, unsigned for a struct.
pub open spec fn pdv_signed(p: PortDeclsView) -> bool {
    match p {
        PortDeclsView::Bits(s) => s.is_signed,
        PortDeclsView::Struct(_) => false,
    }
}

/// Bits of the given width and signedness.
pub open spec fn bits_v(width: nat, signed: bool) -> PortDeclsView {
    PortDeclsView::Bits(ShapeView { dims: seq![width as usize], is_signed: signed })
}

/// Width of expression `e`, whose operands are below `k` in table `t`.
pub open spec fn e_width(t: Seq<Expr>, e: Expr, k: nat) -> nat
    decreases k, 1nat, 0nat,
{
    match e {
        Expr::X { typ } => pdv_width(typ@),
        Expr::Constant { bits, .. } => bits@.len(),
        Expr::BinaryOp { op, lhs, rhs } => {
            let l = id_width(t, lhs.0, k);
            let r = id_width(t, rhs.0, k);
            match op {
                BinaryOp::And | BinaryOp::Or | BinaryOp::Xor | BinaryOp::Sub | BinaryOp::ShiftRight
                | BinaryOp::ShiftLeft => l,
                BinaryOp::Add => l + 1,
                BinaryOp::Mul => l + r,
                BinaryOp::Div => l,
                BinaryOp::Mod => r,
                BinaryOp::EqArithmetic | BinaryOp::NeArithmetic | BinaryOp::Less | BinaryOp::Greater
                | BinaryOp::LessEq | BinaryOp::GreaterEq => 1,
                _ => 0,
            }
        },
        Expr::Member { inner, index } => match id_pd(t, inner.0, k) {
            PortDeclsView::Struct(f) => pdv_width(f[index as int].1),
            PortDeclsView::Bits(_) => 0,
        },
        Expr::Concat { inner, .. } | Expr::Chunk { inner, .. } | Expr::Not { inner } | Expr::Repr { inner }
        | Expr::SetElement { inner, .. } | Expr::SetRange { inner, .. } => id_width(t, inner.0, k),
        Expr::MapElements { inner, typ_elt, func_ret_typ, .. } => (id_width(t, inner.0, k) / pdv_width(typ_elt@)) * pdv_width(
            func_ret_typ@,
        ),
        Expr::Repeat { inner, count } => id_width(t, inner.0, k) * (count as nat),
        Expr::Var { typ, .. } => pdv_width(typ@),
        Expr::Cond { default, .. } => id_width(t, default.0, k),
        Expr::Get { typ_elt, .. } => pdv_width(typ_elt@),
        Expr::Clip { size, typ_elt, .. } => pdv_width(typ_elt@) * (size as nat),
        Expr::Append { lhs, rhs, .. } => id_width(t, lhs.0, k) + id_width(t, rhs.0, k),
        Expr::Zip { inner, .. } => sum_widths(t, ids_v(inner@), k),
        Expr::Struct { inner } => sum_widths(t, member_ids(inner@), k),
        Expr::Fold { init, .. } => id_width(t, init.0, k),
        Expr::TreeFold { lhs, .. } => id_width(t, lhs.0, k),
        Expr::Case { case_items, default, .. } => if case_items@.len() == 0 {
            match default {
                Some(d) => id_width(t, d.0, k),
                None => 0,
            }
        } else {
            id_width(t, case_items@[0].1.0, k)
        },
        Expr::ConcatArray { inner, elt_typ } => pdv_width(elt_typ@) * inner@.len(),
        Expr::Range { len, typ_elt } => pdv_width(typ_elt@) * (len as nat),
        Expr::Cast { to, .. } => shape_width(to@.dims),
    }
}

/// Width of the expression at index `c` of table `t`, if it is below `k`.
pub open spec fn id_width(t: Seq<Expr>, c: usize, k: nat) -> nat
    decreases k, 0nat, 0nat,
{
    if c < k && c < t.len() {
        e_width(t, t[c as int], c as nat)
    } else {
        0
    }
}

/// Sum of the widths of the expressions at the given indices.
pub open spec fn sum_widths(t: Seq<Expr>, ids: Seq<usize>, k: nat) -> nat
    decreases k, 0nat, ids.len() + 1,
{
    if ids.len() == 0 {
        0
    } else {
        sum_widths(t, ids.drop_last(), k) + id_width(t, ids.last(), k)
    }
}

/// Type of expression `e`, whose operands are below `k` in table `t`.
pub open spec fn e_pd(t: Seq<Expr>, e: Expr, k: nat) -> PortDeclsView
    decreases k, 2nat, 0nat,
{
    match e {
        Expr::X { typ } | Expr::Constant { typ, .. } | Expr::Var { typ, .. } => typ@,
        Expr::Repeat { inner, count } => pdv_scale(id_pd(t, inner.0, k), count as nat, true),
        Expr::Member { inner, index } => match id_pd(t, inner.0, k) {
            PortDeclsView::Struct(f) => f[index as int].1,
            b => b,
        },
        Expr::Struct { inner } => PortDeclsView::Struct(pd_members(t, inner@, k)),
        Expr::BinaryOp { op, lhs, rhs } => {
            let lt = id_pd(t, lhs.0, k);
            let rt = id_pd(t, rhs.0, k);
            let w = e_width(t, e, k);
            match op {
                BinaryOp::Add | BinaryOp::Sub | BinaryOp::Div | BinaryOp::Mod | BinaryOp::Or | BinaryOp::And
                | BinaryOp::Xor | BinaryOp::Mul => bits_v(w, pdv_signed(lt) && pdv_signed(rt)),
                BinaryOp::ShiftRight | BinaryOp::ShiftLeft => bits_v(w, pdv_signed(lt)),
                _ => bits_v(w, false),
            }
        },
        Expr::Chunk { inner, .. } | Expr::Not { inner } | Expr::SetElement { inner, .. } | Expr::SetRange { inner, .. } => id_pd(
            t,
            inner.0,
            k,
        ),
        Expr::Fold { init, .. } => id_pd(t, init.0, k),
        Expr::TreeFold { lhs, .. } => id_pd(t, lhs.0, k),
        Expr::Clip { inner, typ_elt, size, .. } => pdv_scale(
            pdv_scale(id_pd(t, inner.0, k), id_width(t, inner.0, k) / pdv_width(typ_elt@), false),
            size as nat,
            true,
        ),
        Expr::Append { lhs, rhs, typ_elt } => pdv_scale(
            typ_elt@,
            (id_width(t, lhs.0, k) + id_width(t, rhs.0, k)) / pdv_width(typ_elt@),
            true,
        ),
        Expr::Get { typ_elt, .. } => typ_elt@,
        Expr::Repr { inner } => bits_v(id_width(t, inner.0, k), false),
        Expr::MapElements { func_ret_typ, len, .. } => pdv_scale(func_ret_typ@, len as nat, true),
        Expr::Zip { inner, .. } => PortDeclsView::Struct(zip_members(t, ids_v(inner@), k)),
        Expr::Concat { inner, typ_elt } => pdv_scale(typ_elt@, id_width(t, inner.0, k) / pdv_width(typ_elt@), true),
        Expr::Cond { default, .. } => id_pd(t, default.0, k),
        Expr::Case { case_items, default, .. } => if case_items@.len() == 0 {
            match default {
                Some(d) => id_pd(t, d.0, k),
                None => bits_v(0, false),
            }
        } else {
            id_pd(t, case_items@[0].1.0, k)
        },
        Expr::ConcatArray { inner, elt_typ } => pdv_scale(elt_typ@, inner@.len(), true),
        Expr::Range { len, typ_elt } => pdv_scale(typ_elt@, len as nat, true),
        Expr::Cast { to, .. } => PortDeclsView::Bits(to@),
    }
}

/// Type of the expression at index `c` of table `t`, if it is below `k`.
pub open spec fn id_pd(t: Seq<Expr>, c: usize, k: nat) -> PortDeclsView
    decreases k, 0nat, 0nat,
{
    if c < k && c < t.len() {
        e_pd(t, t[c as int], c as nat)
    } else {
        bits_v(0, false)
    }
}

/// Types of the members of a struct, with their names.
pub open spec fn pd_members(t: Seq<Expr>, s: Seq<(Option<String>, ExprId)>, k: nat) -> Seq<
    (Option<Seq<char>>, PortDeclsView),
>
    decreases k, 0nat, s.len() + 1,
{
    if s.len() == 0 {
        seq![]
    } else {
        pd_members(t, s.drop_last(), k).push((opt_view(s.last().0), id_pd(t, s.last().1.0, k)))
    }
}

/// Types of zipped arrays, named by their positions.
pub open spec fn zip_members(t: Seq<Expr>, ids: Seq<usize>, k: nat) -> Seq<(Option<Seq<char>>, PortDeclsView)>
    decreases k, 0nat, ids.len() + 1,
{
    if ids.len() == 0 {
        seq![]
    } else {
        zip_members(t, ids.drop_last(), k).push(
            (Some(nat_to_decimal((ids.len() - 1) as nat)), id_pd(t, ids.last(), k)),
        )
    }
}


/// Whether the width of expression `e`, whose operands are below `k` in table `t`, can be
/// computed: every operand read is in the table, the widths that must agree do, the operator
/// has a width, and no width overflows.
pub open spec fn e_wok(t: Seq<Expr>, e: Expr, k: nat) -> bool
    decreases k, 1nat, 0nat,
{
    match e {
        Expr::X { typ } | Expr::Var { typ, .. } => pdv_fits(typ@),
        Expr::Constant { .. } => true,
        Expr::BinaryOp { op, lhs, rhs } => {
            let l = id_width(t, lhs.0, k);
            let r = id_width(t, rhs.0, k);
            match op {
                BinaryOp::And | BinaryOp::Or | BinaryOp::Xor | BinaryOp::Sub | BinaryOp::ShiftRight
                | BinaryOp::ShiftLeft | BinaryOp::Div => id_wok(t, lhs.0, k),
                BinaryOp::Add => id_wok(t, lhs.0, k) && id_wok(t, rhs.0, k) && l == r && l + 1 <= usize::MAX,
                BinaryOp::Mul => id_wok(t, lhs.0, k) && id_wok(t, rhs.0, k) && l + r <= usize::MAX,
                BinaryOp::Mod => id_wok(t, rhs.0, k),
                BinaryOp::EqArithmetic | BinaryOp::NeArithmetic | BinaryOp::Less | BinaryOp::Greater
                | BinaryOp::LessEq | BinaryOp::GreaterEq => id_wok(t, lhs.0, k) && id_wok(t, rhs.0, k) && l == r,
                _ => false,
            }
        },
        Expr::Member { inner, index } => id_pok(t, inner.0, k) && match id_pd(t, inner.0, k) {
            PortDeclsView::Struct(f) => index < f.len() && pdv_fits(f[index as int].1),
            PortDeclsView::Bits(_) => false,
        },
        Expr::Concat { inner, .. } | Expr::Chunk { inner, .. } | Expr::Not { inner } | Expr::Repr { inner }
        | Expr::SetElement { inner, .. } | Expr::SetRange { inner, .. } => id_wok(t, inner.0, k),
        Expr::MapElements { inner, typ_elt, func_ret_typ, .. } => {
            let l = id_width(t, inner.0, k);
            let w = pdv_width(typ_elt@);
            &&& id_wok(t, inner.0, k)
            &&& pdv_fits(typ_elt@)
            &&& w > 0
            &&& l % w == 0
            &&& pdv_fits(func_ret_typ@)
            &&& (l / w) * pdv_width(func_ret_typ@) <= usize::MAX
        },
        Expr::Repeat { inner, count } => id_wok(t, inner.0, k) && id_width(t, inner.0, k) * (count as nat)
            <= usize::MAX,
        Expr::Cond { cond_expr_pair, default } => {
            &&& id_wok(t, default.0, k)
            &&& forall|i: int|
                0 <= i < cond_expr_pair@.len() ==> {
                    &&& id_wok(t, #[trigger] cond_expr_pair@[i].0.0, k)
                    &&& id_wok(t, cond_expr_pair@[i].1.0, k)
                    &&& id_width(t, cond_expr_pair@[i].0.0, k) == 1
                    &&& id_width(t, cond_expr_pair@[i].1.0, k) == id_width(t, default.0, k)
                }
        },
        Expr::Get { typ_elt, .. } => pdv_fits(typ_elt@),
        Expr::Clip { size, typ_elt, .. } => pdv_fits(typ_elt@) && pdv_width(typ_elt@) * (size as nat)
            <= usize::MAX,
        Expr::Append { lhs, rhs, .. } => id_wok(t, lhs.0, k) && id_wok(t, rhs.0, k) && id_width(t, lhs.0, k)
            + id_width(t, rhs.0, k) <= usize::MAX,
        Expr::Zip { inner, .. } => {
            &&& forall|i: int| 0 <= i < inner@.len() ==> id_wok(t, #[trigger] inner@[i].0, k)
            &&& sum_widths(t, ids_v(inner@), k) <= usize::MAX
        },
        Expr::Struct { inner } => {
            &&& forall|i: int| 0 <= i < inner@.len() ==> id_wok(t, #[trigger] inner@[i].1.0, k)
            &&& sum_widths(t, member_ids(inner@), k) <= usize::MAX
        },
        Expr::Fold { init, .. } => id_wok(t, init.0, k),
        Expr::TreeFold { lhs, .. } => id_wok(t, lhs.0, k),
        Expr::Case { case_items, default, .. } => if case_items@.len() == 0 {
            match default {
                Some(d) => id_wok(t, d.0, k),
                None => false,
            }
        } else {
            let w = id_width(t, case_items@[0].1.0, k);
            &&& forall|i: int|
                0 <= i < case_items@.len() ==> id_wok(t, #[trigger] case_items@[i].1.0, k) && id_width(
                    t,
                    case_items@[i].1.0,
                    k,
                ) == w
            &&& match default {
                Some(d) => id_wok(t, d.0, k) && id_width(t, d.0, k) == w,
                None => true,
            }
        },
        Expr::ConcatArray { inner, elt_typ } => pdv_fits(elt_typ@) && pdv_width(elt_typ@) * inner@.len()
            <= usize::MAX,
        Expr::Range { len, typ_elt } => pdv_fits(typ_elt@) && pdv_width(typ_elt@) * (len as nat) <= usize::MAX,
        Expr::Cast { to, .. } => shape_fits(to@.dims),
    }
}

/// Whether the width of the expression at index `c` of table `t`, below `k`, can be computed.
pub open spec fn id_wok(t: Seq<Expr>, c: usize, k: nat) -> bool
    decreases k, 0nat, 0nat,
{
    c < k && c < t.len() && e_wok(t, t[c as int], c as nat)
}

/// Whether the type of expression `e`, whose operands are below `k` in table `t`, can be
/// computed: the operands read are in the table, a member is taken of a struct and exists,
/// compared operands have one type, the cases of a case analysis have one type, and every
/// array type scaled has an outermost dimension that allows it.
pub open spec fn e_pok(t: Seq<Expr>, e: Expr, k: nat) -> bool
    decreases k, 2nat, 0nat,
{
    match e {
        Expr::X { .. } | Expr::Constant { .. } | Expr::Var { .. } | Expr::Get { .. } | Expr::Cast { .. } => true,
        Expr::Repeat { inner, count } => id_pok(t, inner.0, k) && pdv_scalable(
            id_pd(t, inner.0, k),
            count as nat,
            true,
        ),
        Expr::Member { inner, index } => id_pok(t, inner.0, k) && match id_pd(t, inner.0, k) {
            PortDeclsView::Struct(f) => index < f.len(),
            PortDeclsView::Bits(_) => false,
        },
        Expr::Struct { inner } => forall|i: int| 0 <= i < inner@.len() ==> id_pok(t, #[trigger] inner@[i].1.0, k),
        Expr::BinaryOp { op, lhs, rhs } => {
            &&& id_pok(t, lhs.0, k)
            &&& id_pok(t, rhs.0, k)
            &&& e_wok(t, e, k)
            &&& match op {
                BinaryOp::NeStrict | BinaryOp::Eq | BinaryOp::Less | BinaryOp::Greater | BinaryOp::LessEq
                | BinaryOp::GreaterEq | BinaryOp::EqArithmetic | BinaryOp::NeArithmetic => id_pd(t, lhs.0, k)
                    == id_pd(t, rhs.0, k),
                _ => true,
            }
        },
        Expr::Chunk { inner, .. } | Expr::Not { inner } | Expr::SetElement { inner, .. } | Expr::SetRange {
            inner,
            ..
        } => id_pok(t, inner.0, k),
        Expr::Fold { init, .. } => id_pok(t, init.0, k),
        Expr::TreeFold { lhs, .. } => id_pok(t, lhs.0, k),
        Expr::Clip { inner, typ_elt, size, .. } => {
            let p = id_pd(t, inner.0, k);
            let n = id_width(t, inner.0, k) / pdv_width(typ_elt@);
            &&& id_pok(t, inner.0, k)
            &&& id_wok(t, inner.0, k)
            &&& pdv_fits(typ_elt@)
            &&& pdv_width(typ_elt@) > 0
            &&& pdv_scalable(p, n, false)
            &&& pdv_scalable(pdv_scale(p, n, false), size as nat, true)
        },
        Expr::Append { lhs, rhs, typ_elt } => {
            let n = id_width(t, lhs.0, k) + id_width(t, rhs.0, k);
            &&& id_wok(t, lhs.0, k)
            &&& id_wok(t, rhs.0, k)
            &&& n <= usize::MAX
            &&& pdv_fits(typ_elt@)
            &&& pdv_width(typ_elt@) > 0
            &&& pdv_scalable(typ_elt@, n / pdv_width(typ_elt@), true)
        },
        Expr::Repr { inner } => id_wok(t, inner.0, k),
        Expr::MapElements { func_ret_typ, len, .. } => pdv_scalable(func_ret_typ@, len as nat, true),
        Expr::Zip { inner, .. } => forall|i: int| 0 <= i < inner@.len() ==> id_pok(t, #[trigger] inner@[i].0, k),
        Expr::Concat { inner, typ_elt } => {
            &&& id_wok(t, inner.0, k)
            &&& pdv_fits(typ_elt@)
            &&& pdv_width(typ_elt@) > 0
            &&& pdv_scalable(typ_elt@, id_width(t, inner.0, k) / pdv_width(typ_elt@), true)
        },
        Expr::Cond { default, .. } => id_pok(t, default.0, k),
        Expr::Case { case_items, default, .. } => if case_items@.len() == 0 {
            match default {
                Some(d) => id_pok(t, d.0, k),
                None => false,
            }
        } else {
            let p = id_pd(t, case_items@[0].1.0, k);
            &&& forall|i: int|
                0 <= i < case_items@.len() ==> id_pok(t, #[trigger] case_items@[i].1.0, k) && id_pd(
                    t,
                    case_items@[i].1.0,
                    k,
                ) == p
            &&& match default {
                Some(d) => id_pok(t, d.0, k) && id_pd(t, d.0, k) == p,
                None => true,
            }
        },
        Expr::ConcatArray { inner, elt_typ } => pdv_scalable(elt_typ@, inner@.len(), true),
        Expr::Range { len, typ_elt } => pdv_scalable(typ_elt@, len as nat, true),
    }
}

/// Whether the type of the expression at index `c` of table `t`, below `k`, can be computed.
pub open spec fn id_pok(t: Seq<Expr>, c: usize, k: nat) -> bool
    decreases k, 0nat, 0nat,
{
    c < k && c < t.len() && e_pok(t, t[c as int], c as nat)
}


/// Two tables hold the same expressions at every index below `k`.
pub open spec fn agree_below(t1: Seq<Expr>, t2: Seq<Expr>, k: nat) -> bool {
    &&& k <= t1.len()
    &&& k <= t2.len()
    &&& forall|c: int| 0 <= c < k ==> t1[c] == t2[c]
}

/// Tables that agree below `k` give the expressions at their indices below `k` the same
/// meaning.
pub open spec fn same_ids(t1: Seq<Expr>, t2: Seq<Expr>, k: nat) -> bool {
    &&& forall|c: usize| #![trigger id_width(t1, c, k)] #![trigger id_width(t2, c, k)] id_width(t1, c, k) == id_width(t2, c, k)
    &&& forall|c: usize| #![trigger id_pd(t1, c, k)] #![trigger id_pd(t2, c, k)] id_pd(t1, c, k) == id_pd(t2, c, k)
    &&& forall|c: usize| #![trigger id_wok(t1, c, k)] #![trigger id_wok(t2, c, k)] id_wok(t1, c, k) == id_wok(t2, c, k)
    &&& forall|c: usize| #![trigger id_pok(t1, c, k)] #![trigger id_pok(t2, c, k)] id_pok(t1, c, k) == id_pok(t2, c, k)
}

/// Sums of widths agree where the widths do.
proof fn lemma_agree_sums(t1: Seq<Expr>, t2: Seq<Expr>, ids: Seq<usize>, k: nat)
    requires
        same_ids(t1, t2, k),
    ensures
        sum_widths(t1, ids, k) == sum_widths(t2, ids, k),
    decreases ids.len(),
{
    if ids.len() > 0 {
        lemma_agree_sums(t1, t2, ids.drop_last(), k);
        assert(id_width(t1, ids.last(), k) == id_width(t2, ids.last(), k));
    }
}

/// Member types agree where the types do.
proof fn lemma_agree_members(t1: Seq<Expr>, t2: Seq<Expr>, s: Seq<(Option<String>, ExprId)>, k: nat)
    requires
        same_ids(t1, t2, k),
    ensures
        pd_members(t1, s, k) == pd_members(t2, s, k),
    decreases s.len(),
{
    if s.len() > 0 {
        lemma_agree_members(t1, t2, s.drop_last(), k);
        assert(id_pd(t1, s.last().1.0, k) == id_pd(t2, s.last().1.0, k));
    }
}

/// Types of zipped arrays agree where the types do.
proof fn lemma_agree_zips(t1: Seq<Expr>, t2: Seq<Expr>, ids: Seq<usize>, k: nat)
    requires
        same_ids(t1, t2, k),
    ensures
        zip_members(t1, ids, k) == zip_members(t2, ids, k),
    decreases ids.len(),
{
    if ids.len() > 0 {
        lemma_agree_zips(t1, t2, ids.drop_last(), k);
        assert(id_pd(t1, ids.last(), k) == id_pd(t2, ids.last(), k));
    }
}

/// Tables that agree below `k` give the same meaning to the indices below `k`.
proof fn lemma_agree_ids(t1: Seq<Expr>, t2: Seq<Expr>, k: nat)
    requires
        agree_below(t1, t2, k),
    ensures
        same_ids(t1, t2, k),
    decreases k, 0nat,
{
    assert forall|c: usize| c < k implies {
        &&& id_width(t1, c, k) == id_width(t2, c, k)
        &&& id_pd(t1, c, k) == id_pd(t2, c, k)
        &&& id_wok(t1, c, k) == id_wok(t2, c, k)
        &&& id_pok(t1, c, k) == id_pok(t2, c, k)
    } by {
        lemma_agree_exprs(t1, t2, c as nat, t1[c as int]);
    }
}

/// Tables that agree below `k` give the same meaning to an expression whose operands are
/// below `k`.
proof fn lemma_agree_exprs(t1: Seq<Expr>, t2: Seq<Expr>, k: nat, e: Expr)
    requires
        agree_below(t1, t2, k),
    ensures
        e_width(t1, e, k) == e_width(t2, e, k),
        e_pd(t1, e, k) == e_pd(t2, e, k),
        e_wok(t1, e, k) == e_wok(t2, e, k),
        e_pok(t1, e, k) == e_pok(t2, e, k),
    decreases k, 1nat,
{
    lemma_agree_ids(t1, t2, k);
    match e {
        Expr::Zip { inner, .. } => {
            lemma_agree_sums(t1, t2, ids_v(inner@), k);
            lemma_agree_zips(t1, t2, ids_v(inner@), k);
            assert forall|i: int| 0 <= i < inner@.len() implies id_wok(t1, #[trigger] inner@[i].0, k) == id_wok(
                t2,
                inner@[i].0,
                k,
            ) && id_pok(t1, inner@[i].0, k) == id_pok(t2, inner@[i].0, k) by {
                lemma_same_at(t1, t2, k, inner@[i].0);
            }
        },
        Expr::Struct { inner } => {
            lemma_agree_sums(t1, t2, member_ids(inner@), k);
            lemma_agree_members(t1, t2, inner@, k);
            assert forall|i: int| 0 <= i < inner@.len() implies id_wok(t1, #[trigger] inner@[i].1.0, k) == id_wok(
                t2,
                inner@[i].1.0,
                k,
            ) && id_pok(t1, inner@[i].1.0, k) == id_pok(t2, inner@[i].1.0, k) by {
                lemma_same_at(t1, t2, k, inner@[i].1.0);
            }
        },
        Expr::Repeat { inner, .. } | Expr::Member { inner, .. } | Expr::Not { inner } | Expr::Concat { inner, .. }
        | Expr::Chunk { inner, .. } | Expr::Repr { inner } | Expr::MapElements { inner, .. } => {
            lemma_same_at(t1, t2, k, inner.0);
        },
        Expr::BinaryOp { lhs, rhs, .. } | Expr::Append { lhs, rhs, .. } => {
            lemma_same_at(t1, t2, k, lhs.0);
            lemma_same_at(t1, t2, k, rhs.0);
        },
        Expr::Fold { init, .. } => {
            lemma_same_at(t1, t2, k, init.0);
        },
        Expr::TreeFold { lhs, .. } => {
            lemma_same_at(t1, t2, k, lhs.0);
        },
        Expr::Clip { inner, .. } | Expr::SetElement { inner, .. } | Expr::SetRange { inner, .. } => {
            lemma_same_at(t1, t2, k, inner.0);
        },
        Expr::Cond { default, cond_expr_pair } => {
            lemma_same_at(t1, t2, k, default.0);
            assert forall|i: int| 0 <= i < cond_expr_pair@.len() implies {
                &&& id_wok(t1, #[trigger] cond_expr_pair@[i].0.0, k) == id_wok(t2, cond_expr_pair@[i].0.0, k)
                &&& id_wok(t1, cond_expr_pair@[i].1.0, k) == id_wok(t2, cond_expr_pair@[i].1.0, k)
                &&& id_width(t1, cond_expr_pair@[i].0.0, k) == id_width(t2, cond_expr_pair@[i].0.0, k)
                &&& id_width(t1, cond_expr_pair@[i].1.0, k) == id_width(t2, cond_expr_pair@[i].1.0, k)
            } by {
                lemma_same_at(t1, t2, k, cond_expr_pair@[i].0.0);
                lemma_same_at(t1, t2, k, cond_expr_pair@[i].1.0);
            }
        },
        Expr::Case { case_items, default, .. } => {
            if case_items@.len() > 0 {
                lemma_same_at(t1, t2, k, case_items@[0].1.0);
            }
            assert forall|i: int| 0 <= i < case_items@.len() implies {
                &&& id_wok(t1, #[trigger] case_items@[i].1.0, k) == id_wok(t2, case_items@[i].1.0, k)
                &&& id_pok(t1, case_items@[i].1.0, k) == id_pok(t2, case_items@[i].1.0, k)
                &&& id_width(t1, case_items@[i].1.0, k) == id_width(t2, case_items@[i].1.0, k)
                &&& id_pd(t1, case_items@[i].1.0, k) == id_pd(t2, case_items@[i].1.0, k)
            } by {
                lemma_same_at(t1, t2, k, case_items@[i].1.0);
            }
            match default {
                Some(d) => lemma_same_at(t1, t2, k, d.0),
                None => {},
            }
        },
        _ => {},
    }
}

/// The meaning of one index, from agreement at all of them.
proof fn lemma_same_at(t1: Seq<Expr>, t2: Seq<Expr>, k: nat, c: usize)
    requires
        same_ids(t1, t2, k),
    ensures
        id_width(t1, c, k) == id_width(t2, c, k),
        id_pd(t1, c, k) == id_pd(t2, c, k),
        id_wok(t1, c, k) == id_wok(t2, c, k),
        id_pok(t1, c, k) == id_pok(t2, c, k),
{
}

/// Expression `e`, whose operands are below `k` in table `t`, is well typed: a constant has as
/// many bits as its type is wide; the width of an array whose type is scaled by its number of
/// elements is a multiple of the element width (concatenation, clip, append), and a clipped
/// array is not empty; a map's length is the number of elements of its array; the width of a
/// binary operation or of the bits of a value fits in `usize`; and the operands whose types it
/// takes are well typed too.
pub open spec fn e_typed(t: Seq<Expr>, e: Expr, k: nat) -> bool
    decreases k, 1nat, 0nat,
{
    match e {
        Expr::Constant { bits, typ } => bits@.len() == pdv_width(typ@),
        Expr::Repeat { inner, .. } | Expr::Not { inner } | Expr::Chunk { inner, .. } | Expr::SetElement {
            inner,
            ..
        } | Expr::SetRange { inner, .. } => id_typed(t, inner.0, k),
        Expr::Fold { init, .. } => id_typed(t, init.0, k),
        Expr::TreeFold { lhs, .. } => id_typed(t, lhs.0, k),
        Expr::Cond { default, .. } => id_typed(t, default.0, k),
        Expr::Case { case_items, default, .. } => if case_items@.len() == 0 {
            match default {
                Some(d) => id_typed(t, d.0, k),
                None => true,
            }
        } else {
            id_typed(t, case_items@[0].1.0, k)
        },
        Expr::Struct { inner } => forall|i: int| 0 <= i < inner@.len() ==> id_typed(t, #[trigger] inner@[i].1.0, k),
        Expr::Zip { inner, .. } => forall|i: int| 0 <= i < inner@.len() ==> id_typed(t, #[trigger] inner@[i].0, k),
        Expr::Concat { inner, typ_elt } => id_width(t, inner.0, k) % pdv_width(typ_elt@) == 0,
        Expr::MapElements { inner, typ_elt, len, .. } => id_width(t, inner.0, k) / pdv_width(typ_elt@) == len,
        Expr::Clip { inner, typ_elt, .. } => id_typed(t, inner.0, k) && id_width(t, inner.0, k) > 0 && id_width(
            t,
            inner.0,
            k,
        ) % pdv_width(typ_elt@) == 0,
        Expr::Append { lhs, rhs, typ_elt } => (id_width(t, lhs.0, k) + id_width(t, rhs.0, k)) % pdv_width(typ_elt@)
            == 0,
        Expr::BinaryOp { .. } => e_width(t, e, k) <= usize::MAX,
        Expr::Repr { inner } => id_width(t, inner.0, k) <= usize::MAX,
        _ => true,
    }
}

/// The expression at index `c` of table `t`, below `k`, is well typed.
pub open spec fn id_typed(t: Seq<Expr>, c: usize, k: nat) -> bool
    decreases k, 0nat, 0nat,
{
    c < k && c < t.len() && e_typed(t, t[c as int], c as nat)
}

/// A shape of one dimension is as wide as that dimension.
proof fn lemma_shape_width_one(x: usize)
    ensures
        shape_width(seq![x]) == x,
{
    assert(seq![x].drop_last() =~= Seq::<usize>::empty());
    assert(seq![x].last() == x);
    let a = shape_width(seq![x].drop_last());
    assert(a == 1);
    assert(shape_width(seq![x]) == a * (x as nat));
    assert(a * (x as nat) == x) by (nonlinear_arith)
        requires
            a == 1,
    ;
}

/// The width of the expression at an index is that of its type.
proof fn lemma_id_typed_width(t: Seq<Expr>, c: usize, k: nat)
    requires
        id_wok(t, c, k),
        id_pok(t, c, k),
        id_typed(t, c, k),
    ensures
        pdv_width(id_pd(t, c, k)) == id_width(t, c, k),
    decreases k, 0nat, 0nat,
{
    lemma_typed_width(t, t[c as int], c as nat);
}

/// The widths of struct members add up to the width of the struct's type.
proof fn lemma_typed_members(t: Seq<Expr>, s: Seq<(Option<String>, ExprId)>, k: nat)
    requires
        forall|i: int|
            0 <= i < s.len() ==> id_wok(t, #[trigger] s[i].1.0, k) && id_pok(t, s[i].1.0, k) && id_typed(t, s[i].1.0, k),
    ensures
        crate::compiler::prelude::fieldsv_width(pd_members(t, s, k)) == sum_widths(t, member_ids(s), k),
    decreases k, 0nat, s.len() + 1,
{
    if s.len() > 0 {
        assert(s.last() == s[s.len() - 1]);
        lemma_typed_members(t, s.drop_last(), k);
        lemma_id_typed_width(t, s.last().1.0, k);
        assert(member_ids(s).drop_last() =~= member_ids(s.drop_last()));
        assert(member_ids(s).last() == s.last().1.0);
        let m = pd_members(t, s, k);
        assert(m.drop_last() =~= pd_members(t, s.drop_last(), k));
    }
}

/// The widths of zipped arrays add up to the width of the zip's type.
proof fn lemma_typed_zips(t: Seq<Expr>, ids: Seq<usize>, k: nat)
    requires
        forall|i: int| 0 <= i < ids.len() ==> id_wok(t, #[trigger] ids[i], k) && id_pok(t, ids[i], k) && id_typed(t, ids[i], k),
    ensures
        crate::compiler::prelude::fieldsv_width(zip_members(t, ids, k)) == sum_widths(t, ids, k),
    decreases k, 0nat, ids.len() + 1,
{
    if ids.len() > 0 {
        assert(ids.last() == ids[ids.len() - 1]);
        lemma_typed_zips(t, ids.drop_last(), k);
        lemma_id_typed_width(t, ids.last(), k);
        let m = zip_members(t, ids, k);
        assert(m.drop_last() =~= zip_members(t, ids.drop_last(), k));
    }
}

/// Law: the width of a well-typed expression whose width and type can be computed is the
/// width of its type.
#[verifier::spinoff_prover]
pub proof fn lemma_typed_width(t: Seq<Expr>, e: Expr, k: nat)
    requires
        e_wok(t, e, k),
        e_pok(t, e, k),
        e_typed(t, e, k),
    ensures
        pdv_width(e_pd(t, e, k)) == e_width(t, e, k),
    decreases k, 1nat, 0nat,
{
    match e {
        Expr::Repeat { inner, count } => {
            lemma_id_typed_width(t, inner.0, k);
            crate::compiler::prelude::lemma_multiple_width(id_pd(t, inner.0, k), count as nat);
            let l = id_width(t, inner.0, k);
            assert((count as nat) * l == l * (count as nat)) by (nonlinear_arith);
        },
        Expr::Not { inner } | Expr::Chunk { inner, .. } | Expr::SetElement { inner, .. } | Expr::SetRange {
            inner,
            ..
        } => {
            lemma_id_typed_width(t, inner.0, k);
        },
        Expr::Fold { init, .. } => {
            lemma_id_typed_width(t, init.0, k);
        },
        Expr::TreeFold { lhs, .. } => {
            lemma_id_typed_width(t, lhs.0, k);
        },
        Expr::Cond { default, .. } => {
            lemma_id_typed_width(t, default.0, k);
        },
        Expr::Case { case_items, default, .. } => {
            if case_items@.len() == 0 {
                match default {
                    Some(d) => lemma_id_typed_width(t, d.0, k),
                    None => {},
                }
            } else {
                assert(id_wok(t, case_items@[0].1.0, k));
                assert(id_pok(t, case_items@[0].1.0, k));
                lemma_id_typed_width(t, case_items@[0].1.0, k);
            }
        },
        Expr::Struct { inner } => {
            lemma_typed_members(t, inner@, k);
        },
        Expr::Zip { inner, .. } => {
            assert forall|i: int| 0 <= i < ids_v(inner@).len() implies id_wok(t, #[trigger] ids_v(inner@)[i], k)
                && id_pok(t, ids_v(inner@)[i], k) && id_typed(t, ids_v(inner@)[i], k) by {
                assert(ids_v(inner@)[i] == inner@[i].0);
            }
            lemma_typed_zips(t, ids_v(inner@), k);
        },
        Expr::Concat { inner, typ_elt } => {
            let l = id_width(t, inner.0, k);
            let w = pdv_width(typ_elt@);
            crate::compiler::prelude::lemma_multiple_width(typ_elt@, l / w);
            assert((l / w) * w == l) by (nonlinear_arith)
                requires
                    w > 0,
                    l % w == 0,
            ;
        },
        Expr::MapElements { inner, typ_elt, func_ret_typ, len, .. } => {
            crate::compiler::prelude::lemma_multiple_width(func_ret_typ@, len as nat);
            let a = len as nat;
            let b = pdv_width(func_ret_typ@);
            assert(a * b == a * b);
        },
        Expr::Clip { inner, typ_elt, size, .. } => {
            lemma_id_typed_width(t, inner.0, k);
            let p = id_pd(t, inner.0, k);
            let l = id_width(t, inner.0, k);
            let w = pdv_width(typ_elt@);
            let n = l / w;
            crate::compiler::prelude::lemma_divide_width(p, n);
            let d = pdv_scale(p, n, false);
            crate::compiler::prelude::lemma_multiple_width(d, size as nat);
            assert(n > 0) by (nonlinear_arith)
                requires
                    w > 0,
                    l > 0,
                    l % w == 0,
                    n == l / w,
            ;
            assert(pdv_width(d) == w) by (nonlinear_arith)
                requires
                    w > 0,
                    l % w == 0,
                    n == l / w,
                    n > 0,
                    pdv_width(d) * n == l,
            ;
            assert((size as nat) * w == w * (size as nat)) by (nonlinear_arith);
        },
        Expr::Append { lhs, rhs, typ_elt } => {
            let m = id_width(t, lhs.0, k) + id_width(t, rhs.0, k);
            let w = pdv_width(typ_elt@);
            crate::compiler::prelude::lemma_multiple_width(typ_elt@, (m / w) as nat);
            assert((m / w) * w == m) by (nonlinear_arith)
                requires
                    w > 0,
                    m % w == 0,
            ;
        },
        Expr::ConcatArray { inner, elt_typ } => {
            crate::compiler::prelude::lemma_multiple_width(elt_typ@, inner@.len());
            let a = inner@.len();
            let b = pdv_width(elt_typ@);
            assert(a * b == b * a) by (nonlinear_arith);
        },
        Expr::Range { len, typ_elt } => {
            crate::compiler::prelude::lemma_multiple_width(typ_elt@, len as nat);
            let a = len as nat;
            let b = pdv_width(typ_elt@);
            assert(a * b == b * a) by (nonlinear_arith);
        },
        Expr::BinaryOp { .. } => {
            let w = e_width(t, e, k);
            lemma_shape_width_one(w as usize);
            assert(pdv_width(e_pd(t, e, k)) == e_width(t, e, k));
        },
        Expr::Repr { inner } => {
            let r = id_width(t, inner.0, k);
            lemma_shape_width_one(r as usize);
            assert(pdv_width(e_pd(t, e, k)) == e_width(t, e, k));
        },
        Expr::Member { .. } => {
            assert(pdv_width(e_pd(t, e, k)) == e_width(t, e, k));
        },
        Expr::Constant { .. } => {
            assert(pdv_width(e_pd(t, e, k)) == e_width(t, e, k));
        },
        Expr::Get { .. } => {
            assert(pdv_width(e_pd(t, e, k)) == e_width(t, e, k));
        },
        Expr::Cast { .. } => {
            assert(pdv_width(e_pd(t, e, k)) == e_width(t, e, k));
        },
        _ => {},
    }
}

/// Law: the result of an arithmetic or bitwise operation is signed exactly when both
/// operands are.
pub proof fn lemma_arith_signedness(t: Seq<Expr>, op: BinaryOp, lhs: ExprId, rhs: ExprId, k: nat)
    requires
        op is Add || op is Sub || op is Mul || op is Div || op is Mod || op is Or || op is And || op is Xor,
    ensures
        pdv_signed(e_pd(t, Expr::BinaryOp { op, lhs, rhs }, k)) == (pdv_signed(id_pd(t, lhs.0, k)) && pdv_signed(
            id_pd(t, rhs.0, k),
        )),
{
}

/// Law: the result of a comparison is unsigned, whatever its operands.
pub proof fn lemma_comparison_unsigned(t: Seq<Expr>, op: BinaryOp, lhs: ExprId, rhs: ExprId, k: nat)
    requires
        op is NeStrict || op is Eq || op is Less || op is Greater || op is LessEq || op is GreaterEq
            || op is EqArithmetic || op is NeArithmetic,
    ensures
        !pdv_signed(e_pd(t, Expr::BinaryOp { op, lhs, rhs }, k)),
{
}

/// Law: the bits of a value are unsigned, whatever the value's type.
pub proof fn lemma_repr_unsigned(t: Seq<Expr>, inner: ExprId, k: nat)
    ensures
        !pdv_signed(e_pd(t, Expr::Repr { inner }, k)),
{
}

/// Law: the index at which an expression is appended gives it back, and every earlier
/// index keeps its expression.
pub proof fn lemma_push_get(t: Seq<Expr>, x: Expr)
    ensures
        t.push(x)[t.len() as int] == x,
        forall|i: int| 0 <= i < t.len() ==> #[trigger] t.push(x)[i] == t[i],
{
}

/// Law: appending an expression to a table keeps the width and type of every expression
/// whose operands were already in the table, and whether they can be computed.
pub proof fn lemma_push_keeps_meaning(t: Seq<Expr>, x: Expr, e: Expr)
    ensures
        e_width(t.push(x), e, t.len()) == e_width(t, e, t.len()),
        e_pd(t.push(x), e, t.len()) == e_pd(t, e, t.len()),
        e_wok(t.push(x), e, t.len()) == e_wok(t, e, t.len()),
        e_pok(t.push(x), e, t.len()) == e_pok(t, e, t.len()),
{
    lemma_agree_exprs(t.push(x), t, t.len(), e);
}

/// Partial sums of widths are bounded by the whole sum.
proof fn lemma_sum_widths_prefix(t: Seq<Expr>, ids: Seq<usize>, j: int, k: nat)
    requires
        0 <= j <= ids.len(),
    ensures
        sum_widths(t, ids.take(j), k) <= sum_widths(t, ids, k),
    decreases ids.len(),
{
    if j == ids.len() {
        assert(ids.take(j) =~= ids);
    } else {
        lemma_sum_widths_prefix(t, ids.drop_last(), j, k);
        assert(ids.drop_last().take(j) =~= ids.take(j));
    }
}

/// Indices of the given expressions.
fn ids_of(inner: &Vec<ExprId>) -> (r: Vec<usize>)
    ensures
        r@ == ids_v(inner@),
{
    let mut r: Vec<usize> = Vec::new();
    let mut i: usize = 0;
    while i < inner.len()
        invariant
            i <= inner@.len(),
            r@ == ids_v(inner@.take(i as int)),
        decreases inner@.len() - i,
    {
        r.push(inner[i].0);
        i = i + 1;
        assert(ids_v(inner@.take(i as int)) =~= ids_v(inner@.take(i - 1)).push(inner@[i - 1].0));
    }
    assert(inner@.take(inner@.len() as int) =~= inner@);
    r
}

/// Indices of the members of a struct.
fn member_ids_of(inner: &Vec<(Option<String>, ExprId)>) -> (r: Vec<usize>)
    ensures
        r@ == member_ids(inner@),
{
    let mut r: Vec<usize> = Vec::new();
    let mut i: usize = 0;
    while i < inner.len()
        invariant
            i <= inner@.len(),
            r@ == member_ids(inner@.take(i as int)),
        decreases inner@.len() - i,
    {
        r.push(inner[i].1.0);
        i = i + 1;
        assert(member_ids(inner@.take(i as int)) =~= member_ids(inner@.take(i - 1)).push(inner@[i - 1].1.0));
    }
    assert(inner@.take(inner@.len() as int) =~= inner@);
    r
}

/// Sum of the widths of the expressions at the given indices of table `t`.
fn sum_widths_exec(t: &Vec<Expr>, ids: &Vec<usize>, Ghost(k): Ghost<nat>) -> (r: usize)
    requires
        forall|i: int| 0 <= i < ids@.len() ==> id_wok(t@, #[trigger] ids@[i], k),
        sum_widths(t@, ids@, k) <= usize::MAX,
    ensures
        r == sum_widths(t@, ids@, k),
    decreases k, 0nat, ids@.len() + 1,
{
    let mut sum: usize = 0;
    let mut i: usize = 0;
    while i < ids.len()
        invariant
            i <= ids@.len(),
            forall|j: int| 0 <= j < ids@.len() ==> id_wok(t@, #[trigger] ids@[j], k),
            sum_widths(t@, ids@, k) <= usize::MAX,
            sum == sum_widths(t@, ids@.take(i as int), k),
        decreases ids@.len() - i,
    {
        proof {
            lemma_sum_widths_prefix(t@, ids@, i as int + 1, k);
            assert(ids@.take(i as int + 1).drop_last() =~= ids@.take(i as int));
        }
        let w = width_at(t, ids[i], Ghost(k));
        sum = sum + w;
        i = i + 1;
    }
    assert(ids@.take(ids@.len() as int) =~= ids@);
    sum
}

/// Width of the expression at index `c` of table `t`.
fn width_at(t: &Vec<Expr>, c: usize, Ghost(k): Ghost<nat>) -> (r: usize)
    requires
        id_wok(t@, c, k),
    ensures
        r == id_width(t@, c, k),
    decreases k, 0nat, 0nat,
{
    width_in(t, &t[c], Ghost(c as nat))
}

/// Type of the expression at index `c` of table `t`.
fn pd_at(t: &Vec<Expr>, c: usize, Ghost(k): Ghost<nat>) -> (r: PortDecls)
    requires
        id_pok(t@, c, k),
    ensures
        r@ == id_pd(t@, c, k),
    decreases k, 0nat, 0nat,
{
    pd_in(t, &t[c], Ghost(c as nat))
}

/// Width of expression `e`, whose operands are below `k` in table `t`.
fn width_in(t: &Vec<Expr>, e: &Expr, Ghost(k): Ghost<nat>) -> (r: usize)
    requires
        e_wok(t@, *e, k),
    ensures
        r == e_width(t@, *e, k),
    decreases k, 1nat, 0nat,
{
    match e {
        Expr::X { typ } | Expr::Var { typ, .. } => typ.width(),
        Expr::Constant { bits, .. } => bits.len(),
        Expr::BinaryOp { op, lhs, rhs } => match op {
            BinaryOp::And | BinaryOp::Or | BinaryOp::Xor | BinaryOp::Sub | BinaryOp::ShiftRight
            | BinaryOp::ShiftLeft | BinaryOp::Div => width_at(t, lhs.0, Ghost(k)),
            BinaryOp::Add => {
                let l = width_at(t, lhs.0, Ghost(k));
                let _r = width_at(t, rhs.0, Ghost(k));
                l + 1
            },
            BinaryOp::Mul => width_at(t, lhs.0, Ghost(k)) + width_at(t, rhs.0, Ghost(k)),
            BinaryOp::Mod => width_at(t, rhs.0, Ghost(k)),
            BinaryOp::EqArithmetic | BinaryOp::NeArithmetic | BinaryOp::Less | BinaryOp::Greater
            | BinaryOp::LessEq | BinaryOp::GreaterEq => {
                let _l = width_at(t, lhs.0, Ghost(k));
                let _r = width_at(t, rhs.0, Ghost(k));
                1
            },
            BinaryOp::Eq | BinaryOp::NeStrict => {
                proof {
                    assert(false);
                }
                0
            },
        },
        Expr::Member { inner, index } => {
            let p = pd_at(t, inner.0, Ghost(k));
            match p {
                PortDecls::Struct(f) => {
                    proof {
                        lemma_fields_view(f@);
                    }
                    f[*index].1.width()
                },
                PortDecls::Bits(_) => {
                    proof {
                        assert(false);
                    }
                    0
                },
            }
        },
        Expr::Concat { inner, .. } | Expr::Chunk { inner, .. } | Expr::Not { inner } | Expr::Repr { inner }
        | Expr::SetElement { inner, .. } | Expr::SetRange { inner, .. } => width_at(t, inner.0, Ghost(k)),
        Expr::MapElements { inner, typ_elt, func_ret_typ, .. } => {
            let l = width_at(t, inner.0, Ghost(k));
            let w = typ_elt.width();
            (l / w) * func_ret_typ.width()
        },
        Expr::Repeat { inner, count } => width_at(t, inner.0, Ghost(k)) * *count,
        Expr::Cond { default, .. } => width_at(t, default.0, Ghost(k)),
        Expr::Get { typ_elt, .. } => typ_elt.width(),
        Expr::Clip { size, typ_elt, .. } => typ_elt.width() * *size,
        Expr::Append { lhs, rhs, .. } => width_at(t, lhs.0, Ghost(k)) + width_at(t, rhs.0, Ghost(k)),
        Expr::Zip { inner, .. } => {
            let ids = ids_of(inner);
            sum_widths_exec(t, &ids, Ghost(k))
        },
        Expr::Struct { inner } => {
            let ids = member_ids_of(inner);
            sum_widths_exec(t, &ids, Ghost(k))
        },
        Expr::Fold { init, .. } => width_at(t, init.0, Ghost(k)),
        Expr::TreeFold { lhs, .. } => width_at(t, lhs.0, Ghost(k)),
        Expr::Case { case_items, default, .. } => {
            if case_items.len() == 0 {
                match default {
                    Some(d) => width_at(t, d.0, Ghost(k)),
                    None => {
                        proof {
                            assert(false);
                        }
                        0
                    },
                }
            } else {
                width_at(t, case_items[0].1.0, Ghost(k))
            }
        },
        Expr::ConcatArray { inner, elt_typ } => elt_typ.width() * inner.len(),
        Expr::Range { len, typ_elt } => typ_elt.width() * *len,
        Expr::Cast { to, .. } => to.width(),
    }
}

/// Copy of an optional name.
fn clone_name(n: &Option<String>) -> (r: Option<String>)
    ensures
        opt_view(r) == opt_view(*n),
{
    match n {
        Some(s) => Some(s.clone()),
        None => None,
    }
}

/// Type of expression `e`, whose operands are below `k` in table `t`.
fn pd_in(t: &Vec<Expr>, e: &Expr, Ghost(k): Ghost<nat>) -> (r: PortDecls)
    requires
        e_pok(t@, *e, k),
    ensures
        r@ == e_pd(t@, *e, k),
    decreases k, 2nat, 0nat,
{
    match e {
        Expr::X { typ } | Expr::Constant { typ, .. } | Expr::Var { typ, .. } => typ.clone(),
        Expr::Repeat { inner, count } => pd_at(t, inner.0, Ghost(k)).multiple(*count),
        Expr::Member { inner, index } => {
            let p = pd_at(t, inner.0, Ghost(k));
            match p {
                PortDecls::Struct(f) => {
                    proof {
                        lemma_fields_view(f@);
                    }
                    f[*index].1.clone()
                },
                PortDecls::Bits(_) => {
                    proof {
                        assert(false);
                    }
                    p
                },
            }
        },
        Expr::Struct { inner } => {
            let mut out: Vec<(Option<String>, PortDecls)> = Vec::new();
            let mut i: usize = 0;
            while i < inner.len()
                invariant
                    forall|j: int| 0 <= j < inner@.len() ==> id_pok(t@, #[trigger] inner@[j].1.0, k),
                    i <= inner@.len(),
                    fields_view(out@) == pd_members(t@, inner@.take(i as int), k),
                decreases inner@.len() - i,
            {
                let name = clone_name(&inner[i].0);
                let p = pd_at(t, inner[i].1.0, Ghost(k));
                let ghost prev = out@;
                out.push((name, p));
                proof {
                    assert(out@.drop_last() =~= prev);
                    assert(inner@.take(i as int + 1).drop_last() =~= inner@.take(i as int));
                }
                i = i + 1;
            }
            assert(inner@.take(inner@.len() as int) =~= inner@);
            PortDecls::Struct(out)
        },
        Expr::BinaryOp { op, lhs, rhs } => {
            let lt = pd_at(t, lhs.0, Ghost(k));
            let rt = pd_at(t, rhs.0, Ghost(k));
            let w = width_in(t, e, Ghost(k));
            match op {
                BinaryOp::Add | BinaryOp::Sub | BinaryOp::Div | BinaryOp::Mod | BinaryOp::Or | BinaryOp::And
                | BinaryOp::Xor | BinaryOp::Mul => {
                    if lt.is_signed() && rt.is_signed() {
                        PortDecls::signed_bits(w)
                    } else {
                        PortDecls::unsigned_bits(w)
                    }
                },
                BinaryOp::ShiftRight | BinaryOp::ShiftLeft => {
                    if lt.is_signed() {
                        PortDecls::signed_bits(w)
                    } else {
                        PortDecls::unsigned_bits(w)
                    }
                },
                _ => PortDecls::unsigned_bits(w),
            }
        },
        Expr::Chunk { inner, .. } | Expr::Not { inner } | Expr::SetElement { inner, .. } | Expr::SetRange {
            inner,
            ..
        } => pd_at(t, inner.0, Ghost(k)),
        Expr::Fold { init, .. } => pd_at(t, init.0, Ghost(k)),
        Expr::TreeFold { lhs, .. } => pd_at(t, lhs.0, Ghost(k)),
        Expr::Clip { inner, typ_elt, size, .. } => {
            let p = pd_at(t, inner.0, Ghost(k));
            let n = width_at(t, inner.0, Ghost(k)) / typ_elt.width();
            p.divide(n).multiple(*size)
        },
        Expr::Append { lhs, rhs, typ_elt } => {
            let n = width_at(t, lhs.0, Ghost(k)) + width_at(t, rhs.0, Ghost(k));
            typ_elt.multiple(n / typ_elt.width())
        },
        Expr::Get { typ_elt, .. } => typ_elt.clone(),
        Expr::Repr { inner } => PortDecls::unsigned_bits(width_at(t, inner.0, Ghost(k))),
        Expr::MapElements { func_ret_typ, len, .. } => func_ret_typ.multiple(*len),
        Expr::Zip { inner, .. } => {
            let mut out: Vec<(Option<String>, PortDecls)> = Vec::new();
            let mut i: usize = 0;
            while i < inner.len()
                invariant
                    forall|j: int| 0 <= j < inner@.len() ==> id_pok(t@, #[trigger] inner@[j].0, k),
                    i <= inner@.len(),
                    fields_view(out@) == zip_members(t@, ids_v(inner@).take(i as int), k),
                decreases inner@.len() - i,
            {
                let name = usize_to_string(i);
                let p = pd_at(t, inner[i].0, Ghost(k));
                let ghost prev = out@;
                out.push((Some(name), p));
                proof {
                    assert(out@.drop_last() =~= prev);
                    assert(ids_v(inner@).take(i as int + 1).drop_last() =~= ids_v(inner@).take(i as int));
                }
                i = i + 1;
            }
            assert(ids_v(inner@).take(inner@.len() as int) =~= ids_v(inner@));
            PortDecls::Struct(out)
        },
        Expr::Concat { inner, typ_elt } => {
            let n = width_at(t, inner.0, Ghost(k)) / typ_elt.width();
            typ_elt.multiple(n)
        },
        Expr::Cond { default, .. } => pd_at(t, default.0, Ghost(k)),
        Expr::Case { case_items, default, .. } => {
            if case_items.len() == 0 {
                match default {
                    Some(d) => pd_at(t, d.0, Ghost(k)),
                    None => {
                        proof {
                            assert(false);
                        }
                        PortDecls::unsigned_bits(0)
                    },
                }
            } else {
                pd_at(t, case_items[0].1.0, Ghost(k))
            }
        },
        Expr::ConcatArray { inner, elt_typ } => elt_typ.multiple(inner.len()),
        Expr::Range { len, typ_elt } => typ_elt.multiple(*len),
        Expr::Cast { to, .. } => PortDecls::Bits(to.clone()),
    }
}

impl ExprTable {
    /// An empty table.
    pub fn new() -> (r: Self)
        ensures
            r.exprs@ == Seq::<Expr>::empty(),
    {
        ExprTable { exprs: Vec::new() }
    }

    /// Appends `expr` to the table and returns its id.
    pub fn push(&mut self, expr: Expr) -> (r: ExprId)
        ensures
            r.0 == old(self).exprs@.len(),
            final(self).exprs@ == old(self).exprs@.push(expr),
    {
        let id = self.exprs.len();
        self.exprs.push(expr);
        ExprId(id)
    }

    /// The expression with the given id.
    pub fn get(&self, id: ExprId) -> (r: &Expr)
        requires
            id.0 < self.exprs@.len(),
        ensures
            *r == self.exprs@[id.0 as int],
    {
        &self.exprs[id.0]
    }

    /// Member `index` of the struct with the given id.
    pub fn member(&self, id: ExprId, index: usize) -> (r: Expr)
        requires
            id_pok(self.exprs@, id.0, self.exprs@.len()),
            match id_pd(self.exprs@, id.0, self.exprs@.len()) {
                PortDeclsView::Struct(f) => index < f.len(),
                PortDeclsView::Bits(_) => false,
            },
        ensures
            r == (Expr::Member { inner: id, index }),
    {
        let _typ = pd_at(&self.exprs, id.0, Ghost(self.exprs@.len()));
        Expr::Member { inner: id, index }
    }
}

impl Expr {
    /// Tuple of the given expressions, its members named by their positions.
    pub fn tuple(args: Vec<ExprId>) -> (r: Self)
        ensures
            r matches Expr::Struct { inner } && inner@.len() == args@.len() && forall|i: int|
                0 <= i < args@.len() ==> #[trigger] inner@[i] == (Some(inner@[i].0->Some_0), args@[i]) && inner@[i].0->Some_0@
                    == nat_to_decimal(i as nat),
    {
        let mut inner: Vec<(Option<String>, ExprId)> = Vec::new();
        let mut i: usize = 0;
        while i < args.len()
            invariant
                i <= args@.len(),
                inner@.len() == i,
                forall|j: int|
                    0 <= j < i ==> #[trigger] inner@[j] == (Some(inner@[j].0->Some_0), args@[j]) && inner@[j].0->Some_0@
                        == nat_to_decimal(j as nat),
            decreases args@.len() - i,
        {
            inner.push((Some(usize_to_string(i)), args[i]));
            i = i + 1;
        }
        Expr::Struct { inner }
    }
}

impl Expr {
    /// Variable of the given type.
    pub fn input(name: Option<String>, typ: PortDecls) -> (r: Self)
        ensures
            r == (Expr::Var { name, typ }),
    {
        Expr::Var { name, typ }
    }

    /// Unsigned constant `value` of `len` bits.
    pub fn unsigned_bits(len: usize, value: usize) -> (r: Self)
        requires
            value < usize::MAX,
            len >= clog2_spec(value as nat + 1),
        ensures
            r matches Expr::Constant { bits, typ } && bits@ == low_bits_spec(len as nat, value as nat) && typ@
                == bits_v(len as nat, false),
    {
        let bits = usize_to_bitvec(len, value);
        Expr::Constant { bits, typ: PortDecls::unsigned_bits(len) }
    }

    /// Signed constant `value` of `len` bits.
    pub fn signed_bits(len: usize, value: usize) -> (r: Self)
        requires
            value < usize::MAX,
            len >= clog2_spec(value as nat + 1),
        ensures
            r matches Expr::Constant { bits, typ } && bits@ == low_bits_spec(len as nat, value as nat) && typ@
                == bits_v(len as nat, true),
    {
        let bits = usize_to_bitvec(len, value);
        Expr::Constant { bits, typ: PortDecls::signed_bits(len) }
    }

    /// Width of the expression, whose operands are in `table`.
    pub fn width(&self, table: &ExprTable) -> (r: usize)
        requires
            e_wok(table.exprs@, *self, table.exprs@.len()),
        ensures
            r == e_width(table.exprs@, *self, table.exprs@.len()),
    {
        width_in(&table.exprs, self, Ghost(table.exprs@.len()))
    }

    /// An array of `from_width` elements resized to `to_width` elements: padded at the end
    /// with zero elements, or clipped to its first `to_width` elements. The expressions
    /// this needs are appended to `table`.
    pub fn resize(from: ExprId, from_width: usize, to_width: usize, table: &mut ExprTable) -> (r: ExprId)
        requires
            id_pok(old(table).exprs@, from.0, old(table).exprs@.len()),
            pdv_scalable(id_pd(old(table).exprs@, from.0, old(table).exprs@.len()), from_width as nat, false),
            from_width < to_width ==> pdv_fits(
                pdv_scale(id_pd(old(table).exprs@, from.0, old(table).exprs@.len()), from_width as nat, false),
            ),
        ensures
            ({
                let t0 = old(table).exprs@;
                let t1 = final(table).exprs@;
                let n = t0.len() as int;
                let te = pdv_scale(id_pd(t0, from.0, t0.len()), from_width as nat, false);
                &&& from_width == to_width ==> r == from && t1 == t0
                &&& from_width < to_width ==> {
                    &&& t1.len() == n + 3 && t1.take(n) == t0 && r.0 == n + 2
                    &&& t1[n] matches Expr::Constant { bits, typ } && bits@ == low_bits_spec(pdv_width(te), 0)
                        && typ@ == bits_v(pdv_width(te), false)
                    &&& t1[n + 1] matches Expr::Repeat { inner, count } && inner.0 == n && count == to_width
                        - from_width
                    &&& t1[n + 2] matches Expr::Append { lhs, rhs, typ_elt } && lhs == from && rhs.0 == n + 1
                        && typ_elt@ == te
                }
                &&& from_width > to_width ==> {
                    &&& t1.len() == n + 2 && t1.take(n) == t0 && r.0 == n + 1
                    &&& t1[n] matches Expr::Constant { bits, typ } && bits@ == low_bits_spec(
                        clog2_spec(from_width as nat),
                        0,
                    ) && typ@ == bits_v(clog2_spec(from_width as nat), false)
                    &&& t1[n + 1] matches Expr::Clip { inner, typ_elt, from: start, size } && inner == from
                        && typ_elt@ == te && start.0 == n && size == to_width
                }
            }),
    {
        let ghost t0 = table.exprs@;
        let typ_elt = pd_at(&table.exprs, from.0, Ghost(table.exprs@.len())).divide(from_width);
        if from_width < to_width {
            let zero = table.push(Expr::unsigned_bits(typ_elt.width(), 0));
            let extra = table.push(Expr::Repeat { inner: zero, count: to_width - from_width });
            let r = table.push(Expr::Append { lhs: from, rhs: extra, typ_elt });
            assert(table.exprs@.take(t0.len() as int) =~= t0);
            r
        } else if from_width == to_width {
            from
        } else {
            let zero = table.push(Expr::unsigned_bits(clog2(from_width), 0));
            let r = table.push(Expr::Clip { inner: from, typ_elt, from: zero, size: to_width });
            assert(table.exprs@.take(t0.len() as int) =~= t0);
            r
        }
    }

    /// Type of the expression, whose operands are in `table`.
    pub fn port_decls(&self, table: &ExprTable) -> (r: PortDecls)
        requires
            e_pok(table.exprs@, *self, table.exprs@.len()),
        ensures
            r@ == e_pd(table.exprs@, *self, table.exprs@.len()),
    {
        pd_in(&table.exprs, self, Ghost(table.exprs@.len()))
    }
}

} // verus!
