//! Compiler's prelude: shapes and port declarations of hardware values.

use std::collections::VecDeque;

use vstd::prelude::*;

use crate::utils::math::{clog2, clog2_spec};
use crate::utils::string::{join2, join_two, opt_view};

verus! {

/// Product of the dimensions of a shape.
pub open spec fn shape_width(dims: Seq<usize>) -> nat
    decreases dims.len(),
{
    if dims.len() == 0 {
        1
    } else {
        shape_width(dims.drop_last()) * (dims.last() as nat)
    }
}

/// Every partial product of the dimensions fits in a `usize`, so computing the
/// width does not overflow.
pub open spec fn shape_fits(dims: Seq<usize>) -> bool
    decreases dims.len(),
{
    if dims.len() == 0 {
        true
    } else {
        shape_fits(dims.drop_last()) && shape_width(dims) <= usize::MAX
    }
}

/// Shape of an array.
#[derive(Debug, PartialEq, Eq, Hash)]
pub struct Shape {
    /// Dimensions, outermost first.
    pub inner: VecDeque<usize>,

    /// Signedness.
    pub is_signed: bool,
}

/// Mathematical value of a shape.
pub struct ShapeView {
    /// Dimensions, outermost first.
    pub dims: Seq<usize>,

    /// Signedness.
    pub is_signed: bool,
}

impl View for Shape {
    type V = ShapeView;

    open spec fn view(&self) -> ShapeView {
        ShapeView { dims: self.inner@, is_signed: self.is_signed }
    }
}

impl Clone for Shape {
    fn clone(&self) -> (r: Self)
        ensures
            r@ == self@,
    {
        let inner = self.inner.clone();
        proof {
            assert(inner@ =~= self.inner@);
        }
        Shape { inner, is_signed: self.is_signed }
    }
}

impl Shape {
    /// Creates new shape.
    pub fn new(dims: Vec<usize>, is_signed: bool) -> (r: Self)
        ensures
            r@.dims == dims@,
            r@.is_signed == is_signed,
    {
        let mut inner: VecDeque<usize> = VecDeque::new();
        let mut i: usize = 0;
        while i < dims.len()
            invariant
                i <= dims@.len(),
                inner@ == dims@.take(i as int),
            decreases dims@.len() - i,
        {
            inner.push_back(dims[i]);
            proof {
                assert(dims@.take(i as int + 1) =~= dims@.take(i as int).push(dims@[i as int]));
            }
            i = i + 1;
        }
        assert(dims@.take(dims@.len() as int) =~= dims@);
        Self { inner, is_signed }
    }

    /// Returns dimension of array.
    pub fn dim(&self) -> (r: usize)
        ensures
            r == self@.dims.len(),
    {
        self.inner.len()
    }

    /// Returns number of elements in array.
    pub fn width(&self) -> (r: usize)
        requires
            shape_fits(self@.dims),
        ensures
            r == shape_width(self@.dims),
    {
        let mut prod: usize = 1;
        let mut i: usize = 0;
        while i < self.inner.len()
            invariant
                i <= self@.dims.len(),
                shape_fits(self@.dims),
                prod == shape_width(self@.dims.take(i as int)),
            decreases self@.dims.len() - i,
        {
            proof {
                let d = self@.dims;
                assert(d.take(i as int + 1).drop_last() =~= d.take(i as int));
                lemma_shape_fits_prefix(d, i as int + 1);
            }
            prod = prod * self.inner[i];
            i = i + 1;
        }
        assert(self@.dims.take(self@.dims.len() as int) =~= self@.dims);
        prod
    }

    /// Returns the size of dimension `index`.
    pub fn get(&self, index: usize) -> (r: usize)
        requires
            index < self@.dims.len(),
        ensures
            r == self@.dims[index as int],
    {
        self.inner[index]
    }

    /// Multiplies the outermost dimension by `n`.
    pub fn multiple(&self, n: usize) -> (r: Self)
        requires
            self@.dims.len() > 0,
            self@.dims[0] * n <= usize::MAX,
        ensures
            r@.dims == self@.dims.update(0, (self@.dims[0] * n) as usize),
            r@.is_signed == self@.is_signed,
    {
        let mut inner = self.inner.clone();
        proof {
            assert(inner@ =~= self.inner@);
        }
        let front = inner.pop_front().unwrap();
        inner.push_front(front * n);
        proof {
            assert(inner@ =~= self@.dims.update(0, (self@.dims[0] * n) as usize));
        }
        Self { inner, is_signed: self.is_signed }
    }

    /// Divides the outermost dimension by `n`, which must divide it.
    pub fn divide(&self, n: usize) -> (r: Self)
        requires
            self@.dims.len() > 0,
            n > 0,
            self@.dims[0] % n == 0,
        ensures
            r@.dims == self@.dims.update(0, (self@.dims[0] / n) as usize),
            r@.is_signed == self@.is_signed,
    {
        let mut inner = self.inner.clone();
        proof {
            assert(inner@ =~= self.inner@);
        }
        let front = inner.pop_front().unwrap();
        inner.push_front(front / n);
        proof {
            assert(inner@ =~= self@.dims.update(0, (self@.dims[0] / n) as usize));
        }
        Self { inner, is_signed: self.is_signed }
    }

    /// Returns signedness of the type.
    pub fn is_signed(&self) -> (r: bool)
        ensures
            r == self@.is_signed,
    {
        self.is_signed
    }

    /// Whether the shape holds no element, that is, whether some dimension is zero.
    pub fn is_empty(&self) -> (r: bool)
        ensures
            r == (shape_width(self@.dims) == 0),
    {
        let mut i: usize = 0;
        while i < self.inner.len()
            invariant
                i <= self@.dims.len(),
                shape_width(self@.dims.take(i as int)) > 0,
            decreases self@.dims.len() - i,
        {
            proof {
                assert(self@.dims.take(i as int + 1).drop_last() =~= self@.dims.take(i as int));
            }
            if self.inner[i] == 0 {
                proof {
                    lemma_shape_width_zero(self@.dims, i as int);
                }
                return true;
            }
            proof {
                vstd::arithmetic::mul::lemma_mul_strictly_positive(
                    shape_width(self@.dims.take(i as int)) as int,
                    self@.dims[i as int] as int,
                );
            }
            i = i + 1;
        }
        assert(self@.dims.take(self@.dims.len() as int) =~= self@.dims);
        false
    }
}

/// Multiplication and division of the outermost dimension undo each other.
pub proof fn lemma_shape_multiple_divide(dims: Seq<usize>, n: usize)
    requires
        dims.len() > 0,
        n > 0,
        dims[0] * n <= usize::MAX,
    ensures
        dims.update(0, (dims[0] * n) as usize).update(0, ((dims[0] * n) as usize / n) as usize) == dims,
        ((dims[0] * n) as usize) % n == 0,
{
    vstd::arithmetic::div_mod::lemma_div_multiples_vanish(dims[0] as int, n as int);
    vstd::arithmetic::div_mod::lemma_mod_multiples_basic(dims[0] as int, n as int);
    vstd::arithmetic::mul::lemma_mul_is_commutative(dims[0] as int, n as int);
    assert(dims.update(0, (dims[0] * n) as usize).update(0, ((dims[0] * n) as usize / n) as usize) =~= dims);
}

/// A shape whose partial products fit has prefixes whose partial products fit.
pub proof fn lemma_shape_fits_prefix(dims: Seq<usize>, k: int)
    requires
        shape_fits(dims),
        0 <= k <= dims.len(),
    ensures
        shape_fits(dims.take(k)),
        shape_width(dims.take(k)) <= usize::MAX,
    decreases dims.len(),
{
    if k < dims.len() {
        assert(dims.drop_last().take(k) =~= dims.take(k));
        lemma_shape_fits_prefix(dims.drop_last(), k);
    } else {
        assert(dims.take(k) =~= dims);
        if dims.len() == 0 {
        }
    }
}

/// A zero dimension makes the width of every longer prefix zero.
proof fn lemma_shape_width_zero(dims: Seq<usize>, i: int)
    requires
        0 <= i < dims.len(),
        dims[i] == 0,
    ensures
        shape_width(dims) == 0,
    decreases dims.len(),
{
    let w = shape_width(dims.drop_last());
    if i < dims.len() - 1 {
        lemma_shape_width_zero(dims.drop_last(), i);
        assert(0 * (dims.last() as nat) == 0) by (nonlinear_arith);
    } else {
        assert(w * 0 == 0) by (nonlinear_arith);
    }
}

/// Indicates how the discriminant of enum variants should be encoded.
#[derive(Debug, Clone, Copy, PartialEq, Eq)]
pub enum EnumEncodingTy {
    /// Decimal encoding: `clog2(N)` bits for `N` variants.
    Decimal,

    /// One-hot encoding: `N` bits for `N` variants.
    OneHot,

    /// Grey encoding.
    Grey,
}

impl Default for EnumEncodingTy {
    fn default() -> (r: Self)
        ensures
            r == EnumEncodingTy::Decimal,
    {
        EnumEncodingTy::Decimal
    }
}

/// Value type.
#[derive(Debug, PartialEq, Eq, Hash)]
pub enum PortDecls {
    /// Collection of channels.
    Struct(Vec<(Option<String>, PortDecls)>),

    /// Single channel which contains its width.
    Bits(Shape),
}

/// Mathematical value of a value type.
pub enum PortDeclsView {
    /// Named members.
    Struct(Seq<(Option<Seq<char>>, PortDeclsView)>),

    /// Primitive bits.
    Bits(ShapeView),
}

/// View of a value type.
pub open spec fn pd_view(p: PortDecls) -> PortDeclsView
    decreases p,
{
    match p {
        PortDecls::Struct(v) => PortDeclsView::Struct(fields_view(v@)),
        PortDecls::Bits(s) => PortDeclsView::Bits(s@),
    }
}

/// Views of the members of a value type.
pub open spec fn fields_view(s: Seq<(Option<String>, PortDecls)>) -> Seq<(Option<Seq<char>>, PortDeclsView)>
    decreases s,
{
    if s.len() == 0 {
        seq![]
    } else {
        fields_view(s.drop_last()).push((opt_view(s.last().0), pd_view(s.last().1)))
    }
}

impl View for PortDecls {
    type V = PortDeclsView;

    open spec fn view(&self) -> PortDeclsView {
        pd_view(*self)
    }
}

/// The views of the members, one by one.
pub proof fn lemma_fields_view(s: Seq<(Option<String>, PortDecls)>)
    ensures
        fields_view(s).len() == s.len(),
        forall|i: int|
            0 <= i < s.len() ==> #[trigger] fields_view(s)[i] == (opt_view(s[i].0), pd_view(s[i].1)),
    decreases s.len(),
{
    if s.len() > 0 {
        lemma_fields_view(s.drop_last());
    }
}

/// Member `i` of a struct is smaller than the struct.
pub proof fn lemma_member_decreases(p: PortDecls, i: int)
    requires
        p is Struct,
        0 <= i < p->Struct_0@.len(),
    ensures
        decreases_to!(p => p->Struct_0@[i].1),
{
    let v = p->Struct_0;
    assert(decreases_to!(p => p->Struct_0));
    assert(decreases_to!(v => v[i]));
    assert(decreases_to!(v[i] => v[i].1));
}

/// Width of a value type: the sum of the widths of its members, or the width of its shape.
pub open spec fn pdv_width(p: PortDeclsView) -> nat
    decreases p,
{
    match p {
        PortDeclsView::Struct(v) => fieldsv_width(v),
        PortDeclsView::Bits(s) => shape_width(s.dims),
    }
}

/// Sum of the widths of the members.
pub open spec fn fieldsv_width(s: Seq<(Option<Seq<char>>, PortDeclsView)>) -> nat
    decreases s,
{
    if s.len() == 0 {
        0
    } else {
        fieldsv_width(s.drop_last()) + pdv_width(s.last().1)
    }
}

/// The width of a value type can be computed without overflow.
pub open spec fn pdv_fits(p: PortDeclsView) -> bool
    decreases p,
{
    match p {
        PortDeclsView::Struct(v) => fieldsv_fit(v),
        PortDeclsView::Bits(s) => shape_fits(s.dims),
    }
}

/// The widths of the members, and their partial sums, can be computed without overflow.
pub open spec fn fieldsv_fit(s: Seq<(Option<Seq<char>>, PortDeclsView)>) -> bool
    decreases s,
{
    if s.len() == 0 {
        true
    } else {
        fieldsv_fit(s.drop_last()) && pdv_fits(s.last().1) && fieldsv_width(s) <= usize::MAX
    }
}

/// Flattened primitive members of a value type, with their names joined by `_` after
/// `prefix`; members of zero width are left out unless `keep_zero`.
pub open spec fn pdv_leaves(p: PortDeclsView, prefix: Option<Seq<char>>, keep_zero: bool) -> Seq<(Option<Seq<char>>, ShapeView)>
    decreases p,
{
    match p {
        PortDeclsView::Struct(v) => fieldsv_leaves(v, prefix, keep_zero),
        PortDeclsView::Bits(s) => if keep_zero || shape_width(s.dims) > 0 {
            seq![(prefix, s)]
        } else {
            seq![]
        },
    }
}

/// Flattened primitive members of each member in turn.
pub open spec fn fieldsv_leaves(
    s: Seq<(Option<Seq<char>>, PortDeclsView)>,
    prefix: Option<Seq<char>>,
    keep_zero: bool,
) -> Seq<(Option<Seq<char>>, ShapeView)>
    decreases s,
{
    if s.len() == 0 {
        seq![]
    } else {
        fieldsv_leaves(s.drop_last(), prefix, keep_zero) + pdv_leaves(
            s.last().1,
            join2(seq!['_'], prefix, s.last().0),
            keep_zero,
        )
    }
}

/// Number of primitive (`Bits`) members of a value type, at any depth, zero-width ones included.
pub open spec fn pdv_bits_count(p: PortDeclsView) -> nat
    decreases p,
{
    match p {
        PortDeclsView::Struct(v) => fieldsv_bits_count(v),
        PortDeclsView::Bits(_) => 1,
    }
}

/// Number of primitive members of each member in turn, summed.
pub open spec fn fieldsv_bits_count(s: Seq<(Option<Seq<char>>, PortDeclsView)>) -> nat
    decreases s,
{
    if s.len() == 0 {
        0
    } else {
        fieldsv_bits_count(s.drop_last()) + pdv_bits_count(s.last().1)
    }
}

/// Every primitive member has an outermost dimension, which can be scaled by `n`
/// (multiplied if `mul`, else divided, and then it must be divisible).
pub open spec fn pdv_scalable(p: PortDeclsView, n: nat, mul: bool) -> bool
    decreases p,
{
    match p {
        PortDeclsView::Struct(v) => fieldsv_scalable(v, n, mul),
        PortDeclsView::Bits(s) => s.dims.len() > 0 && if mul {
            s.dims[0] * n <= usize::MAX
        } else {
            n > 0 && (s.dims[0] as nat) % n == 0
        },
    }
}

/// Every member can be scaled by `n`.
pub open spec fn fieldsv_scalable(s: Seq<(Option<Seq<char>>, PortDeclsView)>, n: nat, mul: bool) -> bool
    decreases s,
{
    if s.len() == 0 {
        true
    } else {
        fieldsv_scalable(s.drop_last(), n, mul) && pdv_scalable(s.last().1, n, mul)
    }
}

/// Scales the outermost dimension of a shape.
pub open spec fn shape_scale(s: ShapeView, n: nat, mul: bool) -> ShapeView {
    ShapeView {
        dims: s.dims.update(0, (if mul { s.dims[0] * n } else { s.dims[0] as int / n as int }) as usize),
        is_signed: s.is_signed,
    }
}

/// `p` with the outermost dimension of every primitive member scaled by `n`.
pub open spec fn pdv_scale(p: PortDeclsView, n: nat, mul: bool) -> PortDeclsView
    decreases p,
{
    match p {
        PortDeclsView::Struct(v) => PortDeclsView::Struct(fieldsv_scale(v, n, mul)),
        PortDeclsView::Bits(s) => PortDeclsView::Bits(shape_scale(s, n, mul)),
    }
}

/// Every member scaled by `n`, names kept.
pub open spec fn fieldsv_scale(s: Seq<(Option<Seq<char>>, PortDeclsView)>, n: nat, mul: bool) -> Seq<(Option<Seq<char>>, PortDeclsView)>
    decreases s,
{
    if s.len() == 0 {
        seq![]
    } else {
        fieldsv_scale(s.drop_last(), n, mul).push((s.last().0, pdv_scale(s.last().1, n, mul)))
    }
}

/// The largest dimension among `leaves`, or `1` if there are none.
pub open spec fn max_dim_spec(leaves: Seq<(Option<Seq<char>>, ShapeView)>) -> nat
    decreases leaves.len(),
{
    if leaves.len() == 0 {
        1
    } else if leaves.len() == 1 {
        leaves[0].1.dims.len()
    } else {
        let m = max_dim_spec(leaves.drop_last());
        let d = leaves.last().1.dims.len();
        if d > m {
            d
        } else {
            m
        }
    }
}

/// The widths of a prefix of the members are at most the widths of all of them.
pub proof fn lemma_fieldsv_fit_prefix(s: Seq<(Option<Seq<char>>, PortDeclsView)>, k: int)
    requires
        fieldsv_fit(s),
        0 <= k < s.len(),
    ensures
        fieldsv_fit(s.take(k + 1)),
        pdv_fits(s[k].1),
        fieldsv_width(s.take(k + 1)) <= usize::MAX,
    decreases s.len(),
{
    if k < s.len() - 1 {
        assert(s.drop_last().take(k + 1) =~= s.take(k + 1));
        lemma_fieldsv_fit_prefix(s.drop_last(), k);
    } else {
        assert(s.take(k + 1) =~= s);
    }
}

/// Scaling is possible member by member.
pub proof fn lemma_fieldsv_scalable(s: Seq<(Option<Seq<char>>, PortDeclsView)>, n: nat, mul: bool, k: int)
    requires
        fieldsv_scalable(s, n, mul),
        0 <= k < s.len(),
    ensures
        pdv_scalable(s[k].1, n, mul),
    decreases s.len(),
{
    if k < s.len() - 1 {
        lemma_fieldsv_scalable(s.drop_last(), n, mul, k);
    }
}

impl Clone for PortDecls {
    fn clone(&self) -> (r: Self)
        ensures
            r@ == self@,
        decreases self,
    {
        match self {
            PortDecls::Struct(inner) => {
                let mut out: Vec<(Option<String>, PortDecls)> = Vec::new();
                let mut i: usize = 0;
                proof {
                    lemma_fields_view(inner@);
                }
                while i < inner.len()
                    invariant
                        *self == PortDecls::Struct(*inner),
                        i <= inner@.len(),
                        fields_view(out@) == fields_view(inner@).take(i as int),
                    decreases inner@.len() - i,
                {
                    proof {
                        lemma_member_decreases(*self, i as int);
                        lemma_fields_view(inner@);
                    }
                    let name = match &inner[i].0 {
                        Some(n) => Some(n.clone()),
                        None => None,
                    };
                    let member = inner[i].1.clone();
                    let ghost prev = out@;
                    out.push((name, member));
                    proof {
                        assert(out@.drop_last() =~= prev);
                        assert(fields_view(inner@).take(i as int + 1) =~= fields_view(inner@).take(i as int).push(fields_view(inner@)[i as int]));
                    }
                    i = i + 1;
                }
                proof {
                    lemma_fields_view(inner@);
                    assert(fields_view(inner@).take(inner@.len() as int) =~= fields_view(inner@));
                }
                PortDecls::Struct(out)
            }
            PortDecls::Bits(shape) => PortDecls::Bits(shape.clone()),
        }
    }
}

/// Views of flattened members.
pub open spec fn leaves_view(s: Seq<(Option<String>, Shape)>) -> Seq<(Option<Seq<char>>, ShapeView)> {
    s.map_values(|x: (Option<String>, Shape)| (opt_view(x.0), x.1@))
}

/// Iterator for `PortDecls`: the flattened primitive members, front first.
#[derive(Debug)]
pub struct ValueTypIterator {
    /// Members not yet returned.
    pub inner: VecDeque<(Option<String>, Shape)>,
}

impl ValueTypIterator {
    /// Creates an iterator over the given members.
    pub fn from_vec(items: Vec<(Option<String>, Shape)>) -> (r: Self)
        ensures
            r.inner@ == items@,
    {
        let mut inner: VecDeque<(Option<String>, Shape)> = VecDeque::new();
        let mut items = items;
        let ghost all = items@;
        let mut rev: Vec<(Option<String>, Shape)> = Vec::new();
        while items.len() > 0
            invariant
                all == items@ + rev@.reverse(),
            decreases items@.len(),
        {
            let x = items.pop().unwrap();
            let ghost r0 = rev@;
            rev.push(x);
            proof {
                assert(rev@.reverse() =~= seq![x] + r0.reverse());
                assert(all =~= items@ + rev@.reverse());
            }
        }
        while rev.len() > 0
            invariant
                all == inner@ + rev@.reverse(),
            decreases rev@.len(),
        {
            let x = rev.pop().unwrap();
            let ghost r0 = rev@;
            inner.push_back(x);
            proof {
                assert(r0.push(x).reverse() =~= seq![x] + r0.reverse());
                assert(all =~= inner@ + rev@.reverse());
            }
        }
        assert(inner@ =~= all);
        Self { inner }
    }

    /// Returns the next member, if any.
    pub fn next(&mut self) -> (r: Option<(Option<String>, Shape)>)
        ensures
            old(self).inner@.len() == 0 ==> r is None && final(self).inner@ == old(self).inner@,
            old(self).inner@.len() > 0 ==> r == Some(old(self).inner@[0]) && final(self).inner@ == old(
                self,
            ).inner@.drop_first(),
    {
        self.inner.pop_front()
    }

    /// The remaining members, front first.
    pub fn into_vec(self) -> (r: Vec<(Option<String>, Shape)>)
        ensures
            r@ == self.inner@,
    {
        let mut inner = self.inner;
        let ghost all = inner@;
        let mut out: Vec<(Option<String>, Shape)> = Vec::new();
        while inner.len() > 0
            invariant
                all == out@ + inner@,
            decreases inner@.len(),
        {
            let x = inner.pop_front().unwrap();
            out.push(x);
            proof {
                assert(all =~= out@ + inner@);
            }
        }
        assert(out@ =~= all);
        out
    }
}

impl PortDecls {
    /// Shape of a primitive value type.
    pub fn shape(&self) -> (r: Shape)
        requires
            self is Bits,
        ensures
            r@ == self->Bits_0@,
    {
        match self {
            PortDecls::Struct(_) => {
                proof {
                    assert(false);
                }
                Shape { inner: VecDeque::new(), is_signed: false }
            }
            PortDecls::Bits(shape) => shape.clone(),
        }
    }

    /// Constructs unsigned bits type.
    pub fn unsigned_bits(width: usize) -> (r: Self)
        ensures
            r@ == PortDeclsView::Bits(ShapeView { dims: seq![width], is_signed: false }),
    {
        let r = PortDecls::Bits(Shape::new(vec![width], false));
        proof {
            assert(r->Bits_0@.dims =~= seq![width]);
        }
        r
    }

    /// Constructs signed bits type.
    pub fn signed_bits(width: usize) -> (r: Self)
        ensures
            r@ == PortDeclsView::Bits(ShapeView { dims: seq![width], is_signed: true }),
    {
        let r = PortDecls::Bits(Shape::new(vec![width], true));
        proof {
            assert(r->Bits_0@.dims =~= seq![width]);
        }
        r
    }

    /// Returns signedness: that of the shape for bits, `false` for a struct.
    pub fn is_signed(&self) -> (r: bool)
        ensures
            r == match self@ {
                PortDeclsView::Bits(s) => s.is_signed,
                PortDeclsView::Struct(_) => false,
            },
    {
        match self {
            PortDecls::Bits(shape) => shape.is_signed(),
            PortDecls::Struct(_) => false,
        }
    }

    /// Width of `PortDecls`.
    pub fn width(&self) -> (r: usize)
        requires
            pdv_fits(self@),
        ensures
            r == pdv_width(self@),
        decreases self,
    {
        match self {
            PortDecls::Struct(inner) => {
                let ghost fv = fields_view(inner@);
                proof {
                    lemma_fields_view(inner@);
                }
                let mut sum: usize = 0;
                let mut i: usize = 0;
                while i < inner.len()
                    invariant
                        *self == PortDecls::Struct(*inner),
                        fv == fields_view(inner@),
                        fv.len() == inner@.len(),
                        fieldsv_fit(fv),
                        i <= inner@.len(),
                        sum == fieldsv_width(fv.take(i as int)),
                    decreases inner@.len() - i,
                {
                    proof {
                        lemma_member_decreases(*self, i as int);
                        lemma_fields_view(inner@);
                        lemma_fieldsv_fit_prefix(fv, i as int);
                        assert(fv.take(i as int + 1).drop_last() =~= fv.take(i as int));
                    }
                    let w = inner[i].1.width();
                    sum = sum + w;
                    i = i + 1;
                }
                assert(fv.take(inner@.len() as int) =~= fv);
                sum
            }
            PortDecls::Bits(shape) => shape.width(),
        }
    }

    /// Appends the flattened primitive members of `self` to `out`, names joined by `_`
    /// after `prefix`; zero-width members only if `keep_zero`.
    fn collect_leaves(&self, prefix: Option<String>, keep_zero: bool, out: &mut Vec<(Option<String>, Shape)>)
        ensures
            leaves_view(final(out)@) == leaves_view(old(out)@) + pdv_leaves(self@, opt_view(prefix), keep_zero),
        decreases self,
    {
        match self {
            PortDecls::Struct(inner) => {
                let ghost fv = fields_view(inner@);
                let ghost out0 = leaves_view(out@);
                let ghost pv = opt_view(prefix);
                proof {
                    lemma_fields_view(inner@);
                    assert(fv.take(0) =~= Seq::<(Option<Seq<char>>, PortDeclsView)>::empty());
                    assert(out0 + Seq::<(Option<Seq<char>>, ShapeView)>::empty() =~= out0);
                }
                let mut i: usize = 0;
                while i < inner.len()
                    invariant
                        *self == PortDecls::Struct(*inner),
                        fv == fields_view(inner@),
                        fv.len() == inner@.len(),
                        pv == opt_view(prefix),
                        i <= inner@.len(),
                        leaves_view(out@) == out0 + fieldsv_leaves(fv.take(i as int), pv, keep_zero),
                    decreases inner@.len() - i,
                {
                    proof {
                        lemma_member_decreases(*self, i as int);
                        lemma_fields_view(inner@);
                        assert(fv.take(i as int + 1).drop_last() =~= fv.take(i as int));
                    }
                    let p2 = match &prefix {
                        Some(p) => Some(p.clone()),
                        None => None,
                    };
                    let n2 = match &inner[i].0 {
                        Some(n) => Some(n.clone()),
                        None => None,
                    };
                    let name = join_two("_", p2, n2);
                    proof {
                        reveal_strlit("_");
                        assert("_"@ =~= seq!['_']);
                    }
                    inner[i].1.collect_leaves(name, keep_zero, out);
                    proof {
                        assert(leaves_view(out@) =~= out0 + fieldsv_leaves(fv.take(i as int + 1), pv, keep_zero));
                    }
                    i = i + 1;
                }
                assert(fv.take(inner@.len() as int) =~= fv);
            }
            PortDecls::Bits(shape) => {
                let ghost out0 = out@;
                if keep_zero || !shape.is_empty() {
                    out.push((prefix, shape.clone()));
                    proof {
                        assert(leaves_view(out@) =~= leaves_view(out0) + seq![(opt_view(prefix), shape@)]);
                    }
                } else {
                    assert(leaves_view(out@) =~= leaves_view(out0) + Seq::<(Option<Seq<char>>, ShapeView)>::empty());
                }
            }
        }
    }

    /// Flattened primitive members of nonzero width, names joined by `_` after `prefix`.
    fn iter_with_prefix(&self, prefix: Option<String>) -> (r: ValueTypIterator)
        ensures
            leaves_view(r.inner@) == pdv_leaves(self@, opt_view(prefix), false),
    {
        let mut out: Vec<(Option<String>, Shape)> = Vec::new();
        self.collect_leaves(prefix, false, &mut out);
        assert(leaves_view(Seq::<(Option<String>, Shape)>::empty()) =~= Seq::<(Option<Seq<char>>, ShapeView)>::empty());
        assert(leaves_view(out@) =~= pdv_leaves(self@, opt_view(prefix), false));
        ValueTypIterator::from_vec(out)
    }

    /// Iterator for `PortDecls`: the (name, shape) of inner fields with nonzero width only.
    pub fn iter(&self) -> (r: ValueTypIterator)
        ensures
            leaves_view(r.inner@) == pdv_leaves(self@, None, false),
    {
        self.iter_with_prefix(None)
    }

    /// Iterator for `PortDecls` that keeps zero-width members.
    pub fn iter_with_zero_width(&self, prefix: Option<String>) -> (r: ValueTypIterator)
        ensures
            leaves_view(r.inner@) == pdv_leaves(self@, opt_view(prefix), true),
            r.inner@.len() == pdv_bits_count(self@),
    {
        let ghost pv = opt_view(prefix);
        let mut out: Vec<(Option<String>, Shape)> = Vec::new();
        self.collect_leaves(prefix, true, &mut out);
        proof {
            lemma_zero_width_count(self@, pv);
        }
        assert(leaves_view(Seq::<(Option<String>, Shape)>::empty()) =~= Seq::<(Option<Seq<char>>, ShapeView)>::empty());
        assert(leaves_view(out@) =~= pdv_leaves(self@, opt_view(prefix), true));
        ValueTypIterator::from_vec(out)
    }

    /// Maximum dimension of the primitive value types in `PortDecls`, `1` if there is none.
    pub fn max_dim(&self) -> (r: usize)
        ensures
            r == max_dim_spec(pdv_leaves(self@, None, false)),
    {
        let leaves = self.iter().into_vec();
        let ghost lv = leaves_view(leaves@);
        let mut m: usize = 1;
        let mut i: usize = 0;
        while i < leaves.len()
            invariant
                lv == leaves_view(leaves@),
                i <= leaves@.len(),
                m == max_dim_spec(lv.take(i as int)),
            decreases leaves@.len() - i,
        {
            proof {
                assert(lv.take(i as int + 1).drop_last() =~= lv.take(i as int));
            }
            let d = leaves[i].1.dim();
            if i == 0 || d > m {
                m = d;
            }
            i = i + 1;
        }
        assert(lv.take(leaves@.len() as int) =~= lv);
        m
    }

    /// Number of primitive members of nonzero width in `PortDecls`.
    pub fn num_elts(&self) -> (r: usize)
        ensures
            r == pdv_leaves(self@, None, false).len(),
    {
        let leaves = self.iter().into_vec();
        leaves.len()
    }

    /// Scales the outermost dimension of every primitive member.
    fn scale(&self, n: usize, mul: bool) -> (r: Self)
        requires
            pdv_scalable(self@, n as nat, mul),
        ensures
            r@ == pdv_scale(self@, n as nat, mul),
        decreases self,
    {
        match self {
            PortDecls::Struct(inner) => {
                let ghost fv = fields_view(inner@);
                proof {
                    lemma_fields_view(inner@);
                }
                let mut out: Vec<(Option<String>, PortDecls)> = Vec::new();
                let mut i: usize = 0;
                while i < inner.len()
                    invariant
                        *self == PortDecls::Struct(*inner),
                        fv == fields_view(inner@),
                        fv.len() == inner@.len(),
                        fieldsv_scalable(fv, n as nat, mul),
                        i <= inner@.len(),
                        fields_view(out@) == fieldsv_scale(fv.take(i as int), n as nat, mul),
                    decreases inner@.len() - i,
                {
                    proof {
                        lemma_member_decreases(*self, i as int);
                        lemma_fields_view(inner@);
                        lemma_fieldsv_scalable(fv, n as nat, mul, i as int);
                        assert(fv.take(i as int + 1).drop_last() =~= fv.take(i as int));
                    }
                    let name = match &inner[i].0 {
                        Some(s) => Some(s.clone()),
                        None => None,
                    };
                    let m = inner[i].1.scale(n, mul);
                    let ghost prev = out@;
                    out.push((name, m));
                    proof {
                        assert(out@.drop_last() =~= prev);
                    }
                    i = i + 1;
                }
                assert(fv.take(inner@.len() as int) =~= fv);
                PortDecls::Struct(out)
            }
            PortDecls::Bits(shape) => {
                if mul {
                    PortDecls::Bits(shape.multiple(n))
                } else {
                    PortDecls::Bits(shape.divide(n))
                }
            }
        }
    }

    /// Returns new `PortDecls` with the outermost dimension of each field multiplied by `n`.
    pub fn multiple(&self, n: usize) -> (r: Self)
        requires
            pdv_scalable(self@, n as nat, true),
        ensures
            r@ == pdv_scale(self@, n as nat, true),
    {
        self.scale(n, true)
    }

    /// Returns new `PortDecls` with the outermost dimension of each field divided by `n`.
    pub fn divide(&self, n: usize) -> (r: Self)
        requires
            pdv_scalable(self@, n as nat, false),
        ensures
            r@ == pdv_scale(self@, n as nat, false),
    {
        self.scale(n, false)
    }
}

/// Whether two optional strings are equal.
pub fn opt_string_eq(a: &Option<String>, b: &Option<String>) -> (r: bool)
    ensures
        r == (opt_view(*a) == opt_view(*b)),
{
    match (a, b) {
        (Some(x), Some(y)) => x.eq(y),
        (None, None) => true,
        _ => false,
    }
}

impl Shape {
    /// Whether two shapes are the same.
    pub fn same(&self, other: &Shape) -> (r: bool)
        ensures
            r == (self@ == other@),
    {
        if self.is_signed != other.is_signed || self.inner.len() != other.inner.len() {
            return false;
        }
        let mut i: usize = 0;
        while i < self.inner.len()
            invariant
                i <= self@.dims.len(),
                self@.dims.len() == other@.dims.len(),
                forall|j: int| 0 <= j < i ==> self@.dims[j] == other@.dims[j],
            decreases self@.dims.len() - i,
        {
            if self.inner[i] != other.inner[i] {
                return false;
            }
            i = i + 1;
        }
        assert(self@.dims =~= other@.dims);
        true
    }
}

impl PortDecls {
    /// Whether two value types are the same.
    pub fn same(&self, other: &PortDecls) -> (r: bool)
        ensures
            r == (self@ == other@),
        decreases self,
    {
        match (self, other) {
            (PortDecls::Struct(a), PortDecls::Struct(b)) => {
                proof {
                    lemma_fields_view(a@);
                    lemma_fields_view(b@);
                }
                if a.len() != b.len() {
                    return false;
                }
                let mut i: usize = 0;
                while i < a.len()
                    invariant
                        *self == PortDecls::Struct(*a),
                        *other == PortDecls::Struct(*b),
                        i <= a@.len(),
                        a@.len() == b@.len(),
                        fields_view(a@).len() == a@.len(),
                        fields_view(b@).len() == b@.len(),
                        forall|j: int| 0 <= j < i ==> fields_view(a@)[j] == fields_view(b@)[j],
                    decreases a@.len() - i,
                {
                    proof {
                        lemma_member_decreases(*self, i as int);
                        lemma_fields_view(a@);
                        lemma_fields_view(b@);
                    }
                    if !opt_string_eq(&a[i].0, &b[i].0) || !a[i].1.same(&b[i].1) {
                        proof {
                            assert(fields_view(a@)[i as int] != fields_view(b@)[i as int]);
                        }
                        return false;
                    }
                    i = i + 1;
                }
                assert(fields_view(a@) =~= fields_view(b@));
                true
            }
            (PortDecls::Bits(a), PortDecls::Bits(b)) => a.same(b),
            _ => false,
        }
    }
}

/// Channel's type.
#[derive(Debug, PartialEq, Eq)]
pub struct ChannelTyp {
    /// Forward value.
    pub fwd: PortDecls,

    /// Backward value.
    pub bwd: PortDecls,
}

/// Mathematical value of a channel's type.
pub struct ChannelTypView {
    /// Forward value.
    pub fwd: PortDeclsView,

    /// Backward value.
    pub bwd: PortDeclsView,
}

impl View for ChannelTyp {
    type V = ChannelTypView;

    open spec fn view(&self) -> ChannelTypView {
        ChannelTypView { fwd: self.fwd@, bwd: self.bwd@ }
    }
}

impl Clone for ChannelTyp {
    fn clone(&self) -> (r: Self)
        ensures
            r@ == self@,
    {
        ChannelTyp { fwd: self.fwd.clone(), bwd: self.bwd.clone() }
    }
}

impl ChannelTyp {
    /// Creates a new channel type.
    pub fn new(fwd: PortDecls, bwd: PortDecls) -> (r: Self)
        ensures
            r.fwd == fwd,
            r.bwd == bwd,
    {
        Self { fwd, bwd }
    }

    /// Whether two channel types are the same.
    pub fn same(&self, other: &ChannelTyp) -> (r: bool)
        ensures
            r == (self@ == other@),
    {
        self.fwd.same(&other.fwd) && self.bwd.same(&other.bwd)
    }
}

/// How a variant's discriminant is given in the source.
#[derive(Debug, Clone, Copy, PartialEq, Eq)]
pub enum VariantDiscr {
    /// Given explicitly.
    Explicit,

    /// The previous discriminant plus the given offset.
    Relative(u32),
}

/// Type that handles enum variant's bit layout.
#[derive(Debug, Clone)]
pub struct VariantLayout {
    /// Variant name
    pub name: String,

    /// Variant type
    pub typ: PortDecls,

    /// How the discriminant is given.
    pub discriminant: VariantDiscr,
}

/// Type that handles an ADT's bit layout.
#[derive(Debug, Clone)]
pub enum AdtLayout {
    /// Enum type
    Enum {
        /// Enum name
        name: String,

        /// Variant discriminant encoding type
        encoding_ty: EnumEncodingTy,

        /// Variants
        variants: Vec<VariantLayout>,
    },

    /// Struct type
    Struct {
        /// Struct name
        name: String,

        /// Struct fields
        fields: Vec<(String, PortDecls)>,
    },

    /// Primitive array type
    Array {
        /// Element type
        elt_ty: PortDecls,

        /// Length of array
        len: usize,
    },
}

/// Members of an enum's layout: the discriminant, then one member per variant.
pub open spec fn enum_members(width: usize, variants: Seq<VariantLayout>) -> Seq<(Option<Seq<char>>, PortDeclsView)> {
    seq![(Some("discriminant"@), PortDeclsView::Bits(ShapeView { dims: seq![width], is_signed: false }))]
        + variants.map_values(|v: VariantLayout| (Some(v.name@), v.typ@))
}

/// Members of a struct's layout.
pub open spec fn struct_members(fields: Seq<(String, PortDecls)>) -> Seq<(Option<Seq<char>>, PortDeclsView)> {
    fields.map_values(|f: (String, PortDecls)| (Some(f.0@), f.1@))
}

/// The value type of an ADT layout, where it can be computed.
pub open spec fn adt_port_decls(a: AdtLayout) -> PortDeclsView {
    match a {
        AdtLayout::Enum { variants, .. } => PortDeclsView::Struct(
            enum_members(clog2_spec(variants@.len()) as usize, variants@),
        ),
        AdtLayout::Struct { fields, .. } => PortDeclsView::Struct(struct_members(fields@)),
        AdtLayout::Array { elt_ty, len } => pdv_scale(elt_ty@, len as nat, true),
    }
}

/// The value type of an ADT layout can be computed: enums use the decimal encoding, and
/// the element of an array can be multiplied by the length.
pub open spec fn adt_port_decls_ok(a: AdtLayout) -> bool {
    match a {
        AdtLayout::Enum { encoding_ty, .. } => encoding_ty == EnumEncodingTy::Decimal,
        AdtLayout::Struct { .. } => true,
        AdtLayout::Array { elt_ty, len } => pdv_scalable(elt_ty@, len as nat, true),
    }
}

impl AdtLayout {
    /// Returns bitwidth of the discriminant.
    pub fn discriminant_width(&self) -> (r: usize)
        requires
            self matches AdtLayout::Enum { encoding_ty, .. } && encoding_ty == EnumEncodingTy::Decimal,
        ensures
            r == clog2_spec(self->Enum_variants@.len()),
    {
        match self {
            AdtLayout::Enum { variants, .. } => clog2(variants.len()),
            _ => {
                proof {
                    assert(false);
                }
                0
            }
        }
    }

    /// Returns type of the ADT.
    pub fn port_decls(&self) -> (r: PortDecls)
        requires
            adt_port_decls_ok(*self),
        ensures
            r@ == adt_port_decls(*self),
    {
        match self {
            AdtLayout::Enum { variants, .. } => {
                let dw = self.discriminant_width();
                let mut members: Vec<(Option<String>, PortDecls)> = Vec::new();
                members.push((Some(String::from_str("discriminant")), PortDecls::unsigned_bits(dw)));
                let ghost target = enum_members(dw, variants@);
                let mut k: usize = 0;
                proof {
                    assert(fields_view(members@) =~= target.take(1)) by {
                        assert(fields_view(members@) == fields_view(members@.drop_last()).push(
                            (opt_view(members@[0].0), pd_view(members@[0].1)),
                        ));
                        assert(members@.drop_last() =~= Seq::<(Option<String>, PortDecls)>::empty());
                    }
                }
                while k < variants.len()
                    invariant
                        target == enum_members(dw, variants@),
                        target.len() == variants@.len() + 1,
                        k <= variants@.len(),
                        fields_view(members@) == target.take(k as int + 1),
                    decreases variants@.len() - k,
                {
                    let name = variants[k].name.clone();
                    let typ = variants[k].typ.clone();
                    let ghost prev = members@;
                    members.push((Some(name), typ));
                    proof {
                        assert(members@.drop_last() =~= prev);
                        assert(target.take(k as int + 2) =~= target.take(k as int + 1).push(target[k as int + 1]));
                    }
                    k = k + 1;
                }
                assert(target.take(variants@.len() as int + 1) =~= target);
                PortDecls::Struct(members)
            }
            AdtLayout::Struct { fields, .. } => {
                let ghost target = struct_members(fields@);
                let mut members: Vec<(Option<String>, PortDecls)> = Vec::new();
                let mut k: usize = 0;
                while k < fields.len()
                    invariant
                        target == struct_members(fields@),
                        k <= fields@.len(),
                        fields_view(members@) == target.take(k as int),
                    decreases fields@.len() - k,
                {
                    let name = fields[k].0.clone();
                    let typ = fields[k].1.clone();
                    let ghost prev = members@;
                    members.push((Some(name), typ));
                    proof {
                        assert(members@.drop_last() =~= prev);
                        assert(target.take(k as int + 1) =~= target.take(k as int).push(target[k as int]));
                    }
                    k = k + 1;
                }
                assert(target.take(fields@.len() as int) =~= target);
                PortDecls::Struct(members)
            }
            AdtLayout::Array { elt_ty, len } => elt_ty.multiple(*len),
        }
    }
}

/// Scaling the outermost dimension by `n` scales the number of elements by `n`.
pub proof fn lemma_shape_width_scale(dims: Seq<usize>, n: nat)
    requires
        dims.len() > 0,
        dims[0] * n <= usize::MAX,
    ensures
        shape_width(dims.update(0, (dims[0] * n) as usize)) == n * shape_width(dims),
    decreases dims.len(),
{
    let d2 = dims.update(0, (dims[0] * n) as usize);
    if dims.len() == 1 {
        assert(d2.drop_last() =~= Seq::<usize>::empty());
        assert(dims.drop_last() =~= Seq::<usize>::empty());
        assert(1 * ((dims[0] * n) as nat) == n * (1 * (dims[0] as nat))) by (nonlinear_arith);
    } else {
        lemma_shape_width_scale(dims.drop_last(), n);
        assert(d2.drop_last() =~= dims.drop_last().update(0, (dims[0] * n) as usize));
        let w = shape_width(dims.drop_last());
        let l = dims.last() as nat;
        assert(d2.last() == dims.last());
        assert((n * w) * l == n * (w * l)) by (nonlinear_arith);
    }
}

/// Law: `multiple(n)` multiplies the width of a value type by `n`.
pub proof fn lemma_multiple_width(p: PortDeclsView, n: nat)
    requires
        pdv_scalable(p, n, true),
    ensures
        pdv_width(pdv_scale(p, n, true)) == n * pdv_width(p),
    decreases p,
{
    match p {
        PortDeclsView::Struct(v) => {
            lemma_fields_multiple_width(v, n);
        }
        PortDeclsView::Bits(s) => {
            lemma_shape_width_scale(s.dims, n);
        }
    }
}

/// The widths of multiplied members add up to `n` times the original sum.
proof fn lemma_fields_multiple_width(s: Seq<(Option<Seq<char>>, PortDeclsView)>, n: nat)
    requires
        fieldsv_scalable(s, n, true),
    ensures
        fieldsv_width(fieldsv_scale(s, n, true)) == n * fieldsv_width(s),
    decreases s,
{
    if s.len() > 0 {
        lemma_fields_multiple_width(s.drop_last(), n);
        lemma_multiple_width(s.last().1, n);
        let t = fieldsv_scale(s, n, true);
        assert(t.drop_last() =~= fieldsv_scale(s.drop_last(), n, true));
        let a = fieldsv_width(s.drop_last());
        let b = pdv_width(s.last().1);
        assert(t.last() == (s.last().0, pdv_scale(s.last().1, n, true)));
        assert(fieldsv_width(t) == fieldsv_width(t.drop_last()) + pdv_width(t.last().1));
        assert(n * a + n * b == n * (a + b)) by (nonlinear_arith);
    } else {
        assert(n * 0 == 0) by (nonlinear_arith);
    }
}

/// Law: `divide(n)` undoes `multiple(n)`.
pub proof fn lemma_multiple_divide(p: PortDeclsView, n: nat)
    requires
        n > 0,
        pdv_scalable(p, n, true),
    ensures
        pdv_scalable(pdv_scale(p, n, true), n, false),
        pdv_scale(pdv_scale(p, n, true), n, false) == p,
    decreases p,
{
    match p {
        PortDeclsView::Struct(v) => {
            lemma_fields_multiple_divide(v, n);
        }
        PortDeclsView::Bits(s) => {
            let d = s.dims;
            let m = (d[0] * n) as usize;
            vstd::arithmetic::div_mod::lemma_div_multiples_vanish(d[0] as int, n as int);
            vstd::arithmetic::div_mod::lemma_mod_multiples_basic(d[0] as int, n as int);
            vstd::arithmetic::mul::lemma_mul_is_commutative(d[0] as int, n as int);
            assert(d.update(0, m).update(0, (m as int / n as int) as usize) =~= d);
        }
    }
}

/// Members multiplied and then divided by `n` are the original members.
proof fn lemma_fields_multiple_divide(s: Seq<(Option<Seq<char>>, PortDeclsView)>, n: nat)
    requires
        n > 0,
        fieldsv_scalable(s, n, true),
    ensures
        fieldsv_scalable(fieldsv_scale(s, n, true), n, false),
        fieldsv_scale(fieldsv_scale(s, n, true), n, false) == s,
    decreases s,
{
    if s.len() > 0 {
        lemma_fields_multiple_divide(s.drop_last(), n);
        lemma_multiple_divide(s.last().1, n);
        let t = fieldsv_scale(s, n, true);
        assert(t.drop_last() =~= fieldsv_scale(s.drop_last(), n, true));
        let u = fieldsv_scale(t, n, false);
        assert(u.drop_last() =~= fieldsv_scale(t.drop_last(), n, false));
        assert(u =~= s);
    } else {
        assert(fieldsv_scale(s, n, true) =~= s);
    }
}

/// The members of nonzero width among `ls`, in order.
pub open spec fn nonzero_leaves(ls: Seq<(Option<Seq<char>>, ShapeView)>) -> Seq<(Option<Seq<char>>, ShapeView)>
    decreases ls.len(),
{
    if ls.len() == 0 {
        seq![]
    } else {
        nonzero_leaves(ls.drop_last()) + if shape_width(ls.last().1.dims) > 0 {
            seq![ls.last()]
        } else {
            seq![]
        }
    }
}

/// Keeping the members of nonzero width distributes over concatenation.
pub proof fn lemma_nonzero_leaves_concat(a: Seq<(Option<Seq<char>>, ShapeView)>, b: Seq<(Option<Seq<char>>, ShapeView)>)
    ensures
        nonzero_leaves(a + b) == nonzero_leaves(a) + nonzero_leaves(b),
    decreases b.len(),
{
    if b.len() == 0 {
        assert(a + b =~= a);
        assert(nonzero_leaves(a) + nonzero_leaves(b) =~= nonzero_leaves(a));
    } else {
        lemma_nonzero_leaves_concat(a, b.drop_last());
        assert((a + b).drop_last() =~= a + b.drop_last());
        assert((a + b).last() == b.last());
        let t = if shape_width(b.last().1.dims) > 0 {
            seq![b.last()]
        } else {
            seq![]
        };
        assert(nonzero_leaves(a) + nonzero_leaves(b.drop_last()) + t =~= nonzero_leaves(a) + (nonzero_leaves(
            b.drop_last(),
        ) + t));
    }
}

/// Law: the members of a value type without zero-width ones, as `iter` gives them, are its
/// members with zero-width ones, as `iter_with_zero_width` gives them, with those of zero
/// width left out.
pub proof fn lemma_leaves_nonzero(p: PortDeclsView, prefix: Option<Seq<char>>)
    ensures
        pdv_leaves(p, prefix, false) == nonzero_leaves(pdv_leaves(p, prefix, true)),
    decreases p,
{
    match p {
        PortDeclsView::Struct(v) => {
            lemma_fields_leaves_nonzero(v, prefix);
        },
        PortDeclsView::Bits(s) => {
            let one = seq![(prefix, s)];
            assert(one.drop_last() =~= Seq::<(Option<Seq<char>>, ShapeView)>::empty());
            assert(one.last() == (prefix, s));
            assert(nonzero_leaves(one.drop_last()) =~= Seq::<(Option<Seq<char>>, ShapeView)>::empty());
            assert(nonzero_leaves(one) =~= (if shape_width(s.dims) > 0 {
                one
            } else {
                seq![]
            }));
        },
    }
}

/// The members of fields without zero-width ones are their members with zero-width ones,
/// those of zero width left out.
proof fn lemma_fields_leaves_nonzero(v: Seq<(Option<Seq<char>>, PortDeclsView)>, prefix: Option<Seq<char>>)
    ensures
        fieldsv_leaves(v, prefix, false) == nonzero_leaves(fieldsv_leaves(v, prefix, true)),
    decreases v,
{
    if v.len() > 0 {
        lemma_fields_leaves_nonzero(v.drop_last(), prefix);
        lemma_leaves_nonzero(v.last().1, join2(seq!['_'], prefix, v.last().0));
        lemma_nonzero_leaves_concat(
            fieldsv_leaves(v.drop_last(), prefix, true),
            pdv_leaves(v.last().1, join2(seq!['_'], prefix, v.last().0), true),
        );
    }
}

/// Law: with zero-width members kept, a value type has exactly one member per primitive
/// (`Bits`) part of it, so `iter_with_zero_width` yields as many items as there are.
pub proof fn lemma_zero_width_count(p: PortDeclsView, prefix: Option<Seq<char>>)
    ensures
        pdv_leaves(p, prefix, true).len() == pdv_bits_count(p),
    decreases p,
{
    match p {
        PortDeclsView::Struct(v) => {
            lemma_fields_zero_width_count(v, prefix);
        },
        PortDeclsView::Bits(s) => {},
    }
}

/// Each member contributes one item per primitive part of it.
proof fn lemma_fields_zero_width_count(v: Seq<(Option<Seq<char>>, PortDeclsView)>, prefix: Option<Seq<char>>)
    ensures
        fieldsv_leaves(v, prefix, true).len() == fieldsv_bits_count(v),
    decreases v,
{
    if v.len() > 0 {
        lemma_fields_zero_width_count(v.drop_last(), prefix);
        lemma_zero_width_count(v.last().1, join2(seq!['_'], prefix, v.last().0));
    }
}

/// Law: `divide(n)` divides the width of a value type by `n`.
pub proof fn lemma_divide_width(p: PortDeclsView, n: nat)
    requires
        pdv_scalable(p, n, false),
    ensures
        pdv_width(pdv_scale(p, n, false)) * n == pdv_width(p),
    decreases p,
{
    match p {
        PortDeclsView::Struct(v) => {
            lemma_fields_divide_width(v, n);
        },
        PortDeclsView::Bits(sh) => {
            let d = sh.dims;
            let q = (d[0] as int / n as int) as usize;
            let d2 = d.update(0, q);
            assert(q * n == d[0]) by (nonlinear_arith)
                requires
                    n > 0,
                    (d[0] as nat) % n == 0,
                    q == d[0] as int / n as int,
            ;
            lemma_shape_width_scale(d2, n);
            assert(d2.update(0, (d2[0] * n) as usize) =~= d);
            let w = shape_width(d2);
            assert(n * w == w * n) by (nonlinear_arith);
        },
    }
}

/// The widths of divided members add up to the original sum divided by `n`.
proof fn lemma_fields_divide_width(s: Seq<(Option<Seq<char>>, PortDeclsView)>, n: nat)
    requires
        fieldsv_scalable(s, n, false),
    ensures
        fieldsv_width(fieldsv_scale(s, n, false)) * n == fieldsv_width(s),
    decreases s,
{
    if s.len() > 0 {
        lemma_fields_divide_width(s.drop_last(), n);
        lemma_divide_width(s.last().1, n);
        let t = fieldsv_scale(s, n, false);
        assert(t.drop_last() =~= fieldsv_scale(s.drop_last(), n, false));
        assert(t.last() == (s.last().0, pdv_scale(s.last().1, n, false)));
        assert(fieldsv_width(t) == fieldsv_width(t.drop_last()) + pdv_width(t.last().1));
        let a = fieldsv_width(t.drop_last());
        let b = pdv_width(t.last().1);
        assert((a + b) * n == a * n + b * n) by (nonlinear_arith);
    } else {
        assert(0 * n == 0) by (nonlinear_arith);
    }
}

} // verus!
