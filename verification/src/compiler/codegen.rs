//! Building blocks of target code generation: composite expressions, naming context,
//! ports and logic values.

use std::collections::VecDeque;

use vstd::prelude::*;

use crate::compiler::prelude::{
    fields_view, lemma_fields_view, lemma_member_decreases, leaves_view, pdv_leaves, fieldsv_leaves,
    PortDecls, PortDeclsView, Shape, ShapeView,
};
use crate::compiler::endpoint::clone_opt_string;
use crate::utils::string::{join_two, opt_view};

verus! {

/// Composite of expressions.
#[derive(Debug)]
pub enum CompositeExpr<V> {
    /// Struct of expressions.
    Struct(Vec<CompositeExpr<V>>),

    /// Expression.
    Bits(V),
}

/// The structure of a composite, without its leaves.
pub enum Skel {
    /// A leaf.
    Leaf,

    /// A struct of the given members.
    Node(Seq<Skel>),
}

/// Structure of a composite expression.
pub open spec fn ce_skel<V>(e: CompositeExpr<V>) -> Skel
    decreases e,
{
    match e {
        CompositeExpr::Struct(v) => Skel::Node(ces_skel(v@)),
        CompositeExpr::Bits(_) => Skel::Leaf,
    }
}

/// Structures of the members.
pub open spec fn ces_skel<V>(s: Seq<CompositeExpr<V>>) -> Seq<Skel>
    decreases s,
{
    if s.len() == 0 {
        seq![]
    } else {
        ces_skel(s.drop_last()).push(ce_skel(s.last()))
    }
}

/// Leaves of a composite expression, in order.
pub open spec fn ce_leaves<V>(e: CompositeExpr<V>) -> Seq<V>
    decreases e,
{
    match e {
        CompositeExpr::Struct(v) => ces_leaves(v@),
        CompositeExpr::Bits(x) => seq![x],
    }
}

/// Leaves of the members, in order.
pub open spec fn ces_leaves<V>(s: Seq<CompositeExpr<V>>) -> Seq<V>
    decreases s,
{
    if s.len() == 0 {
        seq![]
    } else {
        ces_leaves(s.drop_last()) + ce_leaves(s.last())
    }
}

/// Member `k` of a struct composite is smaller than the struct.
pub proof fn lemma_ce_member_decreases<V>(e: CompositeExpr<V>, k: int)
    requires
        e is Struct,
        0 <= k < e->Struct_0@.len(),
    ensures
        decreases_to!(e => e->Struct_0@[k]),
{
    let v = e->Struct_0;
    assert(decreases_to!(e => e->Struct_0));
    assert(decreases_to!(v => v[k]));
}

/// Leaves of a prefix of members followed by the next member.
pub proof fn lemma_ces_take<V>(s: Seq<CompositeExpr<V>>, k: int)
    requires
        0 <= k < s.len(),
    ensures
        ces_leaves(s.take(k + 1)) == ces_leaves(s.take(k)) + ce_leaves(s[k]),
        ces_skel(s.take(k + 1)) == ces_skel(s.take(k)).push(ce_skel(s[k])),
{
    assert(s.take(k + 1).drop_last() =~= s.take(k));
}

/// Iterator for `CompositeExpr`: its leaves, front first.
#[derive(Debug)]
pub struct CompositeExprIterator<V> {
    /// Leaves not yet returned.
    pub inner: VecDeque<V>,
}

impl<V> CompositeExprIterator<V> {
    /// Returns the next leaf, if any.
    pub fn next(&mut self) -> (r: Option<V>)
        ensures
            old(self).inner@.len() == 0 ==> r is None && final(self).inner@ == old(self).inner@,
            old(self).inner@.len() > 0 ==> r == Some(old(self).inner@[0]) && final(self).inner@ == old(
                self,
            ).inner@.drop_first(),
    {
        self.inner.pop_front()
    }
}

impl<V: Clone> CompositeExpr<V> {
    /// Converts into expression.
    pub fn into_expr(self) -> (r: V)
        requires
            self is Bits,
        ensures
            r == self->Bits_0,
    {
        match self {
            Self::Struct(_) => vstd::pervasive::unreached(),
            Self::Bits(expr) => expr,
        }
    }

    /// Appends copies of the leaves to `out`.
    fn collect_leaves(&self, out: &mut VecDeque<V>)
        ensures
            final(out)@.len() == old(out)@.len() + ce_leaves(*self).len(),
            final(out)@.subrange(0, old(out)@.len() as int) == old(out)@,
            forall|i: int|
                0 <= i < ce_leaves(*self).len() ==> cloned(
                    #[trigger] ce_leaves(*self)[i],
                    final(out)@[old(out)@.len() + i],
                ),
        decreases self,
    {
        match self {
            CompositeExpr::Struct(inner) => {
                let ghost out0 = out@;
                let mut k: usize = 0;
                assert(inner@.take(0) =~= Seq::<CompositeExpr<V>>::empty());
                while k < inner.len()
                    invariant
                        *self == CompositeExpr::Struct(*inner),
                        k <= inner@.len(),
                        out@.len() == out0.len() + ces_leaves(inner@.take(k as int)).len(),
                        out@.subrange(0, out0.len() as int) == out0,
                        forall|i: int|
                            0 <= i < ces_leaves(inner@.take(k as int)).len() ==> cloned(
                                #[trigger] ces_leaves(inner@.take(k as int))[i],
                                out@[out0.len() + i],
                            ),
                    decreases inner@.len() - k,
                {
                    proof {
                        lemma_ce_member_decreases(*self, k as int);
                        lemma_ces_take(inner@, k as int);
                    }
                    let ghost mid = out@;
                    inner[k].collect_leaves(out);
                    proof {
                        let a = ces_leaves(inner@.take(k as int));
                        let b = ce_leaves(inner@[k as int]);
                        assert(out@.subrange(0, out0.len() as int) =~= out0) by {
                            assert(out@.subrange(0, mid.len() as int) == mid);
                            assert forall|j: int| 0 <= j < out0.len() implies out@[j] == out0[j] by {
                                assert(out@[j] == out@.subrange(0, mid.len() as int)[j]);
                                assert(mid[j] == mid.subrange(0, out0.len() as int)[j]);
                            }
                        }
                        assert forall|i: int| 0 <= i < (a + b).len() implies cloned(#[trigger] (a + b)[i], out@[out0.len() + i]) by {
                            if i < a.len() {
                                assert(out@[out0.len() + i] == out@.subrange(0, mid.len() as int)[out0.len() + i]);
                                assert(cloned(a[i], mid[out0.len() + i]));
                            } else {
                                assert(b[i - a.len()] == (a + b)[i]);
                                assert(cloned(b[i - a.len()], out@[mid.len() + (i - a.len())]));
                            }
                        }
                    }
                    k = k + 1;
                }
                assert(inner@.take(inner@.len() as int) =~= inner@);
            }
            CompositeExpr::Bits(expr) => {
                let ghost out0 = out@;
                out.push_back(expr.clone());
                assert(out@.subrange(0, out0.len() as int) =~= out0);
            }
        }
    }

    /// Iterator over copies of the leaves.
    pub fn iter(&self) -> (r: CompositeExprIterator<V>)
        ensures
            r.inner@.len() == ce_leaves(*self).len(),
            forall|i: int| 0 <= i < ce_leaves(*self).len() ==> cloned(#[trigger] ce_leaves(*self)[i], r.inner@[i]),
    {
        let mut out: VecDeque<V> = VecDeque::new();
        self.collect_leaves(&mut out);
        CompositeExprIterator { inner: out }
    }
}

/// Leaves of concatenated member lists are the concatenated leaves.
pub proof fn lemma_ces_leaves_append<V>(a: Seq<CompositeExpr<V>>, b: Seq<CompositeExpr<V>>)
    ensures
        ces_leaves(a + b) == ces_leaves(a) + ces_leaves(b),
    decreases b.len(),
{
    if b.len() == 0 {
        assert(a + b =~= a);
        assert(ces_leaves(a) + ces_leaves(b) =~= ces_leaves(a));
    } else {
        lemma_ces_leaves_append(a, b.drop_last());
        assert((a + b).drop_last() =~= a + b.drop_last());
        assert((a + b).last() == b.last());
        assert(ces_leaves(a) + ces_leaves(b) =~= ces_leaves(a) + ces_leaves(b.drop_last()) + ce_leaves(b.last()));
    }
}

/// The leaves of member `k` sit in the leaves of all members after those of the members before it.
pub proof fn lemma_ces_leaves_at<V>(s: Seq<CompositeExpr<V>>, k: int)
    requires
        0 <= k < s.len(),
    ensures
        ces_leaves(s) == ces_leaves(s.take(k)) + ce_leaves(s[k]) + ces_leaves(s.skip(k + 1)),
{
    assert(s =~= s.take(k + 1) + s.skip(k + 1));
    lemma_ces_leaves_append(s.take(k + 1), s.skip(k + 1));
    lemma_ces_take(s, k);
}

impl<V> CompositeExpr<V> {
    /// Converts the leaves with `f`, keeping the structure.
    #[verifier::loop_isolation(false)]
    fn map_ref<W, F: Fn(V) -> W>(self, f: &F) -> (r: CompositeExpr<W>)
        requires
            forall|i: int| 0 <= i < ce_leaves(self).len() ==> f.requires((#[trigger] ce_leaves(self)[i],)),
        ensures
            ce_skel(r) == ce_skel(self),
            ce_leaves(r).len() == ce_leaves(self).len(),
            forall|i: int| 0 <= i < ce_leaves(self).len() ==> f.ensures((#[trigger] ce_leaves(self)[i],), ce_leaves(r)[i]),
        decreases self,
    {
        let ghost whole = self;
        match self {
            CompositeExpr::Struct(inner) => {
                let ghost orig = inner@;
                let mut inner = inner;
                let mut out: Vec<CompositeExpr<W>> = Vec::new();
                let mut k: usize = 0;
                let len0 = inner.len();
                let ghost n = orig.len();
                assert(orig.take(0) =~= Seq::<CompositeExpr<V>>::empty());
                assert(orig.skip(0) =~= orig);
                assert(ce_leaves(whole) == ces_leaves(whole->Struct_0@));
                while inner.len() > 0
                    invariant
                        whole == CompositeExpr::Struct(inner_orig_vec(whole)),
                        orig == inner_orig_vec(whole)@,
                        n == orig.len(),
                        n == len0,
                        k <= n,
                        inner@ == orig.skip(k as int),
                        out@.len() == k,
                        ces_skel(out@) == ces_skel(orig.take(k as int)),
                        ces_leaves(out@).len() == ces_leaves(orig.take(k as int)).len(),
                        forall|i: int| 0 <= i < ces_leaves(whole->Struct_0@).len() ==> f.requires((#[trigger] ces_leaves(whole->Struct_0@)[i],)),
                        forall|i: int|
                            0 <= i < ces_leaves(orig.take(k as int)).len() ==> f.ensures(
                                (#[trigger] ces_leaves(orig.take(k as int))[i],),
                                ces_leaves(out@)[i],
                            ),
                    decreases inner@.len(),
                {
                    let e = inner.remove(0);
                    proof {
                        assert(e == orig[k as int]);
                        lemma_ce_member_decreases(whole, k as int);
                        assert(decreases_to!(whole => e));
                        lemma_ces_leaves_at(orig, k as int);
                        assert forall|i: int| 0 <= i < ce_leaves(e).len() implies f.requires((#[trigger] ce_leaves(e)[i],)) by {
                            let off = ces_leaves(orig.take(k as int)).len();
                            assert(ces_leaves(orig)[off + i] == ce_leaves(e)[i]);
                        }
                        lemma_ces_take(orig, k as int);
                    }
                    let m = e.map_ref(f);
                    let ghost prev = out@;
                    out.push(m);
                    proof {
                        lemma_ces_take(out@, k as int);
                        assert(out@.take(k as int) =~= prev);
                        assert(out@.take(k as int + 1) =~= out@);
                        assert(inner@ =~= orig.skip(k as int + 1));
                        let a = ces_leaves(orig.take(k as int));
                        let b = ce_leaves(orig[k as int]);
                        let c = ces_leaves(prev);
                        let d = ce_leaves(m);
                        assert(ces_leaves(out@) == c + d);
                        assert forall|i: int| 0 <= i < (a + b).len() implies f.ensures((#[trigger] (a + b)[i],), (c + d)[i]) by {
                            if i < a.len() {
                                assert((a + b)[i] == a[i]);
                                assert((c + d)[i] == c[i]);
                            } else {
                                assert((a + b)[i] == b[i - a.len()]);
                                assert((c + d)[i] == d[i - a.len()]);
                            }
                        }
                    }
                    k = k + 1;
                }
                proof {
                    assert(orig.take(n as int) =~= orig);
                    assert(k == n);
                }
                CompositeExpr::Struct(out)
            }
            CompositeExpr::Bits(expr) => {
                assert(ce_leaves(whole)[0] == expr);
                let w = f(expr);
                let r = CompositeExpr::Bits(w);
                assert(ce_leaves(r) =~= seq![w]);
                r
            }
        }
    }

    /// Converts primitive expressions in the tree.
    pub fn map<W, F: Fn(V) -> W>(self, f: F) -> (r: CompositeExpr<W>)
        requires
            forall|i: int| 0 <= i < ce_leaves(self).len() ==> f.requires((#[trigger] ce_leaves(self)[i],)),
        ensures
            ce_skel(r) == ce_skel(self),
            ce_leaves(r).len() == ce_leaves(self).len(),
            forall|i: int| 0 <= i < ce_leaves(self).len() ==> f.ensures((#[trigger] ce_leaves(self)[i],), ce_leaves(r)[i]),
    {
        self.map_ref(&f)
    }
}

/// The members of a struct composite (anything for a leaf).
pub open spec fn inner_orig_vec<V>(e: CompositeExpr<V>) -> Vec<CompositeExpr<V>> {
    e->Struct_0
}

/// Pairs of leaves of two composites zipped member by member, as far as both reach.
pub open spec fn zip_leaves<V, W>(a: CompositeExpr<V>, b: CompositeExpr<W>) -> Seq<(V, W)>
    decreases a, 0nat,
{
    match (a, b) {
        (CompositeExpr::Struct(x), CompositeExpr::Struct(y)) => zips_leaves(
            x@,
            y@,
            if x@.len() <= y@.len() { x@.len() } else { y@.len() },
        ),
        (CompositeExpr::Bits(p), CompositeExpr::Bits(q)) => seq![(p, q)],
        _ => seq![],
    }
}

/// Pairs of leaves of the first `n` members zipped.
pub open spec fn zips_leaves<V, W>(x: Seq<CompositeExpr<V>>, y: Seq<CompositeExpr<W>>, n: nat) -> Seq<(V, W)>
    decreases x, n,
{
    if n == 0 || n > x.len() || n > y.len() {
        seq![]
    } else {
        zips_leaves(x, y, (n - 1) as nat) + zip_leaves(x[n - 1], y[n - 1])
    }
}

/// Two composites can be zipped: wherever both have a member, the members are both
/// structs or both leaves.
pub open spec fn zip_ok<V, W>(a: CompositeExpr<V>, b: CompositeExpr<W>) -> bool
    decreases a, 0nat,
{
    match (a, b) {
        (CompositeExpr::Struct(x), CompositeExpr::Struct(y)) => zips_ok(
            x@,
            y@,
            if x@.len() <= y@.len() { x@.len() } else { y@.len() },
        ),
        (CompositeExpr::Bits(_), CompositeExpr::Bits(_)) => true,
        _ => false,
    }
}

/// The first `n` members can be zipped.
pub open spec fn zips_ok<V, W>(x: Seq<CompositeExpr<V>>, y: Seq<CompositeExpr<W>>, n: nat) -> bool
    decreases x, n,
{
    if n == 0 || n > x.len() || n > y.len() {
        true
    } else {
        zips_ok(x, y, (n - 1) as nat) && zip_ok(x[n - 1], y[n - 1])
    }
}

/// Zipping of the first `n` members can be done when that of more can.
proof fn lemma_zips_ok_prefix<V, W>(x: Seq<CompositeExpr<V>>, y: Seq<CompositeExpr<W>>, n: nat, m: nat)
    requires
        m <= n <= x.len(),
        n <= y.len(),
        zips_ok(x, y, n),
    ensures
        zips_ok(x, y, m),
        m > 0 ==> zip_ok(x[m - 1], y[m - 1]),
    decreases n,
{
    if m < n {
        lemma_zips_ok_prefix(x, y, (n - 1) as nat, m);
    }
}

/// Leaves of two composites paired index by index.
pub open spec fn leaf_pairs<V, W>(a: Seq<V>, b: Seq<W>) -> Seq<(V, W)> {
    Seq::new(a.len(), |i: int| (a[i], b[i]))
}

/// The structures of members are those of each member in turn.
pub proof fn lemma_ces_skel_at<V>(s: Seq<CompositeExpr<V>>)
    ensures
        ces_skel(s).len() == s.len(),
        forall|i: int| 0 <= i < s.len() ==> #[trigger] ces_skel(s)[i] == ce_skel(s[i]),
    decreases s.len(),
{
    if s.len() > 0 {
        lemma_ces_skel_at(s.drop_last());
    }
}

/// Law: two composites of one structure can be zipped, and zipping pairs their leaves in order.
pub proof fn lemma_zip_same_skel<V, W>(a: CompositeExpr<V>, b: CompositeExpr<W>)
    requires
        ce_skel(a) == ce_skel(b),
    ensures
        zip_ok(a, b),
        ce_leaves(a).len() == ce_leaves(b).len(),
        zip_leaves(a, b) == leaf_pairs(ce_leaves(a), ce_leaves(b)),
    decreases a, 0nat,
{
    match (a, b) {
        (CompositeExpr::Struct(x), CompositeExpr::Struct(y)) => {
            lemma_ces_skel_at(x@);
            lemma_ces_skel_at(y@);
            assert forall|i: int| 0 <= i < x@.len() implies ce_skel(#[trigger] x@[i]) == ce_skel(y@[i]) by {
                assert(ces_skel(x@)[i] == ces_skel(y@)[i]);
            }
            lemma_zips_same_skel(x@, y@, x@.len());
            assert(x@.take(x@.len() as int) =~= x@);
            assert(y@.take(y@.len() as int) =~= y@);
        },
        (CompositeExpr::Bits(p), CompositeExpr::Bits(q)) => {
            assert(leaf_pairs(ce_leaves(a), ce_leaves(b)) =~= seq![(p, q)]);
        },
        (CompositeExpr::Struct(_), CompositeExpr::Bits(_)) => {},
        (CompositeExpr::Bits(_), CompositeExpr::Struct(_)) => {},
    }
}

/// The first `n` members of member lists of one structure can be zipped, pairing their leaves.
proof fn lemma_zips_same_skel<V, W>(x: Seq<CompositeExpr<V>>, y: Seq<CompositeExpr<W>>, n: nat)
    requires
        n <= x.len(),
        x.len() == y.len(),
        forall|i: int| 0 <= i < x.len() ==> ce_skel(#[trigger] x[i]) == ce_skel(y[i]),
    ensures
        zips_ok(x, y, n),
        ces_leaves(x.take(n as int)).len() == ces_leaves(y.take(n as int)).len(),
        zips_leaves(x, y, n) == leaf_pairs(ces_leaves(x.take(n as int)), ces_leaves(y.take(n as int))),
    decreases x, n,
{
    if n == 0 {
        assert(x.take(0) =~= Seq::<CompositeExpr<V>>::empty());
        assert(y.take(0) =~= Seq::<CompositeExpr<W>>::empty());
        assert(leaf_pairs(ces_leaves(x.take(0)), ces_leaves(y.take(0))) =~= Seq::<(V, W)>::empty());
    } else {
        let m = (n - 1) as nat;
        lemma_zips_same_skel(x, y, m);
        assert(ce_skel(x[m as int]) == ce_skel(y[m as int]));
        lemma_zip_same_skel(x[m as int], y[m as int]);
        lemma_ces_take(x, m as int);
        lemma_ces_take(y, m as int);
        let la = ces_leaves(x.take(m as int));
        let lb = ces_leaves(y.take(m as int));
        let ea = ce_leaves(x[m as int]);
        let eb = ce_leaves(y[m as int]);
        assert(leaf_pairs(la + ea, lb + eb) =~= leaf_pairs(la, lb) + leaf_pairs(ea, eb));
    }
}

impl<V> CompositeExpr<V> {
    /// Moves the leaves, in order, to the back of `out`.
    fn push_leaves(self, out: &mut VecDeque<V>)
        ensures
            final(out)@ == old(out)@ + ce_leaves(self),
        decreases self,
    {
        let ghost orig = self;
        match self {
            CompositeExpr::Bits(x) => {
                out.push_back(x);
            },
            CompositeExpr::Struct(v) => {
                let ghost members = v@;
                let ghost start = out@;
                let n = v.len();
                let mut rest = v;
                let mut i: usize = 0;
                while rest.len() > 0
                    invariant
                        orig == CompositeExpr::Struct(v),
                        self == orig,
                        members == v@,
                        members.len() == n,
                        i + rest@.len() == members.len(),
                        rest@ == members.subrange(i as int, members.len() as int),
                        out@ == start + ces_leaves(members.take(i as int)),
                    decreases rest@.len(),
                {
                    let x = rest.remove(0);
                    proof {
                        assert(x == members[i as int]);
                        lemma_ce_member_decreases(orig, i as int);
                        lemma_ces_take(members, i as int);
                    }
                    x.push_leaves(out);
                    proof {
                        assert(out@ =~= start + ces_leaves(members.take(i as int + 1)));
                    }
                    i = i + 1;
                }
                assert(members.take(i as int) =~= members);
            },
        }
    }

    /// Iterator over the leaves, front first.
    pub fn into_iter(self) -> (r: CompositeExprIterator<V>)
        ensures
            r.inner@ == ce_leaves(self),
    {
        let mut out: VecDeque<V> = VecDeque::new();
        self.push_leaves(&mut out);
        assert(out@ =~= ce_leaves(self));
        CompositeExprIterator { inner: out }
    }
}

impl<V> CompositeExpr<V> {
    /// Zips with another composite whose structure agrees wherever both have members.
    #[verifier::loop_isolation(false)]
    pub fn zip<W>(self, other: CompositeExpr<W>) -> (r: CompositeExpr<(V, W)>)
        requires
            zip_ok(self, other),
        ensures
            ce_leaves(r) == zip_leaves(self, other),
            ce_skel(self) == ce_skel(other) ==> ce_skel(r) == ce_skel(self),
        decreases self,
    {
        let ghost a0 = self;
        let ghost b0 = other;
        match (self, other) {
            (CompositeExpr::Struct(xs), CompositeExpr::Struct(ys)) => {
                let ghost x0 = xs@;
                let ghost y0 = ys@;
                let ghost same = ce_skel(a0) == ce_skel(b0);
                proof {
                    lemma_ces_skel_at(x0);
                    lemma_ces_skel_at(y0);
                    if same {
                        assert forall|i: int| 0 <= i < x0.len() implies ce_skel(#[trigger] x0[i]) == ce_skel(y0[i]) by {
                            assert(ces_skel(x0)[i] == ces_skel(y0)[i]);
                        }
                    }
                }
                let mut xs = xs;
                let mut ys = ys;
                let n = if xs.len() <= ys.len() { xs.len() } else { ys.len() };
                xs.truncate(n);
                ys.truncate(n);
                let mut out: Vec<CompositeExpr<(V, W)>> = Vec::new();
                let mut k: usize = 0;
                proof {
                    assert(x0.take(0) =~= Seq::<CompositeExpr<V>>::empty());
                }
                while k < n
                    invariant
                        a0 == CompositeExpr::<V>::Struct(a0->Struct_0),
                        x0 == a0->Struct_0@,
                        n <= x0.len(),
                        n <= y0.len(),
                        zips_ok(x0, y0, n as nat),
                        k <= n,
                        xs@ == x0.subrange(k as int, n as int),
                        ys@ == y0.subrange(k as int, n as int),
                        ces_leaves(out@) == zips_leaves(x0, y0, k as nat),
                        same == (ce_skel(a0) == ce_skel(b0)),
                        same ==> n == x0.len() && forall|i: int|
                            0 <= i < x0.len() ==> ce_skel(#[trigger] x0[i]) == ce_skel(y0[i]),
                        same ==> ces_skel(out@) == ces_skel(x0.take(k as int)),
                    decreases n - k,
                {
                    let x = xs.remove(0);
                    let y = ys.remove(0);
                    proof {
                        assert(x == x0[k as int]);
                        assert(y == y0[k as int]);
                        lemma_ce_member_decreases(a0, k as int);
                        assert(decreases_to!(a0 => x));
                        lemma_zips_ok_prefix(x0, y0, n as nat, k as nat + 1);
                        assert(xs@ =~= x0.subrange(k as int + 1, n as int));
                        assert(ys@ =~= y0.subrange(k as int + 1, n as int));
                    }
                    let z = x.zip(y);
                    let ghost prev = out@;
                    out.push(z);
                    proof {
                        assert(out@.drop_last() =~= prev);
                        lemma_ces_take(x0, k as int);
                    }
                    k = k + 1;
                }
                proof {
                    if same {
                        assert(x0.take(n as int) =~= x0);
                    }
                }
                CompositeExpr::Struct(out)
            }
            (CompositeExpr::Bits(p), CompositeExpr::Bits(q)) => {
                let r = CompositeExpr::Bits((p, q));
                assert(ce_leaves(r) =~= zip_leaves(a0, b0));
                r
            }
            _ => vstd::pervasive::unreached(),
        }
    }
}

/// Logic value.
#[derive(Debug, Clone, Copy, PartialEq, Eq)]
pub enum LogicValue {
    /// Logic '0' or false condition
    False,
    /// Logic '1' or true condition
    True,
    /// Don't care or unknown value
    X,
    /// High impedance state (used for tri-state buffer)
    Z,
}

/// The Verilog character of a logic value.
pub open spec fn logic_char(v: LogicValue) -> char {
    match v {
        LogicValue::False => '0',
        LogicValue::True => '1',
        LogicValue::X => 'x',
        LogicValue::Z => 'z',
    }
}

impl LogicValue {
    /// The logic value of a boolean.
    pub fn from_bool(value: bool) -> (r: LogicValue)
        ensures
            r == if value { LogicValue::True } else { LogicValue::False },
    {
        if value {
            LogicValue::True
        } else {
            LogicValue::False
        }
    }

    /// The Verilog character of the value, as a string.
    pub fn to_string(&self) -> (r: String)
        ensures
            r@ == seq![logic_char(*self)],
    {
        proof {
            reveal_strlit("0");
            reveal_strlit("1");
            reveal_strlit("x");
            reveal_strlit("z");
        }
        let s = match self {
            LogicValue::False => "0",
            LogicValue::True => "1",
            LogicValue::X => "x",
            LogicValue::Z => "z",
        };
        let r = String::from_str(s);
        assert(r@ =~= seq![logic_char(*self)]);
        r
    }
}

/// Logic values.
#[derive(Debug, Clone, PartialEq, Eq)]
pub struct LogicValues(pub Vec<LogicValue>);

/// `s` repeated `n` times.
pub open spec fn seq_repeat<T>(s: Seq<T>, n: nat) -> Seq<T>
    decreases n,
{
    if n == 0 {
        seq![]
    } else {
        seq_repeat(s, (n - 1) as nat) + s
    }
}

impl LogicValues {
    /// Creates new logic values.
    pub fn new(inner: Vec<LogicValue>) -> (r: Self)
        ensures
            r.0@ == inner@,
    {
        Self(inner)
    }

    /// Inner logic values.
    pub fn into_inner(self) -> (r: Vec<LogicValue>)
        ensures
            r@ == self.0@,
    {
        self.0
    }

    /// The logic values as a slice.
    pub fn as_slice(&self) -> (r: &[LogicValue])
        ensures
            r@ == self.0@,
    {
        self.0.as_slice()
    }

    /// The Verilog characters of the values, in order.
    pub fn to_string(&self) -> (r: String)
        ensures
            r@ == self.0@.map_values(|v: LogicValue| logic_char(v)),
    {
        let mut out = String::new();
        let mut k: usize = 0;
        while k < self.0.len()
            invariant
                k <= self.0@.len(),
                out@ == self.0@.take(k as int).map_values(|v: LogicValue| logic_char(v)),
            decreases self.0@.len() - k,
        {
            let c = self.0[k].to_string();
            out.append(c.as_str());
            proof {
                assert(self.0@.take(k as int + 1).map_values(|v: LogicValue| logic_char(v)) =~= self.0@.take(
                    k as int,
                ).map_values(|v: LogicValue| logic_char(v)).push(logic_char(self.0@[k as int])));
            }
            k = k + 1;
        }
        assert(self.0@.take(self.0@.len() as int) =~= self.0@);
        out
    }

    /// The values repeated `n` times.
    pub fn repeat(&self, n: usize) -> (r: LogicValues)
        ensures
            r.0@ == seq_repeat(self.0@, n as nat),
    {
        let mut out: Vec<LogicValue> = Vec::new();
        let mut k: usize = 0;
        while k < n
            invariant
                k <= n,
                out@ == seq_repeat(self.0@, k as nat),
            decreases n - k,
        {
            let mut j: usize = 0;
            let ghost base = out@;
            while j < self.0.len()
                invariant
                    j <= self.0@.len(),
                    out@ == base + self.0@.take(j as int),
                decreases self.0@.len() - j,
            {
                out.push(self.0[j]);
                proof {
                    assert(base + self.0@.take(j as int + 1) =~= (base + self.0@.take(j as int)).push(self.0@[j as int]));
                }
                j = j + 1;
            }
            assert(self.0@.take(self.0@.len() as int) =~= self.0@);
            k = k + 1;
        }
        LogicValues(out)
    }
}

/// Mathematical value of a composite of logic values.
pub enum LogicTree {
    /// Struct of members.
    Struct(Seq<LogicTree>),

    /// Logic values.
    Bits(Seq<LogicValue>),
}

/// View of a composite of logic values.
pub open spec fn lv_tree(e: CompositeExpr<LogicValues>) -> LogicTree
    decreases e,
{
    match e {
        CompositeExpr::Struct(v) => LogicTree::Struct(lv_trees(v@)),
        CompositeExpr::Bits(x) => LogicTree::Bits(x.0@),
    }
}

/// Views of the members.
pub open spec fn lv_trees(s: Seq<CompositeExpr<LogicValues>>) -> Seq<LogicTree>
    decreases s,
{
    if s.len() == 0 {
        seq![]
    } else {
        lv_trees(s.drop_last()).push(lv_tree(s.last()))
    }
}

/// The views of the members, one by one.
pub proof fn lemma_lv_trees(s: Seq<CompositeExpr<LogicValues>>)
    ensures
        lv_trees(s).len() == s.len(),
        forall|i: int| 0 <= i < s.len() ==> #[trigger] lv_trees(s)[i] == lv_tree(s[i]),
    decreases s.len(),
{
    if s.len() > 0 {
        lemma_lv_trees(s.drop_last());
    }
}

/// Structure of a tree of logic values.
pub open spec fn tree_skel(t: LogicTree) -> Skel
    decreases t,
{
    match t {
        LogicTree::Struct(s) => Skel::Node(trees_skel(s)),
        LogicTree::Bits(_) => Skel::Leaf,
    }
}

/// Structures of the members.
pub open spec fn trees_skel(s: Seq<LogicTree>) -> Seq<Skel>
    decreases s,
{
    if s.len() == 0 {
        seq![]
    } else {
        trees_skel(s.drop_last()).push(tree_skel(s.last()))
    }
}

/// Runs of logic values of a tree, in order.
pub open spec fn tree_leaves(t: LogicTree) -> Seq<Seq<LogicValue>>
    decreases t,
{
    match t {
        LogicTree::Struct(s) => trees_leaves(s),
        LogicTree::Bits(v) => seq![v],
    }
}

/// Runs of logic values of the members, in order.
pub open spec fn trees_leaves(s: Seq<LogicTree>) -> Seq<Seq<LogicValue>>
    decreases s,
{
    if s.len() == 0 {
        seq![]
    } else {
        trees_leaves(s.drop_last()) + tree_leaves(s.last())
    }
}

/// The view of a composite of logic values has its structure and its leaves.
pub proof fn lemma_lv_tree_parts(e: CompositeExpr<LogicValues>)
    ensures
        tree_skel(lv_tree(e)) == ce_skel(e),
        tree_leaves(lv_tree(e)) == ce_leaves(e).map_values(|v: LogicValues| v.0@),
    decreases e,
{
    match e {
        CompositeExpr::Struct(v) => {
            lemma_lv_trees_parts(v@);
        },
        CompositeExpr::Bits(x) => {
            assert(ce_leaves(e).map_values(|v: LogicValues| v.0@) =~= seq![x.0@]);
        },
    }
}

/// The views of the members have their structures and their leaves.
pub proof fn lemma_lv_trees_parts(s: Seq<CompositeExpr<LogicValues>>)
    ensures
        trees_skel(lv_trees(s)) == ces_skel(s),
        trees_leaves(lv_trees(s)) == ces_leaves(s).map_values(|v: LogicValues| v.0@),
    decreases s,
{
    if s.len() == 0 {
        assert(ces_leaves(s).map_values(|v: LogicValues| v.0@) =~= Seq::<Seq<LogicValue>>::empty());
    } else {
        lemma_lv_trees_parts(s.drop_last());
        lemma_lv_tree_parts(s.last());
        let a = ces_leaves(s.drop_last());
        let b = ce_leaves(s.last());
        assert(lv_trees(s).drop_last() =~= lv_trees(s.drop_last()));
        assert((a + b).map_values(|v: LogicValues| v.0@) =~= a.map_values(|v: LogicValues| v.0@) + b.map_values(
            |v: LogicValues| v.0@,
        ));
    }
}

/// The tree with each run of logic values repeated `n` times.
pub open spec fn tree_repeat(t: LogicTree, n: nat) -> LogicTree
    decreases t,
{
    match t {
        LogicTree::Struct(s) => LogicTree::Struct(trees_repeat(s, n)),
        LogicTree::Bits(v) => LogicTree::Bits(seq_repeat(v, n)),
    }
}

/// The trees, each repeated.
pub open spec fn trees_repeat(s: Seq<LogicTree>, n: nat) -> Seq<LogicTree>
    decreases s,
{
    if s.len() == 0 {
        seq![]
    } else {
        trees_repeat(s.drop_last(), n).push(tree_repeat(s.last(), n))
    }
}

/// The leaves of a composite of logic values, each repeated `n` times.
pub open spec fn repeat_leaves(s: Seq<LogicValues>, n: nat) -> Seq<Seq<LogicValue>> {
    s.map_values(|v: LogicValues| seq_repeat(v.0@, n))
}

impl CompositeExpr<LogicValues> {
    /// Repeats each field in the expressions by n times.
    pub fn repeat(&self, n: usize) -> (r: Self)
        ensures
            ce_skel(r) == ce_skel(*self),
            ce_leaves(r).map_values(|v: LogicValues| v.0@) == repeat_leaves(ce_leaves(*self), n as nat),
            lv_tree(r) == tree_repeat(lv_tree(*self), n as nat),
        decreases self,
    {
        match self {
            CompositeExpr::Struct(inner) => {
                let mut out: Vec<CompositeExpr<LogicValues>> = Vec::new();
                let mut k: usize = 0;
                proof {
                    assert(inner@.take(0) =~= Seq::<CompositeExpr<LogicValues>>::empty());
                    assert(out@ =~= Seq::<CompositeExpr<LogicValues>>::empty());
                }
                while k < inner.len()
                    invariant
                        *self == CompositeExpr::Struct(*inner),
                        k <= inner@.len(),
                        out@.len() == k,
                        ces_skel(out@) == ces_skel(inner@.take(k as int)),
                        ces_leaves(out@).map_values(|v: LogicValues| v.0@) == repeat_leaves(
                            ces_leaves(inner@.take(k as int)),
                            n as nat,
                        ),
                        lv_trees(out@) == trees_repeat(lv_trees(inner@.take(k as int)), n as nat),
                    decreases inner@.len() - k,
                {
                    proof {
                        lemma_ce_member_decreases(*self, k as int);
                        lemma_ces_take(inner@, k as int);
                    }
                    let m = inner[k].repeat(n);
                    let ghost prev = out@;
                    out.push(m);
                    proof {
                        assert(out@.drop_last() =~= prev);
                        let a = ces_leaves(prev);
                        let b = ce_leaves(m);
                        assert((a + b).map_values(|v: LogicValues| v.0@) =~= a.map_values(|v: LogicValues| v.0@)
                            + b.map_values(|v: LogicValues| v.0@));
                        let c = ces_leaves(inner@.take(k as int));
                        let d = ce_leaves(inner@[k as int]);
                        assert(repeat_leaves(c + d, n as nat) =~= repeat_leaves(c, n as nat) + repeat_leaves(d, n as nat));
                        let tk = lv_trees(inner@.take(k as int));
                        assert(inner@.take(k as int + 1).drop_last() =~= inner@.take(k as int));
                        assert(lv_trees(inner@.take(k as int + 1)) == tk.push(lv_tree(inner@[k as int])));
                        assert(tk.push(lv_tree(inner@[k as int])).drop_last() =~= tk);
                    }
                    k = k + 1;
                }
                assert(inner@.take(inner@.len() as int) =~= inner@);
                let r = CompositeExpr::Struct(out);
                assert(lv_tree(r) == tree_repeat(lv_tree(*self), n as nat));
                r
            }
            CompositeExpr::Bits(expr) => {
                let r = CompositeExpr::Bits(expr.repeat(n));
                proof {
                    assert(ce_leaves(r).map_values(|v: LogicValues| v.0@) =~= repeat_leaves(ce_leaves(*self), n as nat));
                }
                r
            }
        }
    }
}

/// Structure of a value type: a leaf for bits, a node for a struct.
pub open spec fn pdv_skel(p: PortDeclsView) -> Skel
    decreases p,
{
    match p {
        PortDeclsView::Struct(v) => Skel::Node(fieldsv_skel(v)),
        PortDeclsView::Bits(_) => Skel::Leaf,
    }
}

/// Structures of the members of a value type.
pub open spec fn fieldsv_skel(s: Seq<(Option<Seq<char>>, PortDeclsView)>) -> Seq<Skel>
    decreases s,
{
    if s.len() == 0 {
        seq![]
    } else {
        fieldsv_skel(s.drop_last()).push(pdv_skel(s.last().1))
    }
}

/// Views of named shapes.
pub open spec fn named_view(s: Seq<(String, Shape)>) -> Seq<(Option<Seq<char>>, ShapeView)> {
    s.map_values(|x: (String, Shape)| (Some(x.0@), x.1@))
}

/// Builds the composite of named shapes of a value type, names joined after `prefix`.
fn from_pd_with_prefix(typ: &PortDecls, prefix: Option<String>) -> (r: CompositeExpr<(Option<String>, Shape)>)
    ensures
        ce_skel(r) == pdv_skel(typ@),
        leaves_view(ce_leaves(r)) == pdv_leaves(typ@, opt_view(prefix), true),
    decreases typ,
{
    match typ {
        PortDecls::Struct(inner) => {
            let ghost fv = fields_view(inner@);
            let ghost pv = opt_view(prefix);
            proof {
                lemma_fields_view(inner@);
            }
            let mut out: Vec<CompositeExpr<(Option<String>, Shape)>> = Vec::new();
            let mut k: usize = 0;
            proof {
                assert(fv.take(0) =~= Seq::<(Option<Seq<char>>, PortDeclsView)>::empty());
                assert(leaves_view(ces_leaves(out@)) =~= Seq::<(Option<Seq<char>>, ShapeView)>::empty());
                assert(ces_skel(out@) =~= Seq::<Skel>::empty());
            }
            while k < inner.len()
                invariant
                    *typ == PortDecls::Struct(*inner),
                    fv == fields_view(inner@),
                    fv.len() == inner@.len(),
                    pv == opt_view(prefix),
                    k <= inner@.len(),
                    out@.len() == k,
                    ces_skel(out@) == fieldsv_skel(fv.take(k as int)),
                    leaves_view(ces_leaves(out@)) == fieldsv_leaves(fv.take(k as int), pv, true),
                decreases inner@.len() - k,
            {
                proof {
                    lemma_member_decreases(*typ, k as int);
                    lemma_fields_view(inner@);
                    assert(fv.take(k as int + 1).drop_last() =~= fv.take(k as int));
                }
                let name = join_two("_", clone_opt_string(&prefix), clone_opt_string(&inner[k].0));
                proof {
                    reveal_strlit("_");
                    assert("_"@ =~= seq!['_']);
                }
                let m = from_pd_with_prefix(&inner[k].1, name);
                let ghost prev = out@;
                out.push(m);
                proof {
                    assert(out@.drop_last() =~= prev);
                    let a = ces_leaves(prev);
                    let b = ce_leaves(m);
                    assert(leaves_view(a + b) =~= leaves_view(a) + leaves_view(b));
                }
                k = k + 1;
            }
            assert(fv.take(inner@.len() as int) =~= fv);
            CompositeExpr::Struct(out)
        }
        PortDecls::Bits(shape) => {
            let r = CompositeExpr::Bits((prefix, shape.clone()));
            assert(leaves_view(ce_leaves(r)) =~= pdv_leaves(typ@, opt_view(prefix), true));
            r
        }
    }
}

/// Builds the composite of named shapes of a value type, names joined after `prefix`.
fn from_pd_named(typ: &PortDecls, prefix: String) -> (r: CompositeExpr<(String, Shape)>)
    ensures
        ce_skel(r) == pdv_skel(typ@),
        named_view(ce_leaves(r)) == pdv_leaves(typ@, Some(prefix@), true),
    decreases typ,
{
    match typ {
        PortDecls::Struct(inner) => {
            let ghost fv = fields_view(inner@);
            let ghost pv = Some(prefix@);
            proof {
                lemma_fields_view(inner@);
            }
            let mut out: Vec<CompositeExpr<(String, Shape)>> = Vec::new();
            let mut k: usize = 0;
            proof {
                assert(fv.take(0) =~= Seq::<(Option<Seq<char>>, PortDeclsView)>::empty());
                assert(named_view(ces_leaves(out@)) =~= Seq::<(Option<Seq<char>>, ShapeView)>::empty());
                assert(ces_skel(out@) =~= Seq::<Skel>::empty());
            }
            while k < inner.len()
                invariant
                    *typ == PortDecls::Struct(*inner),
                    fv == fields_view(inner@),
                    fv.len() == inner@.len(),
                    pv == Some(prefix@),
                    k <= inner@.len(),
                    out@.len() == k,
                    ces_skel(out@) == fieldsv_skel(fv.take(k as int)),
                    named_view(ces_leaves(out@)) == fieldsv_leaves(fv.take(k as int), pv, true),
                decreases inner@.len() - k,
            {
                proof {
                    lemma_member_decreases(*typ, k as int);
                    lemma_fields_view(inner@);
                    assert(fv.take(k as int + 1).drop_last() =~= fv.take(k as int));
                }
                let joined = join_two("_", Some(prefix.clone()), clone_opt_string(&inner[k].0));
                proof {
                    reveal_strlit("_");
                    assert("_"@ =~= seq!['_']);
                }
                let name = match joined {
                    Some(n) => n,
                    None => vstd::pervasive::unreached(),
                };
                let m = from_pd_named(&inner[k].1, name);
                let ghost prev = out@;
                out.push(m);
                proof {
                    assert(out@.drop_last() =~= prev);
                    let a = ces_leaves(prev);
                    let b = ce_leaves(m);
                    assert(named_view(a + b) =~= named_view(a) + named_view(b));
                }
                k = k + 1;
            }
            assert(fv.take(inner@.len() as int) =~= fv);
            CompositeExpr::Struct(out)
        }
        PortDecls::Bits(shape) => {
            let r = CompositeExpr::Bits((prefix.clone(), shape.clone()));
            assert(named_view(ce_leaves(r)) =~= pdv_leaves(typ@, Some(prefix@), true));
            r
        }
    }
}

impl CompositeExpr<(Option<String>, Shape)> {
    /// The composite of the named shapes of a value type: member names joined by `_`,
    /// zero-width members kept.
    pub fn from_port_decls(typ: PortDecls) -> (r: Self)
        ensures
            ce_skel(r) == pdv_skel(typ@),
            leaves_view(ce_leaves(r)) == pdv_leaves(typ@, None, true),
    {
        from_pd_with_prefix(&typ, None)
    }
}

impl CompositeExpr<(String, Shape)> {
    /// Constructs from value type, every name starting with `prefix`.
    pub fn from_typ(typ: PortDecls, prefix: String) -> (r: Self)
        ensures
            ce_skel(r) == pdv_skel(typ@),
            named_view(ce_leaves(r)) == pdv_leaves(typ@, Some(prefix@), true),
    {
        from_pd_named(&typ, prefix)
    }
}

} // verus!
