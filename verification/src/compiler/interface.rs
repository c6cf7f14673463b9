//! Interface types: the shapes of the channels that modules exchange.

use vstd::prelude::*;

use crate::compiler::endpoint::{clone_opt_string, Channel, ChannelView, EndpointNode, EndpointPath, NodeView};
use crate::compiler::prelude::{ChannelTyp, ChannelTypView};
use crate::utils::string::{nat_to_decimal, opt_view, usize_to_string};

verus! {

/// Interface's type.
#[derive(Debug, Eq)]
pub enum InterfaceTyp {
    /// Unit type
    Unit,

    /// Single channel type
    Channel(ChannelTyp),

    /// Array of interface types
    Array(Box<InterfaceTyp>, usize),

    /// Struct of interface types, in field order: the name of each field, its
    /// separator (`None` means `_`), and its type. Names are distinct.
    Struct(Vec<(String, (Option<String>, InterfaceTyp))>),
}

/// Mathematical value of an interface type.
pub enum InterfaceTypView {
    /// Unit type
    Unit,

    /// Single channel type
    Channel(ChannelTypView),

    /// Array of interface types
    Array(Box<InterfaceTypView>, usize),

    /// Struct of interface types: name, separator and type of each field.
    Struct(Seq<(Seq<char>, Option<Seq<char>>, InterfaceTypView)>),
}

/// View of an interface type.
pub open spec fn it_view(t: InterfaceTyp) -> InterfaceTypView
    decreases t,
{
    match t {
        InterfaceTyp::Unit => InterfaceTypView::Unit,
        InterfaceTyp::Channel(c) => InterfaceTypView::Channel(c@),
        InterfaceTyp::Array(b, n) => InterfaceTypView::Array(Box::new(it_view(*b)), n),
        InterfaceTyp::Struct(v) => InterfaceTypView::Struct(itfields_view(v@)),
    }
}

/// Views of the fields of a struct interface type.
pub open spec fn itfields_view(s: Seq<(String, (Option<String>, InterfaceTyp))>) -> Seq<
    (Seq<char>, Option<Seq<char>>, InterfaceTypView),
>
    decreases s,
{
    if s.len() == 0 {
        seq![]
    } else {
        itfields_view(s.drop_last()).push((s.last().0@, opt_view(s.last().1.0), it_view(s.last().1.1)))
    }
}

impl View for InterfaceTyp {
    type V = InterfaceTypView;

    open spec fn view(&self) -> InterfaceTypView {
        it_view(*self)
    }
}

/// The views of the fields, one by one.
pub proof fn lemma_itfields_view(s: Seq<(String, (Option<String>, InterfaceTyp))>)
    ensures
        itfields_view(s).len() == s.len(),
        forall|i: int|
            0 <= i < s.len() ==> #[trigger] itfields_view(s)[i] == (
                s[i].0@,
                opt_view(s[i].1.0),
                it_view(s[i].1.1),
            ),
    decreases s.len(),
{
    if s.len() > 0 {
        lemma_itfields_view(s.drop_last());
    }
}

/// Field `i` of a struct interface type is smaller than the struct.
pub proof fn lemma_itfield_decreases(t: InterfaceTyp, i: int)
    requires
        t is Struct,
        0 <= i < t->Struct_0@.len(),
    ensures
        decreases_to!(t => t->Struct_0@[i].1.1),
{
    let v = t->Struct_0;
    assert(decreases_to!(t => t->Struct_0));
    assert(decreases_to!(v => v[i]));
    assert(decreases_to!(v[i] => v[i].1));
    assert(decreases_to!(v[i].1 => v[i].1.1));
}

/// Index of the first entry whose key is `k`.
pub open spec fn first_index(keys: Seq<Seq<char>>, k: Seq<char>) -> Option<int>
    decreases keys.len(),
{
    if keys.len() == 0 {
        None
    } else {
        match first_index(keys.drop_last(), k) {
            Some(j) => Some(j),
            None => if keys.last() == k {
                Some(keys.len() - 1)
            } else {
                None
            },
        }
    }
}

/// The keys are pairwise distinct.
pub open spec fn keys_unique(keys: Seq<Seq<char>>) -> bool {
    forall|i: int, j: int| 0 <= i < j < keys.len() ==> keys[i] != keys[j]
}

/// The names of the fields of a struct interface type view.
pub open spec fn itv_keys(s: Seq<(Seq<char>, Option<Seq<char>>, InterfaceTypView)>) -> Seq<Seq<char>> {
    s.map_values(|e: (Seq<char>, Option<Seq<char>>, InterfaceTypView)| e.0)
}

/// Facts about the first index of a key.
pub proof fn lemma_first_index(keys: Seq<Seq<char>>, k: Seq<char>)
    ensures
        first_index(keys, k) is Some <==> exists|j: int| 0 <= j < keys.len() && keys[j] == k,
        first_index(keys, k) matches Some(j) ==> 0 <= j < keys.len() && keys[j] == k && forall|i: int|
            0 <= i < j ==> keys[i] != k,
    decreases keys.len(),
{
    if keys.len() > 0 {
        lemma_first_index(keys.drop_last(), k);
        if first_index(keys.drop_last(), k) is None && keys.last() != k {
            assert forall|j: int| 0 <= j < keys.len() implies keys[j] != k by {
                if j < keys.len() - 1 {
                    assert(keys.drop_last()[j] == keys[j]);
                }
            }
        }
        if first_index(keys.drop_last(), k) is Some {
            let j = first_index(keys.drop_last(), k)->0;
            assert(keys.drop_last()[j] == keys[j]);
            assert forall|i: int| 0 <= i < j implies keys[i] != k by {
                assert(keys.drop_last()[i] == keys[i]);
            }
        } else if keys.last() == k {
            assert forall|i: int| 0 <= i < keys.len() - 1 implies keys[i] != k by {
                assert(keys.drop_last()[i] == keys[i]);
            }
        }
    }
}

/// With distinct keys, the first index of the key at `j` is `j`.
pub proof fn lemma_first_index_unique(keys: Seq<Seq<char>>, j: int)
    requires
        keys_unique(keys),
        0 <= j < keys.len(),
    ensures
        first_index(keys, keys[j]) == Some(j),
{
    lemma_first_index(keys, keys[j]);
    let r = first_index(keys, keys[j]);
    assert(r is Some);
    let i = r->0;
    if i < j {
        assert(keys[i] != keys[j]);
    }
    if i > j {
        assert(keys[j] != keys[j]);
    }
}

/// Every struct in the interface type has distinct field names.
pub open spec fn itv_wf(t: InterfaceTypView) -> bool
    decreases t,
{
    match t {
        InterfaceTypView::Array(b, _) => itv_wf(*b),
        InterfaceTypView::Struct(s) => keys_unique(itv_keys(s)) && itvfields_wf(s),
        _ => true,
    }
}

/// Every field type has distinct field names in its structs.
pub open spec fn itvfields_wf(s: Seq<(Seq<char>, Option<Seq<char>>, InterfaceTypView)>) -> bool
    decreases s,
{
    if s.len() == 0 {
        true
    } else {
        itvfields_wf(s.drop_last()) && itv_wf(s.last().2)
    }
}

/// Puts `node` in front of each path.
pub open spec fn prefix_all(ps: Seq<(InterfaceTypView, Seq<NodeView>)>, node: NodeView) -> Seq<
    (InterfaceTypView, Seq<NodeView>),
> {
    ps.map_values(|p: (InterfaceTypView, Seq<NodeView>)| (p.0, seq![node] + p.1))
}

/// Primitive interface types (unit or channel) in an interface type, with their paths,
/// in order.
pub open spec fn itv_prims(t: InterfaceTypView) -> Seq<(InterfaceTypView, Seq<NodeView>)>
    decreases t,
{
    match t {
        InterfaceTypView::Array(b, n) => array_prims(itv_prims(*b), n as nat),
        InterfaceTypView::Struct(s) => itvfields_prims(s),
        _ => seq![(t, seq![])],
    }
}

/// Primitives of `n` array elements whose primitives are `ps`.
pub open spec fn array_prims(ps: Seq<(InterfaceTypView, Seq<NodeView>)>, n: nat) -> Seq<
    (InterfaceTypView, Seq<NodeView>),
>
    decreases n,
{
    if n == 0 {
        seq![]
    } else {
        array_prims(ps, (n - 1) as nat) + prefix_all(ps, NodeView::Index((n - 1) as usize))
    }
}

/// Primitives of the fields of a struct, in field order.
pub open spec fn itvfields_prims(s: Seq<(Seq<char>, Option<Seq<char>>, InterfaceTypView)>) -> Seq<
    (InterfaceTypView, Seq<NodeView>),
>
    decreases s,
{
    if s.len() == 0 {
        seq![]
    } else {
        itvfields_prims(s.drop_last()) + prefix_all(
            itv_prims(s.last().2),
            NodeView::Field(s.last().0, s.last().1),
        )
    }
}

/// The path leads into the interface type: indices are in range and fields exist.
pub open spec fn itv_path_ok(t: InterfaceTypView, path: Seq<NodeView>) -> bool
    decreases path.len(),
{
    if path.len() == 0 {
        true
    } else {
        match (path[0], t) {
            (NodeView::Index(i), InterfaceTypView::Array(b, n)) => i < n && itv_path_ok(*b, path.drop_first()),
            (NodeView::Field(f, _), InterfaceTypView::Struct(s)) => match first_index(itv_keys(s), f) {
                Some(j) => itv_path_ok(s[j].2, path.drop_first()),
                None => false,
            },
            _ => false,
        }
    }
}

/// The interface type found at `path`.
pub open spec fn itv_sub(t: InterfaceTypView, path: Seq<NodeView>) -> InterfaceTypView
    decreases path.len(),
{
    if path.len() == 0 {
        t
    } else {
        match (path[0], t) {
            (NodeView::Index(_), InterfaceTypView::Array(b, _)) => itv_sub(*b, path.drop_first()),
            (NodeView::Field(f, _), InterfaceTypView::Struct(s)) => match first_index(itv_keys(s), f) {
                Some(j) => itv_sub(s[j].2, path.drop_first()),
                None => t,
            },
            _ => t,
        }
    }
}

/// Product of the lengths of the nested arrays at the top of an interface type.
pub open spec fn nested_len(t: InterfaceTypView) -> nat
    decreases t,
{
    match t {
        InterfaceTypView::Array(b, n) => nested_len(*b) * (n as nat),
        _ => 1,
    }
}

/// The product of nested array lengths can be computed without overflow.
pub open spec fn nested_fits(t: InterfaceTypView) -> bool
    decreases t,
{
    match t {
        InterfaceTypView::Array(b, n) => nested_fits(*b) && nested_len(t) <= usize::MAX,
        _ => true,
    }
}

/// Interface types are equal, struct fields compared regardless of their order.
pub open spec fn itv_eqv(a: InterfaceTypView, b: InterfaceTypView) -> bool
    decreases a,
{
    match (a, b) {
        (InterfaceTypView::Unit, InterfaceTypView::Unit) => true,
        (InterfaceTypView::Channel(x), InterfaceTypView::Channel(y)) => x == y,
        (InterfaceTypView::Array(x, n), InterfaceTypView::Array(y, m)) => n == m && itv_eqv(*x, *y),
        (InterfaceTypView::Struct(l), InterfaceTypView::Struct(r)) => l.len() == r.len() && itvfields_in(
            l,
            r,
        ),
        _ => false,
    }
}

/// Every field of `l` is found in `r` under its name, with the same separator and
/// an equal type.
pub open spec fn itvfields_in(
    l: Seq<(Seq<char>, Option<Seq<char>>, InterfaceTypView)>,
    r: Seq<(Seq<char>, Option<Seq<char>>, InterfaceTypView)>,
) -> bool
    decreases l,
{
    if l.len() == 0 {
        true
    } else {
        itvfields_in(l.drop_last(), r) && match first_index(itv_keys(r), l.last().0) {
            Some(j) => l.last().1 == r[j].1 && itv_eqv(l.last().2, r[j].2),
            None => false,
        }
    }
}

impl Clone for InterfaceTyp {
    fn clone(&self) -> (r: Self)
        ensures
            r@ == self@,
        decreases self,
    {
        match self {
            InterfaceTyp::Unit => InterfaceTyp::Unit,
            InterfaceTyp::Channel(c) => InterfaceTyp::Channel(c.clone()),
            InterfaceTyp::Array(b, n) => {
                let inner = (**b).clone();
                InterfaceTyp::Array(Box::new(inner), *n)
            }
            InterfaceTyp::Struct(fields) => {
                let ghost fv = itfields_view(fields@);
                proof {
                    lemma_itfields_view(fields@);
                }
                let mut out: Vec<(String, (Option<String>, InterfaceTyp))> = Vec::new();
                let mut i: usize = 0;
                while i < fields.len()
                    invariant
                        *self == InterfaceTyp::Struct(*fields),
                        fv == itfields_view(fields@),
                        fv.len() == fields@.len(),
                        i <= fields@.len(),
                        itfields_view(out@) == fv.take(i as int),
                    decreases fields@.len() - i,
                {
                    proof {
                        lemma_itfield_decreases(*self, i as int);
                        lemma_itfields_view(fields@);
                    }
                    let name = fields[i].0.clone();
                    let sep = clone_opt_string(&fields[i].1.0);
                    let t = fields[i].1.1.clone();
                    let ghost prev = out@;
                    out.push((name, (sep, t)));
                    proof {
                        assert(out@.drop_last() =~= prev);
                        assert(fv.take(i as int + 1) =~= fv.take(i as int).push(fv[i as int]));
                    }
                    i = i + 1;
                }
                assert(fv.take(fields@.len() as int) =~= fv);
                InterfaceTyp::Struct(out)
            }
        }
    }
}

/// Index of the first field named `key`.
pub fn find_field<T>(fields: &Vec<(String, T)>, key: &String) -> (r: Option<usize>)
    ensures
        r matches Some(j) ==> Some(j as int) == first_index(fields@.map_values(|e: (String, T)| e.0@), key@)
            && j < fields@.len(),
        r is None ==> first_index(fields@.map_values(|e: (String, T)| e.0@), key@) is None,
{
    let ghost keys = fields@.map_values(|e: (String, T)| e.0@);
    let mut i: usize = 0;
    while i < fields.len()
        invariant
            keys == fields@.map_values(|e: (String, T)| e.0@),
            i <= fields@.len(),
            first_index(keys.take(i as int), key@) is None,
        decreases fields@.len() - i,
    {
        proof {
            assert(keys.take(i as int + 1).drop_last() =~= keys.take(i as int));
        }
        if fields[i].0.eq(key) {
            proof {
                lemma_first_index_prefix(keys, key@, i as int + 1);
                lemma_first_index(keys.take(i as int + 1), key@);
            }
            return Some(i);
        }
        i = i + 1;
    }
    assert(keys.take(fields@.len() as int) =~= keys);
    None
}

/// A match in a prefix is the first match overall.
pub proof fn lemma_first_index_prefix(keys: Seq<Seq<char>>, k: Seq<char>, n: int)
    requires
        0 <= n <= keys.len(),
        first_index(keys.take(n), k) is Some,
    ensures
        first_index(keys, k) == first_index(keys.take(n), k),
    decreases keys.len(),
{
    if n < keys.len() {
        assert(keys.drop_last().take(n) =~= keys.take(n));
        lemma_first_index_prefix(keys.drop_last(), k, n);
    } else {
        assert(keys.take(n) =~= keys);
    }
}

/// The names of the exec fields are those of their views.
pub proof fn lemma_itfields_keys(s: Seq<(String, (Option<String>, InterfaceTyp))>)
    ensures
        s.map_values(|e: (String, (Option<String>, InterfaceTyp))| e.0@) == itv_keys(itfields_view(s)),
{
    lemma_itfields_view(s);
    assert(s.map_values(|e: (String, (Option<String>, InterfaceTyp))| e.0@) =~= itv_keys(itfields_view(s)));
}

impl InterfaceTyp {
    /// Whether two interface types are equal, comparing struct fields regardless of order.
    pub fn same(&self, other: &InterfaceTyp) -> (r: bool)
        ensures
            r == itv_eqv(self@, other@),
        decreases self,
    {
        match (self, other) {
            (InterfaceTyp::Unit, InterfaceTyp::Unit) => true,
            (InterfaceTyp::Channel(x), InterfaceTyp::Channel(y)) => x.same(y),
            (InterfaceTyp::Array(x, n), InterfaceTyp::Array(y, m)) => {
                if *n != *m {
                    return false;
                }
                (**x).same(&**y)
            }
            (InterfaceTyp::Struct(l), InterfaceTyp::Struct(r)) => {
                let ghost lv = itfields_view(l@);
                let ghost rv = itfields_view(r@);
                proof {
                    lemma_itfields_view(l@);
                    lemma_itfields_view(r@);
                    lemma_itfields_keys(r@);
                }
                if l.len() != r.len() {
                    return false;
                }
                let mut i: usize = 0;
                while i < l.len()
                    invariant
                        *self == InterfaceTyp::Struct(*l),
                        *other == InterfaceTyp::Struct(*r),
                        lv == itfields_view(l@),
                        rv == itfields_view(r@),
                        lv.len() == l@.len(),
                        rv.len() == r@.len(),
                        r@.map_values(|e: (String, (Option<String>, InterfaceTyp))| e.0@) == itv_keys(rv),
                        i <= l@.len(),
                        itvfields_in(lv.take(i as int), rv),
                    decreases l@.len() - i,
                {
                    proof {
                        lemma_itfield_decreases(*self, i as int);
                        lemma_itfields_view(l@);
                        lemma_itfields_view(r@);
                        assert(lv.take(i as int + 1).drop_last() =~= lv.take(i as int));
                    }
                    let j = find_field(r, &l[i].0);
                    proof {
                        assert(lv.take(i as int + 1).last() == lv[i as int]);
                    }
                    match j {
                        Some(j) => {
                            let sep_eq = match (&l[i].1.0, &r[j].1.0) {
                                (Some(a), Some(b)) => a.eq(b),
                                (None, None) => true,
                                _ => false,
                            };
                            if !sep_eq || !l[i].1.1.same(&r[j].1.1) {
                                proof {
                                    assert(!itvfields_in(lv, rv)) by {
                                        lemma_itvfields_in_prefix(lv, rv, i as int + 1);
                                    }
                                }
                                return false;
                            }
                        }
                        None => {
                            proof {
                                lemma_itvfields_in_prefix(lv, rv, i as int + 1);
                            }
                            return false;
                        }
                    }
                    i = i + 1;
                }
                assert(lv.take(l@.len() as int) =~= lv);
                true
            }
            _ => false,
        }
    }
}

/// A prefix of the fields is found whenever all of them are.
pub proof fn lemma_itvfields_in_prefix(
    l: Seq<(Seq<char>, Option<Seq<char>>, InterfaceTypView)>,
    r: Seq<(Seq<char>, Option<Seq<char>>, InterfaceTypView)>,
    n: int,
)
    requires
        0 <= n <= l.len(),
    ensures
        itvfields_in(l, r) ==> itvfields_in(l.take(n), r),
    decreases l.len(),
{
    if n < l.len() {
        assert(l.drop_last().take(n) =~= l.take(n));
        lemma_itvfields_in_prefix(l.drop_last(), r, n);
    } else {
        assert(l.take(n) =~= l);
    }
}

impl PartialEq for InterfaceTyp {
    fn eq(&self, other: &Self) -> (r: bool) {
        self.same(other)
    }
}

impl vstd::std_specs::cmp::PartialEqSpecImpl for InterfaceTyp {
    open spec fn obeys_eq_spec() -> bool {
        true
    }

    open spec fn eq_spec(&self, other: &InterfaceTyp) -> bool {
        itv_eqv(self@, other@)
    }
}

/// Views of interface types paired with paths.
pub open spec fn typ_paths_view(s: Seq<(InterfaceTyp, EndpointPath)>) -> Seq<(InterfaceTypView, Seq<NodeView>)> {
    s.map_values(|x: (InterfaceTyp, EndpointPath)| (x.0@, x.1@))
}

/// Appends to `out` the primitives `ps` with `node` put in front of each path.
fn push_prefixed(ps: &Vec<(InterfaceTyp, EndpointPath)>, node: &EndpointNode, out: &mut Vec<(InterfaceTyp, EndpointPath)>)
    ensures
        typ_paths_view(final(out)@) == typ_paths_view(old(out)@) + prefix_all(typ_paths_view(ps@), node@),
{
    let ghost out0 = typ_paths_view(out@);
    let ghost pv = typ_paths_view(ps@);
    let mut i: usize = 0;
    while i < ps.len()
        invariant
            pv == typ_paths_view(ps@),
            i <= ps@.len(),
            typ_paths_view(out@) == out0 + prefix_all(pv.take(i as int), node@),
        decreases ps@.len() - i,
    {
        let t = ps[i].0.clone();
        let mut path = ps[i].1.clone();
        path.push_front(node.clone());
        let ghost prev = out@;
        out.push((t, path));
        proof {
            assert(typ_paths_view(out@) =~= typ_paths_view(prev).push((t@, path@)));
            assert(prefix_all(pv.take(i as int + 1), node@) =~= prefix_all(pv.take(i as int), node@).push(
                (pv[i as int].0, seq![node@] + pv[i as int].1),
            ));
        }
        i = i + 1;
    }
    assert(pv.take(ps@.len() as int) =~= pv);
}

impl InterfaceTyp {
    /// Returns channel_typ if the interface type is single channel.
    pub fn get_channel_typ(self) -> (r: Option<ChannelTyp>)
        ensures
            r matches Some(c) ==> self@ == InterfaceTypView::Channel(c@),
            r is None ==> !(self@ is Channel),
    {
        if let InterfaceTyp::Channel(channel_typ) = self {
            Some(channel_typ)
        } else {
            None
        }
    }

    /// Returns primitive interface types and their endpoint paths in the interface type.
    pub fn into_primitives(&self) -> (r: Vec<(InterfaceTyp, EndpointPath)>)
        ensures
            typ_paths_view(r@) == itv_prims(self@),
        decreases self,
    {
        match self {
            InterfaceTyp::Unit | InterfaceTyp::Channel(_) => {
                let r = vec![(self.clone(), EndpointPath::default())];
                assert(typ_paths_view(r@) =~= itv_prims(self@));
                r
            }
            InterfaceTyp::Array(interface_typ, count) => {
                let inner = interface_typ.into_primitives();
                let mut out: Vec<(InterfaceTyp, EndpointPath)> = Vec::new();
                let mut i: usize = 0;
                assert(typ_paths_view(out@) =~= array_prims(itv_prims(interface_typ@), 0));
                while i < *count
                    invariant
                        i <= *count,
                        typ_paths_view(inner@) == itv_prims(interface_typ@),
                        typ_paths_view(out@) == array_prims(itv_prims(interface_typ@), i as nat),
                    decreases *count - i,
                {
                    push_prefixed(&inner, &EndpointNode::Index(i), &mut out);
                    i = i + 1;
                }
                out
            }
            InterfaceTyp::Struct(fields) => {
                let ghost fv = itfields_view(fields@);
                proof {
                    lemma_itfields_view(fields@);
                }
                let mut out: Vec<(InterfaceTyp, EndpointPath)> = Vec::new();
                let mut i: usize = 0;
                assert(typ_paths_view(out@) =~= itvfields_prims(fv.take(0)));
                while i < fields.len()
                    invariant
                        *self == InterfaceTyp::Struct(*fields),
                        fv == itfields_view(fields@),
                        fv.len() == fields@.len(),
                        i <= fields@.len(),
                        typ_paths_view(out@) == itvfields_prims(fv.take(i as int)),
                    decreases fields@.len() - i,
                {
                    proof {
                        lemma_itfield_decreases(*self, i as int);
                        lemma_itfields_view(fields@);
                        assert(fv.take(i as int + 1).drop_last() =~= fv.take(i as int));
                    }
                    let inner = fields[i].1.1.into_primitives();
                    let node = EndpointNode::Field(fields[i].0.clone(), clone_opt_string(&fields[i].1.0));
                    push_prefixed(&inner, &node, &mut out);
                    i = i + 1;
                }
                assert(fv.take(fields@.len() as int) =~= fv);
                out
            }
        }
    }

    /// Returns subinterface given a endpoint path.
    pub fn get_subinterface(&self, path: EndpointPath) -> (r: InterfaceTyp)
        requires
            itv_path_ok(self@, path@),
        ensures
            r@ == itv_sub(self@, path@),
        decreases path@.len(),
    {
        let mut path = path;
        let ghost p0 = path@;
        match path.pop_front() {
            Some(front) => {
                match (front, self) {
                    (EndpointNode::Index(_i), InterfaceTyp::Array(typ, _size)) => typ.get_subinterface(path),
                    (EndpointNode::Field(field, _), InterfaceTyp::Struct(map)) => {
                        proof {
                            lemma_itfields_keys(map@);
                            lemma_itfields_view(map@);
                        }
                        match find_field(map, &field) {
                            Some(j) => map[j].1.1.get_subinterface(path),
                            None => {
                                proof {
                                    assert(false);
                                }
                                self.clone()
                            }
                        }
                    }
                    _ => {
                        proof {
                            assert(false);
                        }
                        self.clone()
                    }
                }
            }
            None => self.clone(),
        }
    }

    /// Returns true if the interface contains channel.
    pub fn contains_channel(&self) -> (r: bool)
        ensures
            r == exists|i: int| 0 <= i < itv_prims(self@).len() && (#[trigger] itv_prims(self@)[i]).0 is Channel,
    {
        let prims = self.into_primitives();
        let ghost pv = typ_paths_view(prims@);
        let mut i: usize = 0;
        while i < prims.len()
            invariant
                pv == typ_paths_view(prims@),
                pv == itv_prims(self@),
                i <= prims@.len(),
                forall|j: int| 0 <= j < i ==> !((#[trigger] pv[j]).0 is Channel),
            decreases prims@.len() - i,
        {
            if let InterfaceTyp::Channel(_) = &prims[i].0 {
                assert(pv[i as int].0 is Channel);
                return true;
            }
            i = i + 1;
        }
        false
    }

    /// Product of the lengths of the nested arrays at the top of the interface type.
    pub fn nested_array_flattened_len(&self) -> (r: usize)
        requires
            nested_fits(self@),
        ensures
            r == nested_len(self@),
        decreases self,
    {
        match self {
            InterfaceTyp::Array(inner, len) => inner.nested_array_flattened_len() * *len,
            _ => 1,
        }
    }
}

/// The primitive `x` is found in `t` at its path.
pub open spec fn prim_found(t: InterfaceTypView, x: (InterfaceTypView, Seq<NodeView>)) -> bool {
    itv_path_ok(t, x.1) && itv_sub(t, x.1) == x.0
}

/// Every field type of well-formed fields is well-formed.
pub proof fn lemma_itvfields_wf(s: Seq<(Seq<char>, Option<Seq<char>>, InterfaceTypView)>, j: int)
    requires
        itvfields_wf(s),
        0 <= j < s.len(),
    ensures
        itv_wf(s[j].2),
    decreases s.len(),
{
    if j < s.len() - 1 {
        lemma_itvfields_wf(s.drop_last(), j);
    }
}

/// Primitives of array elements are found in the array at their paths.
proof fn lemma_array_prims_found(b: InterfaceTypView, n: usize, ps: Seq<(InterfaceTypView, Seq<NodeView>)>, k: nat)
    requires
        k <= n,
        forall|m: int| 0 <= m < ps.len() ==> #[trigger] prim_found(b, ps[m]),
    ensures
        forall|m: int|
            0 <= m < array_prims(ps, k).len() ==> #[trigger] prim_found(
                InterfaceTypView::Array(Box::new(b), n),
                array_prims(ps, k)[m],
            ),
    decreases k,
{
    let t = InterfaceTypView::Array(Box::new(b), n);
    if k > 0 {
        lemma_array_prims_found(b, n, ps, (k - 1) as nat);
        let a = array_prims(ps, (k - 1) as nat);
        let q = prefix_all(ps, NodeView::Index((k - 1) as usize));
        assert forall|m: int| 0 <= m < array_prims(ps, k).len() implies #[trigger] prim_found(t, array_prims(ps, k)[m]) by {
            if m < a.len() {
                assert(array_prims(ps, k)[m] == a[m]);
            } else {
                let x = array_prims(ps, k)[m];
                assert(x == q[m - a.len()]);
                let y = ps[m - a.len()];
                assert(prim_found(b, y));
                assert(x.1.drop_first() =~= y.1);
                assert(x.1[0] == NodeView::Index((k - 1) as usize));
            }
        }
    }
}

/// Law: every primitive of a well-formed interface type is found in it at its path.
pub proof fn lemma_prims_found(t: InterfaceTypView)
    requires
        itv_wf(t),
    ensures
        forall|m: int| 0 <= m < itv_prims(t).len() ==> #[trigger] prim_found(t, itv_prims(t)[m]),
    decreases t, 0nat,
{
    match t {
        InterfaceTypView::Array(b, n) => {
            lemma_prims_found(*b);
            lemma_array_prims_found(*b, n, itv_prims(*b), n as nat);
            assert(t == InterfaceTypView::Array(Box::new(*b), n));
            assert(itv_prims(t) == array_prims(itv_prims(*b), n as nat));
            assert forall|m: int| 0 <= m < itv_prims(t).len() implies #[trigger] prim_found(t, itv_prims(t)[m]) by {
                assert(prim_found(InterfaceTypView::Array(Box::new(*b), n), array_prims(itv_prims(*b), n as nat)[m]));
            }
        }
        InterfaceTypView::Struct(s) => {
            lemma_fields_prims_found(s, s.len());
            assert(s.take(s.len() as int) =~= s);
            assert forall|m: int| 0 <= m < itv_prims(t).len() implies #[trigger] prim_found(t, itv_prims(t)[m]) by {
                assert(prim_found(InterfaceTypView::Struct(s), itvfields_prims(s.take(s.len() as int))[m]));
            }
        }
        _ => {
            assert forall|m: int| 0 <= m < itv_prims(t).len() implies #[trigger] prim_found(t, itv_prims(t)[m]) by {
                assert(itv_prims(t)[m] == (t, Seq::<NodeView>::empty()));
            }
        }
    }
}

/// The primitives of the first `k` fields of a well-formed struct are found in it.
proof fn lemma_fields_prims_found(s: Seq<(Seq<char>, Option<Seq<char>>, InterfaceTypView)>, k: nat)
    requires
        k <= s.len(),
        keys_unique(itv_keys(s)),
        itvfields_wf(s),
    ensures
        forall|m: int|
            0 <= m < itvfields_prims(s.take(k as int)).len() ==> #[trigger] prim_found(
                InterfaceTypView::Struct(s),
                itvfields_prims(s.take(k as int))[m],
            ),
    decreases s, k,
{
    let t = InterfaceTypView::Struct(s);
    if k > 0 {
        lemma_fields_prims_found(s, (k - 1) as nat);
        let j = k - 1;
        assert(s.take(k as int).drop_last() =~= s.take(j as int));
        assert(s.take(k as int).last() == s[j as int]);
        let e = s[j as int];
        assert(decreases_to!(s => s[j as int]));
        lemma_itvfields_wf(s, j as int);
        lemma_prims_found(e.2);
        let keys = itv_keys(s);
        lemma_first_index_unique(keys, j as int);
        let a = itvfields_prims(s.take(j as int));
        let ps = itv_prims(e.2);
        let q = prefix_all(ps, NodeView::Field(e.0, e.1));
        assert forall|m: int| 0 <= m < itvfields_prims(s.take(k as int)).len() implies #[trigger] prim_found(
            t,
            itvfields_prims(s.take(k as int))[m],
        ) by {
            if m < a.len() {
                assert(itvfields_prims(s.take(k as int))[m] == a[m]);
            } else {
                let x = itvfields_prims(s.take(k as int))[m];
                assert(x == q[m - a.len()]);
                let y = ps[m - a.len()];
                assert(prim_found(e.2, y));
                assert(x.1.drop_first() =~= y.1);
                assert(x.1[0] == NodeView::Field(e.0, e.1));
                assert(keys[j as int] == e.0);
            }
        }
    } else {
        assert(s.take(0) =~= Seq::<(Seq<char>, Option<Seq<char>>, InterfaceTypView)>::empty());
    }
}

/// Input/output interface.
#[derive(Debug, PartialEq, Eq)]
pub enum Interface {
    /// Unit
    Unit,

    /// Single channel
    Channel(Channel),

    /// Array of interfaces
    Array(Vec<Interface>),

    /// Struct of interfaces, in field order: name, separator (`None` means `_`) and
    /// interface of each field. Names are distinct.
    Struct(Vec<(String, (Option<String>, Interface))>),

    /// Unwired interface of the given type
    Unwired(InterfaceTyp),
}

/// Mathematical value of an interface.
pub enum InterfaceView {
    /// Unit
    Unit,

    /// Single channel
    Channel(ChannelView),

    /// Array of interfaces
    Array(Seq<InterfaceView>),

    /// Struct of interfaces: name, separator and interface of each field.
    Struct(Seq<(Seq<char>, Option<Seq<char>>, InterfaceView)>),

    /// Unwired interface
    Unwired(InterfaceTypView),
}

/// View of an interface.
pub open spec fn itf_view(i: Interface) -> InterfaceView
    decreases i,
{
    match i {
        Interface::Unit => InterfaceView::Unit,
        Interface::Channel(c) => InterfaceView::Channel(c@),
        Interface::Array(v) => InterfaceView::Array(itfs_view(v@)),
        Interface::Struct(v) => InterfaceView::Struct(itffields_view(v@)),
        Interface::Unwired(t) => InterfaceView::Unwired(t@),
    }
}

/// Views of the elements of an array interface.
pub open spec fn itfs_view(s: Seq<Interface>) -> Seq<InterfaceView>
    decreases s,
{
    if s.len() == 0 {
        seq![]
    } else {
        itfs_view(s.drop_last()).push(itf_view(s.last()))
    }
}

/// Views of the fields of a struct interface.
pub open spec fn itffields_view(s: Seq<(String, (Option<String>, Interface))>) -> Seq<
    (Seq<char>, Option<Seq<char>>, InterfaceView),
>
    decreases s,
{
    if s.len() == 0 {
        seq![]
    } else {
        itffields_view(s.drop_last()).push((s.last().0@, opt_view(s.last().1.0), itf_view(s.last().1.1)))
    }
}

impl View for Interface {
    type V = InterfaceView;

    open spec fn view(&self) -> InterfaceView {
        itf_view(*self)
    }
}

/// The views of the elements, one by one.
pub proof fn lemma_itfs_view(s: Seq<Interface>)
    ensures
        itfs_view(s).len() == s.len(),
        forall|i: int| 0 <= i < s.len() ==> #[trigger] itfs_view(s)[i] == itf_view(s[i]),
    decreases s.len(),
{
    if s.len() > 0 {
        lemma_itfs_view(s.drop_last());
    }
}

/// The views of the fields, one by one.
pub proof fn lemma_itffields_view(s: Seq<(String, (Option<String>, Interface))>)
    ensures
        itffields_view(s).len() == s.len(),
        forall|i: int|
            0 <= i < s.len() ==> #[trigger] itffields_view(s)[i] == (
                s[i].0@,
                opt_view(s[i].1.0),
                itf_view(s[i].1.1),
            ),
    decreases s.len(),
{
    if s.len() > 0 {
        lemma_itffields_view(s.drop_last());
    }
}

/// The names of the exec fields are those of their views.
pub proof fn lemma_itffields_keys(s: Seq<(String, (Option<String>, Interface))>)
    ensures
        s.map_values(|e: (String, (Option<String>, Interface))| e.0@) == itf_keys(itffields_view(s)),
{
    lemma_itffields_view(s);
    assert(s.map_values(|e: (String, (Option<String>, Interface))| e.0@) =~= itf_keys(itffields_view(s)));
}

/// The names of the fields of a struct interface view.
pub open spec fn itf_keys(s: Seq<(Seq<char>, Option<Seq<char>>, InterfaceView)>) -> Seq<Seq<char>> {
    s.map_values(|e: (Seq<char>, Option<Seq<char>>, InterfaceView)| e.0)
}

/// Element `k` of an array interface is smaller than the array.
pub proof fn lemma_itf_elem_decreases(i: Interface, k: int)
    requires
        i is Array,
        0 <= k < i->Array_0@.len(),
    ensures
        decreases_to!(i => i->Array_0@[k]),
{
    let v = i->Array_0;
    assert(decreases_to!(i => i->Array_0));
    assert(decreases_to!(v => v[k]));
}

/// Field `k` of a struct interface is smaller than the struct.
pub proof fn lemma_itf_field_decreases(i: Interface, k: int)
    requires
        i is Struct,
        0 <= k < i->Struct_0@.len(),
    ensures
        decreases_to!(i => i->Struct_0@[k].1.1),
{
    let v = i->Struct_0;
    assert(decreases_to!(i => i->Struct_0));
    assert(decreases_to!(v => v[k]));
    assert(decreases_to!(v[k] => v[k].1));
    assert(decreases_to!(v[k].1 => v[k].1.1));
}

/// The type of an interface can be computed: every array, down the first elements, is
/// nonempty.
pub open spec fn itf_typ_ok(i: InterfaceView) -> bool
    decreases i,
{
    match i {
        InterfaceView::Array(v) => v.len() > 0 && v.len() <= usize::MAX && itf_typ_ok(v[0]),
        InterfaceView::Struct(s) => itffields_typ_ok(s),
        _ => true,
    }
}

/// The types of all the fields can be computed.
pub open spec fn itffields_typ_ok(s: Seq<(Seq<char>, Option<Seq<char>>, InterfaceView)>) -> bool
    decreases s,
{
    if s.len() == 0 {
        true
    } else {
        itffields_typ_ok(s.drop_last()) && itf_typ_ok(s.last().2)
    }
}

/// The type of an interface; an array takes the type of its first element.
pub open spec fn itf_typ(i: InterfaceView) -> InterfaceTypView
    decreases i,
{
    match i {
        InterfaceView::Unit => InterfaceTypView::Unit,
        InterfaceView::Channel(c) => InterfaceTypView::Channel(c.typ),
        InterfaceView::Array(v) => InterfaceTypView::Array(
            Box::new(if v.len() > 0 { itf_typ(v[0]) } else { InterfaceTypView::Unit }),
            v.len() as usize,
        ),
        InterfaceView::Struct(s) => InterfaceTypView::Struct(itffields_typ(s)),
        InterfaceView::Unwired(t) => t,
    }
}

/// The types of the fields.
pub open spec fn itffields_typ(s: Seq<(Seq<char>, Option<Seq<char>>, InterfaceView)>) -> Seq<
    (Seq<char>, Option<Seq<char>>, InterfaceTypView),
>
    decreases s,
{
    if s.len() == 0 {
        seq![]
    } else {
        itffields_typ(s.drop_last()).push((s.last().0, s.last().1, itf_typ(s.last().2)))
    }
}

/// Whether an unwired interface occurs in the interface.
pub open spec fn itf_has_unwired(i: InterfaceView) -> bool
    decreases i,
{
    match i {
        InterfaceView::Unwired(_) => true,
        InterfaceView::Array(v) => itfs_has_unwired(v),
        InterfaceView::Struct(s) => itffields_has_unwired(s),
        _ => false,
    }
}

/// Whether an unwired interface occurs in one of the elements.
pub open spec fn itfs_has_unwired(v: Seq<InterfaceView>) -> bool
    decreases v,
{
    if v.len() == 0 {
        false
    } else {
        itfs_has_unwired(v.drop_last()) || itf_has_unwired(v.last())
    }
}

/// Whether an unwired interface occurs in one of the fields.
pub open spec fn itffields_has_unwired(s: Seq<(Seq<char>, Option<Seq<char>>, InterfaceView)>) -> bool
    decreases s,
{
    if s.len() == 0 {
        false
    } else {
        itffields_has_unwired(s.drop_last()) || itf_has_unwired(s.last().2)
    }
}

/// Puts `node` in front of each path.
pub open spec fn iprefix_all(ps: Seq<(InterfaceView, Seq<NodeView>)>, node: NodeView) -> Seq<(InterfaceView, Seq<NodeView>)> {
    ps.map_values(|p: (InterfaceView, Seq<NodeView>)| (p.0, seq![node] + p.1))
}

/// Channels of an interface with their paths, in order.
pub open spec fn itf_prims(i: InterfaceView) -> Seq<(InterfaceView, Seq<NodeView>)>
    decreases i,
{
    match i {
        InterfaceView::Channel(_) => seq![(i, seq![])],
        InterfaceView::Array(v) => itfs_prims(v),
        InterfaceView::Struct(s) => itffields_prims(s),
        _ => seq![],
    }
}

/// Channels of the elements of an array, in order.
pub open spec fn itfs_prims(v: Seq<InterfaceView>) -> Seq<(InterfaceView, Seq<NodeView>)>
    decreases v,
{
    if v.len() == 0 {
        seq![]
    } else {
        itfs_prims(v.drop_last()) + iprefix_all(itf_prims(v.last()), NodeView::Index((v.len() - 1) as usize))
    }
}

/// Channels of the fields of a struct, in order.
pub open spec fn itffields_prims(s: Seq<(Seq<char>, Option<Seq<char>>, InterfaceView)>) -> Seq<
    (InterfaceView, Seq<NodeView>),
>
    decreases s,
{
    if s.len() == 0 {
        seq![]
    } else {
        itffields_prims(s.drop_last()) + iprefix_all(itf_prims(s.last().2), NodeView::Field(s.last().0, s.last().1))
    }
}

/// The path leads into the interface: indices are in range and fields exist.
pub open spec fn itf_path_ok(i: InterfaceView, path: Seq<NodeView>) -> bool
    decreases path.len(),
{
    if path.len() == 0 {
        true
    } else {
        match (path[0], i) {
            (NodeView::Index(k), InterfaceView::Array(v)) => k < v.len() && itf_path_ok(v[k as int], path.drop_first()),
            (NodeView::Field(f, _), InterfaceView::Struct(s)) => match first_index(itf_keys(s), f) {
                Some(j) => itf_path_ok(s[j].2, path.drop_first()),
                None => false,
            },
            _ => false,
        }
    }
}

/// The interface found at `path`.
pub open spec fn itf_sub(i: InterfaceView, path: Seq<NodeView>) -> InterfaceView
    decreases path.len(),
{
    if path.len() == 0 {
        i
    } else {
        match (path[0], i) {
            (NodeView::Index(k), InterfaceView::Array(v)) => if k < v.len() {
                itf_sub(v[k as int], path.drop_first())
            } else {
                i
            },
            (NodeView::Field(f, _), InterfaceView::Struct(s)) => match first_index(itf_keys(s), f) {
                Some(j) => itf_sub(s[j].2, path.drop_first()),
                None => i,
            },
            _ => i,
        }
    }
}

/// Views of interfaces paired with paths.
pub open spec fn itf_paths_view(s: Seq<(Interface, EndpointPath)>) -> Seq<(InterfaceView, Seq<NodeView>)> {
    s.map_values(|x: (Interface, EndpointPath)| (x.0@, x.1@))
}

/// Appends to `out` the channels `ps` with `node` put in front of each path.
fn push_prefixed_itf(ps: &Vec<(Interface, EndpointPath)>, node: &EndpointNode, out: &mut Vec<(Interface, EndpointPath)>)
    ensures
        itf_paths_view(final(out)@) == itf_paths_view(old(out)@) + iprefix_all(itf_paths_view(ps@), node@),
{
    let ghost out0 = itf_paths_view(out@);
    let ghost pv = itf_paths_view(ps@);
    let mut i: usize = 0;
    while i < ps.len()
        invariant
            pv == itf_paths_view(ps@),
            i <= ps@.len(),
            itf_paths_view(out@) == out0 + iprefix_all(pv.take(i as int), node@),
        decreases ps@.len() - i,
    {
        let t = ps[i].0.clone();
        let mut path = ps[i].1.clone();
        path.push_front(node.clone());
        let ghost prev = out@;
        out.push((t, path));
        proof {
            assert(itf_paths_view(out@) =~= itf_paths_view(prev).push((t@, path@)));
            assert(iprefix_all(pv.take(i as int + 1), node@) =~= iprefix_all(pv.take(i as int), node@).push(
                (pv[i as int].0, seq![node@] + pv[i as int].1),
            ));
        }
        i = i + 1;
    }
    assert(pv.take(ps@.len() as int) =~= pv);
}

impl Clone for Interface {
    fn clone(&self) -> (r: Self)
        ensures
            r@ == self@,
        decreases self,
    {
        match self {
            Interface::Unit => Interface::Unit,
            Interface::Channel(c) => Interface::Channel(c.clone()),
            Interface::Unwired(t) => Interface::Unwired(t.clone()),
            Interface::Array(v) => {
                let ghost vv = itfs_view(v@);
                proof {
                    lemma_itfs_view(v@);
                }
                let mut out: Vec<Interface> = Vec::new();
                let mut k: usize = 0;
                while k < v.len()
                    invariant
                        *self == Interface::Array(*v),
                        vv == itfs_view(v@),
                        vv.len() == v@.len(),
                        k <= v@.len(),
                        itfs_view(out@) == vv.take(k as int),
                    decreases v@.len() - k,
                {
                    proof {
                        lemma_itf_elem_decreases(*self, k as int);
                        lemma_itfs_view(v@);
                    }
                    let e = v[k].clone();
                    let ghost prev = out@;
                    out.push(e);
                    proof {
                        assert(out@.drop_last() =~= prev);
                        assert(vv.take(k as int + 1) =~= vv.take(k as int).push(vv[k as int]));
                    }
                    k = k + 1;
                }
                assert(vv.take(v@.len() as int) =~= vv);
                Interface::Array(out)
            }
            Interface::Struct(fields) => {
                let ghost fv = itffields_view(fields@);
                proof {
                    lemma_itffields_view(fields@);
                }
                let mut out: Vec<(String, (Option<String>, Interface))> = Vec::new();
                let mut k: usize = 0;
                while k < fields.len()
                    invariant
                        *self == Interface::Struct(*fields),
                        fv == itffields_view(fields@),
                        fv.len() == fields@.len(),
                        k <= fields@.len(),
                        itffields_view(out@) == fv.take(k as int),
                    decreases fields@.len() - k,
                {
                    proof {
                        lemma_itf_field_decreases(*self, k as int);
                        lemma_itffields_view(fields@);
                    }
                    let name = fields[k].0.clone();
                    let sep = clone_opt_string(&fields[k].1.0);
                    let e = fields[k].1.1.clone();
                    let ghost prev = out@;
                    out.push((name, (sep, e)));
                    proof {
                        assert(out@.drop_last() =~= prev);
                        assert(fv.take(k as int + 1) =~= fv.take(k as int).push(fv[k as int]));
                    }
                    k = k + 1;
                }
                assert(fv.take(fields@.len() as int) =~= fv);
                Interface::Struct(out)
            }
        }
    }
}

impl Default for Interface {
    fn default() -> (r: Self)
        ensures
            r@ == InterfaceView::Unit,
    {
        Interface::Unit
    }
}

impl Interface {
    /// Returns the channel if the interface is channel.
    pub fn get_channel(self) -> (r: Option<Channel>)
        ensures
            r matches Some(c) ==> self@ == InterfaceView::Channel(c@),
            r is None ==> !(self@ is Channel),
    {
        if let Interface::Channel(channel) = self {
            Some(channel)
        } else {
            None
        }
    }

    /// Returns the interface type.
    pub fn typ(&self) -> (r: InterfaceTyp)
        requires
            itf_typ_ok(self@),
        ensures
            r@ == itf_typ(self@),
        decreases self,
    {
        match self {
            Interface::Unit => InterfaceTyp::Unit,
            Interface::Channel(channel) => InterfaceTyp::Channel(channel.typ.clone()),
            Interface::Array(inner) => {
                proof {
                    lemma_itfs_view(inner@);
                    lemma_itf_elem_decreases(*self, 0);
                }
                InterfaceTyp::Array(Box::new(inner[0].typ()), inner.len())
            }
            Interface::Struct(fields) => {
                let ghost fv = itffields_view(fields@);
                proof {
                    lemma_itffields_view(fields@);
                }
                let mut out: Vec<(String, (Option<String>, InterfaceTyp))> = Vec::new();
                let mut k: usize = 0;
                while k < fields.len()
                    invariant
                        *self == Interface::Struct(*fields),
                        fv == itffields_view(fields@),
                        fv.len() == fields@.len(),
                        itffields_typ_ok(fv),
                        k <= fields@.len(),
                        itfields_view(out@) == itffields_typ(fv.take(k as int)),
                    decreases fields@.len() - k,
                {
                    proof {
                        lemma_itf_field_decreases(*self, k as int);
                        lemma_itffields_view(fields@);
                        lemma_itffields_typ_ok(fv, k as int);
                        assert(fv.take(k as int + 1).drop_last() =~= fv.take(k as int));
                    }
                    let name = fields[k].0.clone();
                    let sep = clone_opt_string(&fields[k].1.0);
                    let t = fields[k].1.1.typ();
                    let ghost prev = out@;
                    out.push((name, (sep, t)));
                    proof {
                        assert(out@.drop_last() =~= prev);
                    }
                    k = k + 1;
                }
                assert(fv.take(fields@.len() as int) =~= fv);
                InterfaceTyp::Struct(out)
            }
            Interface::Unwired(inner) => inner.clone(),
        }
    }

    /// Returns the channels in the interface, with their paths.
    pub fn into_primitives(&self) -> (r: Vec<(Interface, EndpointPath)>)
        requires
            !itf_has_unwired(self@),
        ensures
            itf_paths_view(r@) == itf_prims(self@),
        decreases self,
    {
        match self {
            Interface::Unit => {
                let r: Vec<(Interface, EndpointPath)> = Vec::new();
                assert(itf_paths_view(r@) =~= itf_prims(self@));
                r
            }
            Interface::Channel(_) => {
                let r = vec![(self.clone(), EndpointPath::default())];
                assert(itf_paths_view(r@) =~= itf_prims(self@));
                r
            }
            Interface::Array(interfaces) => {
                let ghost vv = itfs_view(interfaces@);
                proof {
                    lemma_itfs_view(interfaces@);
                }
                let mut out: Vec<(Interface, EndpointPath)> = Vec::new();
                let mut k: usize = 0;
                assert(itf_paths_view(out@) =~= itfs_prims(vv.take(0)));
                while k < interfaces.len()
                    invariant
                        *self == Interface::Array(*interfaces),
                        vv == itfs_view(interfaces@),
                        vv.len() == interfaces@.len(),
                        !itfs_has_unwired(vv),
                        k <= interfaces@.len(),
                        itf_paths_view(out@) == itfs_prims(vv.take(k as int)),
                    decreases interfaces@.len() - k,
                {
                    proof {
                        lemma_itf_elem_decreases(*self, k as int);
                        lemma_itfs_view(interfaces@);
                        lemma_itfs_no_unwired(vv, k as int);
                        assert(vv.take(k as int + 1).drop_last() =~= vv.take(k as int));
                    }
                    let inner = interfaces[k].into_primitives();
                    push_prefixed_itf(&inner, &EndpointNode::Index(k), &mut out);
                    k = k + 1;
                }
                assert(vv.take(interfaces@.len() as int) =~= vv);
                out
            }
            Interface::Struct(fields) => {
                let ghost fv = itffields_view(fields@);
                proof {
                    lemma_itffields_view(fields@);
                }
                let mut out: Vec<(Interface, EndpointPath)> = Vec::new();
                let mut k: usize = 0;
                assert(itf_paths_view(out@) =~= itffields_prims(fv.take(0)));
                while k < fields.len()
                    invariant
                        *self == Interface::Struct(*fields),
                        fv == itffields_view(fields@),
                        fv.len() == fields@.len(),
                        !itffields_has_unwired(fv),
                        k <= fields@.len(),
                        itf_paths_view(out@) == itffields_prims(fv.take(k as int)),
                    decreases fields@.len() - k,
                {
                    proof {
                        lemma_itf_field_decreases(*self, k as int);
                        lemma_itffields_view(fields@);
                        lemma_itffields_no_unwired(fv, k as int);
                        assert(fv.take(k as int + 1).drop_last() =~= fv.take(k as int));
                    }
                    let inner = fields[k].1.1.into_primitives();
                    let node = EndpointNode::Field(fields[k].0.clone(), clone_opt_string(&fields[k].1.0));
                    push_prefixed_itf(&inner, &node, &mut out);
                    k = k + 1;
                }
                assert(fv.take(fields@.len() as int) =~= fv);
                out
            }
            Interface::Unwired(_) => {
                proof {
                    assert(false);
                }
                Vec::new()
            }
        }
    }

    /// Returns true if the interface contains unwired interface.
    pub fn contains_unwired(&self) -> (r: bool)
        ensures
            r == itf_has_unwired(self@),
        decreases self,
    {
        match self {
            Interface::Unwired(_) => true,
            Interface::Array(inner) => {
                let ghost vv = itfs_view(inner@);
                proof {
                    lemma_itfs_view(inner@);
                }
                let mut k: usize = 0;
                while k < inner.len()
                    invariant
                        *self == Interface::Array(*inner),
                        vv == itfs_view(inner@),
                        vv.len() == inner@.len(),
                        k <= inner@.len(),
                        !itfs_has_unwired(vv.take(k as int)),
                    decreases inner@.len() - k,
                {
                    proof {
                        lemma_itf_elem_decreases(*self, k as int);
                        lemma_itfs_view(inner@);
                        assert(vv.take(k as int + 1).drop_last() =~= vv.take(k as int));
                    }
                    if inner[k].contains_unwired() {
                        proof {
                            lemma_itfs_has_unwired_prefix(vv, k as int + 1);
                        }
                        return true;
                    }
                    k = k + 1;
                }
                assert(vv.take(inner@.len() as int) =~= vv);
                false
            }
            Interface::Struct(fields) => {
                let ghost fv = itffields_view(fields@);
                proof {
                    lemma_itffields_view(fields@);
                }
                let mut k: usize = 0;
                while k < fields.len()
                    invariant
                        *self == Interface::Struct(*fields),
                        fv == itffields_view(fields@),
                        fv.len() == fields@.len(),
                        k <= fields@.len(),
                        !itffields_has_unwired(fv.take(k as int)),
                    decreases fields@.len() - k,
                {
                    proof {
                        lemma_itf_field_decreases(*self, k as int);
                        lemma_itffields_view(fields@);
                        assert(fv.take(k as int + 1).drop_last() =~= fv.take(k as int));
                    }
                    if fields[k].1.1.contains_unwired() {
                        proof {
                            lemma_itffields_has_unwired_prefix(fv, k as int + 1);
                        }
                        return true;
                    }
                    k = k + 1;
                }
                assert(fv.take(fields@.len() as int) =~= fv);
                false
            }
            _ => false,
        }
    }
}

/// The type of every field can be computed when that of all can.
pub proof fn lemma_itffields_typ_ok(s: Seq<(Seq<char>, Option<Seq<char>>, InterfaceView)>, k: int)
    requires
        itffields_typ_ok(s),
        0 <= k < s.len(),
    ensures
        itf_typ_ok(s[k].2),
    decreases s.len(),
{
    if k < s.len() - 1 {
        lemma_itffields_typ_ok(s.drop_last(), k);
    }
}

/// No element holds an unwired interface when none of them does.
pub proof fn lemma_itfs_no_unwired(v: Seq<InterfaceView>, k: int)
    requires
        !itfs_has_unwired(v),
        0 <= k < v.len(),
    ensures
        !itf_has_unwired(v[k]),
    decreases v.len(),
{
    if k < v.len() - 1 {
        lemma_itfs_no_unwired(v.drop_last(), k);
    }
}

/// No field holds an unwired interface when none of them does.
pub proof fn lemma_itffields_no_unwired(s: Seq<(Seq<char>, Option<Seq<char>>, InterfaceView)>, k: int)
    requires
        !itffields_has_unwired(s),
        0 <= k < s.len(),
    ensures
        !itf_has_unwired(s[k].2),
    decreases s.len(),
{
    if k < s.len() - 1 {
        lemma_itffields_no_unwired(s.drop_last(), k);
    }
}

/// An unwired interface in a prefix of the elements is one in all of them.
pub proof fn lemma_itfs_has_unwired_prefix(v: Seq<InterfaceView>, n: int)
    requires
        0 <= n <= v.len(),
        itfs_has_unwired(v.take(n)),
    ensures
        itfs_has_unwired(v),
    decreases v.len(),
{
    if n < v.len() {
        assert(v.drop_last().take(n) =~= v.take(n));
        lemma_itfs_has_unwired_prefix(v.drop_last(), n);
    } else {
        assert(v.take(n) =~= v);
    }
}

/// An unwired interface in a prefix of the fields is one in all of them.
pub proof fn lemma_itffields_has_unwired_prefix(s: Seq<(Seq<char>, Option<Seq<char>>, InterfaceView)>, n: int)
    requires
        0 <= n <= s.len(),
        itffields_has_unwired(s.take(n)),
    ensures
        itffields_has_unwired(s),
    decreases s.len(),
{
    if n < s.len() {
        assert(s.drop_last().take(n) =~= s.take(n));
        lemma_itffields_has_unwired_prefix(s.drop_last(), n);
    } else {
        assert(s.take(n) =~= s);
    }
}

/// The interface that an unwired member of type `t` starts as.
pub open spec fn unwired_or_unit(t: InterfaceTypView) -> InterfaceView {
    if t is Unit {
        InterfaceView::Unit
    } else {
        InterfaceView::Unwired(t)
    }
}

/// An unwired array or struct, opened up into its unwired elements or fields.
pub open spec fn itf_expand(t: InterfaceTypView) -> InterfaceView {
    match t {
        InterfaceTypView::Array(b, n) => InterfaceView::Array(Seq::new(n as nat, |k: int| unwired_or_unit(*b))),
        InterfaceTypView::Struct(s) => InterfaceView::Struct(
            s.map_values(|e: (Seq<char>, Option<Seq<char>>, InterfaceTypView)| (e.0, e.1, unwired_or_unit(e.2))),
        ),
        _ => InterfaceView::Unwired(t),
    }
}

/// The interface before descending along a path: unwired arrays and structs are opened up.
pub open spec fn itf_opened(i: InterfaceView) -> InterfaceView {
    match i {
        InterfaceView::Unwired(t) => itf_expand(t),
        _ => i,
    }
}

/// `i` with the interface at `path` replaced by `x`.
pub open spec fn itf_wire(i: InterfaceView, path: Seq<NodeView>, x: InterfaceView) -> InterfaceView
    decreases path.len(),
{
    if path.len() == 0 {
        x
    } else {
        let j = itf_opened(i);
        match (j, path[0]) {
            (InterfaceView::Array(v), NodeView::Index(k)) => if k < v.len() {
                InterfaceView::Array(v.update(k as int, itf_wire(v[k as int], path.drop_first(), x)))
            } else {
                j
            },
            (InterfaceView::Struct(s), NodeView::Field(f, _)) => match first_index(itf_keys(s), f) {
                Some(m) => InterfaceView::Struct(s.update(m, (s[m].0, s[m].1, itf_wire(s[m].2, path.drop_first(), x)))),
                None => j,
            },
            _ => j,
        }
    }
}

/// Wiring `x` at `path` into `i` succeeds: nothing on the way is already a channel, the
/// path leads into `i`, and at its end the types of the old and new interfaces agree.
pub open spec fn itf_wire_ok(i: InterfaceView, path: Seq<NodeView>, x: InterfaceView) -> bool
    decreases path.len(),
{
    !(i is Channel) && if path.len() == 0 {
        itf_typ_ok(i) && itf_typ_ok(x) && itv_eqv(itf_typ(i), itf_typ(x))
    } else {
        &&& (i is Unwired || i is Array || i is Struct)
        &&& (i matches InterfaceView::Unwired(t) ==> (t is Array || t is Struct))
        &&& match (itf_opened(i), path[0]) {
            (InterfaceView::Array(v), NodeView::Index(k)) => k < v.len() && itf_wire_ok(v[k as int], path.drop_first(), x),
            (InterfaceView::Struct(s), NodeView::Field(f, _)) => match first_index(itf_keys(s), f) {
                Some(m) => itf_wire_ok(s[m].2, path.drop_first(), x),
                None => false,
            },
            _ => false,
        }
    }
}

/// The key by which a node is looked up: its index, or its field name.
pub open spec fn node_key(n: NodeView) -> NodeView {
    match n {
        NodeView::Field(f, _) => NodeView::Field(f, None),
        NodeView::Index(k) => NodeView::Index(k),
    }
}

/// Two paths part ways: before either ends, the keys of their nodes differ somewhere.
pub open spec fn paths_part(p: Seq<NodeView>, q: Seq<NodeView>) -> bool
    decreases p.len(),
{
    p.len() > 0 && q.len() > 0 && (node_key(p[0]) != node_key(q[0]) || paths_part(p.drop_first(), q.drop_first()))
}

/// Law: wiring at `p` leaves the interface at any path that parts ways with `p` where it was.
pub proof fn lemma_wire_keeps_other(i: InterfaceView, p: Seq<NodeView>, x: InterfaceView, q: Seq<NodeView>)
    requires
        itf_wire_ok(i, p, x),
        itf_path_ok(i, q),
        paths_part(p, q),
    ensures
        itf_path_ok(itf_wire(i, p, x), q),
        itf_sub(itf_wire(i, p, x), q) == itf_sub(i, q),
    decreases p.len(),
{
    let pr = p.drop_first();
    let qr = q.drop_first();
    match (i, p[0], q[0]) {
        (InterfaceView::Array(v), NodeView::Index(kp), NodeView::Index(kq)) => {
            let v2 = v.update(kp as int, itf_wire(v[kp as int], pr, x));
            if kp == kq {
                lemma_wire_keeps_other(v[kp as int], pr, x, qr);
            } else {
                assert(v2[kq as int] == v[kq as int]);
            }
        },
        (InterfaceView::Struct(s), NodeView::Field(fp, _), NodeView::Field(fq, _)) => {
            lemma_first_index(itf_keys(s), fp);
            lemma_first_index(itf_keys(s), fq);
            let mp = first_index(itf_keys(s), fp)->0;
            let mq = first_index(itf_keys(s), fq)->0;
            let s2 = s.update(mp, (s[mp].0, s[mp].1, itf_wire(s[mp].2, pr, x)));
            assert(itf_keys(s2) =~= itf_keys(s));
            if fp == fq {
                lemma_wire_keeps_other(s[mp].2, pr, x, qr);
            } else {
                assert(itf_keys(s)[mp] != itf_keys(s)[mq]);
                assert(s2[mq] == s[mq]);
            }
        },
        _ => {},
    }
}

/// Law (read after write): after wiring `x` at `path`, the interface at `path` is `x`.
pub proof fn lemma_wire_then_sub(i: InterfaceView, path: Seq<NodeView>, x: InterfaceView)
    requires
        itf_wire_ok(i, path, x),
    ensures
        itf_path_ok(itf_wire(i, path, x), path),
        itf_sub(itf_wire(i, path, x), path) == x,
    decreases path.len(),
{
    if path.len() > 0 {
        let j = itf_opened(i);
        let rest = path.drop_first();
        match (j, path[0]) {
            (InterfaceView::Array(v), NodeView::Index(k)) => {
                lemma_wire_then_sub(v[k as int], rest, x);
            }
            (InterfaceView::Struct(s), NodeView::Field(f, _)) => {
                lemma_first_index(itf_keys(s), f);
                let m = first_index(itf_keys(s), f)->0;
                lemma_wire_then_sub(s[m].2, rest, x);
                let s2 = s.update(m, (s[m].0, s[m].1, itf_wire(s[m].2, rest, x)));
                assert(itf_keys(s2) =~= itf_keys(s));
            }
            _ => {}
        }
    }
}

/// The types of the fields, entry by entry.
pub proof fn lemma_itffields_typ(s: Seq<(Seq<char>, Option<Seq<char>>, InterfaceView)>)
    ensures
        itffields_typ(s).len() == s.len(),
        forall|k: int| 0 <= k < s.len() ==> #[trigger] itffields_typ(s)[k] == (s[k].0, s[k].1, itf_typ(s[k].2)),
    decreases s,
{
    if s.len() > 0 {
        lemma_itffields_typ(s.drop_last());
        assert forall|k: int| 0 <= k < s.len() implies #[trigger] itffields_typ(s)[k] == (s[k].0, s[k].1, itf_typ(s[k].2)) by {
            if k < s.len() - 1 {
                assert(s.drop_last()[k] == s[k]);
            }
        }
    }
}

/// An unwired member has the type it was made with.
pub proof fn lemma_unwired_or_unit_typ(t: InterfaceTypView)
    ensures
        itf_typ(unwired_or_unit(t)) == t,
{
}

/// Opening up an unwired array or struct that a nonempty path leads into keeps its type.
proof fn lemma_opened_typ(i: InterfaceView, path: Seq<NodeView>, x: InterfaceView)
    requires
        itf_wire_ok(i, path, x),
        path.len() > 0,
    ensures
        itf_typ(itf_opened(i)) == itf_typ(i),
{
    if let InterfaceView::Unwired(t) = i {
        match t {
            InterfaceTypView::Array(b, n) => {
                let v = Seq::new(n as nat, |k: int| unwired_or_unit(*b));
                assert(v.len() > 0);
                lemma_unwired_or_unit_typ(*b);
                assert(itf_typ(v[0]) == *b);
            },
            InterfaceTypView::Struct(s) => {
                let m = s.map_values(|e: (Seq<char>, Option<Seq<char>>, InterfaceTypView)| (e.0, e.1, unwired_or_unit(e.2)));
                lemma_itffields_typ(m);
                assert forall|k: int| 0 <= k < s.len() implies #[trigger] itffields_typ(m)[k] == s[k] by {
                    lemma_unwired_or_unit_typ(s[k].2);
                }
                assert(itffields_typ(m) =~= s);
            },
            _ => {},
        }
    }
}

/// Law: wiring keeps the type of the interface. When the type of `x` is the type that the
/// interface's type has at `path`, the interface after wiring `x` there has the type it had.
pub proof fn lemma_wire_keeps_typ(i: InterfaceView, path: Seq<NodeView>, x: InterfaceView)
    requires
        itf_wire_ok(i, path, x),
        itf_typ(x) == itv_sub(itf_typ(i), path),
    ensures
        itf_typ(itf_wire(i, path, x)) == itf_typ(i),
    decreases path.len(),
{
    if path.len() > 0 {
        let j = itf_opened(i);
        let rest = path.drop_first();
        lemma_opened_typ(i, path, x);
        match (j, path[0]) {
            (InterfaceView::Array(v), NodeView::Index(k)) => {
                let v2 = v.update(k as int, itf_wire(v[k as int], rest, x));
                if k == 0 {
                    lemma_wire_keeps_typ(v[0], rest, x);
                } else {
                    assert(v2[0] == v[0]);
                }
            },
            (InterfaceView::Struct(s), NodeView::Field(f, _)) => {
                lemma_first_index(itf_keys(s), f);
                let m = first_index(itf_keys(s), f)->0;
                lemma_itffields_typ(s);
                assert(itv_keys(itffields_typ(s)) =~= itf_keys(s));
                lemma_wire_keeps_typ(s[m].2, rest, x);
                let s2 = s.update(m, (s[m].0, s[m].1, itf_wire(s[m].2, rest, x)));
                lemma_itffields_typ(s2);
                assert(itffields_typ(s2) =~= itffields_typ(s));
            },
            _ => {},
        }
    }
}

/// Copies of an unwired member, `n` times.
fn unwired_copies(t: &InterfaceTyp, n: usize) -> (r: Vec<Interface>)
    ensures
        itfs_view(r@) == Seq::new(n as nat, |k: int| unwired_or_unit(t@)),
{
    let mut out: Vec<Interface> = Vec::new();
    let mut k: usize = 0;
    while k < n
        invariant
            k <= n,
            itfs_view(out@) == Seq::new(k as nat, |q: int| unwired_or_unit(t@)),
        decreases n - k,
    {
        let e = match t {
            InterfaceTyp::Unit => Interface::Unit,
            _ => Interface::Unwired(t.clone()),
        };
        assert(e@ == unwired_or_unit(t@));
        let ghost prev = out@;
        out.push(e);
        proof {
            assert(out@.drop_last() =~= prev);
            assert(itfs_view(out@) == itfs_view(prev).push(e@));
            assert(itfs_view(out@) =~= Seq::new(k as nat + 1, |q: int| unwired_or_unit(t@)));
        }
        k = k + 1;
    }
    out
}

/// Opens up an unwired array or struct.
fn expand_unwired(t: &InterfaceTyp) -> (r: Interface)
    requires
        t@ is Array || t@ is Struct,
    ensures
        r@ == itf_expand(t@),
{
    match t {
        InterfaceTyp::Array(inner, len) => Interface::Array(unwired_copies(&**inner, *len)),
        InterfaceTyp::Struct(fields) => {
            let ghost fv = itfields_view(fields@);
            let ghost target = fv.map_values(
                |e: (Seq<char>, Option<Seq<char>>, InterfaceTypView)| (e.0, e.1, unwired_or_unit(e.2)),
            );
            proof {
                lemma_itfields_view(fields@);
            }
            let mut out: Vec<(String, (Option<String>, Interface))> = Vec::new();
            let mut k: usize = 0;
            while k < fields.len()
                invariant
                    fv == itfields_view(fields@),
                    fv.len() == fields@.len(),
                    target == fv.map_values(
                        |e: (Seq<char>, Option<Seq<char>>, InterfaceTypView)| (e.0, e.1, unwired_or_unit(e.2)),
                    ),
                    k <= fields@.len(),
                    itffields_view(out@) == target.take(k as int),
                decreases fields@.len() - k,
            {
                proof {
                    lemma_itfields_view(fields@);
                }
                let name = fields[k].0.clone();
                let sep = clone_opt_string(&fields[k].1.0);
                let e = match &fields[k].1.1 {
                    InterfaceTyp::Unit => Interface::Unit,
                    other => Interface::Unwired(other.clone()),
                };
                assert(e@ == unwired_or_unit(fv[k as int].2));
                let ghost prev = out@;
                out.push((name, (sep, e)));
                proof {
                    assert(out@.drop_last() =~= prev);
                    assert(itffields_view(out@) == itffields_view(prev).push((name@, opt_view(sep), e@)));
                    assert(target.take(k as int + 1) =~= target.take(k as int).push(target[k as int]));
                }
                k = k + 1;
            }
            assert(target.take(fields@.len() as int) =~= target);
            Interface::Struct(out)
        }
        _ => {
            proof {
                assert(false);
            }
            Interface::Unit
        }
    }
}

impl Interface {
    /// Returns subinterface given a endpoint path.
    pub fn get_subinterface(&self, path: EndpointPath) -> (r: Interface)
        requires
            itf_path_ok(self@, path@),
        ensures
            r@ == itf_sub(self@, path@),
        decreases path@.len(),
    {
        let mut path = path;
        match path.pop_front() {
            Some(node) => match (node, self) {
                (EndpointNode::Field(field, _), Interface::Struct(map)) => {
                    proof {
                        lemma_itffields_keys(map@);
                        lemma_itffields_view(map@);
                    }
                    match find_field(map, &field) {
                        Some(j) => map[j].1.1.get_subinterface(path),
                        None => {
                            proof {
                                assert(false);
                            }
                            self.clone()
                        }
                    }
                }
                (EndpointNode::Index(idx), Interface::Array(inner)) => {
                    proof {
                        lemma_itfs_view(inner@);
                    }
                    inner[idx].get_subinterface(path)
                }
                _ => {
                    proof {
                        assert(false);
                    }
                    self.clone()
                }
            },
            None => self.clone(),
        }
    }

    /// Returns itself with the field `field` replaced by `swap`.
    pub fn swap_field(self, field: &str, swap: Interface) -> (r: Interface)
        requires
            self@ is Struct,
        ensures
            r@ == match self@ {
                InterfaceView::Struct(s) => match first_index(itf_keys(s), field@) {
                    Some(m) => InterfaceView::Struct(s.update(m, (s[m].0, s[m].1, swap@))),
                    None => self@,
                },
                _ => self@,
            },
    {
        match self {
            Interface::Struct(map) => {
                let mut map = map;
                proof {
                    lemma_itffields_keys(map@);
                    lemma_itffields_view(map@);
                }
                let key = String::from_str(field);
                match find_field(&map, &key) {
                    Some(j) => {
                        let ghost fv = itffields_view(map@);
                        let (name, (sep, _old)) = map.remove(j);
                        map.insert(j, (name, (sep, swap)));
                        proof {
                            lemma_itffields_view(map@);
                            assert(itffields_view(map@) =~= fv.update(j as int, (fv[j as int].0, fv[j as int].1, swap@)));
                        }
                        Interface::Struct(map)
                    }
                    None => Interface::Struct(map),
                }
            }
            _ => {
                proof {
                    assert(false);
                }
                self
            }
        }
    }

    /// Returns `self` with the interface at `path` wired to `interface`.
    fn wired(self, path: EndpointPath, interface: Interface) -> (r: Interface)
        requires
            itf_wire_ok(self@, path@, interface@),
        ensures
            r@ == itf_wire(self@, path@, interface@),
        decreases path@.len(),
    {
        let mut path = path;
        let ghost p0 = path@;
        match path.pop_front() {
            Some(node) => {
                let opened = match self {
                    Interface::Unwired(inner) => expand_unwired(&inner),
                    other => other,
                };
                match (opened, node) {
                    (Interface::Array(inner), EndpointNode::Index(i)) => {
                        let mut inner = inner;
                        let ghost vv = itfs_view(inner@);
                        proof {
                            lemma_itfs_view(inner@);
                        }
                        let e = inner.remove(i);
                        let w = e.wired(path, interface);
                        inner.insert(i, w);
                        proof {
                            lemma_itfs_view(inner@);
                            assert(itfs_view(inner@) =~= vv.update(i as int, w@));
                        }
                        Interface::Array(inner)
                    }
                    (Interface::Struct(map), EndpointNode::Field(field, _)) => {
                        let mut map = map;
                        let ghost fv = itffields_view(map@);
                        proof {
                            lemma_itffields_keys(map@);
                            lemma_itffields_view(map@);
                        }
                        match find_field(&map, &field) {
                            Some(j) => {
                                let (name, (sep, e)) = map.remove(j);
                                let w = e.wired(path, interface);
                                map.insert(j, (name, (sep, w)));
                                proof {
                                    lemma_itffields_view(map@);
                                    assert(itffields_view(map@) =~= fv.update(j as int, (fv[j as int].0, fv[j as int].1, w@)));
                                }
                                Interface::Struct(map)
                            }
                            None => {
                                proof {
                                    assert(false);
                                }
                                Interface::Struct(map)
                            }
                        }
                    }
                    (other, _) => {
                        proof {
                            assert(false);
                        }
                        other
                    }
                }
            }
            None => interface,
        }
    }

    /// Wires the interface `interface` at the endpoint path `path` of `self`.
    pub fn wire(&mut self, path: EndpointPath, interface: Interface)
        requires
            itf_wire_ok(old(self)@, path@, interface@),
        ensures
            final(self)@ == itf_wire(old(self)@, path@, interface@),
    {
        let mut cur = Interface::Unit;
        std::mem::swap(&mut cur, self);
        *self = cur.wired(path, interface);
    }

    /// Combines interfaces into a tuple: unit if there is none, else a struct whose fields
    /// are named by their indices.
    pub fn from_interfaces(interfaces: Vec<Interface>) -> (r: Interface)
        ensures
            r@ == if interfaces@.len() == 0 {
                InterfaceView::Unit
            } else {
                InterfaceView::Struct(
                    Seq::new(
                        interfaces@.len(),
                        |k: int| (nat_to_decimal(k as nat), None::<Seq<char>>, itfs_view(interfaces@)[k]),
                    ),
                )
            },
    {
        if interfaces.len() == 0 {
            return Interface::Unit;
        }
        let ghost vv = itfs_view(interfaces@);
        let ghost target = Seq::new(
            interfaces@.len(),
            |k: int| (nat_to_decimal(k as nat), None::<Seq<char>>, vv[k]),
        );
        proof {
            lemma_itfs_view(interfaces@);
        }
        let mut out: Vec<(String, (Option<String>, Interface))> = Vec::new();
        let mut k: usize = 0;
        while k < interfaces.len()
            invariant
                vv == itfs_view(interfaces@),
                vv.len() == interfaces@.len(),
                target == Seq::new(interfaces@.len(), |q: int| (nat_to_decimal(q as nat), None::<Seq<char>>, vv[q])),
                k <= interfaces@.len(),
                itffields_view(out@) == target.take(k as int),
            decreases interfaces@.len() - k,
        {
            proof {
                lemma_itfs_view(interfaces@);
            }
            let e = interfaces[k].clone();
            let ghost prev = out@;
            out.push((usize_to_string(k), (None, e)));
            proof {
                assert(out@.drop_last() =~= prev);
                assert(target.take(k as int + 1) =~= target.take(k as int).push(target[k as int]));
            }
            k = k + 1;
        }
        assert(target.take(interfaces@.len() as int) =~= target);
        Interface::Struct(out)
    }
}

impl InterfaceTyp {
    /// Combines interface types into a tuple: unit if there is none, else a struct whose
    /// fields are named by their indices.
    pub fn from_typs(typs: Vec<InterfaceTyp>) -> (r: InterfaceTyp)
        ensures
            r@ == if typs@.len() == 0 {
                InterfaceTypView::Unit
            } else {
                InterfaceTypView::Struct(
                    Seq::new(typs@.len(), |k: int| (nat_to_decimal(k as nat), None::<Seq<char>>, typs@[k]@)),
                )
            },
    {
        if typs.len() == 0 {
            return InterfaceTyp::Unit;
        }
        let ghost target = Seq::new(typs@.len(), |k: int| (nat_to_decimal(k as nat), None::<Seq<char>>, typs@[k]@));
        let mut out: Vec<(String, (Option<String>, InterfaceTyp))> = Vec::new();
        let mut k: usize = 0;
        while k < typs.len()
            invariant
                target == Seq::new(typs@.len(), |q: int| (nat_to_decimal(q as nat), None::<Seq<char>>, typs@[q]@)),
                k <= typs@.len(),
                itfields_view(out@) == target.take(k as int),
            decreases typs@.len() - k,
        {
            let e = typs[k].clone();
            let ghost prev = out@;
            out.push((usize_to_string(k), (None, e)));
            proof {
                assert(out@.drop_last() =~= prev);
                assert(target.take(k as int + 1) =~= target.take(k as int).push(target[k as int]));
            }
            k = k + 1;
        }
        assert(target.take(typs@.len() as int) =~= target);
        InterfaceTyp::Struct(out)
    }
}

} // verus!
