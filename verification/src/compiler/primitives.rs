//! Interfaces rebuilt from their channels: the inverse of `Interface::into_primitives`.

use vstd::prelude::*;

use crate::compiler::endpoint::{
    clone_opt_string, Channel, ChannelView, Endpoint, EndpointNode, EndpointPath, EndpointView, NodeView,
};
use crate::compiler::interface::{
    iprefix_all, itf_keys, itf_paths_view, itf_prims, itffields_prims, itffields_view, itfs_prims, itfs_view,
    keys_unique, lemma_itffields_view, lemma_itfs_view, array_prims, itv_prims, itvfields_prims, prefix_all,
    typ_paths_view, Interface, InterfaceTyp, InterfaceTypView, InterfaceView,
};
use crate::utils::string::{eq_str, opt_view};
use crate::vir::opt::inline_always::contains_name;
use crate::vir::utils::names_v;

verus! {

/// The index that starts a path, if it starts with one.
pub open spec fn head_index(p: Seq<NodeView>) -> Option<usize> {
    if p.len() > 0 {
        match p[0] {
            NodeView::Index(j) => Some(j),
            _ => None,
        }
    } else {
        None
    }
}

/// The field (name and separator) that starts a path, if it starts with one.
pub open spec fn head_field(p: Seq<NodeView>) -> Option<(Seq<char>, Option<Seq<char>>)> {
    if p.len() > 0 {
        match p[0] {
            NodeView::Field(n, sep) => Some((n, sep)),
            _ => None,
        }
    } else {
        None
    }
}

/// Size of channels with their paths: the path lengths, each plus one.
pub open spec fn psize(ps: Seq<(InterfaceView, Seq<NodeView>)>) -> nat
    decreases ps.len(),
{
    if ps.len() == 0 {
        0
    } else {
        psize(ps.drop_last()) + ps.last().1.len() + 1
    }
}

/// The entries whose path starts with index `i`, with that node taken off.
pub open spec fn idx_group(ps: Seq<(InterfaceView, Seq<NodeView>)>, i: usize) -> Seq<(InterfaceView, Seq<NodeView>)>
    decreases ps.len(),
{
    if ps.len() == 0 {
        seq![]
    } else {
        let e = ps.last();
        idx_group(ps.drop_last(), i) + if head_index(e.1) == Some(i) {
            seq![(e.0, e.1.drop_first())]
        } else {
            seq![]
        }
    }
}

/// The entries whose path starts with field `name`, with that node taken off.
pub open spec fn field_group(ps: Seq<(InterfaceView, Seq<NodeView>)>, name: Seq<char>) -> Seq<
    (InterfaceView, Seq<NodeView>),
>
    decreases ps.len(),
{
    if ps.len() == 0 {
        seq![]
    } else {
        let e = ps.last();
        field_group(ps.drop_last(), name) + match head_field(e.1) {
            Some((n, _)) => if n == name {
                seq![(e.0, e.1.drop_first())]
            } else {
                seq![]
            },
            None => seq![],
        }
    }
}

/// One more than the largest index that starts a path (zero if none does).
pub open spec fn idx_count(ps: Seq<(InterfaceView, Seq<NodeView>)>) -> nat
    decreases ps.len(),
{
    if ps.len() == 0 {
        0
    } else {
        let c = idx_count(ps.drop_last());
        let e = ps.last();
        match head_index(e.1) {
            Some(j) => if j + 1 > c {
                (j + 1) as nat
            } else {
                c
            },
            None => c,
        }
    }
}

/// The fields that start paths, with the separator where each first occurs, in the
/// order they first occur.
pub open spec fn first_fields(ps: Seq<(InterfaceView, Seq<NodeView>)>) -> Seq<(Seq<char>, Option<Seq<char>>)>
    decreases ps.len(),
{
    if ps.len() == 0 {
        seq![]
    } else {
        let f = first_fields(ps.drop_last());
        let e = ps.last();
        match head_field(e.1) {
            Some((n, sep)) => if field_names(f).contains(n) {
                f
            } else {
                f.push((n, sep))
            },
            None => f,
        }
    }
}

/// Names of fields.
pub open spec fn field_names(f: Seq<(Seq<char>, Option<Seq<char>>)>) -> Seq<Seq<char>> {
    f.map_values(|x: (Seq<char>, Option<Seq<char>>)| x.0)
}

/// Every path starts with an index.
pub open spec fn all_indexed(ps: Seq<(InterfaceView, Seq<NodeView>)>) -> bool {
    forall|k: int| 0 <= k < ps.len() ==> (#[trigger] ps[k]).1.len() > 0 && ps[k].1[0] is Index
}

/// Every path starts with a field.
pub open spec fn all_fielded(ps: Seq<(InterfaceView, Seq<NodeView>)>) -> bool {
    forall|k: int| 0 <= k < ps.len() ==> (#[trigger] ps[k]).1.len() > 0 && ps[k].1[0] is Field
}

/// The interface that channels at their paths make up: a channel at the empty path is
/// itself; paths starting with indices make an array of the interfaces of the entries
/// of each index; paths starting with fields make a struct of the interfaces of the
/// entries of each field, in the order the fields first occur.
pub open spec fn prims_itf(ps: Seq<(InterfaceView, Seq<NodeView>)>) -> InterfaceView
    decreases psize(ps) + 1, 0nat,
{
    if ps.len() == 0 {
        InterfaceView::Unit
    } else if ps[0].1.len() == 0 {
        ps[0].0
    } else if ps[0].1[0] is Index {
        InterfaceView::Array(idx_elems(ps, idx_count(ps)))
    } else {
        InterfaceView::Struct(field_elems(ps, first_fields(ps).len()))
    }
}

/// The interfaces of the first `n` indices.
pub open spec fn idx_elems(ps: Seq<(InterfaceView, Seq<NodeView>)>, n: nat) -> Seq<InterfaceView>
    decreases psize(ps), n,
{
    if n == 0 || ps.len() == 0 {
        seq![]
    } else {
        proof {
            lemma_idx_group_smaller(ps, (n - 1) as usize);
        }
        idx_elems(ps, (n - 1) as nat).push(prims_itf(idx_group(ps, (n - 1) as usize)))
    }
}

/// The first `n` fields with their interfaces.
pub open spec fn field_elems(ps: Seq<(InterfaceView, Seq<NodeView>)>, n: nat) -> Seq<
    (Seq<char>, Option<Seq<char>>, InterfaceView),
>
    decreases psize(ps), n,
{
    if n == 0 || ps.len() == 0 {
        seq![]
    } else {
        let f = first_fields(ps)[n - 1];
        proof {
            lemma_field_group_smaller(ps, f.0);
        }
        field_elems(ps, (n - 1) as nat).push((f.0, f.1, prims_itf(field_group(ps, f.0))))
    }
}

/// An index group is smaller than all entries.
pub proof fn lemma_idx_group_smaller(ps: Seq<(InterfaceView, Seq<NodeView>)>, i: usize)
    ensures
        psize(idx_group(ps, i)) <= psize(ps),
        ps.len() > 0 ==> psize(idx_group(ps, i)) < psize(ps),
    decreases ps.len(),
{
    if ps.len() > 0 {
        lemma_idx_group_smaller(ps.drop_last(), i);
        let e = ps.last();
        let g = idx_group(ps.drop_last(), i);
        if head_index(e.1) == Some(i) {
            let x = (e.0, e.1.drop_first());
            assert((g + seq![x]).drop_last() =~= g);
        } else {
            assert(g + Seq::<(InterfaceView, Seq<NodeView>)>::empty() =~= g);
        }
    }
}

/// A field group is smaller than all entries.
pub proof fn lemma_field_group_smaller(ps: Seq<(InterfaceView, Seq<NodeView>)>, name: Seq<char>)
    ensures
        psize(field_group(ps, name)) <= psize(ps),
        ps.len() > 0 ==> psize(field_group(ps, name)) < psize(ps),
    decreases ps.len(),
{
    if ps.len() > 0 {
        lemma_field_group_smaller(ps.drop_last(), name);
        let e = ps.last();
        let g = field_group(ps.drop_last(), name);
        if head_field(e.1) matches Some((n, _)) && n == name {
            let x = (e.0, e.1.drop_first());
            assert((g + seq![x]).drop_last() =~= g);
        } else {
            assert(g + Seq::<(InterfaceView, Seq<NodeView>)>::empty() =~= g);
        }
    }
}

/// Channels at their paths can be put together: some entry exists; a channel at the
/// empty path (or a unit) stands alone; otherwise all paths start alike, with indices
/// covering `0..n` or with fields, and each group can be put together in turn.
pub open spec fn prims_ok(ps: Seq<(InterfaceView, Seq<NodeView>)>) -> bool
    decreases psize(ps) + 1, 0nat,
{
    if ps.len() == 0 {
        false
    } else if ps[0].1.len() == 0 {
        ps.len() == 1 && (ps[0].0 is Unit || ps[0].0 is Channel)
    } else if ps[0].1[0] is Index {
        all_indexed(ps) && idx_count(ps) <= usize::MAX && idx_groups_ok(ps, idx_count(ps))
    } else {
        all_fielded(ps) && field_groups_ok(ps, first_fields(ps).len())
    }
}

/// The groups of the first `n` indices are present and can be put together.
pub open spec fn idx_groups_ok(ps: Seq<(InterfaceView, Seq<NodeView>)>, n: nat) -> bool
    decreases psize(ps), n,
{
    if n == 0 || ps.len() == 0 {
        true
    } else {
        proof {
            lemma_idx_group_smaller(ps, (n - 1) as usize);
        }
        idx_groups_ok(ps, (n - 1) as nat) && prims_ok(idx_group(ps, (n - 1) as usize))
    }
}

/// The groups of the first `n` fields can be put together.
pub open spec fn field_groups_ok(ps: Seq<(InterfaceView, Seq<NodeView>)>, n: nat) -> bool
    decreases psize(ps), n,
{
    if n == 0 || ps.len() == 0 {
        true
    } else {
        let f = first_fields(ps)[n - 1];
        proof {
            lemma_field_group_smaller(ps, f.0);
        }
        field_groups_ok(ps, (n - 1) as nat) && prims_ok(field_group(ps, f.0))
    }
}

/// Grouping by index distributes over concatenation.
pub proof fn lemma_idx_group_concat(a: Seq<(InterfaceView, Seq<NodeView>)>, b: Seq<(InterfaceView, Seq<NodeView>)>, i: usize)
    ensures
        idx_group(a + b, i) == idx_group(a, i) + idx_group(b, i),
    decreases b.len(),
{
    if b.len() == 0 {
        assert(a + b =~= a);
        assert(idx_group(a, i) + idx_group(b, i) =~= idx_group(a, i));
    } else {
        lemma_idx_group_concat(a, b.drop_last(), i);
        assert((a + b).drop_last() =~= a + b.drop_last());
        assert((a + b).last() == b.last());
        assert(idx_group(a + b, i) =~= idx_group(a, i) + idx_group(b, i));
    }
}

/// Grouping by field distributes over concatenation.
pub proof fn lemma_field_group_concat(
    a: Seq<(InterfaceView, Seq<NodeView>)>,
    b: Seq<(InterfaceView, Seq<NodeView>)>,
    name: Seq<char>,
)
    ensures
        field_group(a + b, name) == field_group(a, name) + field_group(b, name),
    decreases b.len(),
{
    if b.len() == 0 {
        assert(a + b =~= a);
        assert(field_group(a, name) + field_group(b, name) =~= field_group(a, name));
    } else {
        lemma_field_group_concat(a, b.drop_last(), name);
        assert((a + b).drop_last() =~= a + b.drop_last());
        assert((a + b).last() == b.last());
        assert(field_group(a + b, name) =~= field_group(a, name) + field_group(b, name));
    }
}

/// The largest index of a concatenation.
pub proof fn lemma_idx_count_concat(a: Seq<(InterfaceView, Seq<NodeView>)>, b: Seq<(InterfaceView, Seq<NodeView>)>)
    ensures
        idx_count(a + b) == if idx_count(a) >= idx_count(b) {
            idx_count(a)
        } else {
            idx_count(b)
        },
    decreases b.len(),
{
    if b.len() == 0 {
        assert(a + b =~= a);
    } else {
        lemma_idx_count_concat(a, b.drop_last());
        assert((a + b).drop_last() =~= a + b.drop_last());
        assert((a + b).last() == b.last());
    }
}

/// Entry `k` of prefixed paths.
pub proof fn lemma_iprefix_at(p: Seq<(InterfaceView, Seq<NodeView>)>, node: NodeView, k: int)
    requires
        0 <= k < p.len(),
    ensures
        iprefix_all(p, node).len() == p.len(),
        iprefix_all(p, node)[k].0 == p[k].0,
        iprefix_all(p, node)[k].1.len() > 0,
        iprefix_all(p, node)[k].1[0] == node,
        iprefix_all(p, node)[k].1.drop_first() == p[k].1,
{
    assert((seq![node] + p[k].1).drop_first() =~= p[k].1);
}

/// Prefixing the last entry.
pub proof fn lemma_iprefix_drop_last(p: Seq<(InterfaceView, Seq<NodeView>)>, node: NodeView)
    requires
        p.len() > 0,
    ensures
        iprefix_all(p, node).drop_last() == iprefix_all(p.drop_last(), node),
        iprefix_all(p, node).last() == (p.last().0, seq![node] + p.last().1),
{
    assert(iprefix_all(p, node).drop_last() =~= iprefix_all(p.drop_last(), node));
}

/// The index group of paths all prefixed by one index.
pub proof fn lemma_idx_group_prefixed(p: Seq<(InterfaceView, Seq<NodeView>)>, j: usize, i: usize)
    ensures
        idx_group(iprefix_all(p, NodeView::Index(j)), i) == if j == i {
            p
        } else {
            seq![]
        },
    decreases p.len(),
{
    let node = NodeView::Index(j);
    if p.len() == 0 {
        assert(iprefix_all(p, node) =~= Seq::<(InterfaceView, Seq<NodeView>)>::empty());
    } else {
        lemma_idx_group_prefixed(p.drop_last(), j, i);
        lemma_iprefix_drop_last(p, node);
        lemma_iprefix_at(p, node, p.len() - 1);
        if j == i {
            assert(p.drop_last().push(p.last()) =~= p);
            assert(idx_group(iprefix_all(p, node), i) =~= p);
        } else {
            assert(idx_group(iprefix_all(p, node), i) =~= Seq::<(InterfaceView, Seq<NodeView>)>::empty());
        }
    }
}

/// The field group of paths all prefixed by one field.
pub proof fn lemma_field_group_prefixed(
    p: Seq<(InterfaceView, Seq<NodeView>)>,
    n: Seq<char>,
    sep: Option<Seq<char>>,
    name: Seq<char>,
)
    ensures
        field_group(iprefix_all(p, NodeView::Field(n, sep)), name) == if n == name {
            p
        } else {
            seq![]
        },
    decreases p.len(),
{
    let node = NodeView::Field(n, sep);
    if p.len() == 0 {
        assert(iprefix_all(p, node) =~= Seq::<(InterfaceView, Seq<NodeView>)>::empty());
    } else {
        lemma_field_group_prefixed(p.drop_last(), n, sep, name);
        lemma_iprefix_drop_last(p, node);
        lemma_iprefix_at(p, node, p.len() - 1);
        if n == name {
            assert(p.drop_last().push(p.last()) =~= p);
            assert(field_group(iprefix_all(p, node), name) =~= p);
        } else {
            assert(field_group(iprefix_all(p, node), name) =~= Seq::<(InterfaceView, Seq<NodeView>)>::empty());
        }
    }
}

/// The largest index of paths all prefixed by one index.
pub proof fn lemma_idx_count_prefixed(p: Seq<(InterfaceView, Seq<NodeView>)>, j: usize)
    ensures
        idx_count(iprefix_all(p, NodeView::Index(j))) == if p.len() > 0 {
            j + 1
        } else {
            0
        },
    decreases p.len(),
{
    let node = NodeView::Index(j);
    if p.len() == 0 {
        assert(iprefix_all(p, node) =~= Seq::<(InterfaceView, Seq<NodeView>)>::empty());
    } else {
        lemma_idx_count_prefixed(p.drop_last(), j);
        lemma_iprefix_drop_last(p, node);
        lemma_iprefix_at(p, node, p.len() - 1);
    }
}

/// The fields first met in paths all prefixed by one field, after others.
pub proof fn lemma_first_fields_prefixed(
    a: Seq<(InterfaceView, Seq<NodeView>)>,
    p: Seq<(InterfaceView, Seq<NodeView>)>,
    n: Seq<char>,
    sep: Option<Seq<char>>,
)
    requires
        p.len() > 0,
    ensures
        first_fields(a + iprefix_all(p, NodeView::Field(n, sep))) == if field_names(first_fields(a)).contains(n) {
            first_fields(a)
        } else {
            first_fields(a).push((n, sep))
        },
    decreases p.len(),
{
    let node = NodeView::Field(n, sep);
    let b = iprefix_all(p, node);
    lemma_iprefix_drop_last(p, node);
    lemma_iprefix_at(p, node, p.len() - 1);
    assert((a + b).drop_last() =~= a + iprefix_all(p.drop_last(), node));
    assert((a + b).last() == b.last());
    let f = first_fields(a);
    if p.len() == 1 {
        assert(iprefix_all(p.drop_last(), node) =~= Seq::<(InterfaceView, Seq<NodeView>)>::empty());
        assert(a + iprefix_all(p.drop_last(), node) =~= a);
    } else {
        lemma_first_fields_prefixed(a, p.drop_last(), n, sep);
        if !field_names(f).contains(n) {
            assert(field_names(f.push((n, sep))) =~= field_names(f).push(n));
            assert(field_names(f.push((n, sep))).last() == n);
        }
    }
}

/// Every path of a concatenation starts with an index when each part's do.
pub proof fn lemma_all_indexed_concat(a: Seq<(InterfaceView, Seq<NodeView>)>, b: Seq<(InterfaceView, Seq<NodeView>)>)
    requires
        all_indexed(a),
        all_indexed(b),
    ensures
        all_indexed(a + b),
{
    assert forall|k: int| 0 <= k < (a + b).len() implies (#[trigger] (a + b)[k]).1.len() > 0 && (a + b)[k].1[0] is Index by {
        if k < a.len() {
            assert((a + b)[k] == a[k]);
        } else {
            assert((a + b)[k] == b[k - a.len()]);
        }
    }
}

/// Every path of a concatenation starts with a field when each part's do.
pub proof fn lemma_all_fielded_concat(a: Seq<(InterfaceView, Seq<NodeView>)>, b: Seq<(InterfaceView, Seq<NodeView>)>)
    requires
        all_fielded(a),
        all_fielded(b),
    ensures
        all_fielded(a + b),
{
    assert forall|k: int| 0 <= k < (a + b).len() implies (#[trigger] (a + b)[k]).1.len() > 0 && (a + b)[k].1[0] is Field by {
        if k < a.len() {
            assert((a + b)[k] == a[k]);
        } else {
            assert((a + b)[k] == b[k - a.len()]);
        }
    }
}

/// An interface that its channels make up again: channels, and non-empty arrays and
/// structs (of distinct field names) of such interfaces.
pub open spec fn rt_ok(i: InterfaceView) -> bool
    decreases i,
{
    match i {
        InterfaceView::Channel(_) => true,
        InterfaceView::Array(v) => 0 < v.len() <= usize::MAX && rt_oks(v),
        InterfaceView::Struct(s) => s.len() > 0 && keys_unique(itf_keys(s)) && rt_fields_ok(s),
        _ => false,
    }
}

/// Every element is made up again by its channels.
pub open spec fn rt_oks(v: Seq<InterfaceView>) -> bool
    decreases v,
{
    if v.len() == 0 {
        true
    } else {
        rt_oks(v.drop_last()) && rt_ok(v.last())
    }
}

/// Every field is made up again by its channels.
pub open spec fn rt_fields_ok(s: Seq<(Seq<char>, Option<Seq<char>>, InterfaceView)>) -> bool
    decreases s,
{
    if s.len() == 0 {
        true
    } else {
        rt_fields_ok(s.drop_last()) && rt_ok(s.last().2)
    }
}

/// Element by element.
pub proof fn lemma_rt_oks(v: Seq<InterfaceView>, k: int)
    requires
        rt_oks(v),
        0 <= k < v.len(),
    ensures
        rt_ok(v[k]),
    decreases v.len(),
{
    if k < v.len() - 1 {
        lemma_rt_oks(v.drop_last(), k);
    }
}

/// Field by field.
pub proof fn lemma_rt_fields_ok(s: Seq<(Seq<char>, Option<Seq<char>>, InterfaceView)>, k: int)
    requires
        rt_fields_ok(s),
        0 <= k < s.len(),
    ensures
        rt_ok(s[k].2),
    decreases s.len(),
{
    if k < s.len() - 1 {
        lemma_rt_fields_ok(s.drop_last(), k);
    }
}

/// An interface made up again by its channels has some.
pub proof fn lemma_rt_nonempty(i: InterfaceView)
    requires
        rt_ok(i),
    ensures
        itf_prims(i).len() > 0,
    decreases i,
{
    match i {
        InterfaceView::Array(v) => {
            lemma_rt_oks(v, v.len() - 1);
            lemma_rt_nonempty(v.last());
            assert(itf_prims(i) == itfs_prims(v));
        },
        InterfaceView::Struct(f) => {
            lemma_rt_fields_ok(f, f.len() - 1);
            lemma_rt_nonempty(f.last().2);
            assert(itf_prims(i) == itffields_prims(f));
        },
        _ => {},
    }
}

/// The channels of the elements of an array, grouped and counted by index.
pub proof fn lemma_itfs_groups(v: Seq<InterfaceView>)
    requires
        v.len() <= usize::MAX,
        forall|k: int| 0 <= k < v.len() ==> itf_prims(#[trigger] v[k]).len() > 0,
    ensures
        all_indexed(itfs_prims(v)),
        idx_count(itfs_prims(v)) == v.len(),
        forall|k: int| 0 <= k < v.len() ==> idx_group(itfs_prims(v), k as usize) == itf_prims(#[trigger] v[k]),
    decreases v.len(),
{
    if v.len() > 0 {
        let w = v.drop_last();
        let j = (v.len() - 1) as usize;
        let p = itf_prims(v.last());
        let b = iprefix_all(p, NodeView::Index(j));
        assert forall|k: int| 0 <= k < w.len() implies itf_prims(#[trigger] w[k]).len() > 0 by {
            assert(w[k] == v[k]);
        }
        lemma_itfs_groups(w);
        assert(itfs_prims(v) == itfs_prims(w) + b);
        assert(all_indexed(b)) by {
            assert forall|k: int| 0 <= k < b.len() implies (#[trigger] b[k]).1.len() > 0 && b[k].1[0] is Index by {
                lemma_iprefix_at(p, NodeView::Index(j), k);
            }
        }
        lemma_all_indexed_concat(itfs_prims(w), b);
        lemma_idx_count_concat(itfs_prims(w), b);
        lemma_idx_count_prefixed(p, j);
        assert forall|k: int| 0 <= k < v.len() implies idx_group(itfs_prims(v), k as usize) == itf_prims(#[trigger] v[k]) by {
            lemma_idx_group_concat(itfs_prims(w), b, k as usize);
            lemma_idx_group_prefixed(p, j, k as usize);
            if k < w.len() {
                assert(w[k] == v[k]);
                assert(idx_group(itfs_prims(w), k as usize) == itf_prims(w[k]));
                assert(idx_group(itfs_prims(v), k as usize) =~= itf_prims(v[k]));
            } else {
                lemma_idx_group_empty(itfs_prims(w), j);
                assert(idx_group(itfs_prims(v), k as usize) =~= itf_prims(v[k]));
            }
        }
    } else {
        assert(all_indexed(itfs_prims(v)));
    }
}

/// No path starts with an index at or past the count.
pub proof fn lemma_idx_group_empty(ps: Seq<(InterfaceView, Seq<NodeView>)>, i: usize)
    requires
        idx_count(ps) <= i,
    ensures
        idx_group(ps, i) == Seq::<(InterfaceView, Seq<NodeView>)>::empty(),
    decreases ps.len(),
{
    if ps.len() > 0 {
        lemma_idx_group_empty(ps.drop_last(), i);
        assert(idx_group(ps, i) =~= Seq::<(InterfaceView, Seq<NodeView>)>::empty());
    }
}

/// No path starts with a field that is not a key.
pub proof fn lemma_field_group_absent(s: Seq<(Seq<char>, Option<Seq<char>>, InterfaceView)>, name: Seq<char>)
    requires
        !itf_keys(s).contains(name),
    ensures
        field_group(itffields_prims(s), name) == Seq::<(InterfaceView, Seq<NodeView>)>::empty(),
    decreases s.len(),
{
    if s.len() > 0 {
        let w = s.drop_last();
        assert(itf_keys(s) == itf_keys(w).push(s.last().0)) by {
            assert(itf_keys(s) =~= itf_keys(w).push(s.last().0));
        }
        assert(!itf_keys(w).contains(name)) by {
            if itf_keys(w).contains(name) {
                let i = choose|i: int| 0 <= i < itf_keys(w).len() && itf_keys(w)[i] == name;
                assert(itf_keys(s)[i] == name);
            }
        }
        assert(s.last().0 != name) by {
            assert(itf_keys(s)[s.len() - 1] == s.last().0);
        }
        lemma_field_group_absent(w, name);
        let p = itf_prims(s.last().2);
        let b = iprefix_all(p, NodeView::Field(s.last().0, s.last().1));
        lemma_field_group_concat(itffields_prims(w), b, name);
        lemma_field_group_prefixed(p, s.last().0, s.last().1, name);
        assert(field_group(itffields_prims(s), name) =~= Seq::<(InterfaceView, Seq<NodeView>)>::empty());
    }
}

/// The channels of the fields of a struct, grouped by field, and the fields in order.
pub proof fn lemma_fields_groups(s: Seq<(Seq<char>, Option<Seq<char>>, InterfaceView)>)
    requires
        keys_unique(itf_keys(s)),
        forall|k: int| 0 <= k < s.len() ==> itf_prims(#[trigger] s[k].2).len() > 0,
    ensures
        all_fielded(itffields_prims(s)),
        first_fields(itffields_prims(s)) == s.map_values(
            |f: (Seq<char>, Option<Seq<char>>, InterfaceView)| (f.0, f.1),
        ),
        forall|k: int| 0 <= k < s.len() ==> field_group(itffields_prims(s), #[trigger] s[k].0) == itf_prims(s[k].2),
    decreases s.len(),
{
    let pairs = s.map_values(|f: (Seq<char>, Option<Seq<char>>, InterfaceView)| (f.0, f.1));
    if s.len() > 0 {
        let w = s.drop_last();
        let last = s.last();
        let p = itf_prims(last.2);
        let node = NodeView::Field(last.0, last.1);
        let b = iprefix_all(p, node);
        assert(itf_keys(s) =~= itf_keys(w).push(last.0));
        assert(keys_unique(itf_keys(w))) by {
            assert forall|i: int, j: int| 0 <= i < j < itf_keys(w).len() implies itf_keys(w)[i] != itf_keys(w)[j] by {
                assert(itf_keys(w)[i] == itf_keys(s)[i]);
                assert(itf_keys(w)[j] == itf_keys(s)[j]);
            }
        }
        assert(!itf_keys(w).contains(last.0)) by {
            if itf_keys(w).contains(last.0) {
                let i = choose|i: int| 0 <= i < itf_keys(w).len() && itf_keys(w)[i] == last.0;
                assert(itf_keys(s)[i] == itf_keys(s)[s.len() - 1]);
            }
        }
        assert forall|k: int| 0 <= k < w.len() implies itf_prims(#[trigger] w[k].2).len() > 0 by {
            assert(w[k] == s[k]);
        }
        lemma_fields_groups(w);
        assert(itffields_prims(s) == itffields_prims(w) + b);
        assert(all_fielded(b)) by {
            assert forall|k: int| 0 <= k < b.len() implies (#[trigger] b[k]).1.len() > 0 && b[k].1[0] is Field by {
                lemma_iprefix_at(p, node, k);
            }
        }
        lemma_all_fielded_concat(itffields_prims(w), b);
        assert(p.len() > 0);
        lemma_first_fields_prefixed(itffields_prims(w), p, last.0, last.1);
        let wpairs = w.map_values(|f: (Seq<char>, Option<Seq<char>>, InterfaceView)| (f.0, f.1));
        assert(field_names(wpairs) =~= itf_keys(w));
        assert(pairs =~= wpairs.push((last.0, last.1)));
        assert forall|k: int| 0 <= k < s.len() implies field_group(itffields_prims(s), #[trigger] s[k].0) == itf_prims(s[k].2) by {
            lemma_field_group_concat(itffields_prims(w), b, s[k].0);
            lemma_field_group_prefixed(p, last.0, last.1, s[k].0);
            if k < w.len() {
                assert(w[k] == s[k]);
                assert(itf_keys(s)[k] != itf_keys(s)[s.len() - 1]);
                assert(field_group(itffields_prims(s), s[k].0) =~= itf_prims(s[k].2));
            } else {
                lemma_field_group_absent(w, last.0);
                assert(field_group(itffields_prims(s), s[k].0) =~= itf_prims(s[k].2));
            }
        }
    } else {
        assert(first_fields(itffields_prims(s)) =~= pairs);
    }
}

/// The elements built for the indices, one by one.
pub proof fn lemma_idx_elems(ps: Seq<(InterfaceView, Seq<NodeView>)>, n: nat)
    requires
        ps.len() > 0,
    ensures
        idx_elems(ps, n).len() == n,
        forall|k: int| 0 <= k < n ==> #[trigger] idx_elems(ps, n)[k] == prims_itf(idx_group(ps, k as usize)),
        (forall|k: int| 0 <= k < n ==> prims_ok(#[trigger] idx_group(ps, k as usize))) ==> idx_groups_ok(ps, n),
    decreases n,
{
    if n > 0 {
        lemma_idx_elems(ps, (n - 1) as nat);
    }
}

/// The fields built, one by one.
pub proof fn lemma_field_elems(ps: Seq<(InterfaceView, Seq<NodeView>)>, n: nat)
    requires
        ps.len() > 0,
        n <= first_fields(ps).len(),
    ensures
        field_elems(ps, n).len() == n,
        forall|k: int|
            0 <= k < n ==> #[trigger] field_elems(ps, n)[k] == (
                first_fields(ps)[k].0,
                first_fields(ps)[k].1,
                prims_itf(field_group(ps, first_fields(ps)[k].0)),
            ),
        (forall|k: int| 0 <= k < n ==> prims_ok(#[trigger] field_group(ps, first_fields(ps)[k].0))) ==> field_groups_ok(
            ps,
            n,
        ),
    decreases n,
{
    if n > 0 {
        lemma_field_elems(ps, (n - 1) as nat);
    }
}

/// An interface is made up again by its channels: putting together the channels that
/// `into_primitives` gives, at their paths, gives back the interface.
pub proof fn lemma_primitives_round_trip(i: InterfaceView)
    requires
        rt_ok(i),
    ensures
        prims_ok(itf_prims(i)),
        prims_itf(itf_prims(i)) == i,
    decreases i,
{
    match i {
        InterfaceView::Channel(_) => {},
        InterfaceView::Array(v) => {
            let ps = itf_prims(i);
            assert(ps == itfs_prims(v));
            assert forall|k: int| 0 <= k < v.len() implies itf_prims(#[trigger] v[k]).len() > 0 by {
                lemma_rt_oks(v, k);
                lemma_rt_nonempty(v[k]);
            }
            lemma_itfs_groups(v);
            lemma_rt_nonempty(i);
            assert(ps[0].1[0] is Index);
            lemma_idx_elems(ps, v.len());
            assert forall|k: int| 0 <= k < v.len() implies prims_ok(#[trigger] idx_group(ps, k as usize)) && prims_itf(
                idx_group(ps, k as usize),
            ) == v[k] by {
                lemma_rt_oks(v, k);
                lemma_primitives_round_trip(v[k]);
            }
            assert(idx_elems(ps, v.len()) =~= v);
        },
        InterfaceView::Struct(s) => {
            let ps = itf_prims(i);
            assert(ps == itffields_prims(s));
            assert forall|k: int| 0 <= k < s.len() implies itf_prims(#[trigger] s[k].2).len() > 0 by {
                lemma_rt_fields_ok(s, k);
                lemma_rt_nonempty(s[k].2);
            }
            lemma_fields_groups(s);
            lemma_rt_nonempty(i);
            assert(ps[0].1[0] is Field);
            let ff = first_fields(ps);
            assert(ff.len() == s.len());
            lemma_field_elems(ps, s.len());
            assert forall|k: int| 0 <= k < s.len() implies prims_ok(#[trigger] field_group(ps, ff[k].0)) && prims_itf(
                field_group(ps, ff[k].0),
            ) == s[k].2 by {
                assert(ff[k].0 == s[k].0);
                lemma_rt_fields_ok(s, k);
                lemma_primitives_round_trip(s[k].2);
            }
            assert(field_elems(ps, s.len()) =~= s);
        },
        _ => {},
    }
}

/// Groups that can be put together, one by one.
pub proof fn lemma_idx_groups_ok(ps: Seq<(InterfaceView, Seq<NodeView>)>, n: nat)
    requires
        idx_groups_ok(ps, n),
        ps.len() > 0,
    ensures
        forall|k: int| 0 <= k < n ==> prims_ok(#[trigger] idx_group(ps, k as usize)),
    decreases n,
{
    if n > 0 {
        lemma_idx_groups_ok(ps, (n - 1) as nat);
    }
}

/// Groups that can be put together, one by one.
pub proof fn lemma_field_groups_ok(ps: Seq<(InterfaceView, Seq<NodeView>)>, n: nat)
    requires
        field_groups_ok(ps, n),
        ps.len() > 0,
        n <= first_fields(ps).len(),
    ensures
        forall|k: int| 0 <= k < n ==> prims_ok(#[trigger] field_group(ps, first_fields(ps)[k].0)),
    decreases n,
{
    if n > 0 {
        lemma_field_groups_ok(ps, (n - 1) as nat);
    }
}

/// The count of a prefix is at most that of all entries.
pub proof fn lemma_idx_count_prefix(ps: Seq<(InterfaceView, Seq<NodeView>)>, k: int)
    requires
        0 <= k <= ps.len(),
    ensures
        idx_count(ps.take(k)) <= idx_count(ps),
    decreases ps.len() - k,
{
    if k < ps.len() {
        lemma_idx_count_prefix(ps, k + 1);
        assert(ps.take(k + 1).drop_last() =~= ps.take(k));
    } else {
        assert(ps.take(k) =~= ps);
    }
}

/// The first node of a path, if any.
fn head_of(path: &EndpointPath) -> (r: Option<EndpointNode>)
    ensures
        path@.len() == 0 ==> r is None,
        path@.len() > 0 ==> (r matches Some(n) && n@ == path@[0]),
{
    let mut p = path.clone();
    p.pop_front()
}

/// The entries whose path starts with index `i`, with that node taken off.
fn index_group(ps: &Vec<(Interface, EndpointPath)>, i: usize) -> (r: Vec<(Interface, EndpointPath)>)
    ensures
        itf_paths_view(r@) == idx_group(itf_paths_view(ps@), i),
{
    let ghost pv = itf_paths_view(ps@);
    let mut out: Vec<(Interface, EndpointPath)> = Vec::new();
    let mut k: usize = 0;
    assert(pv.take(0) =~= Seq::<(InterfaceView, Seq<NodeView>)>::empty());
    while k < ps.len()
        invariant
            pv == itf_paths_view(ps@),
            k <= ps@.len(),
            itf_paths_view(out@) == idx_group(pv.take(k as int), i),
        decreases ps@.len() - k,
    {
        assert(pv.take(k as int + 1).drop_last() =~= pv.take(k as int));
        assert(pv[k as int] == (ps@[k as int].0@, ps@[k as int].1@));
        let mut path = ps[k].1.clone();
        let head = path.pop_front();
        let ghost prev = out@;
        match head {
            Some(EndpointNode::Index(j)) => {
                if j == i {
                    out.push((ps[k].0.clone(), path));
                    assert(itf_paths_view(out@) =~= itf_paths_view(prev).push((ps@[k as int].0@, path@)));
                } else {
                    assert(idx_group(pv.take(k as int + 1), i) =~= idx_group(pv.take(k as int), i));
                }
            },
            _ => {
                assert(idx_group(pv.take(k as int + 1), i) =~= idx_group(pv.take(k as int), i));
            },
        }
        k += 1;
    }
    assert(pv.take(ps@.len() as int) =~= pv);
    out
}

/// The entries whose path starts with field `name`, with that node taken off.
fn field_group_of(ps: &Vec<(Interface, EndpointPath)>, name: &String) -> (r: Vec<(Interface, EndpointPath)>)
    ensures
        itf_paths_view(r@) == field_group(itf_paths_view(ps@), name@),
{
    let ghost pv = itf_paths_view(ps@);
    let mut out: Vec<(Interface, EndpointPath)> = Vec::new();
    let mut k: usize = 0;
    assert(pv.take(0) =~= Seq::<(InterfaceView, Seq<NodeView>)>::empty());
    while k < ps.len()
        invariant
            pv == itf_paths_view(ps@),
            k <= ps@.len(),
            itf_paths_view(out@) == field_group(pv.take(k as int), name@),
        decreases ps@.len() - k,
    {
        assert(pv.take(k as int + 1).drop_last() =~= pv.take(k as int));
        assert(pv[k as int] == (ps@[k as int].0@, ps@[k as int].1@));
        let mut path = ps[k].1.clone();
        let head = path.pop_front();
        let ghost prev = out@;
        match head {
            Some(EndpointNode::Field(n, _)) => {
                if eq_str(n.as_str(), name.as_str()) {
                    out.push((ps[k].0.clone(), path));
                    assert(itf_paths_view(out@) =~= itf_paths_view(prev).push((ps@[k as int].0@, path@)));
                } else {
                    assert(field_group(pv.take(k as int + 1), name@) =~= field_group(pv.take(k as int), name@));
                }
            },
            _ => {
                assert(field_group(pv.take(k as int + 1), name@) =~= field_group(pv.take(k as int), name@));
            },
        }
        k += 1;
    }
    assert(pv.take(ps@.len() as int) =~= pv);
    out
}

/// One more than the largest index that starts a path.
fn index_count(ps: &Vec<(Interface, EndpointPath)>) -> (r: usize)
    requires
        idx_count(itf_paths_view(ps@)) <= usize::MAX,
    ensures
        r == idx_count(itf_paths_view(ps@)),
{
    let ghost pv = itf_paths_view(ps@);
    let mut c: usize = 0;
    let mut k: usize = 0;
    assert(pv.take(0) =~= Seq::<(InterfaceView, Seq<NodeView>)>::empty());
    while k < ps.len()
        invariant
            pv == itf_paths_view(ps@),
            idx_count(pv) <= usize::MAX,
            k <= ps@.len(),
            c == idx_count(pv.take(k as int)),
        decreases ps@.len() - k,
    {
        assert(pv.take(k as int + 1).drop_last() =~= pv.take(k as int));
        assert(pv[k as int] == (ps@[k as int].0@, ps@[k as int].1@));
        proof {
            lemma_idx_count_prefix(pv, k as int + 1);
        }
        match head_of(&ps[k].1) {
            Some(EndpointNode::Index(j)) => {
                if j >= c {
                    c = j + 1;
                }
            },
            _ => {},
        }
        k += 1;
    }
    assert(pv.take(ps@.len() as int) =~= pv);
    c
}

/// Views of fields with separators.
pub open spec fn fields_v(s: Seq<(String, Option<String>)>) -> Seq<(Seq<char>, Option<Seq<char>>)> {
    s.map_values(|f: (String, Option<String>)| (f.0@, opt_view(f.1)))
}

/// The fields that start paths, with the separator where each first occurs.
fn first_fields_of(ps: &Vec<(Interface, EndpointPath)>) -> (r: Vec<(String, Option<String>)>)
    ensures
        fields_v(r@) == first_fields(itf_paths_view(ps@)),
{
    let ghost pv = itf_paths_view(ps@);
    let mut out: Vec<(String, Option<String>)> = Vec::new();
    let mut names: Vec<String> = Vec::new();
    let mut k: usize = 0;
    assert(pv.take(0) =~= Seq::<(InterfaceView, Seq<NodeView>)>::empty());
    assert(fields_v(out@) =~= first_fields(pv.take(0)));
    while k < ps.len()
        invariant
            pv == itf_paths_view(ps@),
            k <= ps@.len(),
            fields_v(out@) == first_fields(pv.take(k as int)),
            names_v(names@) == field_names(fields_v(out@)),
        decreases ps@.len() - k,
    {
        assert(pv.take(k as int + 1).drop_last() =~= pv.take(k as int));
        assert(pv[k as int] == (ps@[k as int].0@, ps@[k as int].1@));
        match head_of(&ps[k].1) {
            Some(EndpointNode::Field(n, sep)) => {
                if !contains_name(&names, &n) {
                    let ghost po = out@;
                    let ghost pn = names@;
                    let ghost sv = opt_view(sep);
                    out.push((n.clone(), sep));
                    names.push(n);
                    assert(fields_v(out@) =~= fields_v(po).push((n@, sv)));
                    assert(names_v(names@) =~= names_v(pn).push(n@));
                    assert(field_names(fields_v(out@)) =~= field_names(fields_v(po)).push(n@));
                }
            },
            _ => {},
        }
        k += 1;
    }
    assert(pv.take(ps@.len() as int) =~= pv);
    out
}

impl Interface {
    /// Constructs an interface from its channels, each with its path: the inverse of
    /// `into_primitives`.
    pub fn from_primitives(primitives: Vec<(Interface, EndpointPath)>) -> (r: Interface)
        requires
            prims_ok(itf_paths_view(primitives@)),
        ensures
            r@ == prims_itf(itf_paths_view(primitives@)),
        decreases psize(itf_paths_view(primitives@)) + 1, 0nat,
    {
        let ghost pv = itf_paths_view(primitives@);
        assert(pv[0] == (primitives@[0].0@, primitives@[0].1@));
        if primitives[0].1.len() == 0 {
            return primitives[0].0.clone();
        }
        match head_of(&primitives[0].1) {
            Some(EndpointNode::Index(_)) => {
                let n = index_count(&primitives);
                proof {
                    lemma_idx_groups_ok(pv, n as nat);
                }
                let mut elems: Vec<Interface> = Vec::new();
                let mut i: usize = 0;
                assert(itfs_view(elems@) =~= idx_elems(pv, 0));
                while i < n
                    invariant
                        pv == itf_paths_view(primitives@),
                        pv.len() > 0,
                        n == idx_count(pv),
                        forall|k: int| 0 <= k < n ==> prims_ok(#[trigger] idx_group(pv, k as usize)),
                        i <= n,
                        itfs_view(elems@) == idx_elems(pv, i as nat),
                    decreases n - i,
                {
                    let g = index_group(&primitives, i);
                    proof {
                        lemma_idx_group_smaller(pv, i);
                        let ki: int = i as int;
                        assert(prims_ok(idx_group(pv, ki as usize)));
                        assert(ki as usize == i);
                    }
                    let e = Interface::from_primitives(g);
                    let ghost prev = elems@;
                    elems.push(e);
                    proof {
                        lemma_itfs_view(elems@);
                        lemma_itfs_view(prev);
                        assert(itfs_view(elems@) =~= itfs_view(prev).push(e@));
                    }
                    i += 1;
                }
                Interface::Array(elems)
            },
            Some(EndpointNode::Field(..)) => {
                let fields = first_fields_of(&primitives);
                let ghost ff = first_fields(pv);
                proof {
                    lemma_field_groups_ok(pv, ff.len());
                }
                let mut out: Vec<(String, (Option<String>, Interface))> = Vec::new();
                let mut k: usize = 0;
                assert(itffields_view(out@) =~= field_elems(pv, 0));
                while k < fields.len()
                    invariant
                        pv == itf_paths_view(primitives@),
                        pv.len() > 0,
                        ff == first_fields(pv),
                        fields_v(fields@) == ff,
                        forall|q: int| 0 <= q < ff.len() ==> prims_ok(#[trigger] field_group(pv, ff[q].0)),
                        k <= fields@.len(),
                        itffields_view(out@) == field_elems(pv, k as nat),
                    decreases fields@.len() - k,
                {
                    assert(ff[k as int] == (fields@[k as int].0@, opt_view(fields@[k as int].1)));
                    let g = field_group_of(&primitives, &fields[k].0);
                    proof {
                        lemma_field_group_smaller(pv, ff[k as int].0);
                        assert(prims_ok(field_group(pv, ff[k as int].0)));
                    }
                    let e = Interface::from_primitives(g);
                    let ghost prev = out@;
                    out.push((fields[k].0.clone(), (clone_opt_string(&fields[k].1), e)));
                    proof {
                        lemma_itffields_view(out@);
                        lemma_itffields_view(prev);
                        assert(itffields_view(out@) =~= itffields_view(prev).push(
                            (ff[k as int].0, ff[k as int].1, e@),
                        ));
                    }
                    k += 1;
                }
                Interface::Struct(out)
            },
            None => vstd::pervasive::unreached(),
        }
    }
}

/// The interface of a primitive type whose channel has the given endpoint.
pub open spec fn leaf_itf(t: InterfaceTypView, endpoint: EndpointView) -> InterfaceView {
    match t {
        InterfaceTypView::Channel(ct) => InterfaceView::Channel(ChannelView { typ: ct, endpoint }),
        _ => InterfaceView::Unit,
    }
}

/// Primitive types at their paths, as interfaces whose channels are driven by the
/// module's input at the same paths (`None`), or by the output of submodule `Some(i)`.
pub open spec fn driven_prims(ps: Seq<(InterfaceTypView, Seq<NodeView>)>, src: Option<usize>) -> Seq<
    (InterfaceView, Seq<NodeView>),
> {
    ps.map_values(
        |p: (InterfaceTypView, Seq<NodeView>)|
            (
                leaf_itf(
                    p.0,
                    match src {
                        Some(i) => EndpointView::Submodule(i, p.1),
                        None => EndpointView::Input(p.1),
                    },
                ),
                p.1,
            ),
    )
}

/// Every primitive of an interface type is a unit or a channel.
pub proof fn lemma_itv_prims_leaves(t: InterfaceTypView)
    ensures
        forall|k: int|
            0 <= k < itv_prims(t).len() ==> (#[trigger] itv_prims(t)[k]).0 is Unit || itv_prims(t)[k].0 is Channel,
    decreases t,
{
    match t {
        InterfaceTypView::Array(b, n) => {
            lemma_itv_prims_leaves(*b);
            lemma_array_prims_leaves(itv_prims(*b), n as nat);
        },
        InterfaceTypView::Struct(f) => {
            lemma_itvfields_prims_leaves(f);
        },
        _ => {},
    }
}

/// The primitives of an array are those of its element.
pub proof fn lemma_array_prims_leaves(ps: Seq<(InterfaceTypView, Seq<NodeView>)>, n: nat)
    requires
        forall|k: int| 0 <= k < ps.len() ==> (#[trigger] ps[k]).0 is Unit || ps[k].0 is Channel,
    ensures
        forall|k: int|
            0 <= k < array_prims(ps, n).len() ==> (#[trigger] array_prims(ps, n)[k]).0 is Unit
                || array_prims(ps, n)[k].0 is Channel,
    decreases n,
{
    if n > 0 {
        lemma_array_prims_leaves(ps, (n - 1) as nat);
        let a = array_prims(ps, (n - 1) as nat);
        let b = prefix_all(ps, NodeView::Index((n - 1) as usize));
        assert forall|k: int| 0 <= k < (a + b).len() implies (#[trigger] (a + b)[k]).0 is Unit || (a + b)[k].0 is Channel by {
            if k >= a.len() {
                assert((a + b)[k] == b[k - a.len()]);
            } else {
                assert((a + b)[k] == a[k]);
            }
        }
    }
}

/// The primitives of a struct are those of its fields.
pub proof fn lemma_itvfields_prims_leaves(f: Seq<(Seq<char>, Option<Seq<char>>, InterfaceTypView)>)
    ensures
        forall|k: int|
            0 <= k < itvfields_prims(f).len() ==> (#[trigger] itvfields_prims(f)[k]).0 is Unit
                || itvfields_prims(f)[k].0 is Channel,
    decreases f,
{
    if f.len() > 0 {
        lemma_itvfields_prims_leaves(f.drop_last());
        lemma_itv_prims_leaves(f.last().2);
        let a = itvfields_prims(f.drop_last());
        let b = prefix_all(itv_prims(f.last().2), NodeView::Field(f.last().0, f.last().1));
        assert forall|k: int| 0 <= k < (a + b).len() implies (#[trigger] (a + b)[k]).0 is Unit || (a + b)[k].0 is Channel by {
            if k >= a.len() {
                assert((a + b)[k] == b[k - a.len()]);
            } else {
                assert((a + b)[k] == a[k]);
            }
        }
    }
}

/// The primitives of an interface type, each made a unit or a channel driven as `src`
/// says, at its path.
fn driven_primitives(interface_typ: &InterfaceTyp, src: Option<usize>) -> (r: Vec<(Interface, EndpointPath)>)
    ensures
        itf_paths_view(r@) == driven_prims(itv_prims(interface_typ@), src),
{
    let prims = interface_typ.into_primitives();
    let ghost pv = typ_paths_view(prims@);
    let ghost target = driven_prims(pv, src);
    proof {
        lemma_itv_prims_leaves(interface_typ@);
    }
    let mut out: Vec<(Interface, EndpointPath)> = Vec::new();
    let mut k: usize = 0;
    while k < prims.len()
        invariant
            pv == typ_paths_view(prims@),
            pv == itv_prims(interface_typ@),
            target == driven_prims(pv, src),
            forall|q: int| 0 <= q < pv.len() ==> (#[trigger] pv[q]).0 is Unit || pv[q].0 is Channel,
            k <= prims@.len(),
            itf_paths_view(out@) == target.take(k as int),
        decreases prims@.len() - k,
    {
        assert(pv[k as int] == (prims@[k as int].0@, prims@[k as int].1@));
        let path = prims[k].1.clone();
        let itf = match &prims[k].0 {
            InterfaceTyp::Unit => Interface::Unit,
            InterfaceTyp::Channel(ct) => {
                let endpoint = match src {
                    Some(i) => Endpoint::submodule(i, path.clone()),
                    None => Endpoint::input(path.clone()),
                };
                Interface::Channel(Channel { typ: ct.clone(), endpoint })
            },
            _ => vstd::pervasive::unreached(),
        };
        let ghost prev = out@;
        out.push((itf, path));
        proof {
            assert(itf_paths_view(out@) =~= itf_paths_view(prev).push((itf@, path@)));
            assert(target[k as int] == (itf@, path@));
            assert(target.take(k as int + 1) =~= target.take(k as int).push(target[k as int]));
        }
        k += 1;
    }
    assert(target.take(prims@.len() as int) =~= target);
    out
}

/// Creates the input interface of a module of the given input interface type: each
/// channel is driven by the module's input at its own path.
pub fn input_interface(interface_typ: &InterfaceTyp) -> (r: Interface)
    requires
        prims_ok(driven_prims(itv_prims(interface_typ@), None)),
    ensures
        r@ == prims_itf(driven_prims(itv_prims(interface_typ@), None)),
{
    let prims = driven_primitives(interface_typ, None);
    Interface::from_primitives(prims)
}

/// Creates the output interface of submodule `submodule_index` of the given output
/// interface type: each channel is driven by that submodule at its own path.
pub fn submodule_output_interface(interface_typ: InterfaceTyp, submodule_index: usize) -> (r: Interface)
    requires
        prims_ok(driven_prims(itv_prims(interface_typ@), Some(submodule_index))),
    ensures
        r@ == prims_itf(driven_prims(itv_prims(interface_typ@), Some(submodule_index))),
{
    let prims = driven_primitives(&interface_typ, Some(submodule_index));
    Interface::from_primitives(prims)
}

/// The endpoint at `path` of the driver that `src` names.
pub open spec fn driver_at(src: Option<usize>, path: Seq<NodeView>) -> EndpointView {
    match src {
        Some(i) => EndpointView::Submodule(i, path),
        None => EndpointView::Input(path),
    }
}

/// Primitive types at their paths below `base`, as interfaces driven as `src` says at
/// their full paths.
pub open spec fn driven_prims_at(
    ps: Seq<(InterfaceTypView, Seq<NodeView>)>,
    base: Seq<NodeView>,
    src: Option<usize>,
) -> Seq<(InterfaceView, Seq<NodeView>)> {
    ps.map_values(|p: (InterfaceTypView, Seq<NodeView>)| (leaf_itf(p.0, driver_at(src, base + p.1)), p.1))
}

/// The interface of type `t`, found at path `base`, whose channels are driven as `src`
/// says at their own paths.
pub open spec fn driven_itf(t: InterfaceTypView, base: Seq<NodeView>, src: Option<usize>) -> InterfaceView
    decreases t, 0nat,
{
    match t {
        InterfaceTypView::Unit => InterfaceView::Unit,
        InterfaceTypView::Channel(ct) => InterfaceView::Channel(ChannelView { typ: ct, endpoint: driver_at(src, base) }),
        InterfaceTypView::Array(b, n) => InterfaceView::Array(driven_elems(*b, base, src, n as nat)),
        InterfaceTypView::Struct(f) => InterfaceView::Struct(driven_fields(f, base, src)),
    }
}

/// The first `n` elements of an array of element type `b`.
pub open spec fn driven_elems(b: InterfaceTypView, base: Seq<NodeView>, src: Option<usize>, n: nat) -> Seq<
    InterfaceView,
>
    decreases b, n,
{
    if n == 0 {
        seq![]
    } else {
        driven_elems(b, base, src, (n - 1) as nat).push(
            driven_itf(b, base.push(NodeView::Index((n - 1) as usize)), src),
        )
    }
}

/// The fields of a struct.
pub open spec fn driven_fields(
    f: Seq<(Seq<char>, Option<Seq<char>>, InterfaceTypView)>,
    base: Seq<NodeView>,
    src: Option<usize>,
) -> Seq<(Seq<char>, Option<Seq<char>>, InterfaceView)>
    decreases f, 0nat,
{
    if f.len() == 0 {
        seq![]
    } else {
        driven_fields(f.drop_last(), base, src).push(
            (f.last().0, f.last().1, driven_itf(f.last().2, base.push(NodeView::Field(f.last().0, f.last().1)), src)),
        )
    }
}

/// An interface type that its primitives make up again: arrays and structs are not
/// empty, and struct fields have distinct names.
pub open spec fn typ_ok(t: InterfaceTypView) -> bool
    decreases t,
{
    match t {
        InterfaceTypView::Array(b, n) => n > 0 && typ_ok(*b),
        InterfaceTypView::Struct(f) => f.len() > 0 && keys_unique(f.map_values(
            |x: (Seq<char>, Option<Seq<char>>, InterfaceTypView)| x.0,
        )) && typ_fields_ok(f),
        _ => true,
    }
}

/// Every field type is made up again by its primitives.
pub open spec fn typ_fields_ok(f: Seq<(Seq<char>, Option<Seq<char>>, InterfaceTypView)>) -> bool
    decreases f,
{
    if f.len() == 0 {
        true
    } else {
        typ_fields_ok(f.drop_last()) && typ_ok(f.last().2)
    }
}

/// Driving distributes over concatenation.
pub proof fn lemma_driven_concat(
    a: Seq<(InterfaceTypView, Seq<NodeView>)>,
    b: Seq<(InterfaceTypView, Seq<NodeView>)>,
    base: Seq<NodeView>,
    src: Option<usize>,
)
    ensures
        driven_prims_at(a + b, base, src) == driven_prims_at(a, base, src) + driven_prims_at(b, base, src),
{
    assert(driven_prims_at(a + b, base, src) =~= driven_prims_at(a, base, src) + driven_prims_at(b, base, src));
}

/// Driving paths prefixed by a node is prefixing the paths driven below that node.
pub proof fn lemma_driven_prefix(
    p: Seq<(InterfaceTypView, Seq<NodeView>)>,
    node: NodeView,
    base: Seq<NodeView>,
    src: Option<usize>,
)
    ensures
        driven_prims_at(prefix_all(p, node), base, src) == iprefix_all(driven_prims_at(p, base.push(node), src), node),
{
    let l = driven_prims_at(prefix_all(p, node), base, src);
    let r = iprefix_all(driven_prims_at(p, base.push(node), src), node);
    assert forall|k: int| 0 <= k < p.len() implies #[trigger] l[k] == r[k] by {
        assert(base + (seq![node] + p[k].1) =~= base.push(node) + p[k].1);
    }
    assert(l =~= r);
}

/// An interface type made up again by its primitives has some.
pub proof fn lemma_typ_nonempty(t: InterfaceTypView)
    requires
        typ_ok(t),
    ensures
        itv_prims(t).len() > 0,
    decreases t,
{
    match t {
        InterfaceTypView::Array(b, n) => {
            lemma_typ_nonempty(*b);
            let pb = itv_prims(*b);
            let node = NodeView::Index((n - 1) as usize);
            assert(array_prims(pb, n as nat) == array_prims(pb, (n - 1) as nat) + prefix_all(pb, node));
            assert(prefix_all(pb, node).len() == pb.len());
            assert(itv_prims(t) == array_prims(pb, n as nat));
        },
        InterfaceTypView::Struct(f) => {
            lemma_typ_fields_ok(f, f.len() - 1);
            lemma_typ_nonempty(f.last().2);
            let node = NodeView::Field(f.last().0, f.last().1);
            let pl = itv_prims(f.last().2);
            assert(itvfields_prims(f) == itvfields_prims(f.drop_last()) + prefix_all(pl, node));
            assert(prefix_all(pl, node).len() == pl.len());
            assert(itv_prims(t) == itvfields_prims(f));
        },
        _ => {},
    }
}

/// Field by field.
pub proof fn lemma_typ_fields_ok(f: Seq<(Seq<char>, Option<Seq<char>>, InterfaceTypView)>, k: int)
    requires
        typ_fields_ok(f),
        0 <= k < f.len(),
    ensures
        typ_ok(f[k].2),
    decreases f.len(),
{
    if k < f.len() - 1 {
        lemma_typ_fields_ok(f.drop_last(), k);
    }
}

/// The driven primitives of an array, grouped and counted by index.
pub proof fn lemma_array_groups(b: Seq<(InterfaceTypView, Seq<NodeView>)>, n: nat, base: Seq<NodeView>, src: Option<usize>)
    requires
        b.len() > 0,
        n <= usize::MAX,
    ensures
        all_indexed(driven_prims_at(array_prims(b, n), base, src)),
        idx_count(driven_prims_at(array_prims(b, n), base, src)) == n,
        forall|k: int|
            0 <= k < n ==> #[trigger] idx_group(driven_prims_at(array_prims(b, n), base, src), k as usize)
                == driven_prims_at(b, base.push(NodeView::Index(k as usize)), src),
    decreases n,
{
    let d = driven_prims_at(array_prims(b, n), base, src);
    if n == 0 {
        assert(d =~= Seq::<(InterfaceView, Seq<NodeView>)>::empty());
    } else {
        let j = (n - 1) as usize;
        let node = NodeView::Index(j);
        lemma_array_groups(b, (n - 1) as nat, base, src);
        let a = driven_prims_at(array_prims(b, (n - 1) as nat), base, src);
        let x = driven_prims_at(b, base.push(node), src);
        let y = iprefix_all(x, node);
        lemma_driven_concat(array_prims(b, (n - 1) as nat), prefix_all(b, node), base, src);
        lemma_driven_prefix(b, node, base, src);
        assert(d == a + y);
        assert(all_indexed(y)) by {
            assert forall|k: int| 0 <= k < y.len() implies (#[trigger] y[k]).1.len() > 0 && y[k].1[0] is Index by {
                lemma_iprefix_at(x, node, k);
            }
        }
        lemma_all_indexed_concat(a, y);
        lemma_idx_count_concat(a, y);
        lemma_idx_count_prefixed(x, j);
        assert forall|k: int|
            0 <= k < n implies #[trigger] idx_group(d, k as usize) == driven_prims_at(
                b,
                base.push(NodeView::Index(k as usize)),
                src,
            ) by {
            lemma_idx_group_concat(a, y, k as usize);
            lemma_idx_group_prefixed(x, j, k as usize);
            if k < n - 1 {
                assert(idx_group(d, k as usize) =~= driven_prims_at(b, base.push(NodeView::Index(k as usize)), src));
            } else {
                lemma_idx_group_empty(a, j);
                assert(idx_group(d, k as usize) =~= driven_prims_at(b, base.push(NodeView::Index(k as usize)), src));
            }
        }
    }
}

/// Names of field types.
pub open spec fn typ_keys(f: Seq<(Seq<char>, Option<Seq<char>>, InterfaceTypView)>) -> Seq<Seq<char>> {
    f.map_values(|x: (Seq<char>, Option<Seq<char>>, InterfaceTypView)| x.0)
}

/// No driven path starts with a field that is not a key.
pub proof fn lemma_typ_field_group_absent(
    f: Seq<(Seq<char>, Option<Seq<char>>, InterfaceTypView)>,
    name: Seq<char>,
    base: Seq<NodeView>,
    src: Option<usize>,
)
    requires
        !typ_keys(f).contains(name),
    ensures
        field_group(driven_prims_at(itvfields_prims(f), base, src), name) == Seq::<(InterfaceView, Seq<NodeView>)>::empty(),
    decreases f.len(),
{
    if f.len() > 0 {
        let w = f.drop_last();
        let last = f.last();
        let node = NodeView::Field(last.0, last.1);
        assert(typ_keys(f) =~= typ_keys(w).push(last.0));
        assert(!typ_keys(w).contains(name)) by {
            if typ_keys(w).contains(name) {
                let i = choose|i: int| 0 <= i < typ_keys(w).len() && typ_keys(w)[i] == name;
                assert(typ_keys(f)[i] == name);
            }
        }
        assert(last.0 != name) by {
            assert(typ_keys(f)[f.len() - 1] == last.0);
        }
        lemma_typ_field_group_absent(w, name, base, src);
        let x = driven_prims_at(itv_prims(last.2), base.push(node), src);
        lemma_driven_concat(itvfields_prims(w), prefix_all(itv_prims(last.2), node), base, src);
        lemma_driven_prefix(itv_prims(last.2), node, base, src);
        lemma_field_group_concat(driven_prims_at(itvfields_prims(w), base, src), iprefix_all(x, node), name);
        lemma_field_group_prefixed(x, last.0, last.1, name);
        assert(field_group(driven_prims_at(itvfields_prims(f), base, src), name) =~= Seq::<(InterfaceView, Seq<NodeView>)>::empty());
    }
}

/// The driven primitives of a struct, grouped by field, and the fields in order.
pub proof fn lemma_typ_fields_groups(
    f: Seq<(Seq<char>, Option<Seq<char>>, InterfaceTypView)>,
    base: Seq<NodeView>,
    src: Option<usize>,
)
    requires
        keys_unique(typ_keys(f)),
        forall|k: int| 0 <= k < f.len() ==> itv_prims(#[trigger] f[k].2).len() > 0,
    ensures
        all_fielded(driven_prims_at(itvfields_prims(f), base, src)),
        first_fields(driven_prims_at(itvfields_prims(f), base, src)) == f.map_values(
            |x: (Seq<char>, Option<Seq<char>>, InterfaceTypView)| (x.0, x.1),
        ),
        forall|k: int|
            0 <= k < f.len() ==> field_group(driven_prims_at(itvfields_prims(f), base, src), #[trigger] f[k].0)
                == driven_prims_at(itv_prims(f[k].2), base.push(NodeView::Field(f[k].0, f[k].1)), src),
    decreases f.len(),
{
    let d = driven_prims_at(itvfields_prims(f), base, src);
    let pairs = f.map_values(|x: (Seq<char>, Option<Seq<char>>, InterfaceTypView)| (x.0, x.1));
    if f.len() == 0 {
        assert(d =~= Seq::<(InterfaceView, Seq<NodeView>)>::empty());
        assert(first_fields(d) =~= pairs);
    } else {
        let w = f.drop_last();
        let last = f.last();
        let node = NodeView::Field(last.0, last.1);
        assert(typ_keys(f) =~= typ_keys(w).push(last.0));
        assert(keys_unique(typ_keys(w))) by {
            assert forall|i: int, j: int| 0 <= i < j < typ_keys(w).len() implies typ_keys(w)[i] != typ_keys(w)[j] by {
                assert(typ_keys(w)[i] == typ_keys(f)[i]);
                assert(typ_keys(w)[j] == typ_keys(f)[j]);
            }
        }
        assert(!typ_keys(w).contains(last.0)) by {
            if typ_keys(w).contains(last.0) {
                let i = choose|i: int| 0 <= i < typ_keys(w).len() && typ_keys(w)[i] == last.0;
                assert(typ_keys(f)[i] == typ_keys(f)[f.len() - 1]);
            }
        }
        assert forall|k: int| 0 <= k < w.len() implies itv_prims(#[trigger] w[k].2).len() > 0 by {
            assert(w[k] == f[k]);
        }
        lemma_typ_fields_groups(w, base, src);
        let a = driven_prims_at(itvfields_prims(w), base, src);
        let x = driven_prims_at(itv_prims(last.2), base.push(node), src);
        let y = iprefix_all(x, node);
        lemma_driven_concat(itvfields_prims(w), prefix_all(itv_prims(last.2), node), base, src);
        lemma_driven_prefix(itv_prims(last.2), node, base, src);
        assert(d == a + y);
        assert(all_fielded(y)) by {
            assert forall|k: int| 0 <= k < y.len() implies (#[trigger] y[k]).1.len() > 0 && y[k].1[0] is Field by {
                lemma_iprefix_at(x, node, k);
            }
        }
        lemma_all_fielded_concat(a, y);
        assert(x.len() > 0);
        lemma_first_fields_prefixed(a, x, last.0, last.1);
        let wpairs = w.map_values(|q: (Seq<char>, Option<Seq<char>>, InterfaceTypView)| (q.0, q.1));
        assert(field_names(wpairs) =~= typ_keys(w));
        assert(pairs =~= wpairs.push((last.0, last.1)));
        assert forall|k: int|
            0 <= k < f.len() implies field_group(d, #[trigger] f[k].0) == driven_prims_at(
                itv_prims(f[k].2),
                base.push(NodeView::Field(f[k].0, f[k].1)),
                src,
            ) by {
            lemma_field_group_concat(a, y, f[k].0);
            lemma_field_group_prefixed(x, last.0, last.1, f[k].0);
            if k < w.len() {
                assert(w[k] == f[k]);
                assert(typ_keys(f)[k] != typ_keys(f)[f.len() - 1]);
                assert(field_group(d, f[k].0) =~= driven_prims_at(itv_prims(f[k].2), base.push(NodeView::Field(f[k].0, f[k].1)), src));
            } else {
                lemma_typ_field_group_absent(w, last.0, base, src);
                assert(field_group(d, f[k].0) =~= driven_prims_at(itv_prims(f[k].2), base.push(NodeView::Field(f[k].0, f[k].1)), src));
            }
        }
    }
}

/// The driven elements, one by one.
pub proof fn lemma_driven_elems(b: InterfaceTypView, base: Seq<NodeView>, src: Option<usize>, n: nat)
    ensures
        driven_elems(b, base, src, n).len() == n,
        forall|k: int|
            0 <= k < n ==> #[trigger] driven_elems(b, base, src, n)[k] == driven_itf(
                b,
                base.push(NodeView::Index(k as usize)),
                src,
            ),
    decreases n,
{
    if n > 0 {
        lemma_driven_elems(b, base, src, (n - 1) as nat);
    }
}

/// The driven fields, one by one.
pub proof fn lemma_driven_fields(f: Seq<(Seq<char>, Option<Seq<char>>, InterfaceTypView)>, base: Seq<NodeView>, src: Option<usize>)
    ensures
        driven_fields(f, base, src).len() == f.len(),
        forall|k: int|
            0 <= k < f.len() ==> #[trigger] driven_fields(f, base, src)[k] == (
                f[k].0,
                f[k].1,
                driven_itf(f[k].2, base.push(NodeView::Field(f[k].0, f[k].1)), src),
            ),
    decreases f.len(),
{
    if f.len() > 0 {
        lemma_driven_fields(f.drop_last(), base, src);
        assert forall|k: int| 0 <= k < f.len() - 1 implies f[k] == #[trigger] f.drop_last()[k] by {}
    }
}

/// The primitives of an interface type, driven as `src` says at their paths, make up
/// the interface of that type whose channels are so driven.
pub proof fn lemma_driven_round_trip(t: InterfaceTypView, base: Seq<NodeView>, src: Option<usize>)
    requires
        typ_ok(t),
    ensures
        prims_ok(driven_prims_at(itv_prims(t), base, src)),
        prims_itf(driven_prims_at(itv_prims(t), base, src)) == driven_itf(t, base, src),
    decreases t,
{
    let d = driven_prims_at(itv_prims(t), base, src);
    match t {
        InterfaceTypView::Array(b, n) => {
            lemma_typ_nonempty(*b);
            lemma_array_groups(itv_prims(*b), n as nat, base, src);
            assert(d == driven_prims_at(array_prims(itv_prims(*b), n as nat), base, src));
            assert(d.len() > 0) by {
                lemma_typ_nonempty(t);
            }
            assert(d[0].1[0] is Index);
            lemma_idx_elems(d, n as nat);
            lemma_driven_elems(*b, base, src, n as nat);
            assert forall|k: int|
                0 <= k < n implies prims_ok(#[trigger] idx_group(d, k as usize)) && prims_itf(idx_group(d, k as usize))
                    == driven_itf(*b, base.push(NodeView::Index(k as usize)), src) by {
                lemma_driven_round_trip(*b, base.push(NodeView::Index(k as usize)), src);
            }
            assert(idx_elems(d, n as nat) =~= driven_elems(*b, base, src, n as nat));
        },
        InterfaceTypView::Struct(f) => {
            assert forall|k: int| 0 <= k < f.len() implies itv_prims(#[trigger] f[k].2).len() > 0 by {
                lemma_typ_fields_ok(f, k);
                lemma_typ_nonempty(f[k].2);
            }
            assert(typ_keys(f) == f.map_values(|x: (Seq<char>, Option<Seq<char>>, InterfaceTypView)| x.0));
            lemma_typ_fields_groups(f, base, src);
            assert(d == driven_prims_at(itvfields_prims(f), base, src));
            assert(d.len() > 0) by {
                lemma_typ_nonempty(t);
            }
            assert(d[0].1[0] is Field);
            let ff = first_fields(d);
            assert(ff.len() == f.len());
            lemma_field_elems(d, f.len());
            lemma_driven_fields(f, base, src);
            assert forall|k: int|
                0 <= k < f.len() implies prims_ok(#[trigger] field_group(d, ff[k].0)) && prims_itf(field_group(d, ff[k].0))
                    == driven_itf(f[k].2, base.push(NodeView::Field(f[k].0, f[k].1)), src) by {
                assert(ff[k] == (f[k].0, f[k].1));
                lemma_typ_fields_ok(f, k);
                lemma_driven_round_trip(f[k].2, base.push(NodeView::Field(f[k].0, f[k].1)), src);
            }
            assert(field_elems(d, f.len()) =~= driven_fields(f, base, src));
        },
        _ => {
            assert(base + Seq::<NodeView>::empty() =~= base);
        },
    }
}

/// The input interface of a module, and the output interface of a submodule, built from
/// an interface type: the interface of that type whose every channel is driven, at its
/// own path, by the module's input or by the submodule.
pub proof fn lemma_driven_interface(t: InterfaceTypView, src: Option<usize>)
    requires
        typ_ok(t),
    ensures
        prims_ok(driven_prims(itv_prims(t), src)),
        prims_itf(driven_prims(itv_prims(t), src)) == driven_itf(t, seq![], src),
{
    let ps = itv_prims(t);
    assert(driven_prims(ps, src) =~= driven_prims_at(ps, seq![], src)) by {
        assert forall|k: int| 0 <= k < ps.len() implies #[trigger] driven_prims(ps, src)[k] == driven_prims_at(ps, seq![], src)[k] by {
            assert(Seq::<NodeView>::empty() + ps[k].1 =~= ps[k].1);
        }
    }
    lemma_driven_round_trip(t, seq![], src);
}

} // verus!
