//! Ports of generated modules and accessors to the channels of interfaces.

use vstd::prelude::*;

use crate::compiler::endpoint::{clone_opt_string, EndpointNode, EndpointPath, NodeView};
use crate::compiler::interface::{
    find_field, first_index, itfields_view, itv_keys, lemma_itfield_decreases,
    lemma_itfields_keys, lemma_itfields_view, InterfaceTyp, InterfaceTypView,
};
use crate::compiler::prelude::{ChannelTyp, ChannelTypView};
use crate::utils::string::{join2, join_two, opt_view};

verus! {

/// Represents port in target language.
#[derive(Debug, PartialEq, Eq)]
pub struct Port {
    /// Channel type.
    pub channel_typ: ChannelTyp,

    /// Array size.
    pub size: usize,
}

impl Clone for Port {
    fn clone(&self) -> (r: Self)
        ensures
            r.channel_typ@ == self.channel_typ@,
            r.size == self.size,
    {
        Port { channel_typ: self.channel_typ.clone(), size: self.size }
    }
}

impl Port {
    /// Creates a port.
    pub fn new(channel_typ: ChannelTyp, size: usize) -> (r: Self)
        ensures
            r.channel_typ == channel_typ,
            r.size == size,
    {
        Port { channel_typ, size }
    }

    /// The port with its array size multiplied by `count`.
    pub fn multiple(self, count: usize) -> (r: Self)
        requires
            self.size * count <= usize::MAX,
        ensures
            r.channel_typ == self.channel_typ,
            r.size == self.size * count,
    {
        Port { channel_typ: self.channel_typ, size: self.size * count }
    }
}

/// Direction of port.
#[derive(Debug, Clone, Copy, PartialEq, Eq)]
pub enum Direction {
    /// Input
    Input,

    /// Output
    Output,
}

impl Direction {
    /// The Verilog keyword of the direction.
    pub fn to_string(&self) -> (r: String)
        ensures
            r@ == match self {
                Direction::Input => "input"@,
                Direction::Output => "output"@,
            },
    {
        match self {
            Direction::Input => String::from_str("input"),
            Direction::Output => String::from_str("output"),
        }
    }
}

/// Accessor to the element in the interface.
#[derive(Debug, Clone)]
pub struct Accessor {
    /// Prefix.
    pub prefix: Option<String>,

    /// Separator.
    pub sep: Option<String>,

    /// Index and total number of elements.
    pub index: Option<(usize, usize)>,

    /// Trace of array sizes.
    pub arr_trace: Vec<Option<usize>>,
}

/// Mathematical value of an accessor.
pub struct AccessorView {
    /// Prefix.
    pub prefix: Option<Seq<char>>,

    /// Separator.
    pub sep: Option<Seq<char>>,

    /// Index and total number of elements.
    pub index: Option<(usize, usize)>,

    /// Trace of array sizes.
    pub arr_trace: Seq<Option<usize>>,
}

impl View for Accessor {
    type V = AccessorView;

    open spec fn view(&self) -> AccessorView {
        AccessorView {
            prefix: opt_view(self.prefix),
            sep: opt_view(self.sep),
            index: self.index,
            arr_trace: self.arr_trace@,
        }
    }
}

/// The accessor with nothing set.
pub open spec fn acc_default() -> AccessorView {
    AccessorView { prefix: None, sep: None, index: None, arr_trace: seq![] }
}

impl Default for Accessor {
    fn default() -> (r: Self)
        ensures
            r@ == acc_default(),
    {
        let r = Accessor { prefix: None, sep: None, index: None, arr_trace: Vec::new() };
        assert(r@.arr_trace =~= Seq::<Option<usize>>::empty());
        r
    }
}

/// The separator, `_` if none is given.
pub open spec fn sep_or_default(sep: Option<Seq<char>>) -> Seq<char> {
    match sep {
        Some(s) => s,
        None => "_"@,
    }
}

/// The accessor as seen from the struct that holds it in the field `name` with separator `sep`.
pub open spec fn acc_in_field(a: AccessorView, name: Seq<char>, sep: Option<Seq<char>>) -> AccessorView {
    match a.prefix {
        Some(pre) => AccessorView { prefix: join2(sep_or_default(sep), Some(name), Some(pre)), ..a },
        None => AccessorView { prefix: Some(name), sep: sep, ..a },
    }
}

/// Ports of an interface type: channel type, array size, and accessor of each channel.
pub open spec fn ports_spec(t: InterfaceTypView) -> Seq<(ChannelTypView, nat, AccessorView)>
    decreases t,
{
    match t {
        InterfaceTypView::Unit => seq![],
        InterfaceTypView::Channel(c) => seq![(c, 1nat, acc_default())],
        InterfaceTypView::Array(b, n) => ports_spec(*b).map_values(
            |p: (ChannelTypView, nat, AccessorView)| (p.0, p.1 * (n as nat), p.2),
        ),
        InterfaceTypView::Struct(s) => fields_ports(s),
    }
}

/// Ports of the fields of a struct, in field order.
pub open spec fn fields_ports(s: Seq<(Seq<char>, Option<Seq<char>>, InterfaceTypView)>) -> Seq<
    (ChannelTypView, nat, AccessorView),
>
    decreases s,
{
    if s.len() == 0 {
        seq![]
    } else {
        fields_ports(s.drop_last()) + ports_spec(s.last().2).map_values(
            |p: (ChannelTypView, nat, AccessorView)| (p.0, p.1, acc_in_field(p.2, s.last().0, s.last().1)),
        )
    }
}

/// The array sizes of the ports fit in a `usize`.
pub open spec fn ports_fit(t: InterfaceTypView) -> bool
    decreases t,
{
    match t {
        InterfaceTypView::Array(b, n) => ports_fit(*b) && forall|k: int|
            0 <= k < ports_spec(*b).len() ==> #[trigger] ports_spec(*b)[k].1 * (n as nat) <= usize::MAX,
        InterfaceTypView::Struct(s) => fields_ports_fit(s),
        _ => true,
    }
}

/// The array sizes of the ports of the fields fit in a `usize`.
pub open spec fn fields_ports_fit(s: Seq<(Seq<char>, Option<Seq<char>>, InterfaceTypView)>) -> bool
    decreases s,
{
    if s.len() == 0 {
        true
    } else {
        fields_ports_fit(s.drop_last()) && ports_fit(s.last().2)
    }
}

/// Views of ports with their accessors.
pub open spec fn ports_view(s: Seq<(Port, Accessor)>) -> Seq<(ChannelTypView, nat, AccessorView)> {
    s.map_values(|p: (Port, Accessor)| (p.0.channel_typ@, p.0.size as nat, p.1@))
}

/// Sizes of ports fit when those of all the fields do.
proof fn lemma_fields_ports_fit(s: Seq<(Seq<char>, Option<Seq<char>>, InterfaceTypView)>, k: int)
    requires
        fields_ports_fit(s),
        0 <= k < s.len(),
    ensures
        ports_fit(s[k].2),
    decreases s.len(),
{
    if k < s.len() - 1 {
        lemma_fields_ports_fit(s.drop_last(), k);
    }
}

/// Every port size is at least... a natural number that fits, when ports fit.
proof fn lemma_ports_sizes_fit(t: InterfaceTypView)
    requires
        ports_fit(t),
    ensures
        forall|k: int| 0 <= k < ports_spec(t).len() ==> #[trigger] ports_spec(t)[k].1 <= usize::MAX,
    decreases t,
{
    match t {
        InterfaceTypView::Array(b, n) => {
            lemma_ports_sizes_fit(*b);
            assert forall|k: int| 0 <= k < ports_spec(t).len() implies #[trigger] ports_spec(t)[k].1 <= usize::MAX by {
                assert(ports_spec(*b)[k].1 * (n as nat) <= usize::MAX);
            }
        }
        InterfaceTypView::Struct(s) => {
            lemma_fields_ports_sizes_fit(s);
            assert forall|k: int| 0 <= k < ports_spec(t).len() implies #[trigger] ports_spec(t)[k].1 <= usize::MAX by {
                assert(fields_ports(s)[k].1 <= usize::MAX);
            }
        }
        _ => {}
    }
}

/// Every port size of the fields fits.
proof fn lemma_fields_ports_sizes_fit(s: Seq<(Seq<char>, Option<Seq<char>>, InterfaceTypView)>)
    requires
        fields_ports_fit(s),
    ensures
        forall|k: int| 0 <= k < fields_ports(s).len() ==> #[trigger] fields_ports(s)[k].1 <= usize::MAX,
    decreases s,
{
    if s.len() > 0 {
        lemma_fields_ports_sizes_fit(s.drop_last());
        lemma_ports_sizes_fit(s.last().2);
        let a = fields_ports(s.drop_last());
        let b = ports_spec(s.last().2);
        assert forall|k: int| 0 <= k < fields_ports(s).len() implies #[trigger] fields_ports(s)[k].1 <= usize::MAX by {
            if k >= a.len() {
                assert(b[k - a.len()].1 <= usize::MAX);
            }
        }
    }
}

/// The accessor as seen from the struct that holds it.
fn accessor_in_field(accessor: Accessor, name: &String, sep: &Option<String>) -> (r: Accessor)
    ensures
        r@ == acc_in_field(accessor@, name@, opt_view(*sep)),
{
    let mut accessor = accessor;
    match accessor.prefix {
        Some(prefix) => {
            let s = match sep {
                Some(s) => s.clone(),
                None => String::from_str("_"),
            };
            accessor.prefix = join_two(s.as_str(), Some(name.clone()), Some(prefix));
        }
        None => {
            accessor.prefix = Some(name.clone());
            accessor.sep = clone_opt_string(sep);
        }
    }
    accessor
}

/// Returns a set of ports to represent given interface type.
pub fn gen_ports(interface_typ: &InterfaceTyp) -> (r: Vec<(Port, Accessor)>)
    requires
        ports_fit(interface_typ@),
    ensures
        ports_view(r@) == ports_spec(interface_typ@),
    decreases interface_typ,
{
    match interface_typ {
        InterfaceTyp::Unit => {
            let r: Vec<(Port, Accessor)> = Vec::new();
            assert(ports_view(r@) =~= ports_spec(interface_typ@));
            r
        }
        InterfaceTyp::Channel(channel_typ) => {
            let r = vec![(Port::new(channel_typ.clone(), 1), Accessor::default())];
            assert(ports_view(r@) =~= ports_spec(interface_typ@));
            r
        }
        InterfaceTyp::Array(elt, count) => {
            let inner = gen_ports(&**elt);
            let ghost iv = ports_view(inner@);
            let mut inner = inner;
            let mut out: Vec<(Port, Accessor)> = Vec::new();
            let ghost target = iv.map_values(
                |p: (ChannelTypView, nat, AccessorView)| (p.0, p.1 * (*count as nat), p.2),
            );
            let mut k: usize = 0;
            let n = inner.len();
            while inner.len() > 0
                invariant
                    n == iv.len(),
                    k + inner@.len() == n,
                    ports_view(inner@) == iv.skip(k as int),
                    ports_view(out@) == target.take(k as int),
                    target == iv.map_values(
                        |p: (ChannelTypView, nat, AccessorView)| (p.0, p.1 * (*count as nat), p.2),
                    ),
                    forall|q: int| 0 <= q < iv.len() ==> #[trigger] iv[q].1 * (*count as nat) <= usize::MAX,
                decreases inner@.len(),
            {
                let ghost before = inner@;
                let (port, accessor) = inner.remove(0);
                proof {
                    assert(ports_view(before)[0] == iv.skip(k as int)[0]);
                    assert(iv.skip(k as int)[0] == iv[k as int]);
                    assert(before[0] == (port, accessor));
                    assert(iv[k as int].1 * (*count as nat) <= usize::MAX);
                    assert(port.size as nat * (*count as nat) <= usize::MAX);
                    assert(ports_view(inner@) =~= iv.skip(k as int + 1)) by {
                        assert(ports_view(inner@) =~= ports_view(before).drop_first());
                    }
                }
                let ghost prev = out@;
                let p2 = port.multiple(*count);
                out.push((p2, accessor));
                proof {
                    assert(ports_view(out@) =~= ports_view(prev).push((p2.channel_typ@, p2.size as nat, accessor@)));
                    assert(target.take(k as int + 1) =~= target.take(k as int).push(target[k as int]));
                }
                k = k + 1;
            }
            assert(target.take(n as int) =~= target);
            out
        }
        InterfaceTyp::Struct(fields) => {
            let ghost fv = itfields_view(fields@);
            proof {
                lemma_itfields_view(fields@);
            }
            let mut out: Vec<(Port, Accessor)> = Vec::new();
            let mut k: usize = 0;
            assert(ports_view(out@) =~= fields_ports(fv.take(0)));
            while k < fields.len()
                invariant
                    *interface_typ == InterfaceTyp::Struct(*fields),
                    fv == itfields_view(fields@),
                    fv.len() == fields@.len(),
                    fields_ports_fit(fv),
                    k <= fields@.len(),
                    ports_view(out@) == fields_ports(fv.take(k as int)),
                decreases fields@.len() - k,
            {
                proof {
                    lemma_itfield_decreases(*interface_typ, k as int);
                    lemma_itfields_view(fields@);
                    lemma_fields_ports_fit(fv, k as int);
                    assert(fv.take(k as int + 1).drop_last() =~= fv.take(k as int));
                }
                let inner = gen_ports(&fields[k].1.1);
                let ghost iv = ports_view(inner@);
                let ghost base = ports_view(out@);
                let ghost target = iv.map_values(
                    |p: (ChannelTypView, nat, AccessorView)| (p.0, p.1, acc_in_field(p.2, fv[k as int].0, fv[k as int].1)),
                );
                let mut inner = inner;
                let n = inner.len();
                let mut j: usize = 0;
                while inner.len() > 0
                    invariant
                        n == iv.len(),
                        j + inner@.len() == n,
                        ports_view(inner@) == iv.skip(j as int),
                        ports_view(out@) == base + target.take(j as int),
                        target == iv.map_values(
                            |p: (ChannelTypView, nat, AccessorView)| (p.0, p.1, acc_in_field(p.2, fv[k as int].0, fv[k as int].1)),
                        ),
                        fv[k as int] == (fields@[k as int].0@, opt_view(fields@[k as int].1.0), fields@[k as int].1.1@),
                        k < fields@.len(),
                    decreases inner@.len(),
                {
                    let ghost before = inner@;
                    let (port, accessor) = inner.remove(0);
                    proof {
                        assert(ports_view(before)[0] == iv.skip(j as int)[0]);
                        assert(ports_view(inner@) =~= iv.skip(j as int + 1)) by {
                            assert(ports_view(inner@) =~= ports_view(before).drop_first());
                        }
                    }
                    let acc = accessor_in_field(accessor, &fields[k].0, &fields[k].1.0);
                    let ghost prev = out@;
                    out.push((port, acc));
                    proof {
                        assert(ports_view(out@) =~= ports_view(prev).push((port.channel_typ@, port.size as nat, acc@)));
                        assert(target.take(j as int + 1) =~= target.take(j as int).push(target[j as int]));
                    }
                    j = j + 1;
                }
                assert(target.take(n as int) =~= target);
                k = k + 1;
            }
            assert(fv.take(fields@.len() as int) =~= fv);
            out
        }
    }
}

/// Index of an array element within the flattened elements: element `i` of `n`, each
/// holding `inner` (index, total) positions.
pub open spec fn nest_index(inner: Option<(usize, usize)>, i: usize, n: usize) -> Option<(usize, usize)> {
    match inner {
        Some((index, total)) => Some(((total * i + index) as usize, (total * n) as usize)),
        None => Some((i, n)),
    }
}

/// Accessor of the channel at `path` in an interface type.
pub open spec fn chan_acc(t: InterfaceTypView, path: Seq<NodeView>) -> AccessorView
    decreases path.len(),
{
    if path.len() == 0 {
        acc_default()
    } else {
        match (path[0], t) {
            (NodeView::Index(i), InterfaceTypView::Array(b, n)) => {
                let a = chan_acc(*b, path.drop_first());
                AccessorView { index: nest_index(a.index, i, n), arr_trace: a.arr_trace.push(Some(n)), ..a }
            },
            (NodeView::Field(name, _), InterfaceTypView::Struct(s)) => match first_index(itv_keys(s), name) {
                Some(j) => {
                    let a = acc_in_field(chan_acc(s[j].2, path.drop_first()), name, s[j].1);
                    AccessorView { arr_trace: a.arr_trace.push(None), ..a }
                },
                None => acc_default(),
            },
            _ => acc_default(),
        }
    }
}

/// The path leads to a channel of the interface type, through existing fields, and the
/// flattened indices fit in a `usize`.
pub open spec fn chan_acc_ok(t: InterfaceTypView, path: Seq<NodeView>) -> bool
    decreases path.len(),
{
    if path.len() == 0 {
        t is Channel
    } else {
        match (path[0], t) {
            (NodeView::Index(i), InterfaceTypView::Array(b, n)) => chan_acc_ok(*b, path.drop_first()) && match chan_acc(
                *b,
                path.drop_first(),
            ).index {
                Some((index, total)) => total * i + index <= usize::MAX && total * n <= usize::MAX,
                None => true,
            },
            (NodeView::Field(name, _), InterfaceTypView::Struct(s)) => match first_index(itv_keys(s), name) {
                Some(j) => chan_acc_ok(s[j].2, path.drop_first()),
                None => false,
            },
            _ => false,
        }
    }
}

/// Returns accessor to channel in interface.
pub fn gen_channel_accessor(interface_typ: &InterfaceTyp, path: EndpointPath) -> (r: Accessor)
    requires
        chan_acc_ok(interface_typ@, path@),
    ensures
        r@ == chan_acc(interface_typ@, path@),
    decreases path@.len(),
{
    let mut path = path;
    match path.pop_front() {
        None => Accessor::default(),
        Some(front) => match (front, interface_typ) {
            (EndpointNode::Index(i), InterfaceTyp::Array(elt, count)) => {
                let mut accessor = gen_channel_accessor(&**elt, path);
                accessor.index = match accessor.index {
                    Some((index, total)) => Some((total * i + index, total * *count)),
                    None => Some((i, *count)),
                };
                let ghost prev = accessor.arr_trace@;
                accessor.arr_trace.push(Some(*count));
                accessor
            }
            (EndpointNode::Field(name, _), InterfaceTyp::Struct(inner)) => {
                proof {
                    lemma_itfields_keys(inner@);
                    lemma_itfields_view(inner@);
                }
                match find_field(inner, &name) {
                    Some(j) => {
                        let accessor = gen_channel_accessor(&inner[j].1.1, path);
                        let mut accessor = accessor_in_field(accessor, &name, &inner[j].1.0);
                        accessor.arr_trace.push(None);
                        accessor
                    }
                    None => vstd::pervasive::unreached(),
                }
            }
            _ => vstd::pervasive::unreached(),
        },
    }
}

} // verus!
