//! The router of a coupled model: which messages reach which port.
//!
//! A message that leaves a port travels along every coupling that starts
//! at that port, and arrives once for each of them, with the same payload.
//! Nothing else arrives anywhere. What arrives at one model keeps the order
//! in which the messages left, and for one message the order of the
//! couplings.

use crate::containers::{bag_view, mail_view, Bag, Mail, MailItemView, MsgView};
use crate::couplings::{couplings_view, Coupling, CouplingView};
use vstd::prelude::*;

verus! {

/// An optional name as contracts speak of it.
pub open spec fn owner_view(owner: Option<String>) -> Option<Seq<char>> {
    match owner {
        Some(name) => Some(name@),
        None => None,
    }
}

/// Whether `edge` leads from the port `port` of `source` to some port of
/// `target`. A missing name stands for the coupled model itself.
pub open spec fn joins(
    edge: CouplingView,
    source: Option<Seq<char>>,
    port: Seq<char>,
    target: Option<Seq<char>>,
) -> bool {
    edge.from.model == source && edge.from.port == port && edge.to.model == target
}

/// What arrives at `target` when `msg` leaves a port of `source`: one
/// message for each edge that joins the two, in the order of the edges, on
/// the port where the edge ends.
pub open spec fn fan(
    edges: Seq<CouplingView>,
    source: Option<Seq<char>>,
    msg: MsgView,
    target: Option<Seq<char>>,
) -> Seq<MsgView>
    decreases edges.len(),
{
    if edges.len() == 0 {
        Seq::empty()
    } else {
        let before = fan(edges.drop_last(), source, msg, target);
        let edge = edges.last();
        if joins(edge, source, msg.port, target) {
            before.push(MsgView { port: edge.to.port, value: msg.value })
        } else {
            before
        }
    }
}

/// What arrives at `target` when the messages of `bag` leave `source`, in
/// the order of the bag.
pub open spec fn route_bag(
    bag: Seq<MsgView>,
    edges: Seq<CouplingView>,
    source: Option<Seq<char>>,
    target: Option<Seq<char>>,
) -> Seq<MsgView>
    decreases bag.len(),
{
    if bag.len() == 0 {
        Seq::empty()
    } else {
        route_bag(bag.drop_last(), edges, source, target) + fan(edges, source, bag.last(), target)
    }
}

/// What arrives at `target` from the children whose output is in `mail`,
/// in the order of the mail.
pub open spec fn route_mail(
    mail: Seq<MailItemView>,
    edges: Seq<CouplingView>,
    target: Option<Seq<char>>,
) -> Seq<MsgView>
    decreases mail.len(),
{
    if mail.len() == 0 {
        Seq::empty()
    } else {
        route_mail(mail.drop_last(), edges, target) + route_bag(
            mail.last().y_bag,
            edges,
            Some(mail.last().model_name),
            target,
        )
    }
}

/// The input of the child `child` of a coupled model: what the input
/// `x_bag` of the coupled model sends it along the external input
/// couplings `eic`, and then what the other children send it along the
/// internal couplings `ic`.
pub open spec fn inbound(
    x_bag: Seq<MsgView>,
    mail: Seq<MailItemView>,
    eic: Seq<CouplingView>,
    ic: Seq<CouplingView>,
    child: Seq<char>,
) -> Seq<MsgView> {
    route_bag(x_bag, eic, None, Some(child)) + route_mail(mail, ic, Some(child))
}

/// The output of a coupled model: what its children send to its own ports
/// along the external output couplings `eoc`.
pub open spec fn outbound(mail: Seq<MailItemView>, eoc: Seq<CouplingView>) -> Seq<MsgView> {
    route_mail(mail, eoc, None)
}

/// The places, among `edges`, of the edges that lead from the port `port`
/// of `source` to `target`, in their order.
pub open spec fn fan_trace(
    edges: Seq<CouplingView>,
    source: Option<Seq<char>>,
    port: Seq<char>,
    target: Option<Seq<char>>,
) -> Seq<int>
    decreases edges.len(),
{
    if edges.len() == 0 {
        Seq::empty()
    } else {
        let before = fan_trace(edges.drop_last(), source, port, target);
        if joins(edges.last(), source, port, target) {
            before.push(edges.len() - 1)
        } else {
            before
        }
    }
}

/// Where each message that arrives at `target` comes from, when the
/// messages of `bag` leave `source`: the place of the message in `bag`
/// and the place of the edge in `edges`, for each arrival in its order.
pub open spec fn bag_trace(
    bag: Seq<MsgView>,
    edges: Seq<CouplingView>,
    source: Option<Seq<char>>,
    target: Option<Seq<char>>,
) -> Seq<(int, int)>
    decreases bag.len(),
{
    if bag.len() == 0 {
        Seq::empty()
    } else {
        let last = fan_trace(edges, source, bag.last().port, target);
        bag_trace(bag.drop_last(), edges, source, target) + Seq::new(
            last.len(),
            |k: int| (bag.len() - 1, last[k]),
        )
    }
}

/// Where each message that arrives at `target` comes from, when the
/// children whose output is in `mail` send it: the place of the child in
/// `mail`, the place of the message in the output of that child, and the
/// place of the edge in `edges`, for each arrival in its order.
pub open spec fn mail_trace(
    mail: Seq<MailItemView>,
    edges: Seq<CouplingView>,
    target: Option<Seq<char>>,
) -> Seq<(int, int, int)>
    decreases mail.len(),
{
    if mail.len() == 0 {
        Seq::empty()
    } else {
        let last = bag_trace(mail.last().y_bag, edges, Some(mail.last().model_name), target);
        mail_trace(mail.drop_last(), edges, target) + Seq::new(
            last.len(),
            |k: int| (mail.len() - 1, last[k].0, last[k].1),
        )
    }
}

/// Whether the pair `a` comes before the pair `b`: its first part is
/// lower, or the first parts are the same and its second part is lower.
pub open spec fn pair_before(a: (int, int), b: (int, int)) -> bool {
    a.0 < b.0 || (a.0 == b.0 && a.1 < b.1)
}

/// Whether the triple `a` comes before the triple `b`, part by part.
pub open spec fn triple_before(a: (int, int, int), b: (int, int, int)) -> bool {
    a.0 < b.0 || (a.0 == b.0 && pair_before((a.1, a.2), (b.1, b.2)))
}

/// What one message sends to a target arrives once for each edge that
/// joins the two, and for no other reason: the arrivals stand one for one
/// for the joining edges in their order, each on the port where its edge
/// ends and with the payload of the message.
pub proof fn one_message_arrives_once_for_each_edge(
    edges: Seq<CouplingView>,
    source: Option<Seq<char>>,
    msg: MsgView,
    target: Option<Seq<char>>,
)
    ensures
        fan(edges, source, msg, target).len() == fan_trace(edges, source, msg.port, target).len(),
        forall|k: int|
            0 <= k < fan_trace(edges, source, msg.port, target).len() ==> {
                let j = #[trigger] fan_trace(edges, source, msg.port, target)[k];
                &&& 0 <= j < edges.len()
                &&& joins(edges[j], source, msg.port, target)
                &&& fan(edges, source, msg, target)[k] == (MsgView {
                    port: edges[j].to.port,
                    value: msg.value,
                })
            },
        forall|k: int, m: int|
            0 <= k < m < fan_trace(edges, source, msg.port, target).len() ==> fan_trace(
                edges,
                source,
                msg.port,
                target,
            )[k] < fan_trace(edges, source, msg.port, target)[m],
        forall|j: int|
            0 <= j < edges.len() && joins(#[trigger] edges[j], source, msg.port, target)
                ==> fan_trace(edges, source, msg.port, target).contains(j),
    decreases edges.len(),
{
    if edges.len() > 0 {
        let front = edges.drop_last();
        one_message_arrives_once_for_each_edge(front, source, msg, target);
        let before = fan_trace(front, source, msg.port, target);
        let trace = fan_trace(edges, source, msg.port, target);
        assert forall|k: int| 0 <= k < trace.len() implies {
            let j = #[trigger] trace[k];
            &&& 0 <= j < edges.len()
            &&& joins(edges[j], source, msg.port, target)
            &&& fan(edges, source, msg, target)[k] == (MsgView {
                port: edges[j].to.port,
                value: msg.value,
            })
        } by {
            if k < before.len() {
                let j = before[k];
                assert(trace[k] == j);
                assert(front[j] == edges[j]);
            }
        }
        assert forall|k: int, m: int| 0 <= k < m < trace.len() implies trace[k] < trace[m] by {
            if m < before.len() {
                assert(before[k] < before[m]);
            } else {
                let j = before[k];
                assert(0 <= j < front.len());
            }
        }
        assert forall|j: int|
            0 <= j < edges.len() && joins(
                #[trigger] edges[j],
                source,
                msg.port,
                target,
            ) implies trace.contains(j) by {
            if j < front.len() {
                assert(front[j] == edges[j]);
                assert(before.contains(j));
                let k = choose|k: int| 0 <= k < before.len() && before[k] == j;
                assert(trace[k] == j);
            } else {
                assert(trace[trace.len() - 1] == j);
            }
        }
    }
}

/// The router law for the messages of one sender. What arrives at a
/// target stands one for one for the pairs of a message and an edge that
/// leads from the port of the message to the target: every arrival
/// comes from such a pair, on the port where the edge ends and with the
/// payload of the message; no pair is behind two arrivals, for the pairs
/// rise with the arrivals; and every such pair is behind an arrival.
/// Nothing is made up, and nothing is lost.
pub proof fn every_arrival_has_one_origin(
    bag: Seq<MsgView>,
    edges: Seq<CouplingView>,
    source: Option<Seq<char>>,
    target: Option<Seq<char>>,
)
    ensures
        route_bag(bag, edges, source, target).len() == bag_trace(bag, edges, source, target).len(),
        forall|k: int|
            0 <= k < bag_trace(bag, edges, source, target).len() ==> {
                let origin = #[trigger] bag_trace(bag, edges, source, target)[k];
                &&& 0 <= origin.0 < bag.len()
                &&& 0 <= origin.1 < edges.len()
                &&& joins(edges[origin.1], source, bag[origin.0].port, target)
                &&& route_bag(bag, edges, source, target)[k] == (MsgView {
                    port: edges[origin.1].to.port,
                    value: bag[origin.0].value,
                })
            },
        forall|k: int, m: int|
            0 <= k < m < bag_trace(bag, edges, source, target).len() ==> pair_before(
                bag_trace(bag, edges, source, target)[k],
                bag_trace(bag, edges, source, target)[m],
            ),
        forall|i: int, j: int|
            0 <= i < bag.len() && 0 <= j < edges.len() && joins(
                #[trigger] edges[j],
                source,
                (#[trigger] bag[i]).port,
                target,
            ) ==> bag_trace(bag, edges, source, target).contains((i, j)),
    decreases bag.len(),
{
    if bag.len() > 0 {
        let front = bag.drop_last();
        let n = bag.len() - 1;
        every_arrival_has_one_origin(front, edges, source, target);
        one_message_arrives_once_for_each_edge(edges, source, bag.last(), target);
        let before = bag_trace(front, edges, source, target);
        let last = fan_trace(edges, source, bag.last().port, target);
        let trace = bag_trace(bag, edges, source, target);
        let routed_before = route_bag(front, edges, source, target);
        let routed = route_bag(bag, edges, source, target);
        assert forall|k: int| 0 <= k < trace.len() implies {
            let origin = #[trigger] trace[k];
            &&& 0 <= origin.0 < bag.len()
            &&& 0 <= origin.1 < edges.len()
            &&& joins(edges[origin.1], source, bag[origin.0].port, target)
            &&& routed[k] == (MsgView { port: edges[origin.1].to.port, value: bag[origin.0].value })
        } by {
            if k < before.len() {
                let origin = before[k];
                assert(trace[k] == origin);
                assert(front[origin.0] == bag[origin.0]);
                assert(routed[k] == routed_before[k]);
            } else {
                let j = last[k - before.len()];
                assert(trace[k] == (n, j));
                assert(routed[k] == fan(edges, source, bag.last(), target)[k - before.len()]);
            }
        }
        assert forall|k: int, m: int| 0 <= k < m < trace.len() implies pair_before(
            trace[k],
            trace[m],
        ) by {
            if m < before.len() {
                assert(pair_before(before[k], before[m]));
            } else if k < before.len() {
                let origin = before[k];
                assert(trace[k] == origin);
                assert(0 <= origin.0 < front.len());
                assert(trace[m].0 == n);
            } else {
                assert(last[k - before.len()] < last[m - before.len()]);
            }
        }
        assert forall|i: int, j: int|
            0 <= i < bag.len() && 0 <= j < edges.len() && joins(
                #[trigger] edges[j],
                source,
                (#[trigger] bag[i]).port,
                target,
            ) implies trace.contains((i, j)) by {
            if i < n {
                assert(front[i] == bag[i]);
                assert(before.contains((i, j)));
                let k = choose|k: int| 0 <= k < before.len() && before[k] == (i, j);
                assert(trace[k] == (i, j));
            } else {
                assert(last.contains(j));
                let k = choose|k: int| 0 <= k < last.len() && last[k] == j;
                assert(trace[before.len() + k] == (i, j));
            }
        }
    }
}

/// The router law for the mail of the children. What arrives at a target
/// stands one for one for the triples of a child in the mail, a message
/// in the output of that child, and an edge that leads from the port of
/// the message at that child to the target: every arrival comes from such
/// a triple, no triple is behind two arrivals, and every such triple is
/// behind an arrival.
pub proof fn every_mail_arrival_has_one_origin(
    mail: Seq<MailItemView>,
    edges: Seq<CouplingView>,
    target: Option<Seq<char>>,
)
    ensures
        route_mail(mail, edges, target).len() == mail_trace(mail, edges, target).len(),
        forall|k: int|
            0 <= k < mail_trace(mail, edges, target).len() ==> {
                let origin = #[trigger] mail_trace(mail, edges, target)[k];
                &&& 0 <= origin.0 < mail.len()
                &&& 0 <= origin.1 < mail[origin.0].y_bag.len()
                &&& 0 <= origin.2 < edges.len()
                &&& joins(
                    edges[origin.2],
                    Some(mail[origin.0].model_name),
                    mail[origin.0].y_bag[origin.1].port,
                    target,
                )
                &&& route_mail(mail, edges, target)[k] == (MsgView {
                    port: edges[origin.2].to.port,
                    value: mail[origin.0].y_bag[origin.1].value,
                })
            },
        forall|k: int, m: int|
            0 <= k < m < mail_trace(mail, edges, target).len() ==> triple_before(
                mail_trace(mail, edges, target)[k],
                mail_trace(mail, edges, target)[m],
            ),
        forall|a: int, i: int, j: int|
            0 <= a < mail.len() && 0 <= i < mail[a].y_bag.len() && 0 <= j < edges.len() && joins(
                #[trigger] edges[j],
                Some(mail[a].model_name),
                (#[trigger] mail[a].y_bag[i]).port,
                target,
            ) ==> mail_trace(mail, edges, target).contains((a, i, j)),
    decreases mail.len(),
{
    if mail.len() > 0 {
        let front = mail.drop_last();
        let n = mail.len() - 1;
        let item = mail.last();
        every_mail_arrival_has_one_origin(front, edges, target);
        every_arrival_has_one_origin(item.y_bag, edges, Some(item.model_name), target);
        let before = mail_trace(front, edges, target);
        let last = bag_trace(item.y_bag, edges, Some(item.model_name), target);
        let trace = mail_trace(mail, edges, target);
        let routed_before = route_mail(front, edges, target);
        let routed_last = route_bag(item.y_bag, edges, Some(item.model_name), target);
        let routed = route_mail(mail, edges, target);
        assert forall|k: int| 0 <= k < trace.len() implies {
            let origin = #[trigger] trace[k];
            &&& 0 <= origin.0 < mail.len()
            &&& 0 <= origin.1 < mail[origin.0].y_bag.len()
            &&& 0 <= origin.2 < edges.len()
            &&& joins(
                edges[origin.2],
                Some(mail[origin.0].model_name),
                mail[origin.0].y_bag[origin.1].port,
                target,
            )
            &&& routed[k] == (MsgView {
                port: edges[origin.2].to.port,
                value: mail[origin.0].y_bag[origin.1].value,
            })
        } by {
            if k < before.len() {
                let origin = before[k];
                assert(trace[k] == origin);
                assert(front[origin.0] == mail[origin.0]);
                assert(routed[k] == routed_before[k]);
            } else {
                let origin = last[k - before.len()];
                assert(trace[k] == (n, origin.0, origin.1));
                assert(routed[k] == routed_last[k - before.len()]);
            }
        }
        assert forall|k: int, m: int| 0 <= k < m < trace.len() implies triple_before(
            trace[k],
            trace[m],
        ) by {
            if m < before.len() {
                assert(triple_before(before[k], before[m]));
            } else if k < before.len() {
                let origin = before[k];
                assert(trace[k] == origin);
                assert(0 <= origin.0 < front.len());
                assert(trace[m].0 == n);
            } else {
                assert(pair_before(last[k - before.len()], last[m - before.len()]));
            }
        }
        assert forall|a: int, i: int, j: int|
            0 <= a < mail.len() && 0 <= i < mail[a].y_bag.len() && 0 <= j < edges.len() && joins(
                #[trigger] edges[j],
                Some(mail[a].model_name),
                (#[trigger] mail[a].y_bag[i]).port,
                target,
            ) implies trace.contains((a, i, j)) by {
            if a < n {
                assert(front[a] == mail[a]);
                assert(before.contains((a, i, j)));
                let k = choose|k: int| 0 <= k < before.len() && before[k] == (a, i, j);
                assert(trace[k] == (a, i, j));
            } else {
                assert(last.contains((i, j)));
                let k = choose|k: int| 0 <= k < last.len() && last[k] == (i, j);
                assert(trace[before.len() + k] == (a, i, j));
            }
        }
    }
}

/// Without couplings nothing arrives anywhere.
pub proof fn nothing_travels_without_edges(mail: Seq<MailItemView>, target: Option<Seq<char>>)
    ensures
        route_mail(mail, Seq::empty(), target) == Seq::<MsgView>::empty(),
    decreases mail.len(),
{
    if mail.len() > 0 {
        nothing_travels_without_edges(mail.drop_last(), target);
        nothing_leaves_without_edges(mail.last().y_bag, Some(mail.last().model_name), target);
        assert(route_mail(mail, Seq::empty(), target) =~= Seq::<MsgView>::empty());
    }
}

/// Without couplings no message of a bag arrives anywhere.
pub proof fn nothing_leaves_without_edges(
    bag: Seq<MsgView>,
    source: Option<Seq<char>>,
    target: Option<Seq<char>>,
)
    ensures
        route_bag(bag, Seq::empty(), source, target) == Seq::<MsgView>::empty(),
    decreases bag.len(),
{
    if bag.len() > 0 {
        nothing_leaves_without_edges(bag.drop_last(), source, target);
        assert(route_bag(bag, Seq::empty(), source, target) =~= Seq::<MsgView>::empty());
    }
}

/// Whether none of `edges` leads to `target`.
pub open spec fn no_edge_to(edges: Seq<CouplingView>, target: Option<Seq<char>>) -> bool {
    forall|k: int| 0 <= k < edges.len() ==> (#[trigger] edges[k]).to.model != target
}

/// Where no edge leads, no copy of a message arrives.
pub proof fn nothing_fans_out_where_no_edge_leads(
    edges: Seq<CouplingView>,
    source: Option<Seq<char>>,
    msg: MsgView,
    target: Option<Seq<char>>,
)
    requires
        no_edge_to(edges, target),
    ensures
        fan(edges, source, msg, target) == Seq::<MsgView>::empty(),
    decreases edges.len(),
{
    if edges.len() > 0 {
        let front = edges.drop_last();
        assert forall|k: int| 0 <= k < front.len() implies (#[trigger] front[k]).to.model
            != target by {
            assert(front[k] == edges[k]);
        }
        nothing_fans_out_where_no_edge_leads(front, source, msg, target);
        assert(!joins(edges.last(), source, msg.port, target));
    }
}

/// Where no edge leads, no message of a bag arrives.
pub proof fn nothing_leaves_where_no_edge_leads(
    bag: Seq<MsgView>,
    edges: Seq<CouplingView>,
    source: Option<Seq<char>>,
    target: Option<Seq<char>>,
)
    requires
        no_edge_to(edges, target),
    ensures
        route_bag(bag, edges, source, target) == Seq::<MsgView>::empty(),
    decreases bag.len(),
{
    if bag.len() > 0 {
        nothing_leaves_where_no_edge_leads(bag.drop_last(), edges, source, target);
        nothing_fans_out_where_no_edge_leads(edges, source, bag.last(), target);
        assert(route_bag(bag, edges, source, target) =~= Seq::<MsgView>::empty());
    }
}

/// Where no edge leads, nothing arrives from the mail.
pub proof fn nothing_arrives_where_no_edge_leads(
    mail: Seq<MailItemView>,
    edges: Seq<CouplingView>,
    target: Option<Seq<char>>,
)
    requires
        no_edge_to(edges, target),
    ensures
        route_mail(mail, edges, target) == Seq::<MsgView>::empty(),
    decreases mail.len(),
{
    if mail.len() > 0 {
        nothing_arrives_where_no_edge_leads(mail.drop_last(), edges, target);
        nothing_leaves_where_no_edge_leads(
            mail.last().y_bag,
            edges,
            Some(mail.last().model_name),
            target,
        );
        assert(route_mail(mail, edges, target) =~= Seq::<MsgView>::empty());
    }
}

/// The messages of `bag` on the port `from`, in their order, each on the
/// port `to` and with its value.
pub open spec fn relabelled(bag: Seq<MsgView>, from: Seq<char>, to: Seq<char>) -> Seq<MsgView>
    decreases bag.len(),
{
    if bag.len() == 0 {
        Seq::empty()
    } else {
        let before = relabelled(bag.drop_last(), from, to);
        if bag.last().port == from {
            before.push(MsgView { port: to, value: bag.last().value })
        } else {
            before
        }
    }
}

/// Along one edge from `source` to `target`, what arrives is what left on
/// the port where the edge begins, in its order, on the port where the
/// edge ends.
pub proof fn one_edge_relabels(
    bag: Seq<MsgView>,
    edge: CouplingView,
    source: Option<Seq<char>>,
    target: Option<Seq<char>>,
)
    requires
        edge.from.model == source,
        edge.to.model == target,
    ensures
        route_bag(bag, seq![edge], source, target) == relabelled(
            bag,
            edge.from.port,
            edge.to.port,
        ),
    decreases bag.len(),
{
    if bag.len() > 0 {
        one_edge_relabels(bag.drop_last(), edge, source, target);
        let edges = seq![edge];
        assert(edges.drop_last() =~= Seq::<CouplingView>::empty());
        assert(fan(edges.drop_last(), source, bag.last(), target) =~= Seq::<MsgView>::empty());
        assert(route_bag(bag, edges, source, target) =~= relabelled(
            bag,
            edge.from.port,
            edge.to.port,
        ));
    }
}

/// Adds to `out` what arrives at `target` when the messages of `bag` leave
/// `source`.
pub fn route_bag_into(
    out: &mut Bag,
    bag: &Bag,
    edges: &Vec<Coupling>,
    source: &Option<String>,
    target: &Option<String>,
)
    ensures
        bag_view(final(out)@) == bag_view(old(out)@) + route_bag(
            bag_view(bag@),
            couplings_view(edges@),
            owner_view(*source),
            owner_view(*target),
        ),
{
    let ghost start = bag_view(out@);
    let ghost msgs = bag_view(bag@);
    let ghost ways = couplings_view(edges@);
    let ghost from = owner_view(*source);
    let ghost to = owner_view(*target);
    let mut i: usize = 0;
    proof {
        assert(bag_view(out@) =~= start + route_bag(msgs.take(0), ways, from, to));
    }
    while i < bag.len()
        invariant
            i <= bag@.len(),
            msgs == bag_view(bag@),
            ways == couplings_view(edges@),
            from == owner_view(*source),
            to == owner_view(*target),
            bag_view(out@) == start + route_bag(msgs.take(i as int), ways, from, to),
        decreases bag@.len() - i,
    {
        let ghost done = bag_view(out@);
        let mut j: usize = 0;
        proof {
            assert(bag_view(out@) =~= done + fan(ways.take(0), from, msgs[i as int], to));
        }
        while j < edges.len()
            invariant
                i < bag@.len(),
                j <= edges@.len(),
                msgs == bag_view(bag@),
                ways == couplings_view(edges@),
                from == owner_view(*source),
                to == owner_view(*target),
                bag_view(out@) == done + fan(ways.take(j as int), from, msgs[i as int], to),
            decreases edges@.len() - j,
        {
            let edge = &edges[j];
            let ghost before = bag_view(out@);
            proof {
                assert(ways.take(j + 1).drop_last() =~= ways.take(j as int));
                assert(ways.take(j + 1).last() == edge@);
            }
            if edge.from.is_at(source, &bag[i].port) && crate::couplings::same_owner(
                &edge.to.model,
                target,
            ) {
                out.push(bag[i].forwarded(&edge.to.port));
                proof {
                    assert(bag_view(out@) =~= before.push(
                        MsgView { port: edge@.to.port, value: msgs[i as int].value },
                    ));
                    assert(joins(edge@, from, msgs[i as int].port, to));
                    assert(bag_view(out@) =~= done + fan(
                        ways.take(j + 1),
                        from,
                        msgs[i as int],
                        to,
                    ));
                }
            } else {
                proof {
                    assert(!joins(edge@, from, msgs[i as int].port, to));
                }
            }
            j += 1;
        }
        proof {
            assert(ways.take(ways.len() as int) =~= ways);
            assert(msgs.take(i + 1).drop_last() =~= msgs.take(i as int));
            assert(msgs.take(i + 1).last() == msgs[i as int]);
            assert(bag_view(out@) =~= start + route_bag(msgs.take(i + 1), ways, from, to));
        }
        i += 1;
    }
    proof {
        assert(msgs.take(msgs.len() as int) =~= msgs);
    }
}

/// Adds to `out` what arrives at `target` from the children whose output
/// is in `mail`.
pub fn route_mail_into(out: &mut Bag, mail: &Mail, edges: &Vec<Coupling>, target: &Option<String>)
    ensures
        bag_view(final(out)@) == bag_view(old(out)@) + route_mail(
            mail_view(mail@),
            couplings_view(edges@),
            owner_view(*target),
        ),
{
    let ghost start = bag_view(out@);
    let ghost items = mail_view(mail@);
    let ghost ways = couplings_view(edges@);
    let ghost to = owner_view(*target);
    let mut i: usize = 0;
    proof {
        assert(bag_view(out@) =~= start + route_mail(items.take(0), ways, to));
    }
    while i < mail.len()
        invariant
            i <= mail@.len(),
            items == mail_view(mail@),
            ways == couplings_view(edges@),
            to == owner_view(*target),
            bag_view(out@) == start + route_mail(items.take(i as int), ways, to),
        decreases mail@.len() - i,
    {
        let source = Some(mail[i].model_name.clone());
        let ghost before = bag_view(out@);
        route_bag_into(out, &mail[i].y_bag, edges, &source, target);
        proof {
            assert(items.take(i + 1).drop_last() =~= items.take(i as int));
            assert(items.take(i + 1).last() == items[i as int]);
            assert(bag_view(out@) =~= start + route_mail(items.take(i + 1), ways, to));
        }
        i += 1;
    }
    proof {
        assert(items.take(items.len() as int) =~= items);
    }
}

/// The input of the child `child`: see `inbound`.
pub fn inbound_bag(
    x_bag: &Bag,
    mail: &Mail,
    eic: &Vec<Coupling>,
    ic: &Vec<Coupling>,
    child: &String,
) -> (bag: Bag)
    ensures
        bag_view(bag@) == inbound(
            bag_view(x_bag@),
            mail_view(mail@),
            couplings_view(eic@),
            couplings_view(ic@),
            child@,
        ),
{
    let mut bag: Bag = Vec::new();
    let target = Some(child.clone());
    route_bag_into(&mut bag, x_bag, eic, &None, &target);
    route_mail_into(&mut bag, mail, ic, &target);
    proof {
        assert(bag_view(bag@) =~= inbound(
            bag_view(x_bag@),
            mail_view(mail@),
            couplings_view(eic@),
            couplings_view(ic@),
            child@,
        ));
    }
    bag
}

/// The output of a coupled model: see `outbound`.
pub fn outbound_bag(mail: &Mail, eoc: &Vec<Coupling>) -> (bag: Bag)
    ensures
        bag_view(bag@) == outbound(mail_view(mail@), couplings_view(eoc@)),
{
    let mut bag: Bag = Vec::new();
    route_mail_into(&mut bag, mail, eoc, &None);
    proof {
        assert(bag_view(bag@) =~= outbound(mail_view(mail@), couplings_view(eoc@)));
    }
    bag
}

} // verus!
