use vstd::prelude::*;

use crate::route::{
    RouteNode, RouteView, height, heights, lemma_height_positive, lemma_heights_bound,
    lemma_nodes_view, nodes_view,
};
use crate::text::{append_json_escaped, join_comma, json_escape};

verus! {

/// The JSON description of a subtree, as the admin API reports it:
/// a leaf names its kind and its option; a balancer names its strategy
/// and lists its children's descriptions in order.
pub open spec fn spec_describe(t: RouteView) -> Seq<char>
    decreases height(t), 1int,
{
    match t {
        RouteView::Webhook { url } => "{\"type\":\"webhook\",\"options\":{\"url\":\""@
            + json_escape(url) + "\"}}"@,
        RouteView::LongPoll { path, .. } => "{\"type\":\"longpoll\",\"options\":{\"path\":\""@
            + json_escape(path) + "\"}}"@,
        RouteView::RoundRobin { children, .. } => {
            "{\"type\":\"load-balancer\",\"name\":\"round-robin\",\"routes\":["@ + join_comma(
                spec_describe_nodes(children),
            ) + "]}"@
        },
        RouteView::All { children } => {
            "{\"type\":\"load-balancer\",\"name\":\"all\",\"routes\":["@ + join_comma(
                spec_describe_nodes(children),
            ) + "]}"@
        },
    }
}

pub open spec fn spec_describe_nodes(cs: Seq<RouteView>) -> Seq<Seq<char>>
    decreases heights(cs), 2int,
{
    if cs.len() == 0 {
        Seq::empty()
    } else {
        let head = ({
            proof {
                lemma_heights_bound(cs, 0);
            }
            spec_describe(cs[0])
        });
        let rest = ({
            proof {
                lemma_height_positive(cs[0]);
            }
            spec_describe_nodes(cs.drop_first())
        });
        seq![head] + rest
    }
}

/// `spec_describe_nodes` element by element.
pub proof fn lemma_describe_nodes(cs: Seq<RouteView>)
    ensures
        spec_describe_nodes(cs).len() == cs.len(),
        forall|i: int| 0 <= i < cs.len() ==> spec_describe_nodes(cs)[i] == spec_describe(cs[i]),
    decreases cs.len(),
{
    if cs.len() > 0 {
        lemma_describe_nodes(cs.drop_first());
    }
}

impl RouteNode {
    /// The JSON description of the subtree, as `spec_describe` says.
    pub fn describe(&self) -> (r: String)
        ensures
            r@ == spec_describe(self@),
        decreases height(self@), 0int,
    {
        match self {
            RouteNode::Webhook(w) => {
                let mut out = String::from_str("{\"type\":\"webhook\",\"options\":{\"url\":\"");
                append_json_escaped(&mut out, w.url.as_str());
                out.append("\"}}");
                out
            },
            RouteNode::LongPoll(l) => {
                let mut out = String::from_str("{\"type\":\"longpoll\",\"options\":{\"path\":\"");
                append_json_escaped(&mut out, l.path.as_str());
                out.append("\"}}");
                out
            },
            RouteNode::RoundRobin(rr) => {
                let mut out = String::from_str(
                    "{\"type\":\"load-balancer\",\"name\":\"round-robin\",\"routes\":[",
                );
                let inner = describe_nodes(&rr.routes);
                out.append(inner.as_str());
                out.append("]}");
                out
            },
            RouteNode::All(a) => {
                let mut out = String::from_str(
                    "{\"type\":\"load-balancer\",\"name\":\"all\",\"routes\":[",
                );
                let inner = describe_nodes(&a.routes);
                out.append(inner.as_str());
                out.append("]}");
                out
            },
        }
    }
}

/// The children's descriptions, a comma between each two.
pub fn describe_nodes(nodes: &Vec<RouteNode>) -> (r: String)
    ensures
        r@ == join_comma(spec_describe_nodes(nodes_view(nodes@))),
    decreases heights(nodes_view(nodes@)), 1int,
{
    let ghost cs = nodes_view(nodes@);
    let ghost descs = spec_describe_nodes(cs);
    let mut out = String::new();
    let mut i: usize = 0;
    proof {
        lemma_nodes_view(nodes@);
        lemma_describe_nodes(cs);
    }
    while i < nodes.len()
        invariant
            i <= nodes@.len(),
            cs == nodes_view(nodes@),
            descs == spec_describe_nodes(cs),
            descs.len() == cs.len(),
            cs.len() == nodes@.len(),
            forall|j: int| 0 <= j < cs.len() ==> descs[j] == spec_describe(cs[j]),
            forall|j: int| 0 <= j < cs.len() ==> cs[j] == nodes@[j]@,
            out@ == join_comma(descs.take(i as int)),
        decreases nodes@.len() - i,
    {
        proof {
            lemma_heights_bound(cs, i as int);
        }
        if i > 0 {
            out.append(",");
        }
        let d = nodes[i].describe();
        out.append(d.as_str());
        i += 1;
        proof {
            reveal_strlit(",");
            assert(","@ =~= seq![',']);
            let t = descs.take(i as int);
            assert(t.drop_last() =~= descs.take(i as int - 1));
            assert(t.last() == descs[i as int - 1]);
            assert(out@ =~= join_comma(t));
        }
    }
    proof {
        assert(descs.take(i as int) =~= descs);
    }
    out
}

} // verus!
