use vstd::prelude::*;

use crate::update::{Post, PostV, Update, posts_view, updates_view};
use crate::text::clone_string;

verus! {

/// Leaf: forward each update as an HTTP POST to a fixed URL.
pub struct WebhookRoute {
    pub url: String,
}

/// Leaf: buffer updates in insertion order; a long-poll consumer
/// endpoint drains them in batches. The queue itself is unbounded:
/// backpressure is left to the bounded update channel upstream of the
/// dispatch loop.
pub struct LongPollRoute {
    pub path: String,
    pub updates: Vec<Update>,
}

/// Interior: deliver each update to exactly one child, cycling.
pub struct RoundRobinLB {
    pub routes: Vec<RouteNode>,
    pub current: usize,
}

/// Interior: deliver each update to every child.
pub struct AllLB {
    pub routes: Vec<RouteNode>,
}

/// A node of the dispatch tree.
pub enum RouteNode {
    Webhook(WebhookRoute),
    LongPoll(LongPollRoute),
    RoundRobin(RoundRobinLB),
    All(AllLB),
}

/// The mathematical shape of a route tree.
pub ghost enum RouteView {
    Webhook { url: Seq<char> },
    LongPoll { path: Seq<char>, queue: Seq<Seq<char>> },
    RoundRobin { children: Seq<RouteView>, current: usize },
    All { children: Seq<RouteView> },
}

pub open spec fn node_view(t: RouteNode) -> RouteView
    decreases t,
{
    match t {
        RouteNode::Webhook(w) => RouteView::Webhook { url: w.url@ },
        RouteNode::LongPoll(l) => RouteView::LongPoll {
            path: l.path@,
            queue: updates_view(l.updates@),
        },
        RouteNode::RoundRobin(rr) => RouteView::RoundRobin {
            children: nodes_view(rr.routes@),
            current: rr.current,
        },
        RouteNode::All(a) => RouteView::All { children: nodes_view(a.routes@) },
    }
}

pub open spec fn nodes_view(s: Seq<RouteNode>) -> Seq<RouteView>
    decreases s,
{
    if s.len() == 0 {
        Seq::empty()
    } else {
        seq![node_view(s[0])] + nodes_view(s.drop_first())
    }
}

impl View for RouteNode {
    type V = RouteView;

    open spec fn view(&self) -> RouteView {
        node_view(*self)
    }
}

/// Height of a tree: every node counts 1, so the height is positive
/// and strictly larger than that of any child.
pub open spec fn height(t: RouteView) -> nat
    decreases t,
{
    match t {
        RouteView::Webhook { .. } => 1,
        RouteView::LongPoll { .. } => 1,
        RouteView::RoundRobin { children, .. } => 1 + heights(children),
        RouteView::All { children } => 1 + heights(children),
    }
}

pub open spec fn heights(cs: Seq<RouteView>) -> nat
    decreases cs,
{
    if cs.len() == 0 {
        0
    } else {
        height(cs[0]) + heights(cs.drop_first())
    }
}

pub proof fn lemma_height_positive(t: RouteView)
    ensures
        height(t) >= 1,
{
}

/// `nodes_view` element by element.
pub proof fn lemma_nodes_view(s: Seq<RouteNode>)
    ensures
        nodes_view(s).len() == s.len(),
        forall|i: int| 0 <= i < s.len() ==> nodes_view(s)[i] == node_view(s[i]),
    decreases s,
{
    if s.len() > 0 {
        lemma_nodes_view(s.drop_first());
    }
}

/// `heights` bounds the height of each element.
pub proof fn lemma_heights_bound(cs: Seq<RouteView>, i: int)
    requires
        0 <= i < cs.len(),
    ensures
        height(cs[i]) <= heights(cs),
    decreases cs,
{
    if i > 0 {
        lemma_heights_bound(cs.drop_first(), i - 1);
    } else {
        assert(heights(cs) == height(cs[0]) + heights(cs.drop_first()));
    }
}

/// The round-robin counter after one dispatch.
pub open spec fn next_counter(c: usize) -> usize {
    if c == usize::MAX {
        0
    } else {
        (c + 1) as usize
    }
}

/// What one dispatch does to a tree: the new tree, and the outbound
/// posts owed to webhook leaves.
///
/// A webhook leaf emits one post; a long-poll leaf appends to its queue;
/// a round-robin balancer hands the update to the child at
/// `current % len` and advances its counter; a broadcast balancer hands
/// it to every child in order.
pub open spec fn spec_process(t: RouteView, u: Seq<char>) -> (RouteView, Seq<PostV>)
    decreases height(t), 0int,
{
    match t {
        RouteView::Webhook { url } => (t, seq![PostV { url, body: u }]),
        RouteView::LongPoll { path, queue } => (
            RouteView::LongPoll { path, queue: queue.push(u) },
            Seq::empty(),
        ),
        RouteView::RoundRobin { children, current } => {
            if children.len() == 0 {
                (t, Seq::empty())
            } else {
                let i = current as int % children.len() as int;
                let (c2, ps) = ({
                    proof {
                        lemma_heights_bound(children, i);
                    }
                    spec_process(children[i], u)
                });
                (
                    RouteView::RoundRobin {
                        children: children.update(i, c2),
                        current: next_counter(current),
                    },
                    ps,
                )
            }
        },
        RouteView::All { children } => {
            let r = spec_process_all(children, u);
            (RouteView::All { children: r.0 }, r.1)
        },
    }
}

/// One dispatch handed to each tree of `cs` in order.
pub open spec fn spec_process_all(cs: Seq<RouteView>, u: Seq<char>) -> (Seq<RouteView>, Seq<
    PostV,
>)
    decreases heights(cs), 1int,
{
    if cs.len() == 0 {
        (Seq::empty(), Seq::empty())
    } else {
        let h = ({
            proof {
                lemma_heights_bound(cs, 0);
            }
            spec_process(cs[0], u)
        });
        let rest = ({
            proof {
                lemma_height_positive(cs[0]);
            }
            spec_process_all(cs.drop_first(), u)
        });
        (seq![h.0] + rest.0, h.1 + rest.1)
    }
}

impl WebhookRoute {
    pub fn new(url: String) -> (r: WebhookRoute)
        ensures
            r.url@ == url@,
    {
        WebhookRoute { url }
    }
}

impl LongPollRoute {
    pub fn new(path: String) -> (r: LongPollRoute)
        ensures
            r.path@ == path@,
            r.updates@.len() == 0,
    {
        LongPollRoute { path, updates: Vec::new() }
    }
}

impl RoundRobinLB {
    pub fn new(routes: Vec<RouteNode>) -> (r: RoundRobinLB)
        ensures
            r.routes@ == routes@,
            r.current == 0,
    {
        RoundRobinLB { routes, current: 0 }
    }
}

impl AllLB {
    pub fn new(routes: Vec<RouteNode>) -> (r: AllLB)
        ensures
            r.routes@ == routes@,
    {
        AllLB { routes }
    }
}

/// What `add_route` does: an interior node appends the child to its
/// list; a leaf leaves the tree unchanged and rejects.
pub open spec fn spec_add_route(t: RouteView, c: RouteView) -> (RouteView, bool) {
    match t {
        RouteView::RoundRobin { children, current } => (
            RouteView::RoundRobin { children: children.push(c), current },
            true,
        ),
        RouteView::All { children } => (RouteView::All { children: children.push(c) }, true),
        _ => (t, false),
    }
}

/// `nodes_view` distributes over `push`.
pub proof fn lemma_nodes_view_push(s: Seq<RouteNode>, x: RouteNode)
    ensures
        nodes_view(s.push(x)) == nodes_view(s).push(node_view(x)),
{
    lemma_nodes_view(s.push(x));
    lemma_nodes_view(s);
    assert(nodes_view(s.push(x)) =~= nodes_view(s).push(node_view(x)));
}

impl RouteNode {
    /// Optionally accept a new child. Interior nodes append it to
    /// their child list; leaves reject.
    pub fn add_route(self, route: RouteNode) -> (r: (RouteNode, Result<(), ()>))
        ensures
            r.0@ == spec_add_route(self@, route@).0,
            r.1 is Ok <==> spec_add_route(self@, route@).1,
    {
        match self {
            RouteNode::RoundRobin(rr) => {
                let RoundRobinLB { mut routes, current } = rr;
                proof {
                    lemma_nodes_view_push(routes@, route);
                }
                routes.push(route);
                (RouteNode::RoundRobin(RoundRobinLB { routes, current }), Ok(()))
            },
            RouteNode::All(a) => {
                let AllLB { mut routes } = a;
                proof {
                    lemma_nodes_view_push(routes@, route);
                }
                routes.push(route);
                (RouteNode::All(AllLB { routes }), Ok(()))
            },
            _ => (self, Err(())),
        }
    }

    /// Accept one update for dispatch. Returns the tree as it stands
    /// after the dispatch and the posts owed to webhook leaves, which
    /// the caller delivers fire-and-forget.
    pub fn process(self, u: &Update) -> (r: (RouteNode, Vec<Post>))
        ensures
            r.0@ == spec_process(self@, u@).0,
            posts_view(r.1@) == spec_process(self@, u@).1,
        decreases height(self@), 0int,
    {
        match self {
            RouteNode::Webhook(w) => {
                let url_copy = clone_string(&w.url);
                let mut ps: Vec<Post> = Vec::new();
                ps.push(Post { url: url_copy, body: u.duplicate() });
                proof {
                    assert(posts_view(ps@) =~= spec_process(node_view(RouteNode::Webhook(w)), u@).1);
                }
                (RouteNode::Webhook(w), ps)
            },
            RouteNode::LongPoll(mut l) => {
                let ghost oldq = l.updates@;
                l.updates.push(u.duplicate());
                proof {
                    assert(updates_view(l.updates@) =~= updates_view(oldq).push(u@));
                }
                (RouteNode::LongPoll(l), Vec::new())
            },
            RouteNode::RoundRobin(rr) => {
                let RoundRobinLB { mut routes, current } = rr;
                if routes.len() == 0 {
                    (RouteNode::RoundRobin(RoundRobinLB { routes, current }), Vec::new())
                } else {
                    let ghost children = nodes_view(routes@);
                    let idx = current % routes.len();
                    proof {
                        lemma_nodes_view(routes@);
                        lemma_heights_bound(children, idx as int);
                    }
                    let child = routes.remove(idx);
                    let (child2, ps) = child.process(u);
                    routes.insert(idx, child2);
                    let next = if current == usize::MAX {
                        0
                    } else {
                        current + 1
                    };
                    proof {
                        lemma_nodes_view(routes@);
                        let c2 = spec_process(children[idx as int], u@).0;
                        assert forall|j: int| 0 <= j < routes@.len() implies node_view(routes@[j])
                            == children.update(idx as int, c2)[j] by {
                            lemma_nodes_view(routes@);
                        }
                        assert(nodes_view(routes@) =~= children.update(idx as int, c2));
                    }
                    (RouteNode::RoundRobin(RoundRobinLB { routes, current: next }), ps)
                }
            },
            RouteNode::All(a) => {
                let (routes2, ps) = process_nodes(a.routes, u);
                (RouteNode::All(AllLB { routes: routes2 }), ps)
            },
        }
    }
}

/// The HTTP paths the tree asks the server for at startup: every
/// long-poll leaf's path, in depth-first order. Webhook leaves
/// contribute nothing; balancers recurse.
pub open spec fn spec_mount_paths(t: RouteView) -> Seq<Seq<char>>
    decreases height(t), 0int,
{
    match t {
        RouteView::Webhook { .. } => Seq::empty(),
        RouteView::LongPoll { path, .. } => seq![path],
        RouteView::RoundRobin { children, .. } => spec_mount_paths_nodes(children),
        RouteView::All { children } => spec_mount_paths_nodes(children),
    }
}

pub open spec fn spec_mount_paths_nodes(cs: Seq<RouteView>) -> Seq<Seq<char>>
    decreases heights(cs), 1int,
{
    if cs.len() == 0 {
        Seq::empty()
    } else {
        let head = ({
            proof {
                lemma_heights_bound(cs, 0);
            }
            spec_mount_paths(cs[0])
        });
        let rest = ({
            proof {
                lemma_height_positive(cs[0]);
            }
            spec_mount_paths_nodes(cs.drop_first())
        });
        head + rest
    }
}

/// The views of a sequence of strings.
pub open spec fn strings_view(s: Seq<String>) -> Seq<Seq<char>> {
    s.map_values(|p: String| p@)
}

impl RouteNode {
    /// The HTTP paths to mount at server start, as `spec_mount_paths`
    /// says.
    pub fn mount_paths(&self) -> (r: Vec<String>)
        ensures
            strings_view(r@) == spec_mount_paths(self@),
        decreases height(self@), 0int,
    {
        match self {
            RouteNode::Webhook(_) => {
                let r: Vec<String> = Vec::new();
                proof {
                    assert(strings_view(r@) =~= Seq::<Seq<char>>::empty());
                }
                r
            },
            RouteNode::LongPoll(l) => {
                let mut r: Vec<String> = Vec::new();
                r.push(clone_string(&l.path));
                proof {
                    assert(strings_view(r@) =~= seq![l.path@]);
                }
                r
            },
            RouteNode::RoundRobin(rr) => mount_paths_nodes(&rr.routes),
            RouteNode::All(a) => mount_paths_nodes(&a.routes),
        }
    }
}

/// The mounted paths of a child list, in order.
pub fn mount_paths_nodes(nodes: &Vec<RouteNode>) -> (r: Vec<String>)
    ensures
        strings_view(r@) == spec_mount_paths_nodes(nodes_view(nodes@)),
    decreases heights(nodes_view(nodes@)), 1int,
{
    let ghost cs = nodes_view(nodes@);
    let mut r: Vec<String> = Vec::new();
    let mut i: usize = 0;
    proof {
        lemma_nodes_view(nodes@);
        assert(strings_view(r@) =~= Seq::<Seq<char>>::empty());
    }
    while i < nodes.len()
        invariant
            i <= nodes@.len(),
            cs == nodes_view(nodes@),
            cs.len() == nodes@.len(),
            forall|j: int| 0 <= j < cs.len() ==> cs[j] == nodes@[j]@,
            strings_view(r@) == spec_mount_prefix(cs, i as int),
        decreases nodes@.len() - i,
    {
        proof {
            lemma_heights_bound(cs, i as int);
        }
        let mut ps = nodes[i].mount_paths();
        let ghost rv = r@;
        let ghost psv = ps@;
        r.append(&mut ps);
        i += 1;
        proof {
            assert(r@ == rv + psv);
            assert(strings_view(r@) =~= strings_view(rv) + strings_view(psv));
            lemma_mount_prefix_step(cs, i as int - 1);
        }
    }
    proof {
        lemma_mount_prefix_all(cs);
    }
    r
}

/// The mounted paths of the first `i` children, laid end to end.
pub open spec fn spec_mount_prefix(cs: Seq<RouteView>, i: int) -> Seq<Seq<char>>
    decreases i,
{
    if i <= 0 || i > cs.len() {
        Seq::empty()
    } else {
        spec_mount_prefix(cs, i - 1) + ({
            proof {
                lemma_heights_bound(cs, i - 1);
            }
            spec_mount_paths(cs[i - 1])
        })
    }
}

pub proof fn lemma_mount_prefix_step(cs: Seq<RouteView>, i: int)
    requires
        0 <= i < cs.len(),
    ensures
        spec_mount_prefix(cs, i + 1) == spec_mount_prefix(cs, i) + spec_mount_paths(cs[i]),
{
}

/// All children walked is the whole list's contribution.
pub proof fn lemma_mount_prefix_all(cs: Seq<RouteView>)
    ensures
        spec_mount_prefix(cs, cs.len() as int) == spec_mount_paths_nodes(cs),
    decreases cs.len(),
{
    if cs.len() > 0 {
        lemma_mount_prefix_all(cs.drop_first());
        lemma_mount_prefix_shift(cs, cs.len() as int);
        assert(spec_mount_prefix(cs, cs.len() as int) =~= spec_mount_paths(cs[0])
            + spec_mount_prefix(cs.drop_first(), cs.len() - 1));
    } else {
        assert(spec_mount_prefix(cs, 0) =~= spec_mount_paths_nodes(cs));
    }
}

/// A prefix over `cs` is the head's contribution plus a prefix over the
/// rest.
pub proof fn lemma_mount_prefix_shift(cs: Seq<RouteView>, i: int)
    requires
        1 <= i <= cs.len(),
    ensures
        spec_mount_prefix(cs, i) == spec_mount_paths(cs[0]) + spec_mount_prefix(
            cs.drop_first(),
            i - 1,
        ),
    decreases i,
{
    if i == 1 {
        assert(spec_mount_prefix(cs, 0) == Seq::<Seq<char>>::empty());
        assert(spec_mount_prefix(cs.drop_first(), 0) == Seq::<Seq<char>>::empty());
        assert(spec_mount_prefix(cs, 1) =~= spec_mount_paths(cs[0]) + spec_mount_prefix(
            cs.drop_first(),
            0,
        ));
    } else {
        lemma_mount_prefix_shift(cs, i - 1);
        assert(cs.drop_first()[i - 2] == cs[i - 1]);
        assert(spec_mount_prefix(cs, i) =~= spec_mount_paths(cs[0]) + spec_mount_prefix(
            cs.drop_first(),
            i - 1,
        ));
    }
}

/// One update handed to each tree of `nodes` in order.
pub fn process_nodes(nodes: Vec<RouteNode>, u: &Update) -> (r: (Vec<RouteNode>, Vec<Post>))
    ensures
        nodes_view(r.0@) == spec_process_all(nodes_view(nodes@), u@).0,
        posts_view(r.1@) == spec_process_all(nodes_view(nodes@), u@).1,
    decreases heights(nodes_view(nodes@)), 1int,
{
    let ghost cs = nodes_view(nodes@);
    let mut nodes = nodes;
    if nodes.len() == 0 {
        proof {
            assert(posts_view(Seq::<Post>::empty()) =~= Seq::<PostV>::empty());
        }
        (nodes, Vec::new())
    } else {
        proof {
            lemma_nodes_view(nodes@);
            lemma_heights_bound(cs, 0);
            lemma_height_positive(cs[0]);
        }
        let ghost before = nodes@;
        let head = nodes.remove(0);
        proof {
            assert(nodes@ =~= before.drop_first());
        }
        let (h2, mut ps) = head.process(u);
        proof {
            lemma_nodes_view(before);
            lemma_nodes_view(before.drop_first());
            assert(nodes_view(nodes@) =~= cs.drop_first());
        }
        let (mut rest2, mut ps2) = process_nodes(nodes, u);
        let ghost rest2v = rest2@;
        let mut out: Vec<RouteNode> = Vec::new();
        out.push(h2);
        out.append(&mut rest2);
        ps.append(&mut ps2);
        proof {
            let spec_r = spec_process_all(cs, u@);
            let spec_h = spec_process(cs[0], u@);
            let spec_rest = spec_process_all(cs.drop_first(), u@);
            lemma_nodes_view(before);
            assert(head@ == cs[0]);
            assert(spec_r.0 == seq![spec_h.0] + spec_rest.0);
            assert(spec_r.1 == spec_h.1 + spec_rest.1);
            assert(out@ =~= seq![h2] + rest2v);
            lemma_nodes_view(out@);
            lemma_nodes_view(rest2v);
            assert forall|j: int| 0 <= j < out@.len() implies nodes_view(out@)[j] == spec_r.0[j] by {
                if j == 0 {
                    assert(nodes_view(out@)[0] == node_view(h2));
                } else {
                    assert(out@[j] == rest2v[j - 1]);
                    assert(nodes_view(out@)[j] == nodes_view(rest2v)[j - 1]);
                }
            }
            assert(nodes_view(out@) =~= spec_r.0);
            assert(posts_view(ps@) =~= spec_r.1);
        }
        (out, ps)
    }
}

} // verus!
