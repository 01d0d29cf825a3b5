use vstd::prelude::*;

use crate::route::{
    AllLB, LongPollRoute, RoundRobinLB, RouteNode, RouteView, height, heights, lemma_height_positive,
    lemma_heights_bound, lemma_nodes_view, node_view, nodes_view,
};
use crate::text::{
    chars_eq_str, chars_of, dec_value, find_char_vec, find_from, is_digits, parse_i64, parse_u64,
    spec_parse_i64, str_eq, sub_chars,
};
use crate::update::{Update, updates_view};

verus! {

/// The batch size a consumer call gets when it asks for no explicit limit.
pub const DEFAULT_LIMIT: usize = 1000;

/// What one turn of the consumer loop decides: answer now, or wait on
/// the notifier for at most the given number of milliseconds and try again.
pub enum PollOutcome {
    Reply(Vec<Update>),
    Wait(u64),
}

/// The mathematical content of a `PollOutcome`.
pub ghost enum PollV {
    Reply(Seq<Seq<char>>),
    Wait(u64),
}

impl View for PollOutcome {
    type V = PollV;

    open spec fn view(&self) -> PollV {
        match self {
            PollOutcome::Reply(b) => PollV::Reply(updates_view(b@)),
            PollOutcome::Wait(ms) => PollV::Wait(*ms),
        }
    }
}

/// How many items one consumer call takes from a queue of length `len`.
pub open spec fn spec_batch_len(len: nat, limit: usize) -> nat {
    if len <= limit as nat {
        len
    } else {
        limit as nat
    }
}

/// One turn of the consumer loop over the queue, at wall-clock `now`
/// against a fixed `deadline` (both in milliseconds):
/// a non-empty queue loses its first `spec_batch_len` items to the reply;
/// an empty queue replies empty once the deadline has passed, and
/// otherwise waits out the remaining time.
pub open spec fn spec_poll(q: Seq<Seq<char>>, now: u64, deadline: u64, limit: usize) -> (
    Seq<Seq<char>>,
    PollV,
) {
    if q.len() > 0 {
        let k = spec_batch_len(q.len(), limit) as int;
        (q.skip(k), PollV::Reply(q.take(k)))
    } else if now >= deadline {
        (q, PollV::Reply(Seq::empty()))
    } else {
        (q, PollV::Wait((deadline - now) as u64))
    }
}

/// The wall-clock deadline of a consumer call that arrived at `now_ms`
/// asking for `timeout_s` seconds, clamped at the end of time.
pub open spec fn spec_deadline(now_ms: u64, timeout_s: u64) -> u64 {
    if timeout_s > u64::MAX as nat / 1000 {
        u64::MAX
    } else if now_ms + timeout_s * 1000 > u64::MAX {
        u64::MAX
    } else {
        (now_ms + timeout_s * 1000) as u64
    }
}

/// Deadline of a consumer call: `now + timeout`, saturating. A timeout
/// of zero gives a deadline that has already passed.
pub fn deadline_of(now_ms: u64, timeout_s: u64) -> (r: u64)
    ensures
        r == spec_deadline(now_ms, timeout_s),
{
    if timeout_s > u64::MAX / 1000 {
        u64::MAX
    } else {
        let grow = timeout_s * 1000;
        if now_ms > u64::MAX - grow {
            u64::MAX
        } else {
            now_ms + grow
        }
    }
}

impl LongPollRoute {
    /// Append one update to the queue. The caller wakes all waiters.
    pub fn process(&mut self, u: &Update)
        ensures
            final(self).path@ == old(self).path@,
            updates_view(final(self).updates@) == updates_view(old(self).updates@).push(u@),
    {
        let ghost oldq = self.updates@;
        self.updates.push(u.duplicate());
        proof {
            assert(updates_view(self.updates@) =~= updates_view(oldq).push(u@));
        }
    }

    /// One turn of the consumer loop: batch and remove the queue's
    /// front, or decide to answer empty or to wait, as `spec_poll` says.
    pub fn poll_step(&mut self, now_ms: u64, deadline_ms: u64, limit: usize) -> (r: PollOutcome)
        ensures
            final(self).path@ == old(self).path@,
            updates_view(final(self).updates@) == spec_poll(
                updates_view(old(self).updates@),
                now_ms,
                deadline_ms,
                limit,
            ).0,
            r@ == spec_poll(updates_view(old(self).updates@), now_ms, deadline_ms, limit).1,
    {
        let ghost q0 = updates_view(self.updates@);
        if self.updates.len() > 0 {
            let k = if self.updates.len() <= limit {
                self.updates.len()
            } else {
                limit
            };
            let mut batch: Vec<Update> = Vec::new();
            let mut taken: usize = 0;
            while taken < k
                invariant
                    taken <= k,
                    k as nat == spec_batch_len(q0.len(), limit),
                    k <= q0.len(),
                    self.path@ == old(self).path@,
                    self.updates@.len() == q0.len() - taken,
                    updates_view(self.updates@) == q0.skip(taken as int),
                    updates_view(batch@) == q0.take(taken as int),
                decreases k - taken,
            {
                let ghost qmid = updates_view(self.updates@);
                let ghost bmid = updates_view(batch@);
                let u = self.updates.remove(0);
                batch.push(u);
                taken += 1;
                proof {
                    assert(updates_view(self.updates@) =~= qmid.drop_first());
                    assert(qmid.drop_first() =~= q0.skip(taken as int));
                    assert(updates_view(batch@) =~= bmid.push(qmid[0]));
                    assert(qmid[0] == q0[taken - 1]);
                    assert(bmid.push(q0[taken - 1]) =~= q0.take(taken as int));
                }
            }
            PollOutcome::Reply(batch)
        } else if now_ms >= deadline_ms {
            proof {
                assert(updates_view(Seq::<Update>::empty()) =~= Seq::<Seq<char>>::empty());
            }
            PollOutcome::Reply(Vec::new())
        } else {
            PollOutcome::Wait(deadline_ms - now_ms)
        }
    }
}

pub open spec fn opt_poll_view(o: Option<PollOutcome>) -> Option<PollV> {
    match o {
        Some(p) => Some(p@),
        None => None,
    }
}

/// One consumer turn against the first long-poll leaf of the tree whose
/// path is `path` (in depth-first order); `None` when the tree has no
/// such leaf, the tree then unchanged.
pub open spec fn spec_poll_at(
    t: RouteView,
    path: Seq<char>,
    now: u64,
    deadline: u64,
    limit: usize,
) -> (RouteView, Option<PollV>)
    decreases height(t), 0int,
{
    match t {
        RouteView::Webhook { .. } => (t, None),
        RouteView::LongPoll { path: p, queue } => {
            if p == path {
                let r = spec_poll(queue, now, deadline, limit);
                (RouteView::LongPoll { path: p, queue: r.0 }, Some(r.1))
            } else {
                (t, None)
            }
        },
        RouteView::RoundRobin { children, current } => {
            let r = spec_poll_at_nodes(children, path, now, deadline, limit);
            (RouteView::RoundRobin { children: r.0, current }, r.1)
        },
        RouteView::All { children } => {
            let r = spec_poll_at_nodes(children, path, now, deadline, limit);
            (RouteView::All { children: r.0 }, r.1)
        },
    }
}

pub open spec fn spec_poll_at_nodes(
    cs: Seq<RouteView>,
    path: Seq<char>,
    now: u64,
    deadline: u64,
    limit: usize,
) -> (Seq<RouteView>, Option<PollV>)
    decreases heights(cs), 1int,
{
    if cs.len() == 0 {
        (cs, None)
    } else {
        let h = ({
            proof {
                lemma_heights_bound(cs, 0);
            }
            spec_poll_at(cs[0], path, now, deadline, limit)
        });
        if h.1 is Some {
            (seq![h.0] + cs.drop_first(), h.1)
        } else {
            let r = ({
                proof {
                    lemma_height_positive(cs[0]);
                }
                spec_poll_at_nodes(cs.drop_first(), path, now, deadline, limit)
            });
            (seq![h.0] + r.0, r.1)
        }
    }
}

impl RouteNode {
    /// Serve one consumer turn at the long-poll leaf mounted on `path`.
    pub fn poll_at(self, path: &String, now_ms: u64, deadline_ms: u64, limit: usize) -> (r: (
        RouteNode,
        Option<PollOutcome>,
    ))
        ensures
            r.0@ == spec_poll_at(self@, path@, now_ms, deadline_ms, limit).0,
            opt_poll_view(r.1) == spec_poll_at(self@, path@, now_ms, deadline_ms, limit).1,
        decreases height(self@), 0int,
    {
        match self {
            RouteNode::Webhook(w) => (RouteNode::Webhook(w), None),
            RouteNode::LongPoll(mut l) => {
                if str_eq(l.path.as_str(), path.as_str()) {
                    let out = l.poll_step(now_ms, deadline_ms, limit);
                    (RouteNode::LongPoll(l), Some(out))
                } else {
                    (RouteNode::LongPoll(l), None)
                }
            },
            RouteNode::RoundRobin(rr) => {
                let RoundRobinLB { routes, current } = rr;
                let (rs, o) = poll_at_nodes(routes, path, now_ms, deadline_ms, limit);
                (RouteNode::RoundRobin(RoundRobinLB { routes: rs, current }), o)
            },
            RouteNode::All(a) => {
                let (rs, o) = poll_at_nodes(a.routes, path, now_ms, deadline_ms, limit);
                (RouteNode::All(AllLB { routes: rs }), o)
            },
        }
    }
}

/// `poll_at` over a child list, stopping at the first leaf that answers.
pub fn poll_at_nodes(
    nodes: Vec<RouteNode>,
    path: &String,
    now_ms: u64,
    deadline_ms: u64,
    limit: usize,
) -> (r: (Vec<RouteNode>, Option<PollOutcome>))
    ensures
        nodes_view(r.0@) == spec_poll_at_nodes(nodes_view(nodes@), path@, now_ms, deadline_ms, limit).0,
        opt_poll_view(r.1) == spec_poll_at_nodes(
            nodes_view(nodes@),
            path@,
            now_ms,
            deadline_ms,
            limit,
        ).1,
    decreases heights(nodes_view(nodes@)), 1int,
{
    let ghost cs = nodes_view(nodes@);
    let mut nodes = nodes;
    if nodes.len() == 0 {
        (nodes, None)
    } else {
        proof {
            lemma_nodes_view(nodes@);
            lemma_heights_bound(cs, 0);
            lemma_height_positive(cs[0]);
        }
        let ghost before = nodes@;
        let head = nodes.remove(0);
        let (h2, o) = head.poll_at(path, now_ms, deadline_ms, limit);
        let ghost spec_h = spec_poll_at(cs[0], path@, now_ms, deadline_ms, limit);
        if o.is_some() {
            nodes.insert(0, h2);
            proof {
                lemma_nodes_view(nodes@);
                lemma_nodes_view(before);
                assert(nodes@ =~= seq![h2] + before.drop_first());
                assert forall|j: int| 0 <= j < nodes@.len() implies nodes_view(nodes@)[j] == (
                seq![spec_h.0] + cs.drop_first())[j] by {
                    if j > 0 {
                        assert(nodes@[j] == before[j]);
                        assert(nodes_view(nodes@)[j] == node_view(before[j]));
                        assert(cs.drop_first()[j - 1] == cs[j]);
                    }
                }
                assert(nodes_view(nodes@) =~= seq![spec_h.0] + cs.drop_first());
            }
            (nodes, o)
        } else {
            proof {
                lemma_nodes_view(before);
                lemma_nodes_view(before.drop_first());
                assert(nodes_view(nodes@) =~= cs.drop_first());
            }
            let (mut rest2, o2) = poll_at_nodes(nodes, path, now_ms, deadline_ms, limit);
            let ghost rest2v = rest2@;
            let ghost spec_rest = spec_poll_at_nodes(cs.drop_first(), path@, now_ms, deadline_ms, limit);
            let mut out: Vec<RouteNode> = Vec::new();
            out.push(h2);
            out.append(&mut rest2);
            proof {
                assert(out@ =~= seq![h2] + rest2v);
                lemma_nodes_view(out@);
                lemma_nodes_view(rest2v);
                assert forall|j: int| 0 <= j < out@.len() implies nodes_view(out@)[j] == (
                seq![spec_h.0] + spec_rest.0)[j] by {
                    if j > 0 {
                        assert(out@[j] == rest2v[j - 1]);
                        assert(nodes_view(out@)[j] == nodes_view(rest2v)[j - 1]);
                    }
                }
                assert(nodes_view(out@) =~= seq![spec_h.0] + spec_rest.0);
            }
            (out, o2)
        }
    }
}

/// The `key=value` segments of a form-encoded body, split on `&`.
pub open spec fn split_pairs(s: Seq<char>) -> Seq<Seq<char>>
    decreases s.len(),
{
    match find_from(s, '&', 0) {
        None => seq![s],
        Some(j) => ({
            proof {
                crate::text::lemma_find_from_bounds(s, '&', 0);
            }
            seq![s.take(j)] + split_pairs(s.skip(j + 1))
        }),
    }
}

/// The key of one `key=value` segment: everything before the first `=`.
pub open spec fn pair_key(p: Seq<char>) -> Seq<char> {
    match find_from(p, '=', 0) {
        None => p,
        Some(j) => p.take(j),
    }
}

/// The value of one segment, absent without an `=`.
pub open spec fn pair_value(p: Seq<char>) -> Option<Seq<char>> {
    match find_from(p, '=', 0) {
        None => None,
        Some(j) => Some(p.skip(j + 1)),
    }
}

/// The unsigned numeric field named `key`: of the segments whose key
/// matches and whose value is a decimal number in range, the last wins;
/// absent otherwise.
pub open spec fn spec_form_u64(pairs: Seq<Seq<char>>, key: Seq<char>) -> Option<u64>
    decreases pairs.len(),
{
    if pairs.len() == 0 {
        None
    } else {
        let p = pairs.last();
        if pair_key(p) == key && pair_value(p) is Some && is_digits(pair_value(p)->Some_0)
            && dec_value(pair_value(p)->Some_0) <= u64::MAX {
            Some(dec_value(pair_value(p)->Some_0) as u64)
        } else {
            spec_form_u64(pairs.drop_last(), key)
        }
    }
}

/// The signed numeric field named `key`, the last parsable one winning.
pub open spec fn spec_form_i64(pairs: Seq<Seq<char>>, key: Seq<char>) -> Option<i64>
    decreases pairs.len(),
{
    if pairs.len() == 0 {
        None
    } else {
        let p = pairs.last();
        if pair_key(p) == key && pair_value(p) is Some && spec_parse_i64(pair_value(p)->Some_0)
            is Some {
            spec_parse_i64(pair_value(p)->Some_0)
        } else {
            spec_form_i64(pairs.drop_last(), key)
        }
    }
}

/// The fields a consumer call may carry, each optional.
pub struct GetUpdatesParams {
    pub offset: Option<i64>,
    pub timeout: Option<u64>,
    pub limit: Option<u64>,
}

/// One segment's key and value, as character vectors.
fn split_pair(p: &Vec<char>) -> (r: (Vec<char>, Option<Vec<char>>))
    ensures
        r.0@ == pair_key(p@),
        match r.1 {
            Some(v) => pair_value(p@) == Some(v@),
            None => pair_value(p@) is None,
        },
{
    match find_char_vec(p, '=', 0) {
        None => (sub_chars(p, 0, p.len()), None),
        Some(j) => {
            proof {
                crate::text::lemma_find_from_bounds(p@, '=', 0);
            }
            let n = p.len();
            let k = sub_chars(p, 0, j);
            let v = sub_chars(p, j + 1, n);
            proof {
                assert(k@ =~= p@.take(j as int));
                assert(v@ =~= p@.skip(j as int + 1));
            }
            (k, Some(v))
        },
    }
}

/// Parse the form-encoded body of a consumer call: the fields
/// `offset`, `timeout` and `limit`, each optional, the last parsable
/// occurrence of each winning.
pub fn parse_get_updates(body: &str) -> (r: GetUpdatesParams)
    ensures
        r.offset == spec_form_i64(split_pairs(body@), "offset"@),
        r.timeout == spec_form_u64(split_pairs(body@), "timeout"@),
        r.limit == spec_form_u64(split_pairs(body@), "limit"@),
{
    let chars = chars_of(body);
    let segments = split_on_amp(&chars);
    let ghost pairs = split_pairs(body@);
    let mut r = GetUpdatesParams { offset: None, timeout: None, limit: None };
    let mut i: usize = 0;
    while i < segments.len()
        invariant
            i <= segments@.len(),
            segments@.len() == pairs.len(),
            forall|j: int| 0 <= j < pairs.len() ==> segments@[j]@ == pairs[j],
            r.offset == spec_form_i64(pairs.take(i as int), "offset"@),
            r.timeout == spec_form_u64(pairs.take(i as int), "timeout"@),
            r.limit == spec_form_u64(pairs.take(i as int), "limit"@),
        decreases segments@.len() - i,
    {
        let (key, value) = split_pair(&segments[i]);
        if let Some(v) = value {
            if chars_eq_str(&key, "offset") {
                if let Some(n) = parse_i64(&v) {
                    r.offset = Some(n);
                }
            } else if chars_eq_str(&key, "timeout") {
                if let Some(n) = parse_u64(&v) {
                    r.timeout = Some(n);
                }
            } else if chars_eq_str(&key, "limit") {
                if let Some(n) = parse_u64(&v) {
                    r.limit = Some(n);
                }
            }
        }
        i += 1;
        proof {
            reveal_strlit("offset");
            reveal_strlit("timeout");
            reveal_strlit("limit");
            let t = pairs.take(i as int);
            assert(t.drop_last() =~= pairs.take(i as int - 1));
            assert(t.last() == pairs[i as int - 1]);
            assert("offset"@.len() == 6);
            assert("timeout"@.len() == 7);
            assert("limit"@.len() == 5);
            assert("offset"@ != "timeout"@);
            assert("offset"@ != "limit"@);
            assert("timeout"@ != "limit"@);
            assert(t.len() > 0);
            assert(r.offset == spec_form_i64(t, "offset"@));
            assert(r.timeout == spec_form_u64(t, "timeout"@));
            assert(r.limit == spec_form_u64(t, "limit"@));
        }
    }
    proof {
        assert(pairs.take(i as int) =~= pairs);
    }
    r
}

/// The reply body of a consumer call: the batched updates, verbatim,
/// inside the upstream-style envelope.
pub open spec fn spec_updates_response(batch: Seq<Seq<char>>) -> Seq<char> {
    "{\"ok\":true,\"result\":["@ + crate::text::join_comma(batch) + "]}"@
}

/// Render the reply body of a consumer call.
pub fn updates_response(batch: &Vec<Update>) -> (r: String)
    ensures
        r@ == spec_updates_response(updates_view(batch@)),
{
    let ghost vs = updates_view(batch@);
    let mut out = String::from_str("{\"ok\":true,\"result\":[");
    let ghost head = out@;
    let mut i: usize = 0;
    while i < batch.len()
        invariant
            i <= batch@.len(),
            vs == updates_view(batch@),
            vs.len() == batch@.len(),
            head == "{\"ok\":true,\"result\":["@,
            out@ == head + crate::text::join_comma(vs.take(i as int)),
        decreases batch@.len() - i,
    {
        if i > 0 {
            out.append(",");
        }
        out.append(batch[i].body.as_str());
        i += 1;
        proof {
            reveal_strlit(",");
            assert(","@ =~= seq![',']);
            let t = vs.take(i as int);
            assert(t.drop_last() =~= vs.take(i as int - 1));
            assert(t.last() == vs[i as int - 1]);
            assert(out@ =~= head + crate::text::join_comma(t));
        }
    }
    out.append("]}");
    proof {
        assert(vs.take(i as int) =~= vs);
    }
    out
}

/// Split on `&`, mirroring `split_pairs`.
fn split_on_amp(v: &Vec<char>) -> (r: Vec<Vec<char>>)
    ensures
        r@.len() == split_pairs(v@).len(),
        forall|j: int| 0 <= j < r@.len() ==> r@[j]@ == split_pairs(v@)[j],
    decreases v@.len(),
{
    match find_char_vec(v, '&', 0) {
        None => {
            let mut r: Vec<Vec<char>> = Vec::new();
            r.push(sub_chars(v, 0, v.len()));
            proof {
                assert(r@[0]@ =~= split_pairs(v@)[0]);
            }
            r
        },
        Some(j) => {
            proof {
                crate::text::lemma_find_from_bounds(v@, '&', 0);
            }
            let n = v.len();
            let head = sub_chars(v, 0, j);
            let tail = sub_chars(v, j + 1, n);
            proof {
                assert(tail@ =~= v@.skip(j as int + 1));
            }
            let mut r: Vec<Vec<char>> = Vec::new();
            r.push(head);
            let mut rest = split_on_amp(&tail);
            let ghost restv = rest@;
            r.append(&mut rest);
            proof {
                assert(head@ =~= v@.take(j as int));
                assert forall|k: int| 0 <= k < r@.len() implies r@[k]@ == split_pairs(v@)[k] by {
                    if k > 0 {
                        assert(r@[k] == restv[k - 1]);
                    }
                }
            }
            r
        },
    }
}

} // verus!
