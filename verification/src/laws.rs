use vstd::prelude::*;

use crate::describe::{spec_describe, spec_describe_nodes};
use crate::longpull::{PollV, spec_batch_len, spec_poll, spec_poll_at, spec_poll_at_nodes};
use crate::route::{
    RouteView, height, heights, lemma_height_positive, lemma_heights_bound, spec_add_route,
    spec_process, spec_process_all,
};
use crate::text::join_comma;
use crate::tgin::{spec_admin_add, spec_registry_contains};
use crate::update::PostV;

verus! {

/// A sequence of updates dispatched one after the other: the tree they
/// leave behind, and every post they owe, in dispatch order.
pub open spec fn spec_process_seq(t: RouteView, us: Seq<Seq<char>>) -> (RouteView, Seq<PostV>)
    decreases us.len(),
{
    if us.len() == 0 {
        (t, Seq::empty())
    } else {
        let h = spec_process(t, us[0]);
        let r = spec_process_seq(h.0, us.drop_first());
        (r.0, h.1 + r.1)
    }
}

/// A webhook leaf for each URL, in order.
pub open spec fn webhook_children(urls: Seq<Seq<char>>) -> Seq<RouteView> {
    urls.map_values(|u: Seq<char>| RouteView::Webhook { url: u })
}

/// One dispatch through a round-robin balancer of webhook leaves goes
/// to the child picked by the counter, and only advances the counter.
proof fn lemma_rr_one_step(urls: Seq<Seq<char>>, c0: usize, u: Seq<char>)
    requires
        urls.len() > 0,
        c0 < usize::MAX,
    ensures
        spec_process(RouteView::RoundRobin { children: webhook_children(urls), current: c0 }, u)
            == (
        RouteView::RoundRobin { children: webhook_children(urls), current: (c0 + 1) as usize },
        seq![PostV { url: urls[c0 as int % urls.len() as int], body: u }],
    ),
{
    let children = webhook_children(urls);
    let t = RouteView::RoundRobin { children, current: c0 };
    let k = urls.len() as int;
    let i = c0 as int % k;
    vstd::arithmetic::div_mod::lemma_mod_bound(c0 as int, k);
    assert(children[i] == RouteView::Webhook { url: urls[i] });
    assert(spec_process(children[i], u) == (
        children[i],
        seq![PostV { url: urls[i], body: u }],
    ));
    assert(children.update(i, children[i]) =~= children);
}

/// Round-robin rotation: over a static tree of webhook leaves, the
/// `i`th of `n` dispatches is posted to the child at index
/// `(c0 + i) % k` — the chosen children cycle through `0..k` — and the
/// tree keeps its children, the counter having advanced by `n`.
pub proof fn lemma_round_robin_rotation(urls: Seq<Seq<char>>, c0: usize, us: Seq<Seq<char>>)
    requires
        urls.len() > 0,
        c0 + us.len() <= usize::MAX,
    ensures
        ({
            let r = spec_process_seq(
                RouteView::RoundRobin { children: webhook_children(urls), current: c0 },
                us,
            );
            &&& r.0 == RouteView::RoundRobin {
                children: webhook_children(urls),
                current: (c0 + us.len()) as usize,
            }
            &&& r.1.len() == us.len()
            &&& forall|i: int|
                0 <= i < us.len() ==> r.1[i] == (PostV {
                    url: urls[(c0 + i) % urls.len() as int],
                    body: us[i],
                })
        }),
    decreases us.len(),
{
    let t = RouteView::RoundRobin { children: webhook_children(urls), current: c0 };
    if us.len() > 0 {
        lemma_rr_one_step(urls, c0, us[0]);
        lemma_round_robin_rotation(urls, (c0 + 1) as usize, us.drop_first());
        let h = spec_process(t, us[0]);
        let rec = spec_process_seq(h.0, us.drop_first());
        assert forall|i: int| 0 <= i < us.len() implies (h.1 + rec.1)[i] == (PostV {
            url: urls[(c0 + i) % urls.len() as int],
            body: us[i],
        }) by {
            if i > 0 {
                assert(rec.1[i - 1] == (PostV {
                    url: urls[(c0 + 1 + (i - 1)) % urls.len() as int],
                    body: us.drop_first()[i - 1],
                }));
            }
        }
    }
}

/// How many of the `n` dispatches after counter `c0` a round-robin
/// balancer of `k` children hands to child `j`: those `i < n` with
/// `(c0 + i) % k == j`.
pub open spec fn rr_count(c0: int, n: int, k: int, j: int) -> int
    decreases n,
{
    if n <= 0 {
        0
    } else {
        (if c0 % k == j {
            1int
        } else {
            0int
        }) + rr_count(c0 + 1, n - 1, k, j)
    }
}

/// Quotient and remainder of `x - 1` in terms of those of `x`.
proof fn lemma_mod_shift_down(x: int, k: int)
    requires
        k > 0,
    ensures
        (x - 1) % k == if x % k == 0 {
            k - 1
        } else {
            x % k - 1
        },
        (x - 1) / k == if x % k == 0 {
            x / k - 1
        } else {
            x / k
        },
{
    vstd::arithmetic::div_mod::lemma_fundamental_div_mod(x, k);
    vstd::arithmetic::div_mod::lemma_mod_bound(x, k);
    let q = x / k;
    let r = x % k;
    if r == 0 {
        assert(x - 1 == (q - 1) * k + (k - 1)) by (nonlinear_arith)
            requires
                x == k * q,
        ;
        vstd::arithmetic::div_mod::lemma_fundamental_div_mod_converse(x - 1, k, q - 1, k - 1);
    } else {
        assert(x - 1 == q * k + (r - 1)) by (nonlinear_arith)
            requires
                x == k * q + r,
        ;
        vstd::arithmetic::div_mod::lemma_fundamental_div_mod_converse(x - 1, k, q, r - 1);
    }
}

/// The counter hits child `j` exactly when their distance is a
/// multiple of the ring size.
proof fn lemma_hit_iff(c0: int, j: int, k: int)
    requires
        k > 0,
        0 <= j < k,
    ensures
        (c0 % k == j) <==> ((j - c0) % k == 0),
{
    vstd::arithmetic::div_mod::lemma_fundamental_div_mod(c0, k);
    vstd::arithmetic::div_mod::lemma_mod_bound(c0, k);
    let q = c0 / k;
    let r = c0 % k;
    if r == j {
        assert(j - c0 == (-q) * k + 0) by (nonlinear_arith)
            requires
                c0 == k * q + j,
        ;
        vstd::arithmetic::div_mod::lemma_fundamental_div_mod_converse(j - c0, k, -q, 0);
    } else {
        if (j - c0) % k == 0 {
            vstd::arithmetic::div_mod::lemma_fundamental_div_mod(j - c0, k);
            let q2 = (j - c0) / k;
            assert(j == (q + q2) * k + r) by (nonlinear_arith)
                requires
                    c0 == k * q + r,
                    j - c0 == k * q2,
            ;
            vstd::arithmetic::div_mod::lemma_fundamental_div_mod_converse(j, k, q + q2, r);
            vstd::arithmetic::div_mod::lemma_small_mod(j as nat, k as nat);
            assert(false);
        }
    }
}

/// The count in closed form: every child gets the floor, and the
/// first `n % k` children past the counter get one more.
proof fn lemma_rr_count_exact(c0: int, n: int, k: int, j: int)
    requires
        k > 0,
        0 <= j < k,
        n >= 0,
    ensures
        rr_count(c0, n, k, j) == n / k + if (j - c0) % k < n % k {
            1int
        } else {
            0int
        },
    decreases n,
{
    vstd::arithmetic::div_mod::lemma_mod_bound(j - c0, k);
    vstd::arithmetic::div_mod::lemma_mod_bound(n, k);
    if n == 0 {
        vstd::arithmetic::div_mod::lemma_fundamental_div_mod_converse(0, k, 0, 0);
    } else {
        lemma_rr_count_exact(c0 + 1, n - 1, k, j);
        lemma_mod_shift_down(n, k);
        lemma_mod_shift_down(j - c0, k);
        lemma_hit_iff(c0, j, k);
        vstd::arithmetic::div_mod::lemma_mod_bound(j - c0 - 1, k);
        vstd::arithmetic::div_mod::lemma_mod_bound(n - 1, k);
        assert(j - (c0 + 1) == (j - c0) - 1);
    }
}

/// Round-robin fairness: of `n` dispatches over `k` children, child
/// `j` receives either `n / k` (the floor) or `(n + k - 1) / k` (the
/// ceiling) of them.
pub proof fn lemma_round_robin_fairness(c0: int, n: int, k: int, j: int)
    requires
        k > 0,
        0 <= j < k,
        n >= 0,
    ensures
        rr_count(c0, n, k, j) == n / k || rr_count(c0, n, k, j) == (n + k - 1) / k,
{
    lemma_rr_count_exact(c0, n, k, j);
    vstd::arithmetic::div_mod::lemma_mod_bound(j - c0, k);
    vstd::arithmetic::div_mod::lemma_mod_bound(n, k);
    vstd::arithmetic::div_mod::lemma_fundamental_div_mod(n, k);
    let m = n % k;
    let q = n / k;
    if (j - c0) % k < m {
        assert(n + k - 1 == (q + 1) * k + (m - 1)) by (nonlinear_arith)
            requires
                n == k * q + m,
        ;
        vstd::arithmetic::div_mod::lemma_fundamental_div_mod_converse(n + k - 1, k, q + 1, m - 1);
        assert(rr_count(c0, n, k, j) == (n + k - 1) / k);
    }
}

/// One dispatch through a broadcast balancer of webhook leaves posts
/// to every child in order and changes nothing.
proof fn lemma_broadcast_one(urls: Seq<Seq<char>>, u: Seq<char>)
    ensures
        spec_process_all(webhook_children(urls), u) == (
            webhook_children(urls),
            urls.map_values(|url: Seq<char>| PostV { url, body: u }),
        ),
    decreases urls.len(),
{
    let cs = webhook_children(urls);
    let posts = urls.map_values(|url: Seq<char>| PostV { url, body: u });
    if urls.len() == 0 {
        assert(spec_process_all(cs, u).0 =~= cs);
        assert(spec_process_all(cs, u).1 =~= posts);
    } else {
        lemma_broadcast_one(urls.drop_first(), u);
        assert(cs.drop_first() =~= webhook_children(urls.drop_first()));
        assert(spec_process(cs[0], u) == (cs[0], seq![PostV { url: urls[0], body: u }]));
        assert(seq![cs[0]] + webhook_children(urls.drop_first()) =~= cs);
        assert(seq![PostV { url: urls[0], body: u }] + urls.drop_first().map_values(
            |url: Seq<char>| PostV { url, body: u },
        ) =~= posts);
    }
}

/// Broadcast totality: over a static tree of `k` webhook leaves, `n`
/// dispatches owe `n * k` posts; the `i`th dispatch reaches every
/// child, in child order, carrying that update — so each child
/// receives all `n` updates in dispatch order. The tree is unchanged.
pub proof fn lemma_broadcast_totality(urls: Seq<Seq<char>>, us: Seq<Seq<char>>)
    ensures
        ({
            let t = RouteView::All { children: webhook_children(urls) };
            let r = spec_process_seq(t, us);
            &&& r.0 == t
            &&& r.1.len() == us.len() * urls.len()
            &&& forall|i: int, j: int|
                0 <= i < us.len() && 0 <= j < urls.len() ==> r.1[i * urls.len() + j] == (PostV {
                    url: #[trigger] urls[j],
                    body: #[trigger] us[i],
                })
        }),
    decreases us.len(),
{
    let k = urls.len() as int;
    let n = us.len() as int;
    let t = RouteView::All { children: webhook_children(urls) };
    let r = spec_process_seq(t, us);
    if us.len() == 0 {
        assert(r.1.len() == 0 == n * k) by (nonlinear_arith)
            requires
                n == 0,
                r.1.len() == 0,
        ;
    } else {
        lemma_broadcast_one(urls, us[0]);
        lemma_broadcast_totality(urls, us.drop_first());
        let head = urls.map_values(|url: Seq<char>| PostV { url, body: us[0] });
        let rec = spec_process_seq(t, us.drop_first());
        assert(r.1 == head + rec.1);
        assert(r.1.len() == k + (n - 1) * k);
        assert(k + (n - 1) * k == n * k) by (nonlinear_arith);
        assert forall|i: int, j: int| 0 <= i < n && 0 <= j < k implies r.1[i * k + j] == (PostV {
            url: urls[j],
            body: us[i],
        }) by {
            if i == 0 {
                assert(r.1[j] == head[j]);
            } else {
                assert(i * k + j == k + ((i - 1) * k + j)) by (nonlinear_arith);
                assert(0 <= (i - 1) * k + j < (n - 1) * k) by (nonlinear_arith)
                    requires
                        1 <= i < n,
                        0 <= j < k,
                ;
                assert(r.1[i * k + j] == rec.1[(i - 1) * k + j]);
                assert(rec.1[(i - 1) * k + j] == (PostV {
                    url: urls[j],
                    body: us.drop_first()[i - 1],
                }));
            }
        }
    }
}

/// Sequential consumer calls, each finding its deadline passed, so
/// each is answered at once: all the batches laid end to end, and what
/// is left in the queue.
pub open spec fn spec_drain(q: Seq<Seq<char>>, limits: Seq<usize>) -> (Seq<Seq<char>>, Seq<
    Seq<char>,
>)
    decreases limits.len(),
{
    if limits.len() == 0 {
        (Seq::empty(), q)
    } else {
        let step = spec_poll(q, 1, 0, limits[0]);
        let rest = spec_drain(step.0, limits.drop_first());
        (step.1->Reply_0 + rest.0, rest.1)
    }
}

/// Long-poll FIFO prefix: the batches of sequential consumer calls,
/// laid end to end, are exactly a prefix of the write order — no
/// duplicates, no gaps — and what is left is the matching suffix.
pub proof fn lemma_longpoll_fifo_prefix(q: Seq<Seq<char>>, limits: Seq<usize>)
    ensures
        ({
            let r = spec_drain(q, limits);
            &&& r.0 + r.1 == q
            &&& r.0 == q.take(r.0.len() as int)
        }),
    decreases limits.len(),
{
    let r = spec_drain(q, limits);
    if limits.len() == 0 {
        assert(r.0 + r.1 =~= q);
        assert(r.0 =~= q.take(0));
    } else {
        let step = spec_poll(q, 1, 0, limits[0]);
        lemma_longpoll_fifo_prefix(step.0, limits.drop_first());
        let rest = spec_drain(step.0, limits.drop_first());
        if q.len() > 0 {
            let k = spec_batch_len(q.len(), limits[0]) as int;
            assert(step == (q.skip(k), PollV::Reply(q.take(k))));
            assert(r.0 + r.1 =~= q.take(k) + (rest.0 + rest.1));
            assert(q.take(k) + q.skip(k) =~= q);
            assert(r.0 =~= q.take(k + rest.0.len()));
        } else {
            assert(step == (q, PollV::Reply(Seq::<Seq<char>>::empty())));
            assert(r.0 =~= rest.0);
            assert(r.0 + r.1 =~= rest.0 + rest.1);
        }
    }
}

/// Long-poll wake: an update written to an empty long-poll leaf is
/// carried by the very next consumer turn on its path, whatever the
/// clock says, and the queue is empty again after it.
pub proof fn lemma_longpoll_wake(
    path: Seq<char>,
    u: Seq<char>,
    now: u64,
    deadline: u64,
    limit: usize,
)
    requires
        limit >= 1,
    ensures
        ({
            let t = RouteView::LongPoll { path, queue: Seq::empty() };
            let after = spec_process(t, u).0;
            &&& after == RouteView::LongPoll { path, queue: seq![u] }
            &&& spec_poll_at(after, path, now, deadline, limit) == (t, Some(PollV::Reply(seq![u])))
        }),
{
    let t = RouteView::LongPoll { path, queue: Seq::empty() };
    assert(Seq::<Seq<char>>::empty().push(u) =~= seq![u]);
    assert(seq![u].skip(1) =~= Seq::<Seq<char>>::empty());
    assert(seq![u].take(1) =~= seq![u]);
}

/// Long-poll timeout: a consumer turn over an empty queue answers an
/// empty batch the moment the deadline is reached, and before that
/// asks to wait no longer than the time still left — so the handler
/// loop built on these turns returns an empty reply once its timeout
/// has run out, and never sleeps past it.
pub proof fn lemma_longpoll_timeout(q: Seq<Seq<char>>, now: u64, deadline: u64, limit: usize)
    requires
        q.len() == 0,
    ensures
        now >= deadline ==> spec_poll(q, now, deadline, limit) == (
            q,
            PollV::Reply(Seq::<Seq<char>>::empty()),
        ),
        now < deadline ==> spec_poll(q, now, deadline, limit) == (
            q,
            PollV::Wait((deadline - now) as u64),
        ),
{
}

/// One dispatch through a broadcast balancer of long-poll leaves
/// appends the update to every child's queue and owes no posts.
proof fn lemma_broadcast_longpoll_one(cs: Seq<RouteView>, u: Seq<char>)
    requires
        forall|j: int| 0 <= j < cs.len() ==> cs[j] is LongPoll,
    ensures
        spec_process_all(cs, u).1 == Seq::<PostV>::empty(),
        spec_process_all(cs, u).0.len() == cs.len(),
        forall|j: int|
            0 <= j < cs.len() ==> spec_process_all(cs, u).0[j] == (RouteView::LongPoll {
                path: cs[j]->LongPoll_path,
                queue: cs[j]->LongPoll_queue.push(u),
            }),
    decreases cs.len(),
{
    if cs.len() > 0 {
        lemma_broadcast_longpoll_one(cs.drop_first(), u);
        let h = spec_process(cs[0], u);
        let rest = spec_process_all(cs.drop_first(), u);
        assert(h == (
            RouteView::LongPoll {
                path: cs[0]->LongPoll_path,
                queue: cs[0]->LongPoll_queue.push(u),
            },
            Seq::<PostV>::empty(),
        ));
        assert(spec_process_all(cs, u).1 =~= Seq::<PostV>::empty());
        assert forall|j: int| 0 <= j < cs.len() implies spec_process_all(cs, u).0[j] == (
        RouteView::LongPoll {
            path: cs[j]->LongPoll_path,
            queue: cs[j]->LongPoll_queue.push(u),
        }) by {
            if j > 0 {
                assert(spec_process_all(cs, u).0[j] == rest.0[j - 1]);
                assert(cs.drop_first()[j - 1] == cs[j]);
            }
        }
    }
}

/// Broadcast totality for long-poll children: after `n` dispatches
/// every child's queue holds its old contents followed by all `n`
/// updates, in dispatch order.
pub proof fn lemma_broadcast_longpoll_totality(cs: Seq<RouteView>, us: Seq<Seq<char>>)
    requires
        forall|j: int| 0 <= j < cs.len() ==> cs[j] is LongPoll,
    ensures
        ({
            let r = spec_process_seq(RouteView::All { children: cs }, us);
            &&& r.1 == Seq::<PostV>::empty()
            &&& r.0 is All
            &&& r.0->All_children.len() == cs.len()
            &&& forall|j: int|
                0 <= j < cs.len() ==> r.0->All_children[j] == (RouteView::LongPoll {
                    path: cs[j]->LongPoll_path,
                    queue: cs[j]->LongPoll_queue + us,
                })
        }),
    decreases us.len(),
{
    let r = spec_process_seq(RouteView::All { children: cs }, us);
    if us.len() == 0 {
        assert forall|j: int| 0 <= j < cs.len() implies r.0->All_children[j] == (
        RouteView::LongPoll {
            path: cs[j]->LongPoll_path,
            queue: cs[j]->LongPoll_queue + us,
        }) by {
            assert(cs[j]->LongPoll_queue + us =~= cs[j]->LongPoll_queue);
        }
    } else {
        lemma_broadcast_longpoll_one(cs, us[0]);
        let cs1 = spec_process_all(cs, us[0]).0;
        lemma_broadcast_longpoll_totality(cs1, us.drop_first());
        assert forall|j: int| 0 <= j < cs.len() implies r.0->All_children[j] == (
        RouteView::LongPoll {
            path: cs[j]->LongPoll_path,
            queue: cs[j]->LongPoll_queue + us,
        }) by {
            assert(cs1[j]->LongPoll_queue == cs[j]->LongPoll_queue.push(us[0]));
            assert(cs[j]->LongPoll_queue.push(us[0]) + us.drop_first() =~= cs[j]->LongPoll_queue
                + us);
        }
        assert(r.1 =~= Seq::<PostV>::empty());
    }
}

/// The same tree after each child of `cs` is added in turn.
pub open spec fn spec_add_routes(t: RouteView, cs: Seq<RouteView>) -> RouteView
    decreases cs.len(),
{
    if cs.len() == 0 {
        t
    } else {
        spec_add_routes(spec_add_route(t, cs[0]).0, cs.drop_first())
    }
}

/// The child list of an interior node; a leaf has none.
pub open spec fn children_of(t: RouteView) -> Seq<RouteView> {
    match t {
        RouteView::RoundRobin { children, .. } => children,
        RouteView::All { children } => children,
        _ => Seq::empty(),
    }
}

/// Describe shape: after any number of added children, an interior
/// root keeps its strategy and its description lists exactly the
/// initial children followed by the added ones, in add order.
pub proof fn lemma_describe_after_adds(t: RouteView, added: Seq<RouteView>)
    requires
        t is RoundRobin || t is All,
    ensures
        ({
            let t2 = spec_add_routes(t, added);
            &&& (t2 is RoundRobin <==> t is RoundRobin)
            &&& (t2 is All <==> t is All)
            &&& children_of(t2) == children_of(t) + added
            &&& spec_describe(t2) == (if t is RoundRobin {
                "{\"type\":\"load-balancer\",\"name\":\"round-robin\",\"routes\":["@
            } else {
                "{\"type\":\"load-balancer\",\"name\":\"all\",\"routes\":["@
            }) + join_comma(spec_describe_nodes(children_of(t) + added)) + "]}"@
        }),
    decreases added.len(),
{
    if added.len() == 0 {
        assert(children_of(t) + added =~= children_of(t));
    } else {
        let t1 = spec_add_route(t, added[0]).0;
        assert(children_of(t1) == children_of(t).push(added[0]));
        lemma_describe_after_adds(t1, added.drop_first());
        assert(children_of(t).push(added[0]) + added.drop_first() =~= children_of(t) + added);
    }
}

/// Whether some long-poll leaf of the tree sits on `path`.
pub open spec fn has_longpoll(t: RouteView, path: Seq<char>) -> bool
    decreases height(t), 0int,
{
    match t {
        RouteView::Webhook { .. } => false,
        RouteView::LongPoll { path: p, .. } => p == path,
        RouteView::RoundRobin { children, .. } => has_longpoll_nodes(children, path),
        RouteView::All { children } => has_longpoll_nodes(children, path),
    }
}

pub open spec fn has_longpoll_nodes(cs: Seq<RouteView>, path: Seq<char>) -> bool
    decreases heights(cs), 1int,
{
    if cs.len() == 0 {
        false
    } else {
        ({
            proof {
                lemma_heights_bound(cs, 0);
            }
            has_longpoll(cs[0], path)
        }) || ({
            proof {
                lemma_height_positive(cs[0]);
            }
            has_longpoll_nodes(cs.drop_first(), path)
        })
    }
}

/// A consumer turn on `path` is served exactly when the tree has a
/// long-poll leaf on that path.
pub proof fn lemma_poll_at_finds(t: RouteView, path: Seq<char>, now: u64, deadline: u64, limit: usize)
    ensures
        spec_poll_at(t, path, now, deadline, limit).1 is Some <==> has_longpoll(t, path),
    decreases height(t), 0int,
{
    match t {
        RouteView::RoundRobin { children, .. } => {
            lemma_poll_at_nodes_finds(children, path, now, deadline, limit);
        },
        RouteView::All { children } => {
            lemma_poll_at_nodes_finds(children, path, now, deadline, limit);
        },
        _ => {},
    }
}

pub proof fn lemma_poll_at_nodes_finds(
    cs: Seq<RouteView>,
    path: Seq<char>,
    now: u64,
    deadline: u64,
    limit: usize,
)
    ensures
        spec_poll_at_nodes(cs, path, now, deadline, limit).1 is Some <==> has_longpoll_nodes(
            cs,
            path,
        ),
    decreases heights(cs), 1int,
{
    if cs.len() > 0 {
        lemma_heights_bound(cs, 0);
        lemma_height_positive(cs[0]);
        lemma_poll_at_finds(cs[0], path, now, deadline, limit);
        if !(spec_poll_at(cs[0], path, now, deadline, limit).1 is Some) {
            lemma_poll_at_nodes_finds(cs.drop_first(), path, now, deadline, limit);
        }
    }
}

/// A list whose last tree has a long-poll leaf on `path` has one too.
proof fn lemma_has_longpoll_nodes_last(cs: Seq<RouteView>, path: Seq<char>)
    requires
        cs.len() > 0,
        has_longpoll(cs.last(), path),
    ensures
        has_longpoll_nodes(cs, path),
    decreases cs.len(),
{
    if cs.len() > 1 {
        lemma_has_longpoll_nodes_last(cs.drop_first(), path);
    }
}

/// Dynamic routing: adding a long-poll child on a fresh path to an
/// interior root both registers the path and makes a consumer turn on
/// it served by the tree — the fallback handler then reaches it.
pub proof fn lemma_dynamic_routing(
    root: RouteView,
    reg: Seq<Seq<char>>,
    path: Seq<char>,
    now: u64,
    deadline: u64,
    limit: usize,
)
    requires
        root is RoundRobin || root is All,
        !spec_registry_contains(reg, path),
    ensures
        ({
            let c = RouteView::LongPoll { path, queue: Seq::empty() };
            let r = spec_admin_add(root, reg, c);
            &&& spec_registry_contains(r.1, path)
            &&& spec_poll_at(r.0, path, now, deadline, limit).1 is Some
        }),
{
    let c = RouteView::LongPoll { path, queue: Seq::empty() };
    let r = spec_admin_add(root, reg, c);
    assert(r.1 == reg.push(path));
    assert(r.1[reg.len() as int] == path);
    let children2 = children_of(root).push(c);
    assert(r.0 == spec_add_route(root, c).0);
    assert(children_of(r.0) == children2);
    assert(children2.last() == c);
    lemma_has_longpoll_nodes_last(children2, path);
    lemma_poll_at_finds(r.0, path, now, deadline, limit);
}

} // verus!
