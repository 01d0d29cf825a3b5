use vstd::prelude::*;

use crate::describe::spec_describe;
use crate::longpull::{PollOutcome, opt_poll_view, spec_poll_at};
use crate::route::{AllLB, RouteNode, RouteView, spec_add_route, spec_process, strings_view};
use crate::source_longpull::LongPollUpdate;
use crate::source_webhook::WebhookUpdate;
use crate::text::{clone_string, str_eq};
use crate::update::{Post, Update, posts_view};

verus! {

/// The admin API's mount point.
pub struct Api {
    pub base_path: String,
}

impl Api {
    pub fn new(base_path: String) -> (r: Api)
        ensures
            r.base_path@ == base_path@,
    {
        Api { base_path }
    }
}

/// A control message from the admin API to the dispatch loop.
pub enum ApiMessage {
    AddRoute { route: RouteNode, sublevel: i8 },
    GetRoutes,
}

/// One ingester feeding the update channel.
pub enum UpdateSource {
    LongPoll(LongPollUpdate),
    Webhook(WebhookUpdate),
}

/// The paths of long-poll routes added at runtime, in add order. The
/// fallback HTTP handler serves exactly these after server start.
pub struct Registry {
    pub paths: Vec<String>,
}

/// Whether `p` is one of the registered paths.
pub open spec fn spec_registry_contains(ps: Seq<Seq<char>>, p: Seq<char>) -> bool {
    exists|i: int| 0 <= i < ps.len() && ps[i] == p
}

impl Registry {
    pub fn new() -> (r: Registry)
        ensures
            r.paths@.len() == 0,
    {
        Registry { paths: Vec::new() }
    }

    pub fn contains(&self, p: &String) -> (r: bool)
        ensures
            r == spec_registry_contains(strings_view(self.paths@), p@),
    {
        let mut i: usize = 0;
        while i < self.paths.len()
            invariant
                i <= self.paths@.len(),
                forall|j: int| 0 <= j < i ==> strings_view(self.paths@)[j] != p@,
            decreases self.paths@.len() - i,
        {
            if str_eq(self.paths[i].as_str(), p.as_str()) {
                proof {
                    assert(strings_view(self.paths@)[i as int] == p@);
                }
                return true;
            }
            i += 1;
        }
        false
    }

    /// Register a path; refused when it is already present.
    pub fn register(&mut self, p: String) -> (r: Result<(), ()>)
        ensures
            match r {
                Ok(_) => !spec_registry_contains(strings_view(old(self).paths@), p@)
                    && strings_view(final(self).paths@) == strings_view(old(self).paths@).push(p@),
                Err(_) => spec_registry_contains(strings_view(old(self).paths@), p@)
                    && *final(self) == *old(self),
            },
    {
        if self.contains(&p) {
            Err(())
        } else {
            let ghost before = strings_view(self.paths@);
            self.paths.push(p);
            proof {
                assert(strings_view(self.paths@) =~= before.push(self.paths@.last()@));
            }
            Ok(())
        }
    }
}

/// The dispatch engine: the update sources, the root of the route
/// tree, the server settings, and the registry of runtime-added
/// long-poll paths.
pub struct Tgin {
    pub updates: Vec<UpdateSource>,
    pub route: RouteNode,
    pub dark_threads: usize,
    pub server_port: Option<u16>,
    pub ssl_cert: Option<String>,
    pub ssl_key: Option<String>,
    pub api: Option<Api>,
    pub registry: Registry,
}

/// What one admin `AddRoute` does to the root and the registry: a
/// long-poll child is appended and registered together, and neither
/// happens when the root is a leaf or the path is already registered;
/// any other child is appended when the root is interior. Failures are
/// dropped silently.
pub open spec fn spec_admin_add(root: RouteView, reg: Seq<Seq<char>>, c: RouteView) -> (
    RouteView,
    Seq<Seq<char>>,
) {
    match c {
        RouteView::LongPoll { path, .. } => {
            if !spec_add_route(root, c).1 {
                (root, reg)
            } else if spec_registry_contains(reg, path) {
                (root, reg)
            } else {
                (spec_add_route(root, c).0, reg.push(path))
            }
        },
        _ => (spec_add_route(root, c).0, reg),
    }
}

impl Tgin {
    pub fn new(
        updates: Vec<UpdateSource>,
        route: RouteNode,
        dark_threads: usize,
        server_port: Option<u16>,
    ) -> (r: Tgin)
        ensures
            r.updates == updates,
            r.route == route,
            r.dark_threads == dark_threads,
            r.server_port == server_port,
            r.ssl_cert is None,
            r.ssl_key is None,
            r.api is None,
            r.registry.paths@.len() == 0,
    {
        Tgin {
            updates,
            route,
            dark_threads,
            server_port,
            ssl_cert: None,
            ssl_key: None,
            api: None,
            registry: Registry::new(),
        }
    }

    pub fn set_api(&mut self, api: Api)
        ensures
            *final(self) == (Tgin { api: Some(api), ..*old(self) }),
    {
        self.api = Some(api);
    }

    pub fn set_ssl(&mut self, ssl_cert: String, ssl_key: String)
        ensures
            *final(self) == (Tgin { ssl_cert: Some(ssl_cert), ssl_key: Some(ssl_key), ..*old(self) }),
    {
        self.ssl_cert = Some(ssl_cert);
        self.ssl_key = Some(ssl_key);
    }

    /// Dispatch one update through the root, as `spec_process` says,
    /// returning the posts owed to webhook leaves.
    pub fn dispatch_update(&mut self, u: &Update) -> (ps: Vec<Post>)
        ensures
            final(self).route@ == spec_process(old(self).route@, u@).0,
            posts_view(ps@) == spec_process(old(self).route@, u@).1,
            final(self).updates == old(self).updates,
            final(self).registry == old(self).registry,
            final(self).server_port == old(self).server_port,
            final(self).dark_threads == old(self).dark_threads,
            final(self).ssl_cert == old(self).ssl_cert,
            final(self).ssl_key == old(self).ssl_key,
            final(self).api == old(self).api,
    {
        let mut root = RouteNode::All(AllLB { routes: Vec::new() });
        core::mem::swap(&mut root, &mut self.route);
        let (root2, ps) = root.process(u);
        self.route = root2;
        ps
    }

    /// The JSON description of the live tree.
    pub fn routes_json(&self) -> (r: String)
        ensures
            r@ == spec_describe(self.route@),
    {
        self.route.describe()
    }

    /// Service one control message: `GetRoutes` answers the tree's
    /// description and changes nothing; `AddRoute` changes root and
    /// registry as `spec_admin_add` says and answers nothing.
    pub fn handle_control(&mut self, msg: ApiMessage) -> (r: Option<String>)
        ensures
            final(self).updates == old(self).updates,
            final(self).server_port == old(self).server_port,
            final(self).dark_threads == old(self).dark_threads,
            final(self).ssl_cert == old(self).ssl_cert,
            final(self).ssl_key == old(self).ssl_key,
            final(self).api == old(self).api,
            match msg {
                ApiMessage::GetRoutes => final(self).route == old(self).route
                    && final(self).registry == old(self).registry && r is Some
                    && r->Some_0@ == spec_describe(old(self).route@),
                ApiMessage::AddRoute { route, .. } => r is None && final(self).route@
                    == spec_admin_add(
                    old(self).route@,
                    strings_view(old(self).registry.paths@),
                    route@,
                ).0 && strings_view(final(self).registry.paths@) == spec_admin_add(
                    old(self).route@,
                    strings_view(old(self).registry.paths@),
                    route@,
                ).1,
            },
    {
        match msg {
            ApiMessage::GetRoutes => Some(self.routes_json()),
            ApiMessage::AddRoute { route, sublevel: _ } => {
                let root_is_interior = match &self.route {
                    RouteNode::RoundRobin(_) => true,
                    RouteNode::All(_) => true,
                    _ => false,
                };
                if let RouteNode::LongPoll(l) = &route {
                    if !root_is_interior {
                        return None;
                    }
                    if self.registry.contains(&l.path) {
                        return None;
                    }
                    let path_copy = clone_string(&l.path);
                    let _ = self.registry.register(path_copy);
                } else {
                    if !root_is_interior {
                        return None;
                    }
                }
                let mut root = RouteNode::All(AllLB { routes: Vec::new() });
                core::mem::swap(&mut root, &mut self.route);
                let (root2, _) = root.add_route(route);
                self.route = root2;
                None
            },
        }
    }

    /// Serve one consumer turn on the long-poll leaf mounted at `path`.
    pub fn poll_path(&mut self, path: &String, now_ms: u64, deadline_ms: u64, limit: usize) -> (r:
        Option<PollOutcome>)
        ensures
            final(self).route@ == spec_poll_at(old(self).route@, path@, now_ms, deadline_ms, limit).0,
            opt_poll_view(r) == spec_poll_at(old(self).route@, path@, now_ms, deadline_ms, limit).1,
            final(self).updates == old(self).updates,
            final(self).registry == old(self).registry,
            final(self).server_port == old(self).server_port,
            final(self).dark_threads == old(self).dark_threads,
            final(self).ssl_cert == old(self).ssl_cert,
            final(self).ssl_key == old(self).ssl_key,
            final(self).api == old(self).api,
    {
        let mut root = RouteNode::All(AllLB { routes: Vec::new() });
        core::mem::swap(&mut root, &mut self.route);
        let (root2, r) = root.poll_at(path, now_ms, deadline_ms, limit);
        self.route = root2;
        r
    }

    /// The fallback HTTP handler: serve `path` only when the registry
    /// knows it; anything else is not found and nothing changes.
    pub fn fallback_poll(&mut self, path: &String, now_ms: u64, deadline_ms: u64, limit: usize) -> (
        r: Option<PollOutcome>)
        ensures
            final(self).updates == old(self).updates,
            final(self).registry == old(self).registry,
            final(self).server_port == old(self).server_port,
            final(self).dark_threads == old(self).dark_threads,
            final(self).ssl_cert == old(self).ssl_cert,
            final(self).ssl_key == old(self).ssl_key,
            final(self).api == old(self).api,
            if spec_registry_contains(strings_view(old(self).registry.paths@), path@) {
                final(self).route@ == spec_poll_at(
                    old(self).route@,
                    path@,
                    now_ms,
                    deadline_ms,
                    limit,
                ).0 && opt_poll_view(r) == spec_poll_at(
                    old(self).route@,
                    path@,
                    now_ms,
                    deadline_ms,
                    limit,
                ).1
            } else {
                final(self).route == old(self).route && r is None
            },
    {
        if self.registry.contains(path) {
            self.poll_path(path, now_ms, deadline_ms, limit)
        } else {
            None
        }
    }
}

} // verus!
