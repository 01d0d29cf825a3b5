use vstd::prelude::*;

use crate::route::{LongPollRoute, RouteNode, RouteView, WebhookRoute};

verus! {

/// The body of an admin request adding a webhook leaf.
pub struct AddWebhookRoute {
    pub url: String,
}

/// The body of an admin request adding a long-poll leaf.
pub struct AddLongpullRoute {
    pub path: String,
}

/// Which kind of leaf an admin request adds.
pub enum RouteType {
    Webhook(AddWebhookRoute),
    Longpull(AddLongpullRoute),
}

/// One admin request to add a route. `sublevel` is accepted for
/// forward compatibility; the child is placed on the root.
pub struct AddRoute {
    pub typee: RouteType,
    pub sublevel: i8,
}

/// The depth an admin request addresses when it names none: the root.
pub fn default_sublevel() -> (r: i8)
    ensures
        r == 0,
{
    0
}

/// The leaf a request describes: a webhook leaf with the given URL, or
/// an empty long-poll leaf on the given path.
pub open spec fn spec_route_of_add(data: AddRoute) -> RouteView {
    match data.typee {
        RouteType::Webhook(w) => RouteView::Webhook { url: w.url@ },
        RouteType::Longpull(l) => RouteView::LongPoll { path: l.path@, queue: Seq::empty() },
    }
}

/// Build the leaf an admin request asks for.
pub fn route_of_add(data: AddRoute) -> (r: RouteNode)
    ensures
        r@ == spec_route_of_add(data),
{
    match data.typee {
        RouteType::Webhook(w) => RouteNode::Webhook(WebhookRoute::new(w.url)),
        RouteType::Longpull(l) => {
            let lp = LongPollRoute::new(l.path);
            proof {
                assert(crate::update::updates_view(lp.updates@) =~= Seq::<Seq<char>>::empty());
            }
            RouteNode::LongPoll(lp)
        },
    }
}

} // verus!
