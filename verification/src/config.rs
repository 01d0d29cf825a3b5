use vstd::prelude::*;

use crate::route::{
    AllLB, LongPollRoute, RoundRobinLB, RouteNode, RouteView, WebhookRoute, height, heights,
    lemma_height_positive, lemma_heights_bound, nodes_view,
};
use crate::source_webhook;
use crate::source_longpull::LongPollUpdate;
use crate::source_webhook::WebhookUpdate;
use crate::text::{chars_eq_str, chars_of, clone_string, sub_chars};
use crate::tgin::UpdateSource;
use crate::update::updates_view;

verus! {

/// The whole configuration, as the file gives it.
pub struct TginConfig {
    pub dark_threads: usize,
    pub server_port: Option<u16>,
    pub ssl: Option<SslConfig>,
    pub updates: Vec<UpdateConfig>,
    pub route: RouteConfig,
}

/// Where the TLS certificate and key lie.
pub struct SslConfig {
    pub cert: String,
    pub key: String,
}

/// One update source, as the file gives it.
pub enum UpdateConfig {
    LongPollUpdate {
        token: String,
        url: Option<String>,
        default_timeout_sleep: u64,
        error_timeout_sleep: u64,
    },
    WebhookUpdate { path: String, registration: Option<RegistrationWebhookConfig> },
}

/// An upstream auto-registration, as the file gives it.
pub struct RegistrationWebhookConfig {
    pub public_ip: String,
    pub set_webhook_url: Option<String>,
    pub token: String,
}

/// The two balancer strategies a top-level `route` may name directly.
pub enum RouteStrategyConfig {
    RoundRobinLB { routes: Vec<RouteConfig> },
    AllLB { routes: Vec<RouteConfig> },
}

/// One node of the route tree, as the file gives it.
pub enum RouteConfig {
    LongPollRoute { path: String },
    WebhookRoute { url: String },
    RoundRobinLB { routes: Vec<RouteConfig> },
    AllLB { routes: Vec<RouteConfig> },
}

/// The worker-thread count a file that names none gets.
pub fn default_workers() -> (r: usize)
    ensures
        r == 4,
{
    4
}

/// The inter-poll sleep (milliseconds) a source that names none gets.
pub fn default_timeout() -> (r: u64)
    ensures
        r == 100,
{
    100
}

impl RouteStrategyConfig {
    /// The same strategy as a general route node.
    pub fn into_route_config(self) -> (r: RouteConfig)
        ensures
            match self {
                RouteStrategyConfig::RoundRobinLB { routes } => r == (RouteConfig::RoundRobinLB {
                    routes,
                }),
                RouteStrategyConfig::AllLB { routes } => r == (RouteConfig::AllLB { routes }),
            },
    {
        match self {
            RouteStrategyConfig::RoundRobinLB { routes } => RouteConfig::RoundRobinLB { routes },
            RouteStrategyConfig::AllLB { routes } => RouteConfig::AllLB { routes },
        }
    }
}

/// The tree a configuration describes: leaves as given, balancers with
/// their children in order, every long-poll queue empty and every
/// round-robin counter at zero.
pub open spec fn spec_build_route(c: RouteConfig) -> RouteView
    decreases c,
{
    match c {
        RouteConfig::LongPollRoute { path } => RouteView::LongPoll {
            path: path@,
            queue: Seq::empty(),
        },
        RouteConfig::WebhookRoute { url } => RouteView::Webhook { url: url@ },
        RouteConfig::RoundRobinLB { routes } => RouteView::RoundRobin {
            children: spec_build_nodes(routes@),
            current: 0,
        },
        RouteConfig::AllLB { routes } => RouteView::All { children: spec_build_nodes(routes@) },
    }
}

pub open spec fn spec_build_nodes(cs: Seq<RouteConfig>) -> Seq<RouteView>
    decreases cs,
{
    if cs.len() == 0 {
        Seq::empty()
    } else {
        seq![spec_build_route(cs[0])] + spec_build_nodes(cs.drop_first())
    }
}

/// Build the route tree a configuration describes.
pub fn build_route(cfg: RouteConfig) -> (r: RouteNode)
    ensures
        r@ == spec_build_route(cfg),
    decreases height(spec_build_route(cfg)), 0int,
{
    match cfg {
        RouteConfig::LongPollRoute { path } => {
            let lp = LongPollRoute::new(path);
            proof {
                assert(updates_view(lp.updates@) =~= Seq::<Seq<char>>::empty());
            }
            RouteNode::LongPoll(lp)
        },
        RouteConfig::WebhookRoute { url } => RouteNode::Webhook(WebhookRoute::new(url)),
        RouteConfig::RoundRobinLB { routes } => {
            proof {
                lemma_build_heights(routes@);
            }
            let built = build_nodes(routes);
            RouteNode::RoundRobin(RoundRobinLB::new(built))
        },
        RouteConfig::AllLB { routes } => {
            proof {
                lemma_build_heights(routes@);
            }
            let built = build_nodes(routes);
            RouteNode::All(AllLB::new(built))
        },
    }
}

/// The built children of a balancer's heights are the balancer's own
/// measure, less one.
proof fn lemma_build_heights(cs: Seq<RouteConfig>)
    ensures
        heights(spec_build_nodes(cs)) < height(RouteView::RoundRobin {
            children: spec_build_nodes(cs),
            current: 0,
        }),
        heights(spec_build_nodes(cs)) < height(RouteView::All { children: spec_build_nodes(cs) }),
{
}

/// Build the children of a balancer, in order.
pub fn build_nodes(cfgs: Vec<RouteConfig>) -> (r: Vec<RouteNode>)
    ensures
        nodes_view(r@) == spec_build_nodes(cfgs@),
    decreases heights(spec_build_nodes(cfgs@)), 1int,
{
    let ghost cs = cfgs@;
    let mut cfgs = cfgs;
    if cfgs.len() == 0 {
        let r: Vec<RouteNode> = Vec::new();
        proof {
            assert(nodes_view(r@) =~= spec_build_nodes(cs));
        }
        r
    } else {
        proof {
            lemma_heights_bound(spec_build_nodes(cs), 0);
            lemma_height_positive(spec_build_route(cs[0]));
            assert(spec_build_nodes(cs)[0] == spec_build_route(cs[0]));
        }
        let head_cfg = cfgs.remove(0);
        let head = build_route(head_cfg);
        proof {
            assert(cfgs@ =~= cs.drop_first());
            lemma_build_nodes_elementwise(cs);
            lemma_build_nodes_elementwise(cs.drop_first());
            let full = spec_build_nodes(cs);
            assert(full.drop_first() =~= spec_build_nodes(cs.drop_first()));
            assert(heights(full) == height(full[0]) + heights(full.drop_first()));
        }
        let mut rest = build_nodes(cfgs);
        let ghost restv = rest@;
        let mut out: Vec<RouteNode> = Vec::new();
        out.push(head);
        out.append(&mut rest);
        proof {
            assert(out@ =~= seq![head] + restv);
            crate::route::lemma_nodes_view(out@);
            crate::route::lemma_nodes_view(restv);
            assert forall|j: int| 0 <= j < out@.len() implies crate::route::node_view(out@[j])
                == spec_build_nodes(cs)[j] by {
                if j > 0 {
                    assert(out@[j] == restv[j - 1]);
                }
            }
            assert(nodes_view(out@) =~= spec_build_nodes(cs));
        }
        out
    }
}

/// `spec_build_nodes` element by element.
pub proof fn lemma_build_nodes_elementwise(cs: Seq<RouteConfig>)
    ensures
        spec_build_nodes(cs).len() == cs.len(),
        forall|i: int| 0 <= i < cs.len() ==> spec_build_nodes(cs)[i] == spec_build_route(cs[i]),
    decreases cs.len(),
{
    if cs.len() > 0 {
        lemma_build_nodes_elementwise(cs.drop_first());
    }
}

/// Whether `s` is the source that the configuration `c` asks for.
pub open spec fn spec_update_matches(c: UpdateConfig, s: UpdateSource) -> bool {
    match c {
        UpdateConfig::LongPollUpdate { token, url, default_timeout_sleep, error_timeout_sleep } => {
            match s {
                UpdateSource::LongPoll(lp) => {
                    &&& lp.offset == 0
                    &&& lp.default_timeout_sleep == default_timeout_sleep
                    &&& lp.error_timeout_sleep == error_timeout_sleep
                    &&& match url {
                        Some(u) => lp.url@ == u@,
                        None => lp.url@ == "https://api.telegram.org/bot"@ + token@
                            + "/getUpdates"@,
                    }
                },
                _ => false,
            }
        },
        UpdateConfig::WebhookUpdate { path, registration } => {
            match s {
                UpdateSource::Webhook(w) => {
                    &&& w.path@ == path@
                    &&& match (registration, w.registration) {
                        (Some(reg), Some(wr)) => {
                            &&& wr.public_ip@ == reg.public_ip@
                            &&& match reg.set_webhook_url {
                                Some(u) => wr.set_webhook_url@ == u@,
                                None => wr.set_webhook_url@ == "https://api.telegram.org/bot"@
                                    + reg.token@ + "/setWebhook"@,
                            }
                        },
                        (None, None) => true,
                        _ => false,
                    }
                },
                _ => false,
            }
        },
    }
}

/// Build every configured update source, in order.
pub fn build_updates(configs: Vec<UpdateConfig>) -> (r: Vec<UpdateSource>)
    ensures
        r@.len() == configs@.len(),
        forall|i: int| 0 <= i < configs@.len() ==> spec_update_matches(configs@[i], r@[i]),
{
    let ghost orig = configs@;
    let mut configs = configs;
    let mut out: Vec<UpdateSource> = Vec::new();
    while configs.len() > 0
        invariant
            out@.len() + configs@.len() == orig.len(),
            configs@ == orig.skip(out@.len() as int),
            forall|i: int| 0 <= i < out@.len() ==> spec_update_matches(orig[i], out@[i]),
        decreases configs@.len(),
    {
        let ghost done = out@.len();
        let cfg = configs.remove(0);
        proof {
            assert(cfg == orig[done as int]);
            assert(configs@ =~= orig.skip(done as int + 1));
        }
        match cfg {
            UpdateConfig::LongPollUpdate {
                token,
                url,
                default_timeout_sleep,
                error_timeout_sleep,
            } => {
                let mut up = LongPollUpdate::new(token);
                if let Some(u) = url {
                    up.set_url(u);
                }
                up.set_timeouts(default_timeout_sleep, error_timeout_sleep);
                out.push(UpdateSource::LongPoll(up));
            },
            UpdateConfig::WebhookUpdate { path, registration } => {
                let mut up = WebhookUpdate::new(path);
                if let Some(reg) = registration {
                    let mut built = source_webhook::RegistrationWebhookConfig::new(
                        reg.token,
                        reg.public_ip,
                    );
                    if let Some(u) = reg.set_webhook_url {
                        built.set_webhook_url(u);
                    }
                    up.set_registration(built);
                }
                out.push(UpdateSource::Webhook(up));
            },
        }
    }
    out
}

/// The characters a variable name may hold between `${` and `}`.
pub open spec fn is_word_char(c: char) -> bool {
    ('a' <= c && c <= 'z') || ('A' <= c && c <= 'Z') || ('0' <= c && c <= '9') || c == '_'
}

/// The first position at or after `i` that is not a word character.
pub open spec fn word_end(s: Seq<char>, i: int) -> int
    decreases s.len() - i,
{
    if i < 0 || i >= s.len() {
        i
    } else if is_word_char(s[i]) {
        word_end(s, i + 1)
    } else {
        i
    }
}

pub proof fn lemma_word_end(s: Seq<char>, i: int)
    requires
        0 <= i <= s.len(),
    ensures
        i <= word_end(s, i) <= s.len(),
    decreases s.len() - i,
{
    if i < s.len() && is_word_char(s[i]) {
        lemma_word_end(s, i + 1);
    }
}

/// The first binding of `name`, if the environment has one.
pub open spec fn env_lookup(env: Seq<(Seq<char>, Seq<char>)>, name: Seq<char>) -> Option<Seq<char>>
    decreases env.len(),
{
    if env.len() == 0 {
        None
    } else if env[0].0 == name {
        Some(env[0].1)
    } else {
        env_lookup(env.drop_first(), name)
    }
}

/// The views of an environment snapshot.
pub open spec fn env_view(env: Seq<(String, String)>) -> Seq<(Seq<char>, Seq<char>)> {
    env.map_values(|p: (String, String)| (p.0@, p.1@))
}

/// The text from position `i` on with every `${NAME}` replaced by the
/// environment's value of NAME — a name being one or more word
/// characters — or the first name the environment lacks. Text that only
/// looks like a reference (`${`, no closing brace, an empty or
/// malformed name) is kept as it stands.
pub open spec fn spec_subst(s: Seq<char>, env: Seq<(Seq<char>, Seq<char>)>, i: int) -> Result<
    Seq<char>,
    Seq<char>,
>
    decreases s.len() - i,
{
    if i < 0 || i >= s.len() {
        Ok(Seq::empty())
    } else if s[i] == '$' && i + 1 < s.len() && s[i + 1] == '{' && ({
        let e = word_end(s, i + 2);
        e > i + 2 && e < s.len() && s[e] == '}'
    }) {
        let e = ({
            proof {
                lemma_word_end(s, i + 2);
            }
            word_end(s, i + 2)
        });
        let name = s.subrange(i + 2, e);
        match env_lookup(env, name) {
            Some(v) => match spec_subst(s, env, e + 1) {
                Ok(rest) => Ok(v + rest),
                Err(x) => Err(x),
            },
            None => Err(name),
        }
    } else {
        match spec_subst(s, env, i + 1) {
            Ok(rest) => Ok(seq![s[i]] + rest),
            Err(x) => Err(x),
        }
    }
}

fn exec_is_word_char(c: char) -> (r: bool)
    ensures
        r == is_word_char(c),
{
    ('a' <= c && c <= 'z') || ('A' <= c && c <= 'Z') || ('0' <= c && c <= '9') || c == '_'
}

/// The end of the word run starting at `from`.
fn exec_word_end(chars: &Vec<char>, from: usize) -> (r: usize)
    requires
        from <= chars@.len(),
    ensures
        r as int == word_end(chars@, from as int),
        from <= r <= chars@.len(),
{
    let mut e: usize = from;
    while e < chars.len() && exec_is_word_char(chars[e])
        invariant
            from <= e <= chars@.len(),
            word_end(chars@, from as int) == word_end(chars@, e as int),
        decreases chars@.len() - e,
    {
        e += 1;
    }
    e
}

/// The value bound to `name`, spelled as `env_lookup` says.
fn lookup_var(env: &Vec<(String, String)>, name: &Vec<char>) -> (r: Option<String>)
    ensures
        match r {
            Some(v) => env_lookup(env_view(env@), name@) == Some(v@),
            None => env_lookup(env_view(env@), name@) is None,
        },
{
    let ghost ev = env_view(env@);
    let mut j: usize = 0;
    proof {
        assert(ev.skip(0) =~= ev);
    }
    while j < env.len()
        invariant
            j <= env@.len(),
            ev == env_view(env@),
            ev.len() == env@.len(),
            env_lookup(ev, name@) == env_lookup(ev.skip(j as int), name@),
        decreases env@.len() - j,
    {
        let (key, value) = &env[j];
        if chars_eq_str(name, key.as_str()) {
            proof {
                assert(ev.skip(j as int)[0] == (key@, value@));
            }
            return Some(clone_string(value));
        }
        j += 1;
        proof {
            assert(ev.skip(j as int - 1)[0] == (key@, value@));
            assert(ev.skip(j as int - 1).drop_first() =~= ev.skip(j as int));
        }
    }
    proof {
        assert(ev.skip(j as int) =~= Seq::<(Seq<char>, Seq<char>)>::empty());
    }
    None
}

/// Replace every `${NAME}` in `input` by the environment's value of
/// NAME, as `spec_subst` says; the first name the environment lacks is
/// the error.
pub fn substitute_env_vars(input: &str, env: &Vec<(String, String)>) -> (r: Result<String, String>)
    ensures
        match r {
            Ok(out) => spec_subst(input@, env_view(env@), 0) == Ok::<Seq<char>, Seq<char>>(out@),
            Err(name) => spec_subst(input@, env_view(env@), 0) == Err::<Seq<char>, Seq<char>>(
                name@,
            ),
        },
{
    let ghost s = input@;
    let ghost ev = env_view(env@);
    let chars = chars_of(input);
    let len = input.unicode_len();
    let mut out = String::new();
    let mut i: usize = 0;
    proof {
        if spec_subst(s, ev, 0) is Ok {
            assert(out@ + spec_subst(s, ev, 0)->Ok_0 =~= spec_subst(s, ev, 0)->Ok_0);
        }
    }
    while i < len
        invariant
            i <= len,
            len == s.len(),
            s == input@,
            chars@ == s,
            ev == env_view(env@),
            match spec_subst(s, ev, i as int) {
                Ok(rest) => spec_subst(s, ev, 0) == Ok::<Seq<char>, Seq<char>>(out@ + rest),
                Err(x) => spec_subst(s, ev, 0) == Err::<Seq<char>, Seq<char>>(x),
            },
        decreases len - i,
    {
        let ghost out0 = out@;
        let ghost i0 = i as int;
        let c = chars[i];
        let mut plain = true;
        if c == '$' && i + 1 < len && chars[i + 1] == '{' {
            let e = exec_word_end(&chars, i + 2);
            if e < len && chars[e] == '}' && e > i + 2 {
                plain = false;
                let name = sub_chars(&chars, i + 2, e);
                match lookup_var(env, &name) {
                    Some(v) => {
                        out.append(v.as_str());
                        i = e + 1;
                        proof {
                            if spec_subst(s, ev, i as int) is Ok {
                                let rest = spec_subst(s, ev, i as int)->Ok_0;
                                assert(spec_subst(s, ev, i0) == Ok::<Seq<char>, Seq<char>>(
                                    v@ + rest,
                                ));
                                assert(out@ + rest =~= out0 + (v@ + rest));
                            }
                        }
                    },
                    None => {
                        let missing = String::from_str(input.substring_char(i + 2, e));
                        proof {
                            assert(missing@ == s.subrange(i0 + 2, e as int));
                            assert(spec_subst(s, ev, i0) == Err::<Seq<char>, Seq<char>>(missing@));
                        }
                        return Err(missing);
                    },
                }
            }
        }
        if plain {
            out.append(input.substring_char(i, i + 1));
            i += 1;
            proof {
                assert(s.subrange(i0, i0 + 1) =~= seq![s[i0]]);
                if spec_subst(s, ev, i as int) is Ok {
                    let rest = spec_subst(s, ev, i as int)->Ok_0;
                    assert(spec_subst(s, ev, i0) == Ok::<Seq<char>, Seq<char>>(seq![s[i0]] + rest));
                    assert(out@ + rest =~= out0 + (seq![s[i0]] + rest));
                }
            }
        }
    }
    proof {
        assert(spec_subst(s, ev, i as int) == Ok::<Seq<char>, Seq<char>>(Seq::<char>::empty()));
        assert(out@ + Seq::<char>::empty() =~= out@);
    }
    Ok(out)
}

} // verus!
