use vstd::prelude::*;

use crate::text::{clone_string, json_escape};

verus! {

/// `s` with every trailing slash removed.
pub open spec fn trim_trailing_slashes(s: Seq<char>) -> Seq<char>
    decreases s.len(),
{
    if s.len() > 0 && s.last() == '/' {
        trim_trailing_slashes(s.drop_last())
    } else {
        s
    }
}

/// How to register this process with the upstream bot API: the address
/// it should be told to call back, and where to say so.
pub struct RegistrationWebhookConfig {
    pub public_ip: String,
    pub set_webhook_url: String,
}

impl RegistrationWebhookConfig {
    /// A registration against the upstream API for the given token.
    pub fn new(token: String, public_ip: String) -> (r: RegistrationWebhookConfig)
        ensures
            r.public_ip@ == public_ip@,
            r.set_webhook_url@ == "https://api.telegram.org/bot"@ + token@ + "/setWebhook"@,
    {
        let mut set_webhook_url = String::from_str("https://api.telegram.org/bot");
        set_webhook_url.append(token.as_str());
        set_webhook_url.append("/setWebhook");
        RegistrationWebhookConfig { public_ip, set_webhook_url }
    }

    pub fn set_webhook_url(&mut self, set_webhook_url: String)
        ensures
            final(self).public_ip@ == old(self).public_ip@,
            final(self).set_webhook_url@ == set_webhook_url@,
    {
        self.set_webhook_url = set_webhook_url;
    }
}

/// Accept updates pushed by the upstream server on an HTTP endpoint.
pub struct WebhookUpdate {
    pub path: String,
    pub registration: Option<RegistrationWebhookConfig>,
}

/// The JSON body of the registration call: the public address joined
/// to the endpoint path, any trailing slashes on the address stripped.
pub open spec fn spec_registration_body(public_ip: Seq<char>, path: Seq<char>) -> Seq<char> {
    "{\"url\":\""@ + json_escape(trim_trailing_slashes(public_ip) + path) + "\"}"@
}

impl WebhookUpdate {
    pub fn new(path: String) -> (r: WebhookUpdate)
        ensures
            r.path@ == path@,
            r.registration is None,
    {
        WebhookUpdate { path, registration: None }
    }

    pub fn set_registration(&mut self, registration: RegistrationWebhookConfig)
        ensures
            final(self).path@ == old(self).path@,
            final(self).registration == Some(registration),
    {
        self.registration = Some(registration);
    }

    /// What starting this source owes the upstream: one POST telling it
    /// where to push, when a registration is configured; nothing
    /// otherwise. The caller sends it fire-and-forget.
    pub fn registration_request(&self) -> (r: Option<(String, String)>)
        ensures
            match self.registration {
                Some(reg) => r is Some && r->Some_0.0@ == reg.set_webhook_url@ && r->Some_0.1@
                    == spec_registration_body(reg.public_ip@, self.path@),
                None => r is None,
            },
    {
        match &self.registration {
            None => None,
            Some(reg) => {
                let trimmed = trim_slashes(&reg.public_ip);
                let mut joined = trimmed;
                joined.append(self.path.as_str());
                let mut body = String::from_str("{\"url\":\"");
                crate::text::append_json_escaped(&mut body, joined.as_str());
                body.append("\"}");
                Some((clone_string(&reg.set_webhook_url), body))
            },
        }
    }
}

/// A copy of `s` without its trailing slashes.
fn trim_slashes(s: &String) -> (r: String)
    ensures
        r@ == trim_trailing_slashes(s@),
{
    let st = s.as_str();
    let len = st.unicode_len();
    let mut end: usize = len;
    proof {
        assert(st@.take(len as int) =~= st@);
    }
    while end > 0 && st.get_char(end - 1) == '/'
        invariant
            end <= len,
            len == st@.len(),
            trim_trailing_slashes(st@) == trim_trailing_slashes(st@.take(end as int)),
        decreases end,
    {
        end -= 1;
        proof {
            assert(st@.take(end as int + 1).drop_last() =~= st@.take(end as int));
        }
    }
    let r = String::from_str(st.substring_char(0, end));
    proof {
        if end > 0 {
            assert(st@.take(end as int).last() == st@[end as int - 1]);
        }
        assert(st@.subrange(0, end as int) =~= st@.take(end as int));
    }
    r
}

} // verus!
