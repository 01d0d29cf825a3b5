use vstd::prelude::*;

use crate::text::{clone_string, i64_to_string};
use crate::update::{Update, updates_view};

verus! {

/// What an upstream `getUpdates` response body parses to: `None` when
/// the text is not JSON; otherwise, for each element of its `result`
/// array (an absent or non-array `result` giving no elements), the
/// element's integer `update_id` if it has one, and the element's own
/// JSON text.
pub uninterp spec fn parsed_batch(body: Seq<char>) -> Option<Seq<(Option<i64>, Seq<char>)>>;

/// The id-and-text views of a parsed batch.
pub open spec fn batch_view(b: Seq<(Option<i64>, Update)>) -> Seq<(Option<i64>, Seq<char>)> {
    b.map_values(|p: (Option<i64>, Update)| (p.0, p.1@))
}

/// Relies on serde_json::from_str, Value::get, Value::as_array,
/// Value::as_i64 and Value's Display impl: what a fixed text parses to
/// depends on that text alone, and is here named `parsed_batch`.
#[verifier::external_body]
fn parse_updates_body(body: &str) -> (r: Option<Vec<(Option<i64>, Update)>>)
    ensures
        match r {
            Some(v) => parsed_batch(body@) == Some(batch_view(v@)),
            None => parsed_batch(body@) is None,
        },
{
    match serde_json::from_str::<serde_json::Value>(body) {
        Err(_) => None,
        Ok(val) => {
            let mut out: Vec<(Option<i64>, Update)> = Vec::new();
            if let Some(arr) = val.get("result").and_then(serde_json::Value::as_array) {
                for u in arr {
                    let id = u.get("update_id").and_then(serde_json::Value::as_i64);
                    out.push((id, Update { body: u.to_string() }));
                }
            }
            Some(out)
        },
    }
}

/// Pull updates from the upstream bot API: the URL polled, the next
/// offset to acknowledge, and the two inter-poll sleeps (milliseconds).
pub struct LongPollUpdate {
    pub url: String,
    pub offset: i64,
    pub default_timeout_sleep: u64,
    pub error_timeout_sleep: u64,
}

/// What one poll cycle observed: the response body, or a transport
/// failure before any body arrived.
pub enum SourceEvent {
    Response(String),
    TransportError,
}

/// What the cycle owes: updates to publish downstream, in order, and
/// the sleep (milliseconds) before the next poll.
pub struct SourceStep {
    pub publish: Vec<Update>,
    pub sleep_ms: u64,
}

/// The next offset after acknowledging `id`, clamped at the end of the
/// integer range.
pub open spec fn next_offset(id: i64) -> i64 {
    if id == i64::MAX {
        id
    } else {
        (id + 1) as i64
    }
}

/// What a parsed batch does to the source: each element with an id
/// advances the offset past it, and exactly the elements with an id
/// are published, in order.
pub open spec fn spec_apply_batch(offset: i64, b: Seq<(Option<i64>, Seq<char>)>) -> (
    i64,
    Seq<Seq<char>>,
)
    decreases b.len(),
{
    if b.len() == 0 {
        (offset, Seq::empty())
    } else {
        let r = spec_apply_batch(offset, b.drop_last());
        match b.last().0 {
            Some(id) => (next_offset(id), r.1.push(b.last().1)),
            None => (r.0, r.1),
        }
    }
}

impl LongPollUpdate {
    /// A source polling the upstream bot API for the given token.
    pub fn new(token: String) -> (r: LongPollUpdate)
        ensures
            r.url@ == "https://api.telegram.org/bot"@ + token@ + "/getUpdates"@,
            r.offset == 0,
            r.default_timeout_sleep == 100,
            r.error_timeout_sleep == 200,
    {
        let mut url = String::from_str("https://api.telegram.org/bot");
        url.append(token.as_str());
        url.append("/getUpdates");
        LongPollUpdate { url, offset: 0, default_timeout_sleep: 100, error_timeout_sleep: 200 }
    }

    pub fn set_url(&mut self, url: String)
        ensures
            final(self).url@ == url@,
            final(self).offset == old(self).offset,
            final(self).default_timeout_sleep == old(self).default_timeout_sleep,
            final(self).error_timeout_sleep == old(self).error_timeout_sleep,
    {
        self.url = url;
    }

    pub fn set_timeouts(&mut self, default_timeout_sleep: u64, error_timeout_sleep: u64)
        ensures
            final(self).url@ == old(self).url@,
            final(self).offset == old(self).offset,
            final(self).default_timeout_sleep == default_timeout_sleep,
            final(self).error_timeout_sleep == error_timeout_sleep,
    {
        self.default_timeout_sleep = default_timeout_sleep;
        self.error_timeout_sleep = error_timeout_sleep;
    }

    /// The URL of the next poll: the upstream URL with the current
    /// offset and the fixed long-poll window.
    pub fn poll_request_url(&self) -> (r: String)
        ensures
            r@ == self.url@ + "?offset="@ + crate::text::spec_dec_int(self.offset as int)
                + "&timeout=30&limit=100"@,
    {
        let mut r = clone_string(&self.url);
        r.append("?offset=");
        r.append(i64_to_string(self.offset).as_str());
        r.append("&timeout=30&limit=100");
        r
    }

    /// Acknowledge one parsed batch, as `spec_apply_batch` says:
    /// advances the offset past each element carrying an id and
    /// returns the elements to publish, in upstream order.
    pub fn apply_batch(&mut self, batch: &Vec<(Option<i64>, Update)>) -> (out: Vec<Update>)
        ensures
            final(self).url@ == old(self).url@,
            final(self).default_timeout_sleep == old(self).default_timeout_sleep,
            final(self).error_timeout_sleep == old(self).error_timeout_sleep,
            final(self).offset == spec_apply_batch(old(self).offset, batch_view(batch@)).0,
            updates_view(out@) == spec_apply_batch(old(self).offset, batch_view(batch@)).1,
    {
        let ghost bv = batch_view(batch@);
        let ghost offset0 = self.offset;
        let mut out: Vec<Update> = Vec::new();
        let mut i: usize = 0;
        while i < batch.len()
            invariant
                i <= batch@.len(),
                bv == batch_view(batch@),
                bv.len() == batch@.len(),
                self.url@ == old(self).url@,
                self.default_timeout_sleep == old(self).default_timeout_sleep,
                self.error_timeout_sleep == old(self).error_timeout_sleep,
                self.offset == spec_apply_batch(offset0, bv.take(i as int)).0,
                updates_view(out@) == spec_apply_batch(offset0, bv.take(i as int)).1,
            decreases batch@.len() - i,
        {
            let (id, u) = &batch[i];
            if let Some(id) = id {
                self.offset = if *id == i64::MAX {
                    *id
                } else {
                    *id + 1
                };
                out.push(u.duplicate());
            }
            i += 1;
            proof {
                let t = bv.take(i as int);
                assert(t.drop_last() =~= bv.take(i as int - 1));
                assert(t.last() == bv[i as int - 1]);
                if bv[i as int - 1].0 is Some {
                    assert(updates_view(out@) =~= spec_apply_batch(offset0, t).1);
                }
            }
        }
        proof {
            assert(bv.take(i as int) =~= bv);
        }
        out
    }

    /// One poll cycle's bookkeeping: a transport failure or an
    /// unparsable body publishes nothing and asks for the error sleep;
    /// a parsed body is acknowledged as `spec_apply_batch` says and
    /// asks for the default sleep.
    pub fn step(&mut self, event: SourceEvent) -> (r: SourceStep)
        ensures
            final(self).url@ == old(self).url@,
            final(self).default_timeout_sleep == old(self).default_timeout_sleep,
            final(self).error_timeout_sleep == old(self).error_timeout_sleep,
            match event {
                SourceEvent::TransportError => final(self).offset == old(self).offset && r.publish@
                    .len() == 0 && r.sleep_ms == old(self).error_timeout_sleep,
                SourceEvent::Response(body) => match parsed_batch(body@) {
                    Some(b) => final(self).offset == spec_apply_batch(old(self).offset, b).0
                        && updates_view(r.publish@) == spec_apply_batch(old(self).offset, b).1
                        && r.sleep_ms == old(self).default_timeout_sleep,
                    None => final(self).offset == old(self).offset && r.publish@.len() == 0
                        && r.sleep_ms == old(self).error_timeout_sleep,
                },
            },
    {
        match event {
            SourceEvent::TransportError => SourceStep {
                publish: Vec::new(),
                sleep_ms: self.error_timeout_sleep,
            },
            SourceEvent::Response(body) => {
                match parse_updates_body(body.as_str()) {
                    Some(batch) => {
                        let publish = self.apply_batch(&batch);
                        SourceStep { publish, sleep_ms: self.default_timeout_sleep }
                    },
                    None => SourceStep { publish: Vec::new(), sleep_ms: self.error_timeout_sleep },
                }
            },
        }
    }
}

} // verus!
