//! The webhook receiver's state: webhook definitions, per-webhook delivery
//! ring buffers, request verification dispatch, and the outbound event
//! identifier sequence.

use vstd::prelude::*;
use vstd::string::StrSliceExecFns;
use vstd::seq_lib::lemma_multiset_commutative;
use crate::text::str_eq;
use crate::verification::{
    verify_github_hmac,
    verify_standard_webhooks,
    verify_custom_header,
    github_expected_header,
    sw_expected_token,
    has_token,
};
use crate::languages::lower_u32;

verus! {

/// A webhook definition.
pub struct Webhook {
    pub id: String,
    pub name: String,
    pub event_type: String,
    pub verification_method: String,
    pub verification_secret: Option<String>,
    pub status: String,
    pub url: String,
    pub trigger_count: u64,
    pub last_triggered: Option<String>,
    pub created_at: String,
}

/// One received webhook request, as recorded in the ring buffer.
/// The body is kept as its raw text; timestamps are formatted strings
/// supplied by the caller.
pub struct Delivery {
    pub id: String,
    pub webhook_id: String,
    pub received_at: String,
    pub status: String,
    pub headers: Vec<(String, String)>,
    pub body: String,
}

/// A received webhook request queued for publication to the host.
pub struct PendingEvent {
    pub event_type: String,
    pub subject: String,
    pub data: String,
}

/// How many deliveries each webhook's ring buffer retains.
pub const MAX_DELIVERIES_PER_WEBHOOK: usize = 50;

/// Relies on uuid's `Uuid::new_v4` and its hyphenated `to_string` form:
/// a 36-character identifier. The value is random, so nothing else is
/// assumed of it.
#[verifier::external_body]
pub(crate) fn uuid_v4_string() -> (r: String)
    ensures
        r@.len() == 36,
{
    uuid::Uuid::new_v4().to_string()
}

/// Make a fresh webhook definition: a `"wh_"` identifier from a random
/// suffix, the ingress URL derived from it, an active status and zeroed
/// counters.
pub fn make_webhook(
    name: &str,
    event_type: &str,
    verification_method: &str,
    verification_secret: Option<String>,
    base_url: &str,
    now: &str,
) -> (r: Webhook)
    ensures
        r.id@.len() == 11,
        r.id@.take(3) == "wh_"@,
        r.name@ == name@,
        r.event_type@ == event_type@,
        r.verification_method@ == verification_method@,
        r.verification_secret == verification_secret,
        r.status@ == "active"@,
        r.url@ == base_url@ + "/hooks/"@ + r.id@,
        r.trigger_count == 0,
        r.last_triggered is None,
        r.created_at@ == now@,
{
    let suffix_full = uuid_v4_string();
    let suffix = suffix_full.as_str().substring_char(0, 8);
    let mut id = "wh_".to_owned();
    id.append(suffix);
    proof {
        reveal_strlit("wh_");
        assert(id@.take(3) =~= "wh_"@);
    }
    let mut url = base_url.to_owned();
    url.append("/hooks/");
    url.append(id.as_str());
    Webhook {
        id,
        name: name.to_owned(),
        event_type: event_type.to_owned(),
        verification_method: verification_method.to_owned(),
        verification_secret,
        status: "active".to_owned(),
        url,
        trigger_count: 0,
        last_triggered: None,
        created_at: now.to_owned(),
    }
}

/// The monotonically increasing identifier sequence for outbound
/// `event.publish` requests.
pub struct EventIdGen {
    pub next: u64,
}

/// The identifier the sequence starts at.
pub const FIRST_EVENT_ID: u64 = 20000;

impl EventIdGen {
    /// A fresh sequence, starting at [`FIRST_EVENT_ID`].
    pub fn new() -> (r: EventIdGen)
        ensures
            r.next == FIRST_EVENT_ID,
    {
        EventIdGen { next: 20000 }
    }

    /// Take the next identifier; the sequence wraps around at the
    /// unsigned limit, as a machine counter does.
    pub fn take(&mut self) -> (r: u64)
        ensures
            r == old(self).next,
            final(self).next == (if old(self).next < u64::MAX {
                old(self).next + 1
            } else {
                0int
            }),
    {
        let r = self.next;
        self.next = if self.next < u64::MAX {
            self.next + 1
        } else {
            0
        };
        r
    }
}

/// Whether two names are equal up to ASCII case.
pub open spec fn ci_eq(a: Seq<char>, b: Seq<char>) -> bool {
    a.len() == b.len() && forall|i: int|
        0 <= i < a.len() ==> lower_u32(#[trigger] a[i]) == lower_u32(b[i])
}

/// The first header whose name matches `name` up to ASCII case, if any.
pub open spec fn header_value(headers: Seq<(String, String)>, name: Seq<char>) -> Option<
    Seq<char>,
>
    decreases headers.len(),
{
    if headers.len() == 0 {
        None
    } else if ci_eq(headers[0].0@, name) {
        Some(headers[0].1@)
    } else {
        header_value(headers.skip(1), name)
    }
}

/// Compare two names up to ASCII case.
fn ci_eq_exec(a: &str, b: &str) -> (r: bool)
    ensures
        r == ci_eq(a@, b@),
{
    let na = a.unicode_len();
    let nb = b.unicode_len();
    if na != nb {
        return false;
    }
    let mut i: usize = 0;
    while i < na
        invariant
            0 <= i <= na == a@.len(),
            na == nb,
            nb == b@.len(),
            forall|k: int| 0 <= k < i ==> lower_u32(#[trigger] a@[k]) == lower_u32(b@[k]),
        decreases na - i,
    {
        let ca = a.get_char(i) as u32;
        let cb = b.get_char(i) as u32;
        let fa: u32 = if 65 <= ca && ca <= 90 {
            ca + 32
        } else {
            ca
        };
        let fb: u32 = if 65 <= cb && cb <= 90 {
            cb + 32
        } else {
            cb
        };
        if fa != fb {
            return false;
        }
        i = i + 1;
    }
    true
}

/// Look up a header by name, matching up to ASCII case; the first match
/// wins.
pub fn get_header<'a>(headers: &'a Vec<(String, String)>, name: &str) -> (r: Option<&'a String>)
    ensures
        match r {
            Some(v) => header_value(headers@, name@) == Some(v@),
            None => header_value(headers@, name@) is None,
        },
{
    let mut i: usize = 0;
    proof {
        assert(headers@.skip(0) =~= headers@);
    }
    while i < headers.len()
        invariant
            0 <= i <= headers@.len(),
            header_value(headers@, name@) == header_value(headers@.skip(i as int), name@),
        decreases headers@.len() - i,
    {
        proof {
            assert(headers@.skip(i as int)[0] == headers@[i as int]);
            assert(headers@.skip(i as int).skip(1) =~= headers@.skip(i as int + 1));
        }
        if ci_eq_exec(headers[i].0.as_str(), name) {
            return Some(&headers[i].1);
        }
        i = i + 1;
    }
    proof {
        assert(headers@.skip(headers@.len() as int) =~= Seq::<(String, String)>::empty());
    }
    None
}

/// The position of the first `':'` in `s`, if any.
pub open spec fn first_colon(s: Seq<char>) -> Option<int> {
    if exists|p: int| 0 <= p < s.len() && s[p] == ':' {
        Some(choose|p: int| 0 <= p < s.len() && #[trigger] s[p] == ':' && forall|q: int| 0 <= q < p ==> s[q] != ':')
    } else {
        None
    }
}

/// Split a custom-header secret `"Header-Name:value"` at its first colon.
pub fn split_once_colon(s: &str) -> (r: Option<(String, String)>)
    ensures
        match r {
            Some(pair) => exists|p: int|
                0 <= p < s@.len() && #[trigger] s@[p] == ':' && (forall|q: int|
                    0 <= q < p ==> s@[q] != ':') && pair.0@ == s@.take(p) && pair.1@ == s@.subrange(
                    p + 1,
                    s@.len() as int,
                ),
            None => forall|q: int| 0 <= q < s@.len() ==> s@[q] != ':',
        },
{
    let n = s.unicode_len();
    let mut i: usize = 0;
    while i < n
        invariant
            0 <= i <= n == s@.len(),
            forall|q: int| 0 <= q < i ==> s@[q] != ':',
        decreases n - i,
    {
        if s.get_char(i) == ':' {
            let pre = s.substring_char(0, i).to_owned();
            let post = s.substring_char(i + 1, n).to_owned();
            proof {
                assert(s@.subrange(0, i as int) =~= s@.take(i as int));
            }
            return Some((pre, post));
        }
        i = i + 1;
    }
    None
}

/// What the listener answers a webhook request with.
pub enum WebhookOutcome {
    /// No webhook with this identifier.
    NotFound,
    /// The webhook is paused.
    Paused,
    /// Signature verification failed.
    Unauthorized,
    /// The request is accepted and its delivery may be recorded.
    Accepted,
}

/// Whether a request passes the webhook's verification method, given its
/// headers and raw body.
pub open spec fn request_verified(wh: Webhook, headers: Seq<(String, String)>, body: Seq<u8>)
    -> bool {
    let secret = match wh.verification_secret {
        Some(s) => s@,
        None => Seq::<char>::empty(),
    };
    if wh.verification_method@ == "none"@ {
        true
    } else if wh.verification_method@ == "github-hmac"@ {
        let sig = match header_value(headers, "x-hub-signature-256"@) {
            Some(v) => v,
            None => Seq::<char>::empty(),
        };
        sig == github_expected_header(secret, body)
    } else if wh.verification_method@ == "standard-webhooks"@ {
        let msg_id = match header_value(headers, "webhook-id"@) {
            Some(v) => v,
            None => Seq::<char>::empty(),
        };
        let timestamp = match header_value(headers, "webhook-timestamp"@) {
            Some(v) => v,
            None => Seq::<char>::empty(),
        };
        let sig = match header_value(headers, "webhook-signature"@) {
            Some(v) => v,
            None => Seq::<char>::empty(),
        };
        has_token(sig, sw_expected_token(secret, body, msg_id, timestamp))
    } else if wh.verification_method@ == "custom-header"@ {
        match first_colon(secret) {
            Some(p) => {
                let hname = secret.take(p);
                let expected = secret.subrange(p + 1, secret.len() as int);
                let actual = match header_value(headers, hname) {
                    Some(v) => v,
                    None => Seq::<char>::empty(),
                };
                actual == expected
            },
            None => false,
        }
    } else {
        false
    }
}

/// The answer a webhook request receives: unknown webhooks are not found,
/// paused webhooks are unavailable, verification failures are rejected,
/// and everything else is accepted.
pub open spec fn request_outcome(
    wh: Option<Webhook>,
    headers: Seq<(String, String)>,
    body: Seq<u8>,
) -> WebhookOutcome {
    match wh {
        None => WebhookOutcome::NotFound,
        Some(w) => {
            if w.status@ == "paused"@ {
                WebhookOutcome::Paused
            } else if !request_verified(w, headers, body) {
                WebhookOutcome::Unauthorized
            } else {
                WebhookOutcome::Accepted
            }
        },
    }
}

/// Decide what a webhook request receives: 404 for an unknown webhook,
/// 503 for a paused one, 401 on failed verification, 200 otherwise.
pub fn evaluate_webhook_request(
    wh: Option<&Webhook>,
    headers: &Vec<(String, String)>,
    body: &[u8],
) -> (r: WebhookOutcome)
    ensures
        r == request_outcome(
            match wh {
                Some(w) => Some(*w),
                None => None,
            },
            headers@,
            body@,
        ),
{
    let w = match wh {
        Some(w) => w,
        None => {
            return WebhookOutcome::NotFound;
        },
    };
    if str_eq(w.status.as_str(), "paused") {
        return WebhookOutcome::Paused;
    }
    let empty_secret = String::new();
    let secret: &String = match &w.verification_secret {
        Some(s) => s,
        None => &empty_secret,
    };
    let verified: bool;
    if str_eq(w.verification_method.as_str(), "none") {
        verified = true;
    } else if str_eq(w.verification_method.as_str(), "github-hmac") {
        let empty_sig = String::new();
        let sig: &String = match get_header(headers, "x-hub-signature-256") {
            Some(v) => v,
            None => &empty_sig,
        };
        verified = verify_github_hmac(secret.as_str(), body, sig.as_str());
    } else if str_eq(w.verification_method.as_str(), "standard-webhooks") {
        let empty_h = String::new();
        let msg_id: &String = match get_header(headers, "webhook-id") {
            Some(v) => v,
            None => &empty_h,
        };
        let empty_h2 = String::new();
        let timestamp: &String = match get_header(headers, "webhook-timestamp") {
            Some(v) => v,
            None => &empty_h2,
        };
        let empty_h3 = String::new();
        let sig: &String = match get_header(headers, "webhook-signature") {
            Some(v) => v,
            None => &empty_h3,
        };
        verified = verify_standard_webhooks(
            secret.as_str(),
            body,
            msg_id.as_str(),
            timestamp.as_str(),
            sig.as_str(),
        );
    } else if str_eq(w.verification_method.as_str(), "custom-header") {
        match split_once_colon(secret.as_str()) {
            Some((hname, expected)) => {
                let empty_h = String::new();
                let actual: &String = match get_header(headers, hname.as_str()) {
                    Some(v) => v,
                    None => &empty_h,
                };
                verified = verify_custom_header(expected.as_str(), actual.as_str());
                proof {
                    let p = choose|p: int|
                        0 <= p < secret@.len() && #[trigger] secret@[p] == ':' && (forall|q: int|
                            0 <= q < p ==> secret@[q] != ':') && hname@ == secret@.take(p)
                            && expected@ == secret@.subrange(p + 1, secret@.len() as int);
                    let fc = first_colon(secret@);
                    assert(fc is Some);
                    let p2 = fc.unwrap();
                    assert(secret@[p2] == ':' && forall|q: int| 0 <= q < p2 ==> secret@[q] != ':');
                    assert(p == p2) by {
                        if p < p2 {
                            assert(secret@[p] != ':');
                        } else if p2 < p {
                            assert(secret@[p2] != ':');
                        }
                    };
                }
            },
            None => {
                verified = false;
            },
        }
    } else {
        verified = false;
    }
    if verified {
        WebhookOutcome::Accepted
    } else {
        WebhookOutcome::Unauthorized
    }
}

} // verus!

verus! {

/// The deliveries retained for one webhook, oldest first.
pub struct DeliveryBucket {
    pub webhook_id: String,
    pub items: Vec<Delivery>,
}

/// The webhook receiver's persistent state: definitions and per-webhook
/// delivery ring buffers.
pub struct WebhookStore {
    pub webhooks: Vec<Webhook>,
    pub deliveries: Vec<DeliveryBucket>,
}

/// Whether the store has a webhook with this identifier.
pub open spec fn has_webhook(s: WebhookStore, id: Seq<char>) -> bool {
    exists|i: int| 0 <= i < s.webhooks@.len() && (#[trigger] s.webhooks@[i]).id@ == id
}

/// Whether the store has a delivery bucket for this webhook.
pub open spec fn has_bucket(s: WebhookStore, id: Seq<char>) -> bool {
    exists|i: int| 0 <= i < s.deliveries@.len() && (#[trigger] s.deliveries@[i]).webhook_id@ == id
}

/// Well-formedness: webhook identifiers and bucket keys are distinct and
/// no ring buffer exceeds its capacity.
pub open spec fn store_wf(s: WebhookStore) -> bool {
    &&& forall|i: int, j: int|
        0 <= i < j < s.webhooks@.len() ==> (#[trigger] s.webhooks@[i]).id@ != (
        #[trigger] s.webhooks@[j]).id@
    &&& forall|i: int, j: int|
        0 <= i < j < s.deliveries@.len() ==> (#[trigger] s.deliveries@[i]).webhook_id@ != (
        #[trigger] s.deliveries@[j]).webhook_id@
    &&& forall|i: int|
        0 <= i < s.deliveries@.len() ==> (#[trigger] s.deliveries@[i]).items@.len()
            <= MAX_DELIVERIES_PER_WEBHOOK
}

/// Fields an update request may change. A present `verification_secret`
/// replaces the stored secret outright (possibly clearing it).
pub struct WebhookUpdate {
    pub name: Option<String>,
    pub event_type: Option<String>,
    pub verification_method: Option<String>,
    pub verification_secret: Option<Option<String>>,
    pub status: Option<String>,
}

/// Copy a webhook value field by field.
pub fn copy_webhook(w: &Webhook) -> (r: Webhook)
    ensures
        r == *w,
{
    Webhook {
        id: w.id.clone(),
        name: w.name.clone(),
        event_type: w.event_type.clone(),
        verification_method: w.verification_method.clone(),
        verification_secret: match &w.verification_secret {
            Some(s) => Some(s.clone()),
            None => None,
        },
        status: w.status.clone(),
        url: w.url.clone(),
        trigger_count: w.trigger_count,
        last_triggered: match &w.last_triggered {
            Some(s) => Some(s.clone()),
            None => None,
        },
        created_at: w.created_at.clone(),
    }
}

fn find_webhook(s: &WebhookStore, id: &str) -> (r: Option<usize>)
    ensures
        match r {
            Some(i) => i < s.webhooks@.len() && s.webhooks@[i as int].id@ == id@,
            None => !has_webhook(*s, id@),
        },
{
    let mut i: usize = 0;
    while i < s.webhooks.len()
        invariant
            0 <= i <= s.webhooks@.len(),
            forall|k: int| 0 <= k < i ==> (#[trigger] s.webhooks@[k]).id@ != id@,
        decreases s.webhooks@.len() - i,
    {
        if str_eq(s.webhooks[i].id.as_str(), id) {
            return Some(i);
        }
        i = i + 1;
    }
    None
}

fn find_bucket(s: &WebhookStore, id: &str) -> (r: Option<usize>)
    ensures
        match r {
            Some(i) => i < s.deliveries@.len() && s.deliveries@[i as int].webhook_id@ == id@,
            None => !has_bucket(*s, id@),
        },
{
    let mut i: usize = 0;
    while i < s.deliveries.len()
        invariant
            0 <= i <= s.deliveries@.len(),
            forall|k: int| 0 <= k < i ==> (#[trigger] s.deliveries@[k]).webhook_id@ != id@,
        decreases s.deliveries@.len() - i,
    {
        if str_eq(s.deliveries[i].webhook_id.as_str(), id) {
            return Some(i);
        }
        i = i + 1;
    }
    None
}

impl WebhookStore {
    /// An empty store.
    pub fn new() -> (r: WebhookStore)
        ensures
            store_wf(r),
            r.webhooks@.len() == 0,
            r.deliveries@.len() == 0,
    {
        WebhookStore { webhooks: Vec::new(), deliveries: Vec::new() }
    }

    /// Look up a webhook by identifier.
    pub fn get(&self, id: &str) -> (r: Option<&Webhook>)
        ensures
            match r {
                Some(w) => exists|i: int|
                    0 <= i < self.webhooks@.len() && #[trigger] self.webhooks@[i] == *w
                        && w.id@ == id@,
                None => !has_webhook(*self, id@),
            },
    {
        match find_webhook(self, id) {
            Some(i) => Some(&self.webhooks[i]),
            None => None,
        }
    }

    /// Insert or replace a webhook by identifier, returning a copy of the
    /// stored value.
    pub fn insert(&mut self, wh: Webhook) -> (r: Webhook)
        requires
            store_wf(*old(self)),
        ensures
            store_wf(*final(self)),
            r == wh,
            has_webhook(*final(self), wh.id@),
            final(self).deliveries@ == old(self).deliveries@,
            final(self).webhooks@.len() == old(self).webhooks@.len() + (if has_webhook(
                *old(self),
                wh.id@,
            ) {
                0int
            } else {
                1int
            }),
            forall|i: int|
                0 <= i < old(self).webhooks@.len() && (#[trigger] old(self).webhooks@[i]).id@
                    != wh.id@ ==> final(self).webhooks@[i] == old(self).webhooks@[i],
            forall|i: int|
                0 <= i < old(self).webhooks@.len() && (#[trigger] old(self).webhooks@[i]).id@
                    == wh.id@ ==> final(self).webhooks@[i] == wh,
    {
        let out = copy_webhook(&wh);
        match find_webhook(self, wh.id.as_str()) {
            Some(i) => {
                proof {
                    assert forall|i2: int|
                        0 <= i2 < old(self).webhooks@.len() && (#[trigger] old(self).webhooks@[i2]).id@ == wh.id@ implies i2 == i as int by {
                        if i2 != i as int {
                            assert(old(self).webhooks@[i2].id@ != old(self).webhooks@[i as int].id@);
                        }
                    }
                }
                self.webhooks[i] = wh;
                proof {
                    assert(self.webhooks@[i as int].id@ == out.id@);
                    assert forall|i2: int, j2: int|
                        0 <= i2 < j2 < self.webhooks@.len() implies (
                    #[trigger] self.webhooks@[i2]).id@ != (#[trigger] self.webhooks@[j2]).id@ by {
                        if i2 != i as int && j2 != i as int {
                            assert(self.webhooks@[i2] == old(self).webhooks@[i2]);
                            assert(self.webhooks@[j2] == old(self).webhooks@[j2]);
                        } else if i2 == i as int {
                            assert(self.webhooks@[j2] == old(self).webhooks@[j2]);
                            assert(old(self).webhooks@[j2].id@ != wh.id@);
                        } else {
                            assert(self.webhooks@[i2] == old(self).webhooks@[i2]);
                            assert(old(self).webhooks@[i2].id@ != wh.id@);
                        }
                    }
                }
            },
            None => {
                self.webhooks.push(wh);
                proof {
                    assert(self.webhooks@.drop_last() =~= old(self).webhooks@);
                    assert(self.webhooks@.last().id@ == out.id@);
                    assert forall|i2: int, j2: int|
                        0 <= i2 < j2 < self.webhooks@.len() implies (
                    #[trigger] self.webhooks@[i2]).id@ != (#[trigger] self.webhooks@[j2]).id@ by {
                        if j2 == self.webhooks@.len() - 1 {
                            assert(old(self).webhooks@[i2].id@ != self.webhooks@.last().id@);
                        }
                    }
                }
            },
        }
        out
    }

    /// Apply an update to a webhook: each present field replaces the
    /// stored one; the rest are untouched. Yields a copy of the updated
    /// value, or nothing for an unknown identifier.
    pub fn update(&mut self, id: &str, data: WebhookUpdate) -> (r: Option<Webhook>)
        requires
            store_wf(*old(self)),
        ensures
            store_wf(*final(self)),
            final(self).deliveries@ == old(self).deliveries@,
            final(self).webhooks@.len() == old(self).webhooks@.len(),
            r is None ==> !has_webhook(*old(self), id@) && *final(self) == *old(self),
            r is Some ==> has_webhook(*old(self), id@),
            forall|i: int|
                0 <= i < old(self).webhooks@.len() && (#[trigger] old(self).webhooks@[i]).id@
                    != id@ ==> final(self).webhooks@[i] == old(self).webhooks@[i],
            forall|i: int|
                0 <= i < old(self).webhooks@.len() && (#[trigger] old(self).webhooks@[i]).id@
                    == id@ ==> {
                    let before = old(self).webhooks@[i];
                    let after = final(self).webhooks@[i];
                    &&& after.id == before.id
                    &&& after.name == (match data.name {
                        Some(v) => v,
                        None => before.name,
                    })
                    &&& after.event_type == (match data.event_type {
                        Some(v) => v,
                        None => before.event_type,
                    })
                    &&& after.verification_method == (match data.verification_method {
                        Some(v) => v,
                        None => before.verification_method,
                    })
                    &&& after.verification_secret == (match data.verification_secret {
                        Some(v) => v,
                        None => before.verification_secret,
                    })
                    &&& after.status == (match data.status {
                        Some(v) => v,
                        None => before.status,
                    })
                    &&& after.url == before.url
                    &&& after.trigger_count == before.trigger_count
                    &&& after.last_triggered == before.last_triggered
                    &&& after.created_at == before.created_at
                    &&& (match r {
                        Some(w) => w == after,
                        None => false,
                    })
                },
    {
        match find_webhook(self, id) {
            Some(i) => {
                proof {
                    assert forall|i2: int|
                        0 <= i2 < old(self).webhooks@.len() && (#[trigger] old(self).webhooks@[i2]).id@ == id@ implies i2 == i as int by {
                        if i2 != i as int {
                            assert(old(self).webhooks@[i2].id@ != old(self).webhooks@[i as int].id@);
                        }
                    }
                }
                match data.name {
                    Some(v) => {
                        self.webhooks[i].name = v;
                    },
                    None => {},
                }
                match data.event_type {
                    Some(v) => {
                        self.webhooks[i].event_type = v;
                    },
                    None => {},
                }
                match data.verification_method {
                    Some(v) => {
                        self.webhooks[i].verification_method = v;
                    },
                    None => {},
                }
                match data.verification_secret {
                    Some(v) => {
                        self.webhooks[i].verification_secret = v;
                    },
                    None => {},
                }
                match data.status {
                    Some(v) => {
                        self.webhooks[i].status = v;
                    },
                    None => {},
                }
                let out = copy_webhook(&self.webhooks[i]);
                proof {
                    assert(self.webhooks@[i as int].id@ == id@);
                    assert forall|i2: int, j2: int|
                        0 <= i2 < j2 < self.webhooks@.len() implies (
                    #[trigger] self.webhooks@[i2]).id@ != (#[trigger] self.webhooks@[j2]).id@ by {
                        if i2 != i as int && j2 != i as int {
                            assert(self.webhooks@[i2] == old(self).webhooks@[i2]);
                            assert(self.webhooks@[j2] == old(self).webhooks@[j2]);
                        } else if i2 == i as int {
                            assert(self.webhooks@[j2] == old(self).webhooks@[j2]);
                            assert(old(self).webhooks@[j2].id@ != id@);
                        } else {
                            assert(self.webhooks@[i2] == old(self).webhooks@[i2]);
                            assert(old(self).webhooks@[i2].id@ != id@);
                        }
                    }
                }
                Some(out)
            },
            None => None,
        }
    }

    /// Delete a webhook by identifier; its recorded deliveries remain.
    pub fn delete(&mut self, id: &str) -> (r: bool)
        requires
            store_wf(*old(self)),
        ensures
            store_wf(*final(self)),
            r == has_webhook(*old(self), id@),
            !has_webhook(*final(self), id@),
            final(self).deliveries@ == old(self).deliveries@,
            r ==> exists|i: int|
                0 <= i < old(self).webhooks@.len() && (#[trigger] old(self).webhooks@[i]).id@
                    == id@ && final(self).webhooks@ == old(self).webhooks@.remove(i),
            !r ==> final(self).webhooks@ == old(self).webhooks@,
    {
        match find_webhook(self, id) {
            Some(i) => {
                proof {
                    assert forall|i2: int|
                        0 <= i2 < old(self).webhooks@.len() && (#[trigger] old(self).webhooks@[i2]).id@ == id@ implies i2 == i as int by {
                        if i2 != i as int {
                            assert(old(self).webhooks@[i2].id@ != old(self).webhooks@[i as int].id@);
                        }
                    }
                }
                self.webhooks.remove(i);
                proof {
                    if has_webhook(*self, id@) {
                        let k = choose|k: int|
                            0 <= k < self.webhooks@.len() && (#[trigger] self.webhooks@[k]).id@
                                == id@;
                        if k < i as int {
                            assert(self.webhooks@[k] == old(self).webhooks@[k]);
                        } else {
                            assert(self.webhooks@[k] == old(self).webhooks@[k + 1]);
                        }
                        assert(false);
                    }
                }
                true
            },
            None => false,
        }
    }

    /// Record a received delivery: append it to its webhook's ring buffer
    /// (evicting the oldest entry at capacity), bump the trigger count and
    /// stamp the trigger time.
    pub fn record_delivery(&mut self, d: Delivery, now: &str)
        requires
            store_wf(*old(self)),
        ensures
            store_wf(*final(self)),
            final(self).webhooks@.len() == old(self).webhooks@.len(),
            has_bucket(*final(self), d.webhook_id@),
            forall|i: int|
                0 <= i < old(self).deliveries@.len() && (#[trigger] old(self).deliveries@[i]).webhook_id@ != d.webhook_id@ ==> final(self).deliveries@[i]
                    == old(self).deliveries@[i],
            forall|i: int|
                0 <= i < old(self).deliveries@.len() && (#[trigger] old(self).deliveries@[i]).webhook_id@ == d.webhook_id@ ==> {
                    let before = old(self).deliveries@[i].items@;
                    let after = final(self).deliveries@[i].items@;
                    &&& final(self).deliveries@[i].webhook_id@ == d.webhook_id@
                    &&& after == (if before.len() >= MAX_DELIVERIES_PER_WEBHOOK {
                        before.skip(1).push(d)
                    } else {
                        before.push(d)
                    })
                },
            !has_bucket(*old(self), d.webhook_id@) ==> final(self).deliveries@.drop_last() == old(self).deliveries@ && final(self).deliveries@.last().webhook_id@ == d.webhook_id@ && final(self).deliveries@.last().items@ == seq![d],
            forall|i: int|
                0 <= i < old(self).webhooks@.len() && (#[trigger] old(self).webhooks@[i]).id@
                    != d.webhook_id@ ==> final(self).webhooks@[i] == old(self).webhooks@[i],
            forall|i: int|
                0 <= i < old(self).webhooks@.len() && (#[trigger] old(self).webhooks@[i]).id@
                    == d.webhook_id@ ==> {
                    let before = old(self).webhooks@[i];
                    let after = final(self).webhooks@[i];
                    &&& after.trigger_count == (if before.trigger_count < u64::MAX {
                        before.trigger_count + 1
                    } else {
                        before.trigger_count as int
                    })
                    &&& (match after.last_triggered {
                        Some(t) => t@ == now@,
                        None => false,
                    })
                    &&& after.id == before.id
                },
    {
        let ghost target = d.webhook_id@;
        let ghost mut bidx: int = 0;
        let wid = d.webhook_id.clone();
        match find_bucket(self, wid.as_str()) {
            Some(i) => {
                proof {
                    assert forall|i2: int|
                        0 <= i2 < old(self).deliveries@.len() && (#[trigger] old(self).deliveries@[i2]).webhook_id@ == target implies i2 == i as int by {
                        if i2 != i as int {
                            assert(old(self).deliveries@[i2].webhook_id@ != old(self).deliveries@[i as int].webhook_id@);
                        }
                    }
                }
                if self.deliveries[i].items.len() >= MAX_DELIVERIES_PER_WEBHOOK {
                    self.deliveries[i].items.remove(0);
                    proof {
                        assert(self.deliveries@[i as int].items@ =~= old(self).deliveries@[i as int].items@.skip(1));
                    }
                }
                self.deliveries[i].items.push(d);
                proof {
                    bidx = i as int;
                    assert(self.deliveries@[bidx].webhook_id@ == target);
                }
            },
            None => {
                let bucket = DeliveryBucket { webhook_id: wid.clone(), items: vec![d] };
                proof {
                    assert(bucket.items@ =~= seq![d]);
                }
                self.deliveries.push(bucket);
                proof {
                    assert(self.deliveries@.drop_last() =~= old(self).deliveries@);
                    assert(self.deliveries@.last().webhook_id@ == target);
                    bidx = self.deliveries@.len() - 1;
                    assert(self.deliveries@[bidx].webhook_id@ == target);
                    assert forall|i2: int, j2: int|
                        0 <= i2 < j2 < self.deliveries@.len() implies (
                    #[trigger] self.deliveries@[i2]).webhook_id@ != (
                    #[trigger] self.deliveries@[j2]).webhook_id@ by {
                        if j2 == self.deliveries@.len() - 1 {
                            assert(old(self).deliveries@[i2].webhook_id@ != target);
                        }
                    }
                }
            },
        }
        match find_webhook(self, wid.as_str()) {
            Some(i) => {
                proof {
                    assert forall|i2: int|
                        0 <= i2 < old(self).webhooks@.len() && (#[trigger] old(self).webhooks@[i2]).id@ == target implies i2 == i as int by {
                        if i2 != i as int {
                            assert(old(self).webhooks@[i2].id@ != old(self).webhooks@[i as int].id@);
                        }
                    }
                }
                if self.webhooks[i].trigger_count < u64::MAX {
                    let c = self.webhooks[i].trigger_count;
                    self.webhooks[i].trigger_count = c + 1;
                }
                self.webhooks[i].last_triggered = Some(now.to_owned());
            },
            None => {},
        }
        proof {
            assert(0 <= bidx < self.deliveries@.len());
            assert(self.deliveries@[bidx].webhook_id@ == target);
            assert(has_bucket(*self, target));
        }
    }
}

} // verus!

verus! {

/// The view of a recorded delivery: every field, headers as name-value
/// pairs.
pub open spec fn delivery_view(d: Delivery) -> (
    Seq<char>,
    Seq<char>,
    Seq<char>,
    Seq<char>,
    Seq<(Seq<char>, Seq<char>)>,
    Seq<char>,
) {
    (
        d.id@,
        d.webhook_id@,
        d.received_at@,
        d.status@,
        d.headers@.map_values(|p: (String, String)| (p.0@, p.1@)),
        d.body@,
    )
}

/// Copy a delivery value field by field.
fn copy_delivery(d: &Delivery) -> (r: Delivery)
    ensures
        delivery_view(r) == delivery_view(*d),
{
    let mut headers: Vec<(String, String)> = Vec::new();
    let mut i: usize = 0;
    while i < d.headers.len()
        invariant
            0 <= i <= d.headers@.len(),
            headers@.len() == i,
            forall|k: int|
                0 <= k < i ==> (#[trigger] headers@[k]).0@ == d.headers@[k].0@ && headers@[k].1@
                    == d.headers@[k].1@,
        decreases d.headers@.len() - i,
    {
        headers.push((d.headers[i].0.clone(), d.headers[i].1.clone()));
        i = i + 1;
    }
    proof {
        assert(headers@.map_values(|p: (String, String)| (p.0@, p.1@)) =~= d.headers@.map_values(
            |p: (String, String)| (p.0@, p.1@),
        ));
    }
    Delivery {
        id: d.id.clone(),
        webhook_id: d.webhook_id.clone(),
        received_at: d.received_at.clone(),
        status: d.status.clone(),
        headers,
        body: d.body.clone(),
    }
}

impl WebhookStore {
    /// The recorded deliveries of a webhook, newest first; empty for an
    /// unknown webhook.
    pub fn get_deliveries(&self, webhook_id: &str) -> (r: Vec<Delivery>)
        requires
            store_wf(*self),
        ensures
            ({
                match find_bucket_spec(*self, webhook_id@) {
                    Some(items) => r@.len() == items.len() && forall|k: int|
                        0 <= k < r@.len() ==> delivery_view(#[trigger] r@[k]) == delivery_view(
                            items[items.len() - 1 - k],
                        ),
                    None => r@.len() == 0,
                }
            }),
    {
        match find_bucket(self, webhook_id) {
            Some(i) => {
                proof {
                    assert(find_bucket_spec(*self, webhook_id@) is Some);
                }
                let items = &self.deliveries[i].items;
                let ghost iv = items@;
                let mut out: Vec<Delivery> = Vec::new();
                let mut k: usize = items.len();
                while k > 0
                    invariant
                        0 <= k <= iv.len(),
                        iv == self.deliveries@[i as int].items@,
                        i < self.deliveries@.len(),
                        items == &self.deliveries[i as int].items,
                        out@.len() == iv.len() - k,
                        forall|m: int|
                            0 <= m < out@.len() ==> delivery_view(#[trigger] out@[m])
                                == delivery_view(iv[iv.len() - 1 - m]),
                    decreases k,
                {
                    out.push(copy_delivery(&items[k - 1]));
                    k = k - 1;
                }
                proof {
                    let w = choose|w: int|
                        0 <= w < self.deliveries@.len() && (
                        #[trigger] self.deliveries@[w]).webhook_id@ == webhook_id@;
                    if w != i as int {
                        assert(self.deliveries@[w].webhook_id@ != self.deliveries@[
                        i as int].webhook_id@);
                        assert(false);
                    }
                }
                out
            },
            None => {
                proof {
                    if find_bucket_spec(*self, webhook_id@) is Some {
                        assert(has_bucket(*self, webhook_id@));
                        let w = choose|w: int|
                            0 <= w < self.deliveries@.len() && (
                            #[trigger] self.deliveries@[w]).webhook_id@ == webhook_id@;
                        assert(false);
                    }
                }
                Vec::new()
            },
        }
    }
}

/// The items of the bucket for `id`, where one exists.
pub open spec fn find_bucket_spec(s: WebhookStore, id: Seq<char>) -> Option<Seq<Delivery>> {
    if has_bucket(s, id) {
        Some(
            s.deliveries@[choose|i: int|
                0 <= i < s.deliveries@.len() && (#[trigger] s.deliveries@[i]).webhook_id@
                    == id].items@,
        )
    } else {
        None
    }
}

/// Byte-order comparison of timestamps, as string ordering performs it;
/// codepoint order and UTF-8 byte order agree.
pub open spec fn lex_le(a: Seq<char>, b: Seq<char>) -> bool
    decreases a.len(),
{
    if a.len() == 0 {
        true
    } else if b.len() == 0 {
        false
    } else if (a[0] as u32) != (b[0] as u32) {
        (a[0] as u32) < (b[0] as u32)
    } else {
        lex_le(a.skip(1), b.skip(1))
    }
}

proof fn lemma_lex_total(a: Seq<char>, b: Seq<char>)
    ensures
        lex_le(a, b) || lex_le(b, a),
    decreases a.len(),
{
    if a.len() > 0 && b.len() > 0 && (a[0] as u32) == (b[0] as u32) {
        lemma_lex_total(a.skip(1), b.skip(1));
    }
}

proof fn lemma_lex_trans(a: Seq<char>, b: Seq<char>, c: Seq<char>)
    requires
        lex_le(a, b),
        lex_le(b, c),
    ensures
        lex_le(a, c),
    decreases a.len(),
{
    if a.len() > 0 && b.len() > 0 && c.len() > 0 && (a[0] as u32) == (b[0] as u32) && (
    b[0] as u32) == (c[0] as u32) {
        lemma_lex_trans(a.skip(1), b.skip(1), c.skip(1));
    }
}

/// Compare two strings in byte order.
fn lex_le_exec(a: &str, b: &str) -> (r: bool)
    ensures
        r == lex_le(a@, b@),
{
    let na = a.unicode_len();
    let nb = b.unicode_len();
    let mut i: usize = 0;
    proof {
        assert(a@.skip(0) =~= a@);
        assert(b@.skip(0) =~= b@);
    }
    loop
        invariant_except_break
            0 <= i <= na,
            0 <= i <= nb,
            na == a@.len(),
            nb == b@.len(),
            lex_le(a@, b@) == lex_le(a@.skip(i as int), b@.skip(i as int)),
        ensures
            lex_le(a@, b@) == lex_le(a@.skip(i as int), b@.skip(i as int)),
            i <= na && i <= nb,
            i >= na || i >= nb || (a@[i as int] as u32) != (b@[i as int] as u32),
        decreases na - i,
    {
        if i >= na || i >= nb {
            break ;
        }
        let ca = a.get_char(i) as u32;
        let cb = b.get_char(i) as u32;
        if ca != cb {
            proof {
                assert(a@.skip(i as int)[0] == a@[i as int]);
                assert(b@.skip(i as int)[0] == b@[i as int]);
            }
            break ;
        }
        proof {
            assert(a@.skip(i as int)[0] == a@[i as int]);
            assert(b@.skip(i as int)[0] == b@[i as int]);
            assert(a@.skip(i as int).skip(1) =~= a@.skip(i as int + 1));
            assert(b@.skip(i as int).skip(1) =~= b@.skip(i as int + 1));
        }
        i = i + 1;
    }
    if i >= na {
        proof {
            assert(a@.skip(i as int).len() == 0);
        }
        true
    } else if i >= nb {
        proof {
            assert(b@.skip(i as int).len() == 0 && a@.skip(i as int).len() > 0);
        }
        false
    } else {
        let ca = a.get_char(i) as u32;
        let cb = b.get_char(i) as u32;
        proof {
            assert(a@.skip(i as int)[0] == a@[i as int]);
            assert(b@.skip(i as int)[0] == b@[i as int]);
        }
        ca < cb
    }
}

/// Whether a run of webhooks is ordered by creation time.
pub open spec fn sorted_by_created(s: Seq<Webhook>) -> bool {
    forall|i: int, j: int|
        0 <= i < j < s.len() ==> lex_le(
            (#[trigger] s[i]).created_at@,
            (#[trigger] s[j]).created_at@,
        )
}

proof fn lemma_insert_multiset(s: Seq<Webhook>, i: int, x: Webhook)
    requires
        0 <= i <= s.len(),
    ensures
        s.insert(i, x).to_multiset() =~= s.to_multiset().insert(x),
{
    broadcast use vstd::seq_lib::group_to_multiset_ensures;

    let a = s.take(i);
    let b = s.skip(i);
    assert(s =~= a + b);
    assert(s.insert(i, x) =~= a + (seq![x] + b));
    lemma_multiset_commutative(a, seq![x] + b);
    lemma_multiset_commutative(seq![x], b);
    lemma_multiset_commutative(a, b);
    assert(Seq::<Webhook>::empty().push(x) =~= seq![x]);
    assert(seq![x].to_multiset() =~= Seq::<Webhook>::empty().to_multiset().insert(x));
    assert(Seq::<Webhook>::empty().to_multiset() =~= vstd::multiset::Multiset::<
        Webhook,
    >::empty());
}

/// Insert a webhook into a creation-time-ordered run, keeping the order.
fn insert_sorted(out: &mut Vec<Webhook>, w: Webhook)
    requires
        sorted_by_created(old(out)@),
    ensures
        sorted_by_created(final(out)@),
        final(out)@.to_multiset() == old(out)@.to_multiset().insert(w),
{
    let mut pos: usize = 0;
    while pos < out.len() && lex_le_exec(out[pos].created_at.as_str(), w.created_at.as_str())
        invariant
            0 <= pos <= out@.len(),
            out@ == old(out)@,
            sorted_by_created(out@),
            forall|k: int| 0 <= k < pos ==> lex_le((#[trigger] out@[k]).created_at@, w.created_at@),
        decreases out@.len() - pos,
    {
        pos = pos + 1;
    }
    proof {
        if pos < out@.len() {
            lemma_lex_total(out@[pos as int].created_at@, w.created_at@);
            assert(lex_le(w.created_at@, out@[pos as int].created_at@));
        }
    }
    let ghost before = out@;
    out.insert(pos, w);
    proof {
        assert(out@ == before.insert(pos as int, w));
        lemma_insert_multiset(before, pos as int, w);
        assert forall|i: int, j: int| 0 <= i < j < out@.len() implies lex_le(
            (#[trigger] out@[i]).created_at@,
            (#[trigger] out@[j]).created_at@,
        ) by {
            let p = pos as int;
            if j < p {
                assert(out@[i] == before[i] && out@[j] == before[j]);
            } else if i > p {
                assert(out@[i] == before[i - 1] && out@[j] == before[j - 1]);
            } else if i < p && j == p {
                assert(out@[i] == before[i]);
            } else if i < p && j > p {
                assert(out@[i] == before[i] && out@[j] == before[j - 1]);
            } else if i == p && j > p {
                assert(out@[j] == before[j - 1]);
                if p < before.len() {
                    assert(lex_le(w.created_at@, before[p].created_at@));
                    if j - 1 > p {
                        assert(lex_le(before[p].created_at@, before[j - 1].created_at@));
                        lemma_lex_trans(
                            w.created_at@,
                            before[p].created_at@,
                            before[j - 1].created_at@,
                        );
                    }
                }
            }
        }
    }
}

impl WebhookStore {
    /// The webhooks ordered by creation time (ties keep no particular
    /// order); the result holds the same definitions as the store.
    pub fn list(&self) -> (r: Vec<Webhook>)
        ensures
            sorted_by_created(r@),
            r@.to_multiset() == self.webhooks@.to_multiset(),
    {
        broadcast use vstd::seq_lib::group_to_multiset_ensures;

        let mut out: Vec<Webhook> = Vec::new();
        let mut i: usize = 0;
        proof {
            assert(self.webhooks@.take(0) =~= Seq::<Webhook>::empty());
        }
        while i < self.webhooks.len()
            invariant
                0 <= i <= self.webhooks@.len(),
                sorted_by_created(out@),
                out@.to_multiset() == self.webhooks@.take(i as int).to_multiset(),
            decreases self.webhooks@.len() - i,
        {
            broadcast use vstd::seq_lib::group_to_multiset_ensures;

            let w = copy_webhook(&self.webhooks[i]);
            insert_sorted(&mut out, w);
            proof {
                assert(self.webhooks@.take(i as int + 1) =~= self.webhooks@.take(i as int).push(
                    self.webhooks@[i as int],
                ));
            }
            i = i + 1;
        }
        proof {
            assert(self.webhooks@.take(self.webhooks@.len() as int) =~= self.webhooks@);
        }
        out
    }
}

} // verus!
