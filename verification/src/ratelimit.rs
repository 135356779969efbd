//! Fixed-window request throttling keyed by identity and origin. Counters
//! live in a shared store with a TTL; a window is never reset explicitly, it
//! lapses when its entry's TTL does. The increment happens before the
//! threshold check, so a rejected request still consumes a slot.

use vstd::prelude::*;

verus! {

/// Whether a request may proceed.
#[derive(Clone, Copy, Debug, PartialEq, Eq, Structural)]
pub enum Decision {
    Allow,
    Reject,
}

/// One key's counter: how many admissions its current window has seen and
/// when that window lapses.
pub struct CounterEntry {
    pub key: Vec<u8>,
    pub expires_at: u64,
    pub count: u64,
}

/// The fixed-window limiter: a capacity, a window length, and the counters.
pub struct RateLimiter {
    pub interval_secs: u64,
    pub max_requests: u64,
    pub entries: Vec<CounterEntry>,
}

/// The first counter stored under a key, if any.
pub open spec fn found_counter(es: Seq<CounterEntry>, key: Seq<u8>) -> Option<CounterEntry>
    decreases es.len(),
{
    if es.len() == 0 {
        None
    } else if es[0].key@ == key {
        Some(es[0])
    } else {
        found_counter(es.skip(1), key)
    }
}

/// At most one counter per key.
pub open spec fn limiter_wf(l: RateLimiter) -> bool {
    forall|i: int, j: int|
        0 <= i < j < l.entries@.len() ==> (#[trigger] l.entries@[i]).key@ != (
        #[trigger] l.entries@[j]).key@
}

/// How many admissions the key's current window has seen at `now`: the
/// stored count while the window is live, and zero once it has lapsed or was
/// never opened.
pub open spec fn window_count(l: RateLimiter, key: Seq<u8>, now: u64) -> u64 {
    match found_counter(l.entries@, key) {
        Some(e) => if e.expires_at > now {
            e.count
        } else {
            0
        },
        None => 0,
    }
}

/// When the key's live window lapses, if one is open at `now`.
pub open spec fn window_expiry(l: RateLimiter, key: Seq<u8>, now: u64) -> Option<u64> {
    match found_counter(l.entries@, key) {
        Some(e) => if e.expires_at > now {
            Some(e.expires_at)
        } else {
            None
        },
        None => None,
    }
}

/// The decision for one admission against a window holding `c` earlier ones:
/// the increment lands first, then the total is held against the capacity.
pub open spec fn window_decision(c: u64, max: u64) -> Decision {
    if c + 1 <= max {
        Decision::Allow
    } else {
        Decision::Reject
    }
}

/// The fixed-window law: of consecutive admissions within one window, number
/// `k` is allowed exactly while `k` is within capacity — the first `max` all
/// pass and every later one is rejected — and the first admission of a fresh
/// window always passes.
pub proof fn lemma_fixed_window(max: u64, k: u64)
    requires
        1 <= k,
        max < u64::MAX,
    ensures
        k <= max ==> window_decision((k - 1) as u64, max) == Decision::Allow,
        k > max ==> window_decision((k - 1) as u64, max) == Decision::Reject,
        max >= 1 ==> window_decision(0, max) == Decision::Allow,
{
}

/// Updating one entry in place never touches what other keys find, and the
/// key itself finds the new entry when it sat at the first match.
proof fn lemma_found_update(es: Seq<CounterEntry>, i: int, e: CounterEntry, key2: Seq<u8>)
    requires
        0 <= i < es.len(),
        es[i].key@ == e.key@,
        forall|j: int| 0 <= j < i ==> (#[trigger] es[j]).key@ != e.key@,
    ensures
        key2 == e.key@ ==> found_counter(es.update(i, e), key2) == Some(e),
        key2 != e.key@ ==> found_counter(es.update(i, e), key2) == found_counter(es, key2),
    decreases i,
{
    let es2 = es.update(i, e);
    if i == 0 {
        assert(es2[0] == e);
        assert(es2.skip(1) =~= es.skip(1));
    } else {
        assert(es2[0] == es[0]);
        assert(es2.skip(1) =~= es.skip(1).update(i - 1, e));
        lemma_found_update(es.skip(1), i - 1, e, key2);
    }
}

/// Appending an entry for a key nothing holds yet: the key finds it, other
/// keys find what they found.
proof fn lemma_found_push(es: Seq<CounterEntry>, e: CounterEntry, key2: Seq<u8>)
    requires
        found_counter(es, e.key@) is None,
    ensures
        key2 == e.key@ ==> found_counter(es.push(e), key2) == Some(e),
        key2 != e.key@ ==> found_counter(es.push(e), key2) == found_counter(es, key2),
    decreases es.len(),
{
    if es.len() == 0 {
        assert(es.push(e)[0] == e);
        assert(es.push(e).skip(1) =~= Seq::<CounterEntry>::empty());
        assert(found_counter(es.push(e).skip(1), key2) is None);
    } else {
        assert(es.push(e)[0] == es[0]);
        assert(es.push(e).skip(1) =~= es.skip(1).push(e));
        lemma_found_push(es.skip(1), e, key2);
    }
}

/// A missing key means no index holds it; a found key means some index does.
proof fn lemma_found_index(es: Seq<CounterEntry>, key: Seq<u8>, i: int)
    requires
        0 <= i <= es.len(),
        forall|j: int| 0 <= j < i ==> (#[trigger] es[j]).key@ != key,
    ensures
        i == es.len() ==> found_counter(es, key) is None,
        i < es.len() && es[i].key@ == key ==> found_counter(es, key) == Some(es[i]),
    decreases i,
{
    if i > 0 {
        lemma_found_index(es.skip(1), key, i - 1);
        if i < es.len() && es[i].key@ == key {
            assert(es.skip(1)[i - 1] == es[i]);
        }
    }
}

impl RateLimiter {
    /// A limiter with the given window and capacity and no counters.
    pub fn new(interval_secs: u64, max_requests: u64) -> (r: Self)
        ensures
            r.interval_secs == interval_secs,
            r.max_requests == max_requests,
            limiter_wf(r),
            forall|k: Seq<u8>, now: u64| window_count(r, k, now) == 0,
    {
        RateLimiter { interval_secs, max_requests, entries: Vec::new() }
    }

    /// Count one request under `key` at `now` and decide whether it may pass.
    ///
    /// The key's current window count rises by one, a lapsed or absent
    /// window is opened fresh for `interval_secs`, and the request passes
    /// exactly when the new count is within capacity. Other keys' windows
    /// are untouched.
    pub fn permit(&mut self, key: &Vec<u8>, now: u64) -> (r: Decision)
        requires
            limiter_wf(*old(self)),
            old(self).interval_secs >= 1,
            now + old(self).interval_secs <= u64::MAX,
            window_count(*old(self), key@, now) < u64::MAX,
        ensures
            limiter_wf(*final(self)),
            final(self).interval_secs == old(self).interval_secs,
            final(self).max_requests == old(self).max_requests,
            window_count(*final(self), key@, now) == window_count(*old(self), key@, now) + 1,
            window_expiry(*final(self), key@, now) == (match window_expiry(
                *old(self),
                key@,
                now,
            ) {
                Some(e) => Some(e),
                None => Some((now + old(self).interval_secs) as u64),
            }),
            r == window_decision(window_count(*old(self), key@, now), old(self).max_requests),
            forall|k2: Seq<u8>, t: u64|
                k2 != key@ ==> window_count(*final(self), k2, t) == window_count(*old(self), k2, t)
                    && window_expiry(*final(self), k2, t) == window_expiry(*old(self), k2, t),
    {
        let ghost old_entries = self.entries@;
        let mut i: usize = 0;
        let n = self.entries.len();
        while i < n
            invariant
                n == self.entries@.len(),
                i <= n,
                forall|j: int| 0 <= j < i ==> (#[trigger] self.entries@[j]).key@ != key@,
                self.entries@ == old_entries,
                old_entries == old(self).entries@,
                self.interval_secs == old(self).interval_secs,
                self.max_requests == old(self).max_requests,
                limiter_wf(*old(self)),
                old(self).interval_secs >= 1,
                now + old(self).interval_secs <= u64::MAX,
                window_count(*old(self), key@, now) < u64::MAX,
            decreases n - i,
        {
            if crate::codec::ct_eq(&self.entries[i].key, key) {
                proof {
                    lemma_found_index(old_entries, key@, i as int);
                }
                let live = self.entries[i].expires_at > now;
                let old_count = if live {
                    self.entries[i].count
                } else {
                    0
                };
                proof {
                    assert(old_entries == old(self).entries@);
                    assert(found_counter(old(self).entries@, key@) == Some(old_entries[i as int]));
                    assert(old_count == window_count(*old(self), key@, now));
                }
                let new_count = old_count + 1;
                let expires = if live {
                    self.entries[i].expires_at
                } else {
                    now + self.interval_secs
                };
                let entry = CounterEntry {
                    key: vec_dup(key),
                    expires_at: expires,
                    count: new_count,
                };
                let ghost ge = entry;
                self.entries.set(i, entry);
                proof {
                    assert(self.entries@ == old_entries.update(i as int, ge));
                    lemma_found_update(old_entries, i as int, ge, key@);
                    assert forall|k2: Seq<u8>| k2 != key@ implies found_counter(self.entries@, k2)
                        == found_counter(old_entries, k2) by {
                        lemma_found_update(old_entries, i as int, ge, k2);
                    }
                    assert forall|a: int, b: int|
                        0 <= a < b < self.entries@.len() implies (
                    #[trigger] self.entries@[a]).key@ != (#[trigger] self.entries@[b]).key@ by {
                        assert(old(self).entries@[a].key@ != old(self).entries@[b].key@);
                        assert(old_entries == old(self).entries@);
                        if a == i as int {
                            assert(self.entries@[a] == ge && self.entries@[b] == old_entries[b]);
                            assert(ge.key@ == old_entries[a].key@);
                        } else if b == i as int {
                            assert(self.entries@[b] == ge && self.entries@[a] == old_entries[a]);
                            assert(ge.key@ == old_entries[b].key@);
                        } else {
                            assert(self.entries@[a] == old_entries[a] && self.entries@[b]
                                == old_entries[b]);
                        }
                    }
                }
                if new_count <= self.max_requests {
                    return Decision::Allow;
                } else {
                    return Decision::Reject;
                }
            }
            i += 1;
        }
        proof {
            lemma_found_index(old_entries, key@, n as int);
        }
        let entry = CounterEntry {
            key: vec_dup(key),
            expires_at: now + self.interval_secs,
            count: 1,
        };
        let ghost ge = entry;
        self.entries.push(entry);
        proof {
            assert(self.entries@ == old_entries.push(ge));
            lemma_found_push(old_entries, ge, key@);
            assert forall|k2: Seq<u8>| k2 != key@ implies found_counter(self.entries@, k2)
                == found_counter(old_entries, k2) by {
                lemma_found_push(old_entries, ge, k2);
            }
            assert forall|a: int, b: int|
                0 <= a < b < self.entries@.len() implies (#[trigger] self.entries@[a]).key@ != (
            #[trigger] self.entries@[b]).key@ by {
                if b < old_entries.len() {
                    assert(old_entries[a].key@ != old_entries[b].key@);
                } else {
                    assert(self.entries@[b] == ge);
                    assert(old_entries[a].key@ != key@);
                }
            }
        }
        if 1 <= self.max_requests {
            Decision::Allow
        } else {
            Decision::Reject
        }
    }
}

/// A fresh copy of a byte string.
pub fn vec_dup(v: &Vec<u8>) -> (r: Vec<u8>)
    ensures
        r@ == v@,
{
    let mut out: Vec<u8> = Vec::new();
    let mut i: usize = 0;
    while i < v.len()
        invariant
            i <= v@.len(),
            out@ == v@.take(i as int),
        decreases v@.len() - i,
    {
        out.push(v[i]);
        proof {
            assert(v@.take(i as int) + seq![v@[i as int]] =~= v@.take(i + 1));
        }
        i += 1;
    }
    proof {
        assert(v@.take(v@.len() as int) =~= v@);
    }
    out
}

/// The throttling key of a request: the caller's identity, or nothing, in
/// front of the remote address.
pub fn rate_key(identity: Option<&Vec<u8>>, remote: &Vec<u8>) -> (r: Vec<u8>)
    ensures
        r@ == (match identity {
            Some(id) => id@ + remote@,
            None => remote@,
        }),
{
    let ghost expected = match identity {
        Some(id) => id@ + remote@,
        None => remote@,
    };
    let mut out: Vec<u8> = match identity {
        Some(id) => vec_dup(id),
        None => Vec::new(),
    };
    let mut j: usize = 0;
    let ghost pre = out@;
    proof {
        assert(pre + remote@.take(0) =~= pre);
    }
    while j < remote.len()
        invariant
            j <= remote@.len(),
            out@ == pre + remote@.take(j as int),
        decreases remote@.len() - j,
    {
        out.push(remote[j]);
        proof {
            assert(pre + remote@.take(j as int) + seq![remote@[j as int]] =~= pre + remote@.take(
                j + 1,
            ));
        }
        j += 1;
    }
    proof {
        assert(remote@.take(remote@.len() as int) =~= remote@);
        assert(pre + remote@ =~= expected);
    }
    out
}

/// The limiter the application mounts on its routes: a 30-second window with
/// room for 200 admissions per key.
pub fn get_ip_rate_limiter() -> (r: RateLimiter)
    ensures
        r.interval_secs == 30,
        r.max_requests == 200,
        limiter_wf(r),
        forall|k: Seq<u8>, now: u64| window_count(r, k, now) == 0,
{
    RateLimiter::new(30, 200)
}

} // verus!
