//! The shared, TTL-based session store: field maps keyed by session id, as
//! the store-backed identity variant and the login flow use them. Every
//! operation takes the clock as a value, and a record whose TTL has lapsed
//! counts as absent.

use vstd::prelude::*;

use crate::ratelimit::vec_dup;

verus! {

/// One session: its id, its field map, and when its TTL lapses.
pub struct SessionRecord {
    pub sid: Vec<u8>,
    pub fields: Vec<(Vec<u8>, Vec<u8>)>,
    pub expires_at: u64,
}

/// The shared store: a configured TTL and the records.
pub struct SessionStore {
    pub ttl_secs: u64,
    pub records: Vec<SessionRecord>,
}

/// The first value stored under a field name, if any.
pub open spec fn field_of(fs: Seq<(Vec<u8>, Vec<u8>)>, name: Seq<u8>) -> Option<Seq<u8>>
    decreases fs.len(),
{
    if fs.len() == 0 {
        None
    } else if fs[0].0@ == name {
        Some(fs[0].1@)
    } else {
        field_of(fs.skip(1), name)
    }
}

/// The first record stored under a session id, if any.
pub open spec fn found_record(rs: Seq<SessionRecord>, sid: Seq<u8>) -> Option<SessionRecord>
    decreases rs.len(),
{
    if rs.len() == 0 {
        None
    } else if rs[0].sid@ == sid {
        Some(rs[0])
    } else {
        found_record(rs.skip(1), sid)
    }
}

/// At most one record per session id.
pub open spec fn store_wf(s: SessionStore) -> bool {
    forall|i: int, j: int|
        0 <= i < j < s.records@.len() ==> (#[trigger] s.records@[i]).sid@ != (
        #[trigger] s.records@[j]).sid@
}

/// Is the session there and still within its TTL?
pub open spec fn session_live(s: SessionStore, sid: Seq<u8>, now: u64) -> bool {
    match found_record(s.records@, sid) {
        Some(r) => r.expires_at > now,
        None => false,
    }
}

/// When the session's TTL lapses, if the session is there at all.
pub open spec fn session_expiry(s: SessionStore, sid: Seq<u8>) -> Option<u64> {
    match found_record(s.records@, sid) {
        Some(r) => Some(r.expires_at),
        None => None,
    }
}

/// The value under a field of the session, TTL aside.
pub open spec fn session_field(s: SessionStore, sid: Seq<u8>, name: Seq<u8>) -> Option<Seq<u8>> {
    match found_record(s.records@, sid) {
        Some(r) => field_of(r.fields@, name),
        None => None,
    }
}

/// What `get` returns: the field's value while the session is live, nothing
/// once the TTL has lapsed.
pub open spec fn session_get(s: SessionStore, sid: Seq<u8>, name: Seq<u8>, now: u64) -> Option<
    Seq<u8>,
> {
    if session_live(s, sid, now) {
        session_field(s, sid, name)
    } else {
        None
    }
}

/// Field lookup sees only the views of the pairs.
proof fn lemma_field_congruent(a: Seq<(Vec<u8>, Vec<u8>)>, b: Seq<(Vec<u8>, Vec<u8>)>, name: Seq<u8>)
    requires
        a.len() == b.len(),
        forall|j: int| 0 <= j < a.len() ==> (#[trigger] a[j]).0@ == b[j].0@ && a[j].1@ == b[j].1@,
    ensures
        field_of(a, name) == field_of(b, name),
    decreases a.len(),
{
    if a.len() > 0 {
        assert(a.skip(1).len() == b.skip(1).len());
        assert forall|j: int| 0 <= j < a.skip(1).len() implies (#[trigger] a.skip(1)[j]).0@ == b.skip(
            1,
        )[j].0@ && a.skip(1)[j].1@ == b.skip(1)[j].1@ by {
            assert(a.skip(1)[j] == a[j + 1] && b.skip(1)[j] == b[j + 1]);
        }
        lemma_field_congruent(a.skip(1), b.skip(1), name);
    }
}

/// Scanning for a session id decides what `found_record` returns.
proof fn lemma_record_index(rs: Seq<SessionRecord>, sid: Seq<u8>, i: int)
    requires
        0 <= i <= rs.len(),
        forall|j: int| 0 <= j < i ==> (#[trigger] rs[j]).sid@ != sid,
    ensures
        i == rs.len() ==> found_record(rs, sid) is None,
        i < rs.len() && rs[i].sid@ == sid ==> found_record(rs, sid) == Some(rs[i]),
    decreases i,
{
    if i > 0 {
        lemma_record_index(rs.skip(1), sid, i - 1);
        if i < rs.len() && rs[i].sid@ == sid {
            assert(rs.skip(1)[i - 1] == rs[i]);
        }
    }
}

/// Scanning for a field name decides what `field_of` returns.
pub(crate) proof fn lemma_field_index(fs: Seq<(Vec<u8>, Vec<u8>)>, name: Seq<u8>, i: int)
    requires
        0 <= i <= fs.len(),
        forall|j: int| 0 <= j < i ==> (#[trigger] fs[j]).0@ != name,
    ensures
        i == fs.len() ==> field_of(fs, name) is None,
        i < fs.len() && fs[i].0@ == name ==> field_of(fs, name) == Some(fs[i].1@),
    decreases i,
{
    if i > 0 {
        lemma_field_index(fs.skip(1), name, i - 1);
        if i < fs.len() && fs[i].0@ == name {
            assert(fs.skip(1)[i - 1] == fs[i]);
        }
    }
}

/// Replacing the first record of a session id in place: that id finds the
/// new record, every other id finds what it found.
proof fn lemma_record_update(rs: Seq<SessionRecord>, i: int, r: SessionRecord, sid2: Seq<u8>)
    requires
        0 <= i < rs.len(),
        rs[i].sid@ == r.sid@,
        forall|j: int| 0 <= j < i ==> (#[trigger] rs[j]).sid@ != r.sid@,
    ensures
        sid2 == r.sid@ ==> found_record(rs.update(i, r), sid2) == Some(r),
        sid2 != r.sid@ ==> found_record(rs.update(i, r), sid2) == found_record(rs, sid2),
    decreases i,
{
    let rs2 = rs.update(i, r);
    if i == 0 {
        assert(rs2[0] == r);
        assert(rs2.skip(1) =~= rs.skip(1));
    } else {
        assert(rs2[0] == rs[0]);
        assert(rs2.skip(1) =~= rs.skip(1).update(i - 1, r));
        lemma_record_update(rs.skip(1), i - 1, r, sid2);
    }
}

/// Appending a record for an id nothing holds yet.
proof fn lemma_record_push(rs: Seq<SessionRecord>, r: SessionRecord, sid2: Seq<u8>)
    requires
        found_record(rs, r.sid@) is None,
    ensures
        sid2 == r.sid@ ==> found_record(rs.push(r), sid2) == Some(r),
        sid2 != r.sid@ ==> found_record(rs.push(r), sid2) == found_record(rs, sid2),
    decreases rs.len(),
{
    if rs.len() == 0 {
        assert(rs.push(r)[0] == r);
        assert(rs.push(r).skip(1) =~= Seq::<SessionRecord>::empty());
        assert(found_record(rs.push(r).skip(1), sid2) is None);
    } else {
        assert(rs.push(r)[0] == rs[0]);
        assert(rs.push(r).skip(1) =~= rs.skip(1).push(r));
        lemma_record_push(rs.skip(1), r, sid2);
    }
}

/// Removing the only record of a session id: that id finds nothing, every
/// other id finds what it found.
proof fn lemma_record_remove(rs: Seq<SessionRecord>, i: int, sid2: Seq<u8>)
    requires
        0 <= i < rs.len(),
        forall|j: int| 0 <= j < rs.len() && j != i ==> (#[trigger] rs[j]).sid@ != rs[i].sid@,
    ensures
        sid2 == rs[i].sid@ ==> found_record(rs.remove(i), sid2) is None,
        sid2 != rs[i].sid@ ==> found_record(rs.remove(i), sid2) == found_record(rs, sid2),
    decreases rs.len(),
{
    let rs2 = rs.remove(i);
    if i == 0 {
        assert(rs2 =~= rs.skip(1));
        if sid2 == rs[0].sid@ {
            assert forall|j: int| 0 <= j < rs2.len() implies (#[trigger] rs2[j]).sid@ != sid2 by {
                assert(rs2[j] == rs[j + 1]);
            }
            lemma_record_none(rs2, sid2);
        }
    } else {
        assert(rs2[0] == rs[0]);
        assert(rs2.skip(1) =~= rs.skip(1).remove(i - 1));
        assert forall|j: int|
            0 <= j < rs.skip(1).len() && j != i - 1 implies (#[trigger] rs.skip(1)[j]).sid@ != rs.skip(
            1,
        )[i - 1].sid@ by {
            assert(rs.skip(1)[j] == rs[j + 1] && rs.skip(1)[i - 1] == rs[i]);
        }
        lemma_record_remove(rs.skip(1), i - 1, sid2);
        assert(rs.skip(1)[i - 1] == rs[i]);
    }
}

/// An id no record carries is not found.
proof fn lemma_record_none(rs: Seq<SessionRecord>, sid: Seq<u8>)
    requires
        forall|j: int| 0 <= j < rs.len() ==> (#[trigger] rs[j]).sid@ != sid,
    ensures
        found_record(rs, sid) is None,
    decreases rs.len(),
{
    if rs.len() > 0 {
        assert forall|j: int| 0 <= j < rs.skip(1).len() implies (#[trigger] rs.skip(1)[j]).sid@
            != sid by {
            assert(rs.skip(1)[j] == rs[j + 1]);
        }
        lemma_record_none(rs.skip(1), sid);
    }
}

/// The index of the first record under a session id.
fn find_sid(records: &Vec<SessionRecord>, sid: &Vec<u8>) -> (r: Option<usize>)
    ensures
        match r {
            Some(i) => i < records@.len() && records@[i as int].sid@ == sid@ && (forall|j: int|
                0 <= j < i ==> (#[trigger] records@[j]).sid@ != sid@),
            None => found_record(records@, sid@) is None,
        },
{
    let mut i: usize = 0;
    while i < records.len()
        invariant
            i <= records@.len(),
            forall|j: int| 0 <= j < i ==> (#[trigger] records@[j]).sid@ != sid@,
        decreases records@.len() - i,
    {
        if crate::codec::ct_eq(&records[i].sid, sid) {
            return Some(i);
        }
        i += 1;
    }
    proof {
        lemma_record_none(records@, sid@);
    }
    None
}

/// A fresh copy of a field map, pair for pair.
fn fields_dup(fs: &Vec<(Vec<u8>, Vec<u8>)>) -> (r: Vec<(Vec<u8>, Vec<u8>)>)
    ensures
        r@.len() == fs@.len(),
        forall|j: int|
            0 <= j < fs@.len() ==> (#[trigger] r@[j]).0@ == fs@[j].0@ && r@[j].1@ == fs@[j].1@,
{
    let mut out: Vec<(Vec<u8>, Vec<u8>)> = Vec::new();
    let mut i: usize = 0;
    while i < fs.len()
        invariant
            i <= fs@.len(),
            out@.len() == i,
            forall|j: int|
                0 <= j < i ==> (#[trigger] out@[j]).0@ == fs@[j].0@ && out@[j].1@ == fs@[j].1@,
        decreases fs@.len() - i,
    {
        let k = vec_dup(&fs[i].0);
        let v = vec_dup(&fs[i].1);
        out.push((k, v));
        i += 1;
    }
    out
}

/// The field map with `name` now bound to `value`: the new binding stands in
/// front, so it wins every lookup, and every other name reads as before.
fn fields_set(fs: &Vec<(Vec<u8>, Vec<u8>)>, name: &Vec<u8>, value: &Vec<u8>) -> (r: Vec<
    (Vec<u8>, Vec<u8>),
>)
    ensures
        field_of(r@, name@) == Some(value@),
        forall|n2: Seq<u8>| n2 != name@ ==> field_of(r@, n2) == field_of(fs@, n2),
{
    let mut out: Vec<(Vec<u8>, Vec<u8>)> = Vec::new();
    out.push((vec_dup(name), vec_dup(value)));
    let mut i: usize = 0;
    while i < fs.len()
        invariant
            i <= fs@.len(),
            out@.len() == i + 1,
            out@[0].0@ == name@ && out@[0].1@ == value@,
            forall|j: int|
                1 <= j < i + 1 ==> (#[trigger] out@[j]).0@ == fs@[j - 1].0@ && out@[j].1@ == fs@[j
                    - 1].1@,
        decreases fs@.len() - i,
    {
        let k = vec_dup(&fs[i].0);
        let v = vec_dup(&fs[i].1);
        out.push((k, v));
        i += 1;
    }
    proof {
        assert(field_of(out@, name@) == Some(value@));
        assert forall|n2: Seq<u8>| n2 != name@ implies field_of(out@, n2) == field_of(fs@, n2) by {
            assert(field_of(out@, n2) == field_of(out@.skip(1), n2));
            assert(out@.skip(1).len() == fs@.len());
            assert forall|j: int| 0 <= j < fs@.len() implies (#[trigger] out@.skip(1)[j]).0@
                == fs@[j].0@ && out@.skip(1)[j].1@ == fs@[j].1@ by {
                assert(out@.skip(1)[j] == out@[j + 1]);
            }
            lemma_field_congruent(out@.skip(1), fs@, n2);
        }
    }
    out
}

/// A field map holding one binding.
fn single_field(name: &Vec<u8>, value: &Vec<u8>) -> (r: Vec<(Vec<u8>, Vec<u8>)>)
    ensures
        field_of(r@, name@) == Some(value@),
        forall|n2: Seq<u8>| n2 != name@ ==> field_of(r@, n2) is None,
{
    let mut out: Vec<(Vec<u8>, Vec<u8>)> = Vec::new();
    let k = vec_dup(name);
    let v = vec_dup(value);
    out.push((k, v));
    proof {
        assert(out@.len() == 1 && out@[0].0@ == name@ && out@[0].1@ == value@);
        assert(out@.skip(1).len() == 0);
        assert(field_of(out@, name@) == Some(value@));
        assert forall|n2: Seq<u8>| n2 != name@ implies field_of(out@, n2) is None by {
            assert(field_of(out@, n2) == field_of(out@.skip(1), n2));
        }
    }
    out
}

impl SessionStore {
    /// An empty store whose records will live `ttl_minutes` minutes; the TTL
    /// is carried in the store's native seconds.
    pub fn new(ttl_minutes: u64) -> (r: Self)
        requires
            1 <= ttl_minutes * 60 <= u64::MAX,
        ensures
            r.ttl_secs == ttl_minutes * 60,
            r.records@.len() == 0,
            store_wf(r),
            forall|sid: Seq<u8>| found_record(r.records@, sid) is None,
    {
        SessionStore { ttl_secs: ttl_minutes * 60, records: Vec::new() }
    }

    /// Read one field of a live session.
    pub fn get(&self, sid: &Vec<u8>, name: &Vec<u8>, now: u64) -> (r: Option<Vec<u8>>)
        ensures
            match r {
                Some(v) => session_get(*self, sid@, name@, now) == Some(v@),
                None => session_get(*self, sid@, name@, now) is None,
            },
    {
        let i = match find_sid(&self.records, sid) {
            None => {
                return None;
            },
            Some(i) => i,
        };
        proof {
            lemma_record_index(self.records@, sid@, i as int);
        }
        if self.records[i].expires_at <= now {
            return None;
        }
        let fs = &self.records[i].fields;
        let mut j: usize = 0;
        while j < fs.len()
            invariant
                j <= fs@.len(),
                forall|k: int| 0 <= k < j ==> (#[trigger] fs@[k]).0@ != name@,
                session_field(*self, sid@, name@) == field_of(fs@, name@),
                session_live(*self, sid@, now),
            decreases fs@.len() - j,
        {
            if crate::codec::ct_eq(&fs[j].0, name) {
                proof {
                    lemma_field_index(fs@, name@, j as int);
                }
                return Some(vec_dup(&fs[j].1));
            }
            j += 1;
        }
        proof {
            lemma_field_index(fs@, name@, fs@.len() as int);
        }
        None
    }

    /// Bind one field of the session. A live session keeps its TTL — setting
    /// a field never silently extends it — and a lapsed or absent session is
    /// opened fresh for the configured TTL with only this field.
    pub fn set(&mut self, sid: &Vec<u8>, name: &Vec<u8>, value: &Vec<u8>, now: u64)
        requires
            store_wf(*old(self)),
            old(self).ttl_secs >= 1,
            now + old(self).ttl_secs <= u64::MAX,
        ensures
            store_wf(*final(self)),
            final(self).ttl_secs == old(self).ttl_secs,
            session_live(*final(self), sid@, now),
            session_field(*final(self), sid@, name@) == Some(value@),
            session_expiry(*final(self), sid@) == (if session_live(*old(self), sid@, now) {
                session_expiry(*old(self), sid@)
            } else {
                Some((now + old(self).ttl_secs) as u64)
            }),
            forall|n2: Seq<u8>|
                n2 != name@ ==> session_field(*final(self), sid@, n2) == (if session_live(
                    *old(self),
                    sid@,
                    now,
                ) {
                    session_field(*old(self), sid@, n2)
                } else {
                    None
                }),
            forall|s2: Seq<u8>|
                s2 != sid@ ==> found_record(final(self).records@, s2) == found_record(
                    old(self).records@,
                    s2,
                ),
    {
        let ghost old_records = self.records@;
        let found = find_sid(&self.records, sid);
        match found {
            Some(i) => {
                proof {
                    lemma_record_index(self.records@, sid@, i as int);
                }
                let live = self.records[i].expires_at > now;
                let expires = if live {
                    self.records[i].expires_at
                } else {
                    now + self.ttl_secs
                };
                let new_fields = if live {
                    fields_set(&self.records[i].fields, name, value)
                } else {
                    single_field(name, value)
                };
                let rec = SessionRecord { sid: vec_dup(sid), fields: new_fields, expires_at: expires };
                let ghost grec = rec;
                self.records.set(i, rec);
                proof {
                    lemma_record_update(old_records, i as int, grec, sid@);
                    assert forall|s2: Seq<u8>| s2 != sid@ implies found_record(self.records@, s2)
                        == found_record(old_records, s2) by {
                        lemma_record_update(old_records, i as int, grec, s2);
                    }
                    assert forall|a: int, b: int|
                        0 <= a < b < self.records@.len() implies (
                    #[trigger] self.records@[a]).sid@ != (#[trigger] self.records@[b]).sid@ by {
                        assert(old(self).records@[a].sid@ != old(self).records@[b].sid@);
                        if a == i as int {
                            assert(self.records@[a] == grec && self.records@[b] == old_records[b]);
                            assert(grec.sid@ == old_records[a].sid@);
                        } else if b == i as int {
                            assert(self.records@[b] == grec && self.records@[a] == old_records[a]);
                            assert(grec.sid@ == old_records[b].sid@);
                        } else {
                            assert(self.records@[a] == old_records[a] && self.records@[b]
                                == old_records[b]);
                        }
                    }
                }
            },
            None => {
                let nf = single_field(name, value);
                let rec = SessionRecord {
                    sid: vec_dup(sid),
                    fields: nf,
                    expires_at: now + self.ttl_secs,
                };
                let ghost grec = rec;
                self.records.push(rec);
                proof {
                    lemma_record_push(old_records, grec, sid@);
                    assert forall|s2: Seq<u8>| s2 != sid@ implies found_record(self.records@, s2)
                        == found_record(old_records, s2) by {
                        lemma_record_push(old_records, grec, s2);
                    }
                    assert forall|a: int, b: int|
                        0 <= a < b < self.records@.len() implies (
                    #[trigger] self.records@[a]).sid@ != (#[trigger] self.records@[b]).sid@ by {
                        if b < old_records.len() {
                            assert(old(self).records@[a].sid@ != old(self).records@[b].sid@);
                        } else {
                            assert(self.records@[b] == grec);
                            assert(self.records@[a] == old_records[a]);
                            lemma_record_index_rev(old_records, sid@, a);
                        }
                    }
                }
            },
        }
    }

    /// Re-arm a live session's TTL to the configured length from `now`; a
    /// lapsed or absent session is left as it is.
    pub fn renew(&mut self, sid: &Vec<u8>, now: u64)
        requires
            store_wf(*old(self)),
            now + old(self).ttl_secs <= u64::MAX,
        ensures
            store_wf(*final(self)),
            final(self).ttl_secs == old(self).ttl_secs,
            session_live(*old(self), sid@, now) ==> session_expiry(*final(self), sid@) == Some(
                (now + old(self).ttl_secs) as u64,
            ),
            !session_live(*old(self), sid@, now) ==> final(self).records@ == old(self).records@,
            forall|n2: Seq<u8>|
                session_field(*final(self), sid@, n2) == session_field(*old(self), sid@, n2),
            forall|s2: Seq<u8>|
                s2 != sid@ ==> found_record(final(self).records@, s2) == found_record(
                    old(self).records@,
                    s2,
                ),
    {
        let ghost old_records = self.records@;
        let found = find_sid(&self.records, sid);
        match found {
            Some(i) => {
                proof {
                    lemma_record_index(self.records@, sid@, i as int);
                }
                if self.records[i].expires_at > now {
                    let nf = fields_dup(&self.records[i].fields);
                    let rec = SessionRecord {
                        sid: vec_dup(sid),
                        fields: nf,
                        expires_at: now + self.ttl_secs,
                    };
                    let ghost grec = rec;
                    self.records.set(i, rec);
                    proof {
                        lemma_record_update(old_records, i as int, grec, sid@);
                        assert forall|s2: Seq<u8>| s2 != sid@ implies found_record(
                            self.records@,
                            s2,
                        ) == found_record(old_records, s2) by {
                            lemma_record_update(old_records, i as int, grec, s2);
                        }
                        assert forall|n2: Seq<u8>| true implies field_of(grec.fields@, n2)
                            == field_of(old_records[i as int].fields@, n2) by {
                            lemma_field_congruent(grec.fields@, old_records[i as int].fields@, n2);
                        }
                        assert forall|a: int, b: int|
                            0 <= a < b < self.records@.len() implies (
                        #[trigger] self.records@[a]).sid@ != (#[trigger] self.records@[b]).sid@ by {
                            assert(old(self).records@[a].sid@ != old(self).records@[b].sid@);
                            if a == i as int {
                                assert(self.records@[a] == grec && self.records@[b]
                                    == old_records[b]);
                                assert(grec.sid@ == old_records[a].sid@);
                            } else if b == i as int {
                                assert(self.records@[b] == grec && self.records@[a]
                                    == old_records[a]);
                                assert(grec.sid@ == old_records[b].sid@);
                            } else {
                                assert(self.records@[a] == old_records[a] && self.records@[b]
                                    == old_records[b]);
                            }
                        }
                    }
                }
            },
            None => {},
        }
    }

    /// Destroy the session outright: nothing of it survives a later read,
    /// live or not.
    pub fn clear(&mut self, sid: &Vec<u8>)
        requires
            store_wf(*old(self)),
        ensures
            store_wf(*final(self)),
            final(self).ttl_secs == old(self).ttl_secs,
            found_record(final(self).records@, sid@) is None,
            forall|s2: Seq<u8>|
                s2 != sid@ ==> found_record(final(self).records@, s2) == found_record(
                    old(self).records@,
                    s2,
                ),
    {
        let ghost old_records = self.records@;
        let found = find_sid(&self.records, sid);
        match found {
            Some(i) => {
                proof {
                    assert forall|j: int|
                        0 <= j < old_records.len() && j != i as int implies (
                    #[trigger] old_records[j]).sid@ != old_records[i as int].sid@ by {
                        if j < i as int {
                        } else {
                            assert(old(self).records@[i as int].sid@ != old(
                                self,
                            ).records@[j].sid@);
                        }
                    }
                }
                self.records.remove(i);
                proof {
                    lemma_record_remove(old_records, i as int, sid@);
                    assert forall|s2: Seq<u8>| s2 != sid@ implies found_record(self.records@, s2)
                        == found_record(old_records, s2) by {
                        lemma_record_remove(old_records, i as int, s2);
                    }
                    assert forall|a: int, b: int|
                        0 <= a < b < self.records@.len() implies (
                    #[trigger] self.records@[a]).sid@ != (#[trigger] self.records@[b]).sid@ by {
                        let a0 = if a < i as int {
                            a
                        } else {
                            a + 1
                        };
                        let b0 = if b < i as int {
                            b
                        } else {
                            b + 1
                        };
                        assert(self.records@[a] == old_records[a0]);
                        assert(self.records@[b] == old_records[b0]);
                        assert(old(self).records@[a0].sid@ != old(self).records@[b0].sid@);
                    }
                }
            },
            None => {},
        }
    }
}

/// A record appended for a new id clashes with no scanned prefix.
proof fn lemma_record_index_rev(rs: Seq<SessionRecord>, sid: Seq<u8>, a: int)
    requires
        0 <= a < rs.len(),
        found_record(rs, sid) is None,
    ensures
        rs[a].sid@ != sid,
    decreases a,
{
    if a == 0 {
    } else {
        lemma_record_index_rev(rs.skip(1), sid, a - 1);
        assert(rs.skip(1)[a - 1] == rs[a]);
    }
}

} // verus!
