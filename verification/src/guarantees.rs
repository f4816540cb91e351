//! What holds of the store whatever it contains: theorems about the
//! operations of [`Contents`], which the contracts of the store's functions
//! are stated in.

use crate::model::{absent, lemma_filter_all, lemma_filter_keys, other_than, Contents};
use crate::time_manager::{elapsed, expired, expiry_for};
use crate::value::Record;
use vstd::prelude::*;

verus! {

/// A read of the store: a lookup of a key or a listing, with the clock's
/// reading at which it is made.
pub enum Read {
    Get { key: Seq<char>, now: u64 },
    Stats { now: u64 },
}

impl Read {
    /// Whether the read is a lookup of `key`.
    pub open spec fn looks_up(self, key: Seq<char>) -> bool {
        match self {
            Read::Get { key: k, now } => k == key,
            Read::Stats { now } => false,
        }
    }
}

impl Contents {
    /// The contents after one read: a lookup may remove the record it finds
    /// past its expiry, a listing changes nothing.
    pub open spec fn after_read(self, read: Read, start: u64) -> Contents {
        match read {
            Read::Get { key, now } => self.looked_up(key, start, now),
            Read::Stats { now } => self,
        }
    }

    /// The contents after `reads`, made one after the other.
    pub open spec fn after_reads(self, reads: Seq<Read>, start: u64) -> Contents
        decreases reads.len(),
    {
        if reads.len() == 0 {
            self
        } else {
            self.after_reads(reads.drop_last(), start).after_read(reads.last(), start)
        }
    }
}

/// Putting a record keeps the contents well formed.
pub proof fn put_keeps_wf(c: Contents, key: Seq<char>, record: Record)
    requires
        c.wf(),
    ensures
        c.put(key, record).wf(),
{
    let p = c.put(key, record);
    if !c.map.contains_key(key) {
        assert(!c.order.contains(key));
        assert forall|a: int, b: int| 0 <= a < p.order.len() && 0 <= b < p.order.len() && a
            != b implies p.order[a] != p.order[b] by {
            if a < c.order.len() && b < c.order.len() {
            } else if a < c.order.len() {
                assert(c.order.contains(c.order[a]));
            } else {
                assert(c.order.contains(c.order[b]));
            }
        }
        assert(p.order[c.order.len() as int] == key);
    }
    assert forall|k: Seq<char>|
        #![trigger p.map.contains_key(k)]
        #![trigger p.order.contains(k)]
        p.map.contains_key(k) <==> p.order.contains(k) by {
        if c.order.contains(k) {
            let j = choose|j: int| 0 <= j < c.order.len() && c.order[j] == k;
            assert(p.order[j] == k);
        }
        if p.order.contains(k) {
            let j = choose|j: int| 0 <= j < p.order.len() && p.order[j] == k;
            if j < c.order.len() {
                assert(c.order[j] == k);
                assert(c.order.contains(k));
            }
        }
    }
}

/// Deleting a key keeps the contents well formed.
pub proof fn del_keeps_wf(c: Contents, key: Seq<char>)
    requires
        c.wf(),
    ensures
        c.del(key).wf(),
{
    lemma_filter_keys(c.order, other_than(key));
}

/// A lookup keeps the contents well formed.
pub proof fn lookup_keeps_wf(c: Contents, key: Seq<char>, start: u64, now: u64)
    requires
        c.wf(),
    ensures
        c.looked_up(key, start, now).wf(),
{
    del_keeps_wf(c, key);
}

/// Whatever line is carried out, the contents stay well formed.
pub proof fn process_keeps_wf(c: Contents, line: Seq<char>, start: u64, now: u64)
    requires
        c.wf(),
    ensures
        c.process(line, start, now).contents.wf(),
{
    let after = c.process(line, start, now).contents;
    assert(after.wf()) by {
        assert forall|k: Seq<char>, r: Record| #[trigger] c.put(k, r).wf() by {
            put_keeps_wf(c, k, r);
        }
        assert forall|k: Seq<char>| #[trigger] c.del(k).wf() by {
            del_keeps_wf(c, k);
        }
    }
}

/// A line that does not need the store exclusively leaves it as it was.
pub proof fn shared_lines_change_nothing(c: Contents, line: Seq<char>, start: u64, now: u64)
    requires
        !c.needs_exclusive(line, start, now),
    ensures
        c.process(line, start, now).contents == c,
{
}

/// A lookup of one key leaves the record under every other key as it was.
pub proof fn lookup_leaves_others(c: Contents, key: Seq<char>, other: Seq<char>, start: u64, now: u64)
    requires
        other != key,
    ensures
        c.looked_up(other, start, now).map.contains_key(key) == c.map.contains_key(key),
        c.looked_up(other, start, now).map[key] == c.map[key],
{
}

/// Reads that look up other keys leave the record under `key` as it was.
pub proof fn reads_leave_others(c: Contents, key: Seq<char>, reads: Seq<Read>, start: u64)
    requires
        forall|i: int| 0 <= i < reads.len() ==> !(#[trigger] reads[i]).looks_up(key),
    ensures
        c.after_reads(reads, start).map.contains_key(key) == c.map.contains_key(key),
        c.after_reads(reads, start).map[key] == c.map[key],
    decreases reads.len(),
{
    if reads.len() > 0 {
        let init = reads.drop_last();
        assert forall|i: int| 0 <= i < init.len() implies !(#[trigger] init[i]).looks_up(key) by {
            assert(init[i] == reads[i]);
        }
        reads_leave_others(c, key, init, start);
        assert(!reads[reads.len() - 1].looks_up(key));
    }
}

/// After `data` is set under `key` never to expire, a lookup of `key`
/// answers `data` with the never-expire marker and changes nothing, at
/// whatever time it is made and whatever lookups of other keys and listings
/// were made in between.
pub proof fn set_then_get(
    c: Contents,
    key: Seq<char>,
    data: Seq<char>,
    start: u64,
    set_time: u64,
    reads: Seq<Read>,
    get_time: u64,
)
    requires
        forall|i: int| 0 <= i < reads.len() ==> !(#[trigger] reads[i]).looks_up(key),
    ensures
        ({
            let s = c.set(key, data, -1i32, start, set_time).after_reads(reads, start);
            &&& s.found(key, start, get_time) == Record { data, ttl: -1i32 }
            &&& s.looked_up(key, start, get_time) == s
        }),
{
    reads_leave_others(c.set(key, data, -1i32, start, set_time), key, reads, start);
}

/// After a key is deleted, a lookup of it answers that it is absent and
/// changes nothing, whatever the store held before.
pub proof fn del_then_get(c: Contents, key: Seq<char>, start: u64, now: u64)
    ensures
        c.del(key).found(key, start, now) == absent(),
        c.del(key).looked_up(key, start, now) == c.del(key),
{
}

/// Deleting a key a second time changes nothing.
pub proof fn del_twice(c: Contents, key: Seq<char>)
    ensures
        c.del(key).del(key) == c.del(key),
{
    let d = c.del(key);
    let pred = other_than(key);
    assert(d.map.remove(key) =~= d.map);
    assert forall|i: int| 0 <= i < d.order.len() implies pred(#[trigger] d.order[i]) by {
        c.order.lemma_filter_pred(pred, i);
    }
    lemma_filter_all(d.order, pred);
}

/// Setting the same data under the same key with the same time-to-live a
/// second time, at the same reading of the clock, changes nothing; without
/// an expiry the readings need not be the same.
pub proof fn set_twice(
    c: Contents,
    key: Seq<char>,
    data: Seq<char>,
    ttl: i32,
    start: u64,
    first: u64,
    second: u64,
)
    requires
        first == second || ttl < 0,
    ensures
        c.set(key, data, ttl, start, first).set(key, data, ttl, start, second) == c.set(
            key,
            data,
            ttl,
            start,
            first,
        ),
{
    let once = c.set(key, data, ttl, start, first);
    let twice = once.set(key, data, ttl, start, second);
    assert(twice.map =~= once.map);
}

/// A record set with a time-to-live of zero is absent to every lookup made
/// after the clock has moved on, provided the clock had not been set back
/// behind its start when the record was set; the lookup removes it.
pub proof fn zero_ttl_expires(
    c: Contents,
    key: Seq<char>,
    data: Seq<char>,
    start: u64,
    set_time: u64,
    get_time: u64,
)
    requires
        start <= set_time < get_time,
    ensures
        ({
            let s = c.set(key, data, 0, start, set_time);
            &&& s.found(key, start, get_time) == absent()
            &&& s.looked_up(key, start, get_time) == s.del(key)
        }),
{
}

/// A record set with a time-to-live of zero is still found by a lookup made
/// at the same reading of the clock, as long as the seconds passed since
/// start fit the expiry.
pub proof fn zero_ttl_same_instant(
    c: Contents,
    key: Seq<char>,
    data: Seq<char>,
    start: u64,
    now: u64,
)
    requires
        elapsed(start, now) <= i32::MAX,
    ensures
        ({
            let s = c.set(key, data, 0, start, now);
            &&& s.found(key, start, now) == Record { data, ttl: elapsed(start, now) as i32 }
            &&& s.looked_up(key, start, now) == s
        }),
{
}

/// A listing shows a key if and only if it has a record that is not past its
/// expiry, and shows it once.
pub proof fn stats_shows_the_unexpired(c: Contents, start: u64, now: u64)
    requires
        c.wf(),
    ensures
        c.visible(start, now).no_duplicates(),
        forall|k: Seq<char>| #[trigger] c.visible(start, now).contains(k) <==> c.live(k, start, now),
{
    lemma_filter_keys(c.order, c.unexpired(start, now));
}

/// A lookup of a key whose record is past its expiry answers that it is
/// absent and removes the record, whether or not a listing passed it over
/// before.
pub proof fn get_removes_the_expired(c: Contents, key: Seq<char>, start: u64, now: u64)
    requires
        c.map.contains_key(key),
        expired(start, now, c.map[key].ttl),
    ensures
        c.found(key, start, now) == absent(),
        c.looked_up(key, start, now) == c.del(key),
        !c.looked_up(key, start, now).map.contains_key(key),
{
}

/// The expiry stored for a time-to-live that is not negative is not past
/// at the reading at which it was stored, as long as the seconds passed
/// since start plus the time-to-live fit the expiry.
pub proof fn fresh_expiry_is_not_past(start: u64, now: u64, ttl: i32)
    requires
        ttl < 0 || elapsed(start, now) + ttl <= i32::MAX,
    ensures
        !expired(start, now, expiry_for(start, now, ttl)),
{
}

} // verus!
