//! The store as a mathematical value: what it holds, what each operation
//! makes of it, and what a line of the protocol does to it.
//!
//! Every operation is a function of the contents, its arguments and two
//! clock readings: `start`, taken when the store was made, and `now`, taken
//! when the operation runs.

use crate::commands::{Argument, AvailableCommand, Failure};
use crate::text::{parse_int, render_int, words};
use crate::time_manager::{expired, expiry_for};
use crate::value::Record;
use vstd::prelude::*;

verus! {

/// What a lookup answers where there is nothing to find.
pub open spec fn absent() -> Record {
    Record { data: "(null)"@, ttl: -1i32 }
}

/// What a change to the store answers.
pub open spec fn acknowledged() -> Record {
    Record { data: "Ok"@, ttl: -1i32 }
}

/// What a ping answers.
pub open spec fn pong() -> Record {
    Record { data: "PONG"@, ttl: -1i32 }
}

/// The parts of a listing, with `|` between each two of them.
pub open spec fn join(parts: Seq<Seq<char>>) -> Seq<char>
    decreases parts.len(),
{
    if parts.len() == 0 {
        Seq::empty()
    } else if parts.len() == 1 {
        parts[0]
    } else {
        join(parts.drop_last()) + "|"@ + parts.last()
    }
}

/// One entry of a listing.
pub open spec fn entry_text(key: Seq<char>, record: Record) -> Seq<char> {
    "key="@ + key + ",value="@ + record.data + ",ttl="@ + render_int(record.ttl as int)
}

/// The test that a key is another than `key`.
pub open spec fn other_than(key: Seq<char>) -> spec_fn(Seq<char>) -> bool {
    |k: Seq<char>| k != key
}

/// What a store holds: a record under each key, and the order in which the
/// keys are walked.
pub struct Contents {
    pub map: Map<Seq<char>, Record>,
    pub order: Seq<Seq<char>>,
}

/// The result of a line: the contents after it, and the answer or the
/// failure.
pub struct Outcome {
    pub contents: Contents,
    pub answer: Result<Record, Failure>,
}

impl Contents {
    /// Every key that has a record is walked exactly once, and no other.
    pub open spec fn wf(self) -> bool {
        &&& self.order.no_duplicates()
        &&& forall|k: Seq<char>|
            #![trigger self.map.contains_key(k)]
            #![trigger self.order.contains(k)]
            self.map.contains_key(k) <==> self.order.contains(k)
    }

    /// The contents of a new store.
    pub open spec fn empty() -> Contents {
        Contents { map: Map::empty(), order: Seq::empty() }
    }

    /// The contents with `record` under `key`. A key that is new is walked
    /// last; one that was there keeps its place.
    pub open spec fn put(self, key: Seq<char>, record: Record) -> Contents {
        Contents {
            map: self.map.insert(key, record),
            order: if self.map.contains_key(key) {
                self.order
            } else {
                self.order.push(key)
            },
        }
    }

    /// The contents without `key`; the other keys keep their order.
    pub open spec fn del(self, key: Seq<char>) -> Contents {
        Contents {
            map: self.map.remove(key),
            order: self.order.filter(other_than(key)),
        }
    }

    /// The contents after `data` was set under `key` at `now` with a
    /// time-to-live of `ttl` seconds.
    pub open spec fn set(self, key: Seq<char>, data: Seq<char>, ttl: i32, start: u64, now: u64)
        -> Contents {
        self.put(key, Record { data, ttl: expiry_for(start, now, ttl) })
    }

    /// Whether `key` has a record that is not past its expiry at `now`.
    pub open spec fn live(self, key: Seq<char>, start: u64, now: u64) -> bool {
        self.map.contains_key(key) && !expired(start, now, self.map[key].ttl)
    }

    /// What a lookup of `key` at `now` answers.
    pub open spec fn found(self, key: Seq<char>, start: u64, now: u64) -> Record {
        if self.live(key, start, now) {
            self.map[key]
        } else {
            absent()
        }
    }

    /// The contents after a lookup of `key` at `now`: a record found past
    /// its expiry is removed, and nothing else changes.
    pub open spec fn looked_up(self, key: Seq<char>, start: u64, now: u64) -> Contents {
        if self.map.contains_key(key) && !self.live(key, start, now) {
            self.del(key)
        } else {
            self
        }
    }

    /// The test that a key's record is not past its expiry at `now`.
    pub open spec fn unexpired(self, start: u64, now: u64) -> spec_fn(Seq<char>) -> bool {
        |k: Seq<char>| !expired(start, now, self.map[k].ttl)
    }

    /// The entry that a listing shows for a key.
    pub open spec fn entry_of(self) -> spec_fn(Seq<char>) -> Seq<char> {
        |k: Seq<char>| entry_text(k, self.map[k])
    }

    /// The keys that a listing at `now` shows, in the order of the walk.
    pub open spec fn visible(self, start: u64, now: u64) -> Seq<Seq<char>> {
        self.order.filter(self.unexpired(start, now))
    }

    /// The entries of a listing of `keys`.
    pub open spec fn entries(self, keys: Seq<Seq<char>>) -> Seq<Seq<char>> {
        keys.map_values(self.entry_of())
    }

    /// What a listing at `now` answers.
    pub open spec fn stats(self, start: u64, now: u64) -> Record {
        Record { data: join(self.entries(self.visible(start, now))), ttl: -1i32 }
    }

    /// What `SET` does with its arguments.
    pub open spec fn handle_set(self, args: Seq<Seq<char>>, start: u64, now: u64) -> Outcome {
        if args.len() < 1 {
            self.refused(Failure::MissingArgument(AvailableCommand::SET, Argument::Key))
        } else if args.len() < 2 {
            self.refused(Failure::MissingArgument(AvailableCommand::SET, Argument::Value))
        } else if args.len() < 3 {
            Outcome { contents: self.set(args[0], args[1], -1i32, start, now), answer: Ok(acknowledged()) }
        } else {
            match parse_int(args[2]) {
                Some(ttl) => Outcome {
                    contents: self.set(args[0], args[1], ttl as i32, start, now),
                    answer: Ok(acknowledged()),
                },
                None => self.refused(
                    Failure::InvalidArgument(AvailableCommand::SET, Argument::Ttl),
                ),
            }
        }
    }

    /// What `GET` does with its arguments.
    pub open spec fn handle_get(self, args: Seq<Seq<char>>, start: u64, now: u64) -> Outcome {
        if args.len() < 1 {
            self.refused(Failure::MissingArgument(AvailableCommand::GET, Argument::Key))
        } else {
            Outcome {
                contents: self.looked_up(args[0], start, now),
                answer: Ok(self.found(args[0], start, now)),
            }
        }
    }

    /// What `DEL` does with its arguments.
    pub open spec fn handle_del(self, args: Seq<Seq<char>>) -> Outcome {
        if args.len() < 1 {
            self.refused(Failure::MissingArgument(AvailableCommand::DEL, Argument::Key))
        } else {
            Outcome { contents: self.del(args[0]), answer: Ok(acknowledged()) }
        }
    }

    /// The outcome of a line that is not carried out.
    pub open spec fn refused(self, failure: Failure) -> Outcome {
        Outcome { contents: self, answer: Err(failure) }
    }

    /// What `command` does with its arguments at `now`.
    pub open spec fn handle(
        self,
        command: AvailableCommand,
        args: Seq<Seq<char>>,
        start: u64,
        now: u64,
    ) -> Outcome {
        match command {
            AvailableCommand::SET => self.handle_set(args, start, now),
            AvailableCommand::GET => self.handle_get(args, start, now),
            AvailableCommand::DEL => self.handle_del(args),
            AvailableCommand::PING => Outcome { contents: self, answer: Ok(pong()) },
            AvailableCommand::STATS => Outcome {
                contents: self,
                answer: Ok(self.stats(start, now)),
            },
        }
    }

    /// Whether a line has to be carried out with the store held exclusively:
    /// `SET` and `DEL` always, `GET` where it finds a record past its expiry,
    /// which it removes. Every other line can be answered by reading.
    pub open spec fn needs_exclusive(self, line: Seq<char>, start: u64, now: u64) -> bool {
        match AvailableCommand::named(command_word(line)) {
            Some(AvailableCommand::SET) => true,
            Some(AvailableCommand::DEL) => true,
            Some(AvailableCommand::GET) => {
                let args = arguments(line);
                args.len() >= 1 && self.map.contains_key(args[0]) && !self.live(
                    args[0],
                    start,
                    now,
                )
            },
            _ => false,
        }
    }

    /// What a line does at `now`: its first word names the command, the
    /// words after it are the arguments. A line without words names the
    /// empty command, which is unknown.
    pub open spec fn process(self, line: Seq<char>, start: u64, now: u64) -> Outcome {
        let name = command_word(line);
        match AvailableCommand::named(name) {
            Some(command) => self.handle(command, arguments(line), start, now),
            None => self.refused(Failure::UnknownCommand(name)),
        }
    }
}

/// The first word of a line, or the empty word where it has none.
pub open spec fn command_word(line: Seq<char>) -> Seq<char> {
    if words(line).len() > 0 {
        words(line)[0]
    } else {
        Seq::empty()
    }
}

/// The words of a line after the first.
pub open spec fn arguments(line: Seq<char>) -> Seq<Seq<char>> {
    if words(line).len() > 0 {
        words(line).skip(1)
    } else {
        Seq::empty()
    }
}

/// The line sent back for an outcome: the answer's payload, or the failure
/// in words after `Error: `.
pub open spec fn response(answer: Result<Record, Failure>) -> Seq<char> {
    match answer {
        Ok(record) => record.data,
        Err(failure) => failure.response(),
    }
}

/// A filter that every element passes keeps the sequence as it is.
pub proof fn lemma_filter_all(s: Seq<Seq<char>>, pred: spec_fn(Seq<char>) -> bool)
    requires
        forall|i: int| 0 <= i < s.len() ==> pred(#[trigger] s[i]),
    ensures
        s.filter(pred) == s,
    decreases s.len(),
{
    reveal(Seq::filter);
    if s.len() > 0 {
        let init = s.drop_last();
        assert forall|i: int| 0 <= i < init.len() implies pred(#[trigger] init[i]) by {
            assert(init[i] == s[i]);
        }
        lemma_filter_all(init, pred);
        assert(init.push(s.last()) =~= s);
    }
}

/// Filtering a value out of a sequence that holds it once, at `i`, removes
/// the element at `i`.
pub proof fn lemma_filter_out(s: Seq<Seq<char>>, i: int, key: Seq<char>)
    requires
        s.no_duplicates(),
        0 <= i < s.len(),
        s[i] == key,
    ensures
        s.filter(other_than(key)) == s.remove(i),
    decreases s.len(),
{
    reveal(Seq::filter);
    let pred = other_than(key);
    let init = s.drop_last();
    if i == s.len() - 1 {
        assert forall|j: int| 0 <= j < init.len() implies pred(#[trigger] init[j]) by {
            assert(init[j] == s[j]);
        }
        lemma_filter_all(init, pred);
        assert(s.remove(i) =~= init);
    } else {
        assert forall|a: int, b: int| 0 <= a < init.len() && 0 <= b < init.len() && a
            != b implies init[a] != init[b] by {
            assert(init[a] == s[a] && init[b] == s[b]);
        }
        lemma_filter_out(init, i, key);
        assert(s.last() == s[s.len() - 1]);
        assert(pred(s.last()));
        assert(init.remove(i).push(s.last()) =~= s.remove(i));
    }
}

/// Filtering keeps a sequence free of duplicates, and keeps exactly the
/// elements that pass.
pub proof fn lemma_filter_keys(s: Seq<Seq<char>>, pred: spec_fn(Seq<char>) -> bool)
    requires
        s.no_duplicates(),
    ensures
        s.filter(pred).no_duplicates(),
        forall|k: Seq<char>| #[trigger] s.filter(pred).contains(k) <==> s.contains(k) && pred(k),
    decreases s.len(),
{
    reveal(Seq::filter);
    if s.len() > 0 {
        let init = s.drop_last();
        let last = s.last();
        assert forall|a: int, b: int| 0 <= a < init.len() && 0 <= b < init.len() && a
            != b implies init[a] != init[b] by {
            assert(init[a] == s[a] && init[b] == s[b]);
        }
        lemma_filter_keys(init, pred);
        let f = init.filter(pred);
        assert(!init.contains(last)) by {
            if init.contains(last) {
                let j = choose|j: int| 0 <= j < init.len() && init[j] == last;
                assert(s[j] == s[s.len() - 1]);
            }
        }
        assert forall|k: Seq<char>| #[trigger] s.filter(pred).contains(k) <==> s.contains(k)
            && pred(k) by {
            if s.contains(k) {
                let j = choose|j: int| 0 <= j < s.len() && s[j] == k;
                if j < init.len() {
                    assert(init[j] == k);
                    assert(init.contains(k));
                }
            }
            if init.contains(k) {
                let j = choose|j: int| 0 <= j < init.len() && init[j] == k;
                assert(s[j] == k);
            }
            assert(s[s.len() - 1] == last);
            if pred(last) {
                assert(f.push(last)[f.len() as int] == last);
                if f.push(last).contains(k) {
                    let j = choose|j: int| 0 <= j < f.push(last).len() && f.push(last)[j] == k;
                    if j < f.len() {
                        assert(f[j] == k);
                    }
                }
                if f.contains(k) {
                    let j = choose|j: int| 0 <= j < f.len() && f[j] == k;
                    assert(f.push(last)[j] == k);
                }
            }
        }
        if pred(last) {
            assert(!f.contains(last));
            assert forall|a: int, b: int| 0 <= a < f.push(last).len() && 0 <= b < f.push(
                last,
            ).len() && a != b implies f.push(last)[a] != f.push(last)[b] by {
                if a < f.len() && b < f.len() {
                } else if a < f.len() {
                    assert(f.contains(f[a]));
                } else {
                    assert(f.contains(f[b]));
                }
            }
        }
    }
}

} // verus!
