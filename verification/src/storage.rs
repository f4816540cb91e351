//! The store: records under keys, with expiry applied on every read.

use crate::commands::{Argument, AvailableCommand, CommandError, Failure};
use crate::guarantees::{del_keeps_wf, put_keeps_wf};
use crate::model::{
    absent, acknowledged, arguments, command_word, entry_text, join, lemma_filter_all,
    lemma_filter_out, other_than, pong, response, Contents,
};
use crate::text::{parse_i32, render_i32, split_words, views};
use crate::time_manager::{expired, TimeManager};
use crate::value::{Record, Value};
use vstd::hash_map::StringHashMap;
use vstd::prelude::*;
use vstd::string::StringExecFns;

verus! {

/// The records by key, and the keys in the order in which they are walked.
struct Shelf {
    records: StringHashMap<Value>,
    keys: Vec<String>,
}

/// The key-value store. It owns its records; callers get copies.
pub struct Storage {
    shelf: Shelf,
    time_manager: TimeManager,
}

/// What a vector of keys holds.
spec fn key_views(keys: Seq<String>) -> Seq<Seq<char>> {
    keys.map_values(|k: String| k@)
}

/// What a map of values holds.
spec fn record_map(records: Map<Seq<char>, Value>) -> Map<Seq<char>, Record> {
    Map::new(|k: Seq<char>| records.contains_key(k), |k: Seq<char>| records[k]@)
}

impl View for Shelf {
    type V = Contents;

    closed spec fn view(&self) -> Contents {
        Contents { map: record_map(self.records@), order: key_views(self.keys@) }
    }
}

impl Shelf {
    /// A shelf with nothing on it.
    fn new() -> (shelf: Self)
        ensures
            shelf@ == Contents::empty(),
            shelf@.wf(),
    {
        let shelf = Shelf { records: StringHashMap::new(), keys: Vec::new() };
        assert(shelf@.map =~= Map::<Seq<char>, Record>::empty());
        assert(shelf@.order =~= Seq::<Seq<char>>::empty());
        shelf
    }

    /// The place of `key` in the walk.
    fn place_of(&self, key: &str) -> (i: usize)
        requires
            self@.order.contains(key@),
        ensures
            i < self.keys@.len(),
            self@.order[i as int] == key@,
    {
        let wanted = String::from_str(key);
        let n: usize = self.keys.len();
        let mut i: usize = 0;
        while i < n
            invariant
                i <= n,
                n == self.keys@.len(),
                wanted@ == key@,
                self@.order.contains(key@),
                forall|j: int| 0 <= j < i ==> (#[trigger] self.keys@[j])@ != key@,
            decreases n - i,
        {
            if self.keys[i] == wanted {
                return i;
            }
            i += 1;
        }
        proof {
            let j = choose|j: int| 0 <= j < self@.order.len() && self@.order[j] == key@;
            assert(self.keys@[j]@ == key@);
        }
        0
    }

    /// Removes `key` and its record, if it has one.
    fn remove(&mut self, key: &str)
        requires
            old(self)@.wf(),
        ensures
            final(self)@ == old(self)@.del(key@),
            final(self)@.wf(),
    {
        let ghost before = self@;
        if self.records.contains_key(key) {
            let i = self.place_of(key);
            self.records.remove(key);
            self.keys.remove(i);
            proof {
                lemma_filter_out(before.order, i as int, key@);
                assert(self@.order =~= before.order.remove(i as int));
                assert(self@.map =~= before.map.remove(key@));
                del_keeps_wf(before, key@);
            }
        } else {
            proof {
                assert(!before.order.contains(key@));
                del_of_absent(before, key@);
            }
        }
    }

    /// Puts `value` under `key`; a key that is new is walked last.
    fn put(&mut self, key: &str, value: Value)
        requires
            old(self)@.wf(),
        ensures
            final(self)@ == old(self)@.put(key@, value@),
            final(self)@.wf(),
    {
        let ghost before = self@;
        if !self.records.contains_key(key) {
            self.keys.push(String::from_str(key));
            assert(self@.order =~= before.order.push(key@));
        }
        self.records.insert(String::from_str(key), value);
        proof {
            assert(self@.map =~= before.map.insert(key@, value@));
            put_keeps_wf(before, key@, value@);
        }
    }
}

/// Deleting a key that has no record changes nothing.
proof fn del_of_absent(c: Contents, key: Seq<char>)
    requires
        !c.order.contains(key),
        !c.map.contains_key(key),
    ensures
        c.del(key) == c,
{
    assert(c.map.remove(key) =~= c.map);
    assert forall|i: int| 0 <= i < c.order.len() implies other_than(key)(
        #[trigger] c.order[i],
    ) by {
        assert(c.order.contains(c.order[i]));
    }
    lemma_filter_all(c.order, other_than(key));
}

/// Reads a line as a command's name and the words after it.
fn command_and_arguments<'a>(input: &'a str) -> (r: (
    Result<AvailableCommand, CommandError>,
    Vec<&'a str>,
))
    ensures
        match r.0 {
            Ok(c) => AvailableCommand::named(command_word(input@)) == Some(c),
            Err(e) => AvailableCommand::named(command_word(input@)) is None && e@
                == Failure::UnknownCommand(command_word(input@)),
        },
        views(r.1@) == arguments(input@),
{
    let mut args = split_words(input);
    let ghost all = args@;
    let name: &str = if args.len() > 0 {
        args.remove(0)
    } else {
        proof {
            reveal_strlit("");
        }
        ""
    };
    proof {
        assert(views(all).len() == all.len());
        assert(all.len() > 0 ==> name@ == views(all)[0]);
        assert(name@ =~= command_word(input@));
        assert forall|i: int| 0 <= i < args@.len() implies views(args@)[i] == arguments(
            input@,
        )[i] by {
            assert(args@[i] == all[i + 1]);
            assert(views(all)[i + 1] == all[i + 1]@);
        }
        assert(views(args@) =~= arguments(input@));
    }
    (AvailableCommand::from_str(name), args)
}

impl View for Storage {
    type V = Contents;

    closed spec fn view(&self) -> Contents {
        self.shelf@
    }
}

/// A result of the store as the model has it.
pub open spec fn answer_of(r: Result<Value, CommandError>) -> Result<Record, Failure> {
    match r {
        Ok(v) => Ok(v@),
        Err(e) => Err(e@),
    }
}

/// The text that a line's result holds, answer or error.
pub open spec fn text_of(r: Result<String, String>) -> Seq<char> {
    match r {
        Ok(s) => s@,
        Err(s) => s@,
    }
}

impl Storage {
    #[verifier::type_invariant]
    spec fn inv(&self) -> bool {
        self.shelf@.wf()
    }

    /// The clock reading taken when the store's clock was made.
    pub closed spec fn start(&self) -> u64 {
        self.time_manager.start_time
    }

    /// An empty store that tells the time by `time_manager`.
    pub fn new(time_manager: TimeManager) -> (s: Self)
        ensures
            s@ == Contents::empty(),
            s@.wf(),
            s.start() == time_manager.start_time,
    {
        Self { shelf: Shelf::new(), time_manager }
    }

    /// The system clock's present reading, in the seconds that the
    /// functions that take a reading count in. Nothing is promised of it:
    /// those functions state what they do for every reading.
    pub fn now(&self) -> (now: u64) {
        self.time_manager.get_current_time()
    }

    /// Takes the shelf out, leaving an empty one behind.
    fn take_shelf(&mut self) -> (shelf: Shelf)
        ensures
            shelf == old(self).shelf,
            shelf@.wf(),
            final(self).time_manager == old(self).time_manager,
    {
        proof {
            use_type_invariant(&*self);
        }
        let mut shelf = Shelf::new();
        core::mem::swap(&mut self.shelf, &mut shelf);
        shelf
    }

    /// Puts `shelf` in the place of the one that the store holds.
    fn put_shelf(&mut self, shelf: Shelf)
        requires
            shelf@.wf(),
        ensures
            final(self).shelf == shelf,
            final(self).time_manager == old(self).time_manager,
    {
        let mut shelf = shelf;
        core::mem::swap(&mut self.shelf, &mut shelf);
    }

    /// Removes `key` and its record, if it has one.
    pub fn del(&mut self, key: &str) -> (r: Result<Value, String>)
        ensures
            final(self)@ == old(self)@.del(key@),
            final(self)@.wf(),
            final(self).start() == old(self).start(),
            r matches Ok(v) && v@ == acknowledged(),
    {
        Ok(self.remove_key(key))
    }

    /// Removes `key` as [`Storage::del`] does, and acknowledges.
    fn remove_key(&mut self, key: &str) -> (v: Value)
        ensures
            final(self)@ == old(self)@.del(key@),
            final(self)@.wf(),
            final(self).start() == old(self).start(),
            v@ == acknowledged(),
    {
        let mut shelf = self.take_shelf();
        shelf.remove(key);
        self.put_shelf(shelf);
        Value { data: String::from_str("Ok"), ttl: -1 }
    }

    /// Sets `value` under `key`, to expire `ttl` seconds after `now`, or
    /// never where `ttl` is negative. A record that was there is replaced.
    pub fn set_at(&mut self, key: &str, value: &str, ttl: i32, now: u64) -> (r: Result<
        Value,
        String,
    >)
        ensures
            final(self)@ == old(self)@.set(key@, value@, ttl, old(self).start(), now),
            final(self)@.wf(),
            final(self).start() == old(self).start(),
            r matches Ok(v) && v@ == acknowledged(),
    {
        Ok(self.store_at(key, value, ttl, now))
    }

    /// Sets `value` under `key` as [`Storage::set_at`] does, and
    /// acknowledges.
    fn store_at(&mut self, key: &str, value: &str, ttl: i32, now: u64) -> (v: Value)
        ensures
            final(self)@ == old(self)@.set(key@, value@, ttl, old(self).start(), now),
            final(self)@.wf(),
            final(self).start() == old(self).start(),
            v@ == acknowledged(),
    {
        let expiry: i32 = self.time_manager.get_expire_time_at(ttl, now);
        let mut shelf = self.take_shelf();
        shelf.put(key, Value { data: String::from_str(value), ttl: expiry });
        self.put_shelf(shelf);
        Value { data: String::from_str("Ok"), ttl: -1 }
    }

    /// Sets `value` under `key`, to expire `ttl` seconds from now by the
    /// system clock, or never where `ttl` is negative.
    pub fn set(&mut self, key: &str, value: &str, ttl: i32) -> (r: Result<Value, String>)
        ensures
            exists|now: u64|
                final(self)@ == old(self)@.set(key@, value@, ttl, old(self).start(), now),
            ttl < 0 ==> final(self)@ == old(self)@.put(key@, Record { data: value@, ttl: -1i32 }),
            final(self)@.wf(),
            final(self).start() == old(self).start(),
            r matches Ok(v) && v@ == acknowledged(),
    {
        let now: u64 = self.time_manager.get_current_time();
        self.set_at(key, value, ttl, now)
    }

    /// Looks `key` up at `now`. A record found past its expiry is removed
    /// and answered as absent.
    pub fn get_at(&mut self, key: &str, now: u64) -> (r: Result<Value, String>)
        ensures
            final(self)@ == old(self)@.looked_up(key@, old(self).start(), now),
            final(self)@.wf(),
            final(self).start() == old(self).start(),
            r matches Ok(v) && v@ == old(self)@.found(key@, old(self).start(), now),
    {
        Ok(self.fetch_at(key, now))
    }

    /// Looks `key` up at `now` without changing the store: answers with the
    /// record or its absence, or with nothing where the record is past its
    /// expiry and has to be removed.
    pub fn peek_at(&self, key: &str, now: u64) -> (r: Option<Value>)
        ensures
            match r {
                Some(v) => v@ == self@.found(key@, self.start(), now) && self@.looked_up(
                    key@,
                    self.start(),
                    now,
                ) == self@,
                None => self@.map.contains_key(key@) && !self@.live(key@, self.start(), now),
            },
    {
        match self.shelf.records.get(key) {
            Some(value) => {
                if self.time_manager.is_expire_time_at(value.ttl, now) {
                    None
                } else {
                    Some(Value { data: value.data.clone(), ttl: value.ttl })
                }
            },
            None => Some(Value { data: String::from_str("(null)"), ttl: -1 }),
        }
    }

    /// Looks `key` up as [`Storage::get_at`] does.
    fn fetch_at(&mut self, key: &str, now: u64) -> (v: Value)
        ensures
            final(self)@ == old(self)@.looked_up(key@, old(self).start(), now),
            final(self)@.wf(),
            final(self).start() == old(self).start(),
            v@ == old(self)@.found(key@, old(self).start(), now),
    {
        proof {
            use_type_invariant(&*self);
        }
        match self.peek_at(key, now) {
            Some(value) => value,
            None => {
                self.remove_key(key);
                Value { data: String::from_str("(null)"), ttl: -1 }
            },
        }
    }

    /// Looks `key` up by the system clock.
    pub fn get(&mut self, key: &str) -> (r: Result<Value, String>)
        ensures
            exists|now: u64|
                {
                    &&& final(self)@ == old(self)@.looked_up(key@, old(self).start(), now)
                    &&& r matches Ok(v) && v@ == old(self)@.found(key@, old(self).start(), now)
                },
            !old(self)@.map.contains_key(key@) ==> final(self)@ == old(self)@ && (r matches Ok(v)
                && v@ == absent()),
            final(self)@.wf(),
            final(self).start() == old(self).start(),
            r is Ok,
    {
        let now: u64 = self.time_manager.get_current_time();
        self.get_at(key, now)
    }

    /// Lists the records that are not past their expiry at `now`, each as
    /// `key=..,value=..,ttl=..`, with `|` between them. Nothing is removed.
    pub fn stats_at(&self, now: u64) -> (v: Value)
        ensures
            v@ == self@.stats(self.start(), now),
    {
        proof {
            use_type_invariant(self);
        }
        let ghost c = self@;
        let ghost live = c.unexpired(self.start(), now);
        let n: usize = self.shelf.keys.len();
        let mut out = String::new();
        let mut first = true;
        let mut i: usize = 0;
        proof {
            reveal(Seq::filter);
            assert(c.order.take(0) =~= Seq::<Seq<char>>::empty());
            assert(c.entries(c.order.take(0).filter(live)) =~= Seq::<Seq<char>>::empty());
        }
        while i < n
            invariant
                i <= n,
                n == self.shelf.keys@.len(),
                c == self@,
                c.wf(),
                c.order.len() == n,
                live == c.unexpired(self.start(), now),
                first == (c.order.take(i as int).filter(live).len() == 0),
                out@ == join(c.entries(c.order.take(i as int).filter(live))),
            decreases n - i,
        {
            let key_text: &str = self.shelf.keys[i].as_str();
            let ghost before = c.order.take(i as int).filter(live);
            let ghost key = c.order[i as int];
            proof {
                assert(key == key_text@);
                assert(c.order.contains(key));
                assert(c.order.take(i + 1) =~= c.order.take(i as int).push(key));
                c.order.take(i as int).lemma_filter_push(key, live);
            }
            match self.shelf.records.get(key_text) {
                Some(value) => {
                    proof {
                        assert(c.map[key] == value@);
                        assert(live(key) == !expired(self.start(), now, value.ttl));
                    }
                    if !self.time_manager.is_expire_time_at(value.ttl, now) {
                        let ghost shown = before.push(key);
                        let ghost lines = c.entries(shown);
                        proof {
                            before.lemma_push_map_commute(c.entry_of(), key);
                            assert(lines =~= c.entries(before).push(entry_text(key, value@)));
                            assert(lines.drop_last() =~= c.entries(before));
                            reveal_strlit("|");
                            reveal_strlit("key=");
                            reveal_strlit(",value=");
                            reveal_strlit(",ttl=");
                        }
                        let ghost head = out@;
                        if !first {
                            out.append("|");
                        }
                        out.append("key=");
                        out.append(key_text);
                        out.append(",value=");
                        out.append(value.data.as_str());
                        out.append(",ttl=");
                        let number = render_i32(value.ttl);
                        out.append(number.as_str());
                        proof {
                            let text = entry_text(key, value@);
                            if first {
                                assert(head =~= Seq::<char>::empty());
                                assert(out@ =~= text);
                            } else {
                                assert(out@ =~= head + "|"@ + text);
                            }
                        }
                        first = false;
                    }
                },
                None => {},
            }
            i += 1;
        }
        assert(c.order.take(n as int) =~= c.order);
        Value { data: out, ttl: -1 }
    }

    /// Lists the records that are not past their expiry by the system
    /// clock. Nothing is removed.
    pub fn stats(&self) -> (v: Value)
        ensures
            exists|now: u64| v@ == self@.stats(self.start(), now),
    {
        let now: u64 = self.time_manager.get_current_time();
        self.stats_at(now)
    }

    /// Answers a ping.
    pub fn ping(&self) -> (v: Value)
        ensures
            v@ == pong(),
    {
        Value { data: String::from_str("PONG"), ttl: -1 }
    }

    /// Carries out `SET key value [ttl]` at `now`, given the words after the
    /// command's name.
    fn handle_set(&mut self, args: &Vec<&str>, now: u64) -> (r: Result<Value, CommandError>)
        ensures
            final(self)@ == old(self)@.handle_set(views(args@), old(self).start(), now).contents,
            answer_of(r) == old(self)@.handle_set(views(args@), old(self).start(), now).answer,
            final(self)@.wf(),
            final(self).start() == old(self).start(),
    {
        proof {
            use_type_invariant(&*self);
        }
        if args.len() < 1 {
            return Err(CommandError::MissingArgument(AvailableCommand::SET, Argument::Key));
        }
        if args.len() < 2 {
            return Err(CommandError::MissingArgument(AvailableCommand::SET, Argument::Value));
        }
        let ttl: i32 = if args.len() < 3 {
            -1
        } else {
            match parse_i32(args[2]) {
                Some(ttl) => ttl,
                None => {
                    return Err(CommandError::InvalidArgument(AvailableCommand::SET, Argument::Ttl));
                },
            }
        };
        Ok(self.store_at(args[0], args[1], ttl, now))
    }

    /// Carries out `GET key` at `now`, given the words after the command's
    /// name.
    fn handle_get(&mut self, args: &Vec<&str>, now: u64) -> (r: Result<Value, CommandError>)
        ensures
            final(self)@ == old(self)@.handle_get(views(args@), old(self).start(), now).contents,
            answer_of(r) == old(self)@.handle_get(views(args@), old(self).start(), now).answer,
            final(self)@.wf(),
            final(self).start() == old(self).start(),
    {
        proof {
            use_type_invariant(&*self);
        }
        if args.len() < 1 {
            return Err(CommandError::MissingArgument(AvailableCommand::GET, Argument::Key));
        }
        Ok(self.fetch_at(args[0], now))
    }

    /// Carries out `DEL key`, given the words after the command's name.
    fn handle_del(&mut self, args: &Vec<&str>) -> (r: Result<Value, CommandError>)
        ensures
            final(self)@ == old(self)@.handle_del(views(args@)).contents,
            answer_of(r) == old(self)@.handle_del(views(args@)).answer,
            final(self)@.wf(),
            final(self).start() == old(self).start(),
    {
        proof {
            use_type_invariant(&*self);
        }
        if args.len() < 1 {
            return Err(CommandError::MissingArgument(AvailableCommand::DEL, Argument::Key));
        }
        Ok(self.remove_key(args[0]))
    }

    /// Carries out `PING`; words after the command's name are ignored.
    fn handle_ping(&self, args: &Vec<&str>) -> (r: Result<Value, CommandError>)
        ensures
            answer_of(r) == Ok::<Record, Failure>(pong()),
    {
        Ok(self.ping())
    }

    /// Carries out `STATS` at `now`; words after the command's name are
    /// ignored.
    fn handle_stats(&self, args: &Vec<&str>, now: u64) -> (r: Result<Value, CommandError>)
        ensures
            answer_of(r) == Ok::<Record, Failure>(self@.stats(self.start(), now)),
    {
        Ok(self.stats_at(now))
    }

    /// Reads a line as a command with its arguments and carries it out at
    /// `now`.
    pub fn process_command_at(&mut self, input: &str, now: u64) -> (r: Result<
        Value,
        CommandError,
    >)
        ensures
            final(self)@ == old(self)@.process(input@, old(self).start(), now).contents,
            answer_of(r) == old(self)@.process(input@, old(self).start(), now).answer,
            final(self)@.wf(),
            final(self).start() == old(self).start(),
    {
        proof {
            use_type_invariant(&*self);
        }
        let (command, args) = command_and_arguments(input);
        match command {
            Ok(AvailableCommand::SET) => self.handle_set(&args, now),
            Ok(AvailableCommand::GET) => self.handle_get(&args, now),
            Ok(AvailableCommand::DEL) => self.handle_del(&args),
            Ok(AvailableCommand::PING) => self.handle_ping(&args),
            Ok(AvailableCommand::STATS) => self.handle_stats(&args, now),
            Err(e) => Err(e),
        }
    }

    /// Carries out a line at `now` if that takes no exclusive hold of the
    /// store, and gives nothing if it does.
    pub fn process_command_shared_at(&self, input: &str, now: u64) -> (r: Option<
        Result<Value, CommandError>,
    >)
        ensures
            r is None <==> self@.needs_exclusive(input@, self.start(), now),
            r matches Some(answer) ==> {
                &&& answer_of(answer) == self@.process(input@, self.start(), now).answer
                &&& self@.process(input@, self.start(), now).contents == self@
            },
    {
        let (command, args) = command_and_arguments(input);
        match command {
            Ok(AvailableCommand::SET) => None,
            Ok(AvailableCommand::DEL) => None,
            Ok(AvailableCommand::GET) => {
                if args.len() < 1 {
                    Some(Err(CommandError::MissingArgument(AvailableCommand::GET, Argument::Key)))
                } else {
                    match self.peek_at(args[0], now) {
                        Some(value) => Some(Ok(value)),
                        None => None,
                    }
                }
            },
            Ok(AvailableCommand::PING) => Some(self.handle_ping(&args)),
            Ok(AvailableCommand::STATS) => Some(self.handle_stats(&args, now)),
            Err(e) => Some(Err(e)),
        }
    }

    /// Carries out a line at `now` if that takes no exclusive hold of the
    /// store, and gives the line to send back; gives nothing if it does.
    pub fn process_input_shared_at(&self, input: &str, now: u64) -> (r: Option<
        Result<String, String>,
    >)
        ensures
            r is None <==> self@.needs_exclusive(input@, self.start(), now),
            r matches Some(line) ==> {
                &&& (line is Ok <==> self@.process(input@, self.start(), now).answer is Ok)
                &&& text_of(line) == response(self@.process(input@, self.start(), now).answer)
                &&& self@.process(input@, self.start(), now).contents == self@
            },
    {
        match self.process_command_shared_at(input, now) {
            Some(Ok(value)) => Some(Ok(value.data)),
            Some(Err(e)) => Some(Err(e.response())),
            None => None,
        }
    }

    /// Carries out a line by the system clock if that takes no exclusive
    /// hold of the store, and gives the line to send back; gives nothing if
    /// it does.
    pub fn process_input_shared(&self, input: &str) -> (r: Option<Result<String, String>>)
        ensures
            exists|now: u64|
                {
                    &&& (r is None <==> self@.needs_exclusive(input@, self.start(), now))
                    &&& (r matches Some(line) ==> {
                        &&& (line is Ok <==> self@.process(input@, self.start(), now).answer is Ok)
                        &&& text_of(line) == response(
                            self@.process(input@, self.start(), now).answer,
                        )
                        &&& self@.process(input@, self.start(), now).contents == self@
                    })
                },
    {
        let now: u64 = self.time_manager.get_current_time();
        self.process_input_shared_at(input, now)
    }

    /// Reads a line as a command and carries it out by the system clock.
    pub fn process_command(&mut self, input: &str) -> (r: Result<Value, CommandError>)
        ensures
            exists|now: u64|
                {
                    &&& final(self)@ == old(self)@.process(input@, old(self).start(), now).contents
                    &&& answer_of(r) == old(self)@.process(input@, old(self).start(), now).answer
                },
            final(self)@.wf(),
            final(self).start() == old(self).start(),
    {
        let now: u64 = self.time_manager.get_current_time();
        self.process_command_at(input, now)
    }

    /// Carries out a line at `now` and gives the line to send back: the
    /// answer's payload, or, as the error, the failure in words.
    pub fn process_input_at(&mut self, input: &str, now: u64) -> (r: Result<String, String>)
        ensures
            final(self)@ == old(self)@.process(input@, old(self).start(), now).contents,
            r is Ok <==> old(self)@.process(input@, old(self).start(), now).answer is Ok,
            text_of(r) == response(old(self)@.process(input@, old(self).start(), now).answer),
            final(self)@.wf(),
            final(self).start() == old(self).start(),
    {
        match self.process_command_at(input, now) {
            Ok(value) => Ok(value.data),
            Err(e) => Err(e.response()),
        }
    }

    /// Carries out a line by the system clock and gives the line to send
    /// back.
    pub fn process_input(&mut self, input: &str) -> (r: Result<String, String>)
        ensures
            exists|now: u64|
                {
                    &&& final(self)@ == old(self)@.process(input@, old(self).start(), now).contents
                    &&& (r is Ok <==> old(self)@.process(
                        input@,
                        old(self).start(),
                        now,
                    ).answer is Ok)
                    &&& text_of(r) == response(
                        old(self)@.process(input@, old(self).start(), now).answer,
                    )
                },
            final(self)@.wf(),
            final(self).start() == old(self).start(),
    {
        let now: u64 = self.time_manager.get_current_time();
        self.process_input_at(input, now)
    }
}

} // verus!
