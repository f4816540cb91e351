//! The server's part between a line received and the bytes sent back. The
//! transport itself, sockets and tasks, is the caller's.

use crate::model::{response, Contents};
use crate::storage::{text_of, Storage};
use vstd::prelude::*;
use vstd::string::StringExecFns;

verus! {

/// What ends every line that the server sends.
pub open spec fn line_end() -> Seq<char> {
    seq!['\r', '\n']
}

/// A store behind the text protocol.
pub struct Server {
    storage: Storage,
}

impl View for Server {
    type V = Contents;

    closed spec fn view(&self) -> Contents {
        self.storage@
    }
}

impl Server {
    /// The clock reading taken when the store's clock was made.
    pub closed spec fn start(&self) -> u64 {
        self.storage.start()
    }

    /// A server in front of `storage`.
    pub fn new(storage: Storage) -> (s: Self)
        ensures
            s@ == storage@,
            s.start() == storage.start(),
    {
        Self { storage }
    }

    /// Carries out the line `input` at `now` and gives what is to be sent
    /// back: the answer, or the failure in words after `Error: `, and the
    /// end of the line.
    pub fn reply_at(&mut self, input: &str, now: u64) -> (line: String)
        ensures
            final(self)@ == old(self)@.process(input@, old(self).start(), now).contents,
            line@ == response(old(self)@.process(input@, old(self).start(), now).answer)
                + line_end(),
            final(self)@.wf(),
            final(self).start() == old(self).start(),
    {
        let mut line = match self.storage.process_input_at(input, now) {
            Ok(answer) => answer,
            Err(failure) => failure,
        };
        proof {
            reveal_strlit("\r\n");
            assert("\r\n"@ =~= line_end());
        }
        line.append("\r\n");
        line
    }

    /// Carries out the line `input` at `now` if that takes no exclusive hold
    /// of the store, and gives what is to be sent back; gives nothing if it
    /// does.
    pub fn reply_shared_at(&self, input: &str, now: u64) -> (r: Option<String>)
        ensures
            r is None <==> self@.needs_exclusive(input@, self.start(), now),
            r matches Some(line) ==> {
                &&& line@ == response(self@.process(input@, self.start(), now).answer)
                    + line_end()
                &&& self@.process(input@, self.start(), now).contents == self@
            },
    {
        match self.storage.process_input_shared_at(input, now) {
            Some(result) => {
                let mut line = match result {
                    Ok(answer) => answer,
                    Err(failure) => failure,
                };
                proof {
                    reveal_strlit("\r\n");
                    assert("\r\n"@ =~= line_end());
                }
                line.append("\r\n");
                Some(line)
            },
            None => None,
        }
    }

    /// Carries out the line `input` by the system clock if that takes no
    /// exclusive hold of the store, and gives what is to be sent back; gives
    /// nothing if it does.
    pub fn reply_shared(&self, input: &str) -> (r: Option<String>)
        ensures
            exists|now: u64|
                {
                    &&& (r is None <==> self@.needs_exclusive(input@, self.start(), now))
                    &&& (r matches Some(line) ==> {
                        &&& line@ == response(self@.process(input@, self.start(), now).answer)
                            + line_end()
                        &&& self@.process(input@, self.start(), now).contents == self@
                    })
                },
    {
        let now: u64 = self.storage.now();
        self.reply_shared_at(input, now)
    }

    /// Carries out the line `input` by the system clock and gives what is to
    /// be sent back.
    pub fn reply(&mut self, input: &str) -> (line: String)
        ensures
            exists|now: u64|
                {
                    &&& final(self)@ == old(self)@.process(input@, old(self).start(), now).contents
                    &&& line@ == response(
                        old(self)@.process(input@, old(self).start(), now).answer,
                    ) + line_end()
                },
            final(self)@.wf(),
            final(self).start() == old(self).start(),
    {
        let now: u64 = self.storage.now();
        self.reply_at(input, now)
    }
}

} // verus!
