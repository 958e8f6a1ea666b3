//! What a node that is started as a program does: where it bootstraps from, when
//! it tries again, and how a load test is counted.

use vstd::prelude::*;
use vstd::string::StrSliceExecFns;

use crate::text::find_char;
use crate::text::first_index;
use crate::text::parse_unsigned;
use crate::text::unsigned_value;

verus! {

/// How often a node tries to bootstrap.
pub const BOOTSTRAP_ATTEMPTS: u32 = 8;

/// How often a record is published or looked up.
pub const RECORD_ATTEMPTS: u32 = 10;

/// Why an address is no address.
#[derive(Debug, Clone, Copy, PartialEq, Eq, Structural)]
pub enum AddressError {
    /// There is no colon.
    NoPort,
    /// What stands behind the first colon is no port.
    BadPort,
}

/// The IP in an address: what stands before the first colon.
pub open spec fn address_ip(text: Seq<char>) -> Seq<char> {
    text.take(first_index(text, ':') as int)
}

/// The port in an address: the number behind the first colon.
pub open spec fn address_port(text: Seq<char>) -> Option<nat> {
    if first_index(text, ':') < text.len() {
        unsigned_value(text.skip(first_index(text, ':') as int + 1), 65535)
    } else {
        None
    }
}

/// Reads an address of the form `<ip>:<port>`.
pub fn parse_address(text: &str) -> (address: Result<(String, u16), AddressError>)
    ensures
        match address {
            Ok((ip, port)) => ip@ == address_ip(text@) && address_port(text@) == Some(port as nat),
            Err(AddressError::NoPort) => first_index(text@, ':') == text@.len(),
            Err(AddressError::BadPort) => first_index(text@, ':') < text@.len() && address_port(
                text@,
            ) is None,
        },
{
    let at: usize = find_char(text, ':');
    let len: usize = text.unicode_len();
    if at == len {
        return Err(AddressError::NoPort);
    }
    let ip: &str = text.substring_char(0, at);
    assert(ip@ =~= text@.take(at as int));
    let rest: &str = text.substring_char(at + 1, len);
    assert(rest@ =~= text@.skip(at + 1));
    match parse_unsigned(rest, 65535) {
        Some(port) => Ok((ip.to_owned(), port as u16)),
        None => Err(AddressError::BadPort),
    }
}

/// Reads an address of the form `<ip>:<port>`, with a port to use where there is
/// none.
pub fn parse_address_or(text: &str, default_port: u16) -> (address: (String, u16))
    ensures
        address.0@ == address_ip(text@),
        address.1 == match address_port(text@) {
            Some(port) => port as u16,
            None => default_port,
        },
{
    match parse_address(text) {
        Ok(address) => address,
        Err(_) => {
            let at: usize = find_char(text, ':');
            let ip: &str = text.substring_char(0, at);
            assert(ip@ =~= text@.take(at as int));
            (ip.to_owned(), default_port)
        },
    }
}

/// What to do after an attempt.
#[derive(Debug, Clone, Copy, PartialEq, Eq, Structural)]
pub enum NextStep {
    Done,
    TryAgain,
    GiveUp,
}

/// What to do after attempt number `attempt`, counted from 1, of at most
/// `attempts`.
pub open spec fn next_step(succeeded: bool, attempt: u32, attempts: u32) -> NextStep {
    if succeeded {
        NextStep::Done
    } else if attempt < attempts {
        NextStep::TryAgain
    } else {
        NextStep::GiveUp
    }
}

/// What to do after an attempt to bootstrap that discovered so many peers.
pub fn after_bootstrap(discovered: usize, attempt: u32) -> (step: NextStep)
    ensures
        step == next_step(discovered > 0, attempt, BOOTSTRAP_ATTEMPTS),
        discovered == 0 ==> (step is TryAgain <==> attempt < 8),
{
    if discovered > 0 {
        NextStep::Done
    } else if attempt < BOOTSTRAP_ATTEMPTS {
        NextStep::TryAgain
    } else {
        NextStep::GiveUp
    }
}

/// What to do after an attempt to publish a record.
pub fn after_publishing(published: Option<bool>, attempt: u32) -> (step: NextStep)
    ensures
        step == next_step(published == Some(true), attempt, RECORD_ATTEMPTS),
        published != Some(true) ==> (step is TryAgain <==> attempt < 10),
{
    let done: bool = match published {
        Some(stored) => stored,
        None => false,
    };
    if done {
        NextStep::Done
    } else if attempt < RECORD_ATTEMPTS {
        NextStep::TryAgain
    } else {
        NextStep::GiveUp
    }
}

/// What to do after an attempt to look a record up.
pub fn after_lookup(found: bool, attempt: u32) -> (step: NextStep)
    ensures
        step == next_step(found, attempt, RECORD_ATTEMPTS),
        !found ==> (step is TryAgain <==> attempt < 10),
{
    if found {
        NextStep::Done
    } else if attempt < RECORD_ATTEMPTS {
        NextStep::TryAgain
    } else {
        NextStep::GiveUp
    }
}

/// What became of a request.
#[derive(Debug, Clone, Copy, PartialEq, Eq, Structural)]
pub enum Reply {
    Accepted,
    Rejected,
    TimedOut,
}

/// How many of the replies are of the given kind.
pub open spec fn replies_of(replies: Seq<Reply>, kind: Reply) -> nat
    decreases replies.len(),
{
    if replies.len() == 0 {
        0
    } else {
        replies_of(replies.drop_last(), kind) + if replies.last() == kind {
            1nat
        } else {
            0nat
        }
    }
}

/// Counts of replies.
#[derive(Debug, Clone, Copy, PartialEq, Eq)]
pub struct Tally {
    pub accepted: usize,
    pub rejected: usize,
    pub timed_out: usize,
}

impl Tally {
    /// The counts are those of the replies.
    pub open spec fn counts(&self, replies: Seq<Reply>) -> bool {
        &&& self.accepted == replies_of(replies, Reply::Accepted)
        &&& self.rejected == replies_of(replies, Reply::Rejected)
        &&& self.timed_out == replies_of(replies, Reply::TimedOut)
    }

    /// The counts of the replies.
    pub fn of(replies: &Vec<Reply>) -> (tally: Self)
        ensures
            tally.counts(replies@),
            tally.accepted + tally.rejected + tally.timed_out == replies@.len(),
    {
        let mut tally: Tally = Tally { accepted: 0, rejected: 0, timed_out: 0 };
        let mut at: usize = 0;
        assert(replies@.take(0) =~= Seq::empty());
        while at < replies.len()
            invariant
                at <= replies@.len(),
                tally.counts(replies@.take(at as int)),
                tally.accepted + tally.rejected + tally.timed_out == at,
            decreases replies@.len() - at,
        {
            assert(replies@.take(at + 1).drop_last() =~= replies@.take(at as int));
            assert(replies@.take(at + 1).last() == replies@[at as int]);
            match replies[at] {
                Reply::Accepted => {
                    tally.accepted = tally.accepted + 1;
                },
                Reply::Rejected => {
                    tally.rejected = tally.rejected + 1;
                },
                Reply::TimedOut => {
                    tally.timed_out = tally.timed_out + 1;
                },
            }
            at = at + 1;
        }
        assert(replies@.take(at as int) =~= replies@);
        tally
    }

    /// Whether every record that must not be accepted was not.
    pub fn is_intact(&self) -> (intact: bool)
        ensures
            intact == (self.accepted == 0),
    {
        self.accepted == 0
    }
}

/// What became of a request that was given up on or answered.
pub fn reply_of(timed_out: bool, accepted: bool) -> (reply: Reply)
    ensures
        reply == if timed_out {
            Reply::TimedOut
        } else if accepted {
            Reply::Accepted
        } else {
            Reply::Rejected
        },
{
    if timed_out {
        Reply::TimedOut
    } else if accepted {
        Reply::Accepted
    } else {
        Reply::Rejected
    }
}

/// How many invalid records a load test sends beside so many valid ones: a third.
pub fn invalid_pool_size(pool_size: usize) -> (size: usize)
    ensures
        size == pool_size / 3,
{
    pool_size / 3
}

} // verus!
