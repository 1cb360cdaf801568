//! The settings that one server runs with, fixed at start-up.

use crate::util::ascii_to_string;
use rand::Rng;
use vstd::prelude::*;

verus! {

/// The length of a replication id.
pub const REPLID_LEN: usize = 40;

/// True for the ASCII letters and digits.
pub open spec fn is_alphanumeric(b: u8) -> bool {
    (48 <= b <= 57) || (65 <= b <= 90) || (97 <= b <= 122)
}

/// True for the characters that are ASCII letters and digits.
pub open spec fn is_alphanumeric_char(c: char) -> bool {
    (c as u32) < 128 && is_alphanumeric(c as u8)
}

/// True when `s` can serve as a replication id: forty ASCII letters and
/// digits.
pub open spec fn is_replid(s: Seq<char>) -> bool {
    s.len() == REPLID_LEN && forall|i: int|
        0 <= i < s.len() ==> is_alphanumeric_char(#[trigger] s[i])
}

/// `rand::Rng::sample` with the distribution `Alphanumeric`, on the
/// generator of the current thread: one byte out of `A-Z`, `a-z` and `0-9`.
/// Which one is left open; nothing else is claimed of the outside call.
#[verifier::external_body]
fn random_alphanumeric() -> (b: u8)
    ensures
        is_alphanumeric(b),
{
    rand::thread_rng().sample(rand::distributions::Alphanumeric)
}

/// What one process is configured with.
#[derive(Debug)]
pub struct RedisConfig {
    /// The port that this server listens on.
    pub port: u16,
    /// The address of the primary, where this server is a replica.
    pub replicaof: Option<String>,
    /// The replication id, drawn once at start-up.
    pub replid: String,
    /// The number of bytes replicated so far.
    pub repl_offset: u64,
}

/// The mathematical value of a `RedisConfig`.
pub struct ConfigView {
    pub port: u16,
    pub replicaof: Option<Seq<char>>,
    pub replid: Seq<char>,
    pub repl_offset: u64,
}

impl View for RedisConfig {
    type V = ConfigView;

    open spec fn view(&self) -> ConfigView {
        ConfigView {
            port: self.port,
            replicaof: match self.replicaof {
                Some(a) => Some(a@),
                None => None,
            },
            replid: self.replid@,
            repl_offset: self.repl_offset,
        }
    }
}

impl Default for RedisConfig {
    /// The configuration with nothing set: port zero, no primary, an empty
    /// replication id.
    fn default() -> (config: RedisConfig)
        ensures
            config@.port == 0,
            config@.replicaof is None,
            config@.replid == Seq::<char>::empty(),
            config@.repl_offset == 0,
    {
        RedisConfig { port: 0, replicaof: None, replid: String::new(), repl_offset: 0 }
    }
}

impl RedisConfig {
    /// The configuration of a server on `port`, a replica of `replicaof` where
    /// that is given, with a freshly drawn replication id and no bytes
    /// replicated yet.
    pub fn new(port: u16, replicaof: Option<String>) -> (config: RedisConfig)
        ensures
            config@.port == port,
            config.replicaof == replicaof,
            config@.repl_offset == 0,
            is_replid(config@.replid),
    {
        let mut id: Vec<u8> = Vec::new();
        while id.len() < REPLID_LEN
            invariant
                id@.len() <= REPLID_LEN,
                forall|i: int| 0 <= i < id@.len() ==> is_alphanumeric(#[trigger] id@[i]),
            decreases REPLID_LEN - id@.len(),
        {
            id.push(random_alphanumeric());
        }
        assert forall|i: int| 0 <= i < id@.len() implies (#[trigger] id@[i]) < 128 by {
            assert(is_alphanumeric(id@[i]));
        }
        let replid = ascii_to_string(id.as_slice());
        assert forall|i: int| 0 <= i < replid@.len() implies is_alphanumeric_char(
            #[trigger] replid@[i],
        ) by {
            assert(is_alphanumeric(id@[i]));
            assert(replid@[i] == id@[i] as char);
        }
        RedisConfig { port, replicaof, replid, repl_offset: 0 }
    }

    /// True when this server runs as a replica.
    pub fn is_replica(&self) -> (b: bool)
        ensures
            b == self.replicaof.is_some(),
    {
        self.replicaof.is_some()
    }
}

} // verus!
