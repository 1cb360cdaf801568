//! The commands that the server understands and what each of them does.

use crate::buffer::{bytes_from_vec, bytes_view};
use crate::config::{ConfigView, RedisConfig};
use crate::db::{
    settable, store_after_get, store_get, store_set, ttl_view, Db, StoreView, Ttl,
};
use crate::decimal::{decimal, push_decimal};
use crate::error::{ErrorView, RedisError};
use crate::frame::{append_bytes, crlf, lemma_array_view, Frame, FrameView};
use crate::util::{decimal_string, decimal_text};
use bytes::Bytes;
use vstd::prelude::*;
use vstd::string::StringExecFns;
use vstd::utf8::encode_utf8;

verus! {

/// `PING`: answered with `PONG`.
#[derive(Debug, PartialEq)]
pub struct Ping;

/// `ECHO msg`: answered with the message.
#[derive(Debug, PartialEq)]
pub struct Echo {
    pub msg: Bytes,
}

/// `GET key`: answered with the value under the key, if there is one.
#[derive(Debug, PartialEq)]
pub struct Get {
    pub key: String,
}

/// `SET key value [EX s | PX ms | KEEPTTL]`: stores the value.
#[derive(Debug, PartialEq)]
pub struct SetCmd {
    pub key: String,
    pub value: Bytes,
    pub expire: Option<Ttl>,
    pub keep_ttl: bool,
}

/// `INFO [section ...]`: answered with a report.
#[derive(Debug, PartialEq)]
pub struct Info {
    pub sections: Section,
}

/// `REPLCONF ...`: acknowledged.
#[derive(Debug, PartialEq)]
pub struct Replconf;

/// `PSYNC ...`: answered with the start of a full resynchronisation.
#[derive(Debug, PartialEq)]
pub struct Psync;

/// The sections that an `INFO` report can be asked for.
#[derive(Debug, PartialEq)]
pub enum Section {
    /// Several sections at once.
    Array(Vec<Section>),
    All,
    Default,
    Everything,
    Server,
    Clients,
    Memory,
    Persistence,
    Stats,
    Replication,
    Cpu,
    CommandStats,
    LatencyStats,
    Sentinel,
    Cluster,
    Modules,
    Keyspace,
    ErrorStats,
}

/// The mathematical value of a `Section`.
pub enum SectionView {
    Array(Seq<SectionView>),
    All,
    Default,
    Everything,
    Server,
    Clients,
    Memory,
    Persistence,
    Stats,
    Replication,
    Cpu,
    CommandStats,
    LatencyStats,
    Sentinel,
    Cluster,
    Modules,
    Keyspace,
    ErrorStats,
}

impl View for Section {
    type V = SectionView;

    open spec fn view(&self) -> SectionView
        decreases self,
    {
        match self {
            Section::Array(v) => SectionView::Array(
                Seq::new(
                    v.len() as nat,
                    |i: int|
                        if 0 <= i < v.len() {
                            v[i]@
                        } else {
                            SectionView::Default
                        },
                ),
            ),
            Section::All => SectionView::All,
            Section::Default => SectionView::Default,
            Section::Everything => SectionView::Everything,
            Section::Server => SectionView::Server,
            Section::Clients => SectionView::Clients,
            Section::Memory => SectionView::Memory,
            Section::Persistence => SectionView::Persistence,
            Section::Stats => SectionView::Stats,
            Section::Replication => SectionView::Replication,
            Section::Cpu => SectionView::Cpu,
            Section::CommandStats => SectionView::CommandStats,
            Section::LatencyStats => SectionView::LatencyStats,
            Section::Sentinel => SectionView::Sentinel,
            Section::Cluster => SectionView::Cluster,
            Section::Modules => SectionView::Modules,
            Section::Keyspace => SectionView::Keyspace,
            Section::ErrorStats => SectionView::ErrorStats,
        }
    }
}

/// The view of a list of sections, element by element.
pub proof fn lemma_sections_view(items: Vec<Section>)
    ensures
        Section::Array(items)@ is Array,
        Section::Array(items)@->Array_0.len() == items@.len(),
        forall|i: int|
            0 <= i < items@.len() ==> (#[trigger] Section::Array(items)@->Array_0[i])
                == items@[i]@,
{
    reveal_with_fuel(<Section as View>::view, 2);
}

/// One validated command.
#[derive(Debug, PartialEq)]
pub enum Command {
    Ping(Ping),
    Echo(Echo),
    Get(Get),
    SetCmd(SetCmd),
    Info(Info),
    /// `COMMAND ...`: the introspection request of client libraries.
    CommandIntrospect,
    Replconf(Replconf),
    Psync(Psync),
}

/// The mathematical value of a `Command`.
pub enum CommandView {
    Ping,
    Echo { msg: Seq<u8> },
    Get { key: Seq<char> },
    SetCmd { key: Seq<char>, value: Seq<u8>, expire: Option<nat>, keep_ttl: bool },
    Info { sections: SectionView },
    CommandIntrospect,
    Replconf,
    Psync,
}

impl View for Echo {
    type V = CommandView;

    open spec fn view(&self) -> CommandView {
        CommandView::Echo { msg: bytes_view(self.msg) }
    }
}

impl View for Get {
    type V = CommandView;

    open spec fn view(&self) -> CommandView {
        CommandView::Get { key: self.key@ }
    }
}

impl View for SetCmd {
    type V = CommandView;

    open spec fn view(&self) -> CommandView {
        CommandView::SetCmd {
            key: self.key@,
            value: bytes_view(self.value),
            expire: ttl_view(self.expire),
            keep_ttl: self.keep_ttl,
        }
    }
}

impl View for Info {
    type V = CommandView;

    open spec fn view(&self) -> CommandView {
        CommandView::Info { sections: self.sections@ }
    }
}

impl View for Command {
    type V = CommandView;

    open spec fn view(&self) -> CommandView {
        match self {
            Command::Ping(_) => CommandView::Ping,
            Command::Echo(c) => c@,
            Command::Get(c) => c@,
            Command::SetCmd(c) => c@,
            Command::Info(c) => c@,
            Command::CommandIntrospect => CommandView::CommandIntrospect,
            Command::Replconf(_) => CommandView::Replconf,
            Command::Psync(_) => CommandView::Psync,
        }
    }
}

/// A command is valid to execute when, being a `SET`, it hands the store what
/// the store accepts. Every other command is always valid.
pub open spec fn valid_command(c: CommandView) -> bool {
    c matches CommandView::SetCmd { key, value, expire, keep_ttl } ==> settable(
        key,
        value,
        expire,
        keep_ttl,
    )
}

/// The report on replication: the role, the replication id and the offset,
/// one per line.
pub open spec fn info_report(c: ConfigView) -> Seq<u8> {
    encode_utf8(
        if c.replicaof is Some {
            "role:slave\r\nmaster_replid:"@
        } else {
            "role:master\r\nmaster_replid:"@
        },
    ) + encode_utf8(c.replid) + encode_utf8("\r\nmaster_repl_offset:"@) + decimal(
        c.repl_offset as nat,
    ) + crlf()
}

/// The line that answers `PSYNC`.
pub open spec fn psync_line(c: ConfigView) -> Seq<char> {
    "FULLRESYNC "@ + c.replid + " "@ + decimal_text(c.repl_offset as nat)
}

/// What a command is answered with, given the store, the configuration and
/// the moment at which it runs.
pub open spec fn reply(c: CommandView, store: StoreView, config: ConfigView, now: nat) -> Result<
    FrameView,
    ErrorView,
> {
    match c {
        CommandView::Ping => Ok(FrameView::Simple("PONG"@)),
        CommandView::Echo { msg } => Ok(FrameView::Bulk(msg)),
        CommandView::Get { key } => match store_get(store, key, now) {
            Some(v) => Ok(FrameView::Bulk(v)),
            None => Ok(FrameView::Null),
        },
        CommandView::SetCmd { .. } => Ok(FrameView::Simple("OK"@)),
        CommandView::Info { sections } => match sections {
            SectionView::Replication => Ok(FrameView::Bulk(info_report(config))),
            _ => Err(ErrorView::InComplete),
        },
        CommandView::CommandIntrospect => Ok(FrameView::Array(Seq::<FrameView>::empty())),
        CommandView::Replconf => Ok(FrameView::Simple("OK"@)),
        CommandView::Psync => Ok(FrameView::Simple(psync_line(config))),
    }
}

/// What a command leaves in the store.
pub open spec fn store_after(c: CommandView, store: StoreView, now: nat) -> StoreView {
    match c {
        CommandView::Get { key } => store_after_get(store, key, now),
        CommandView::SetCmd { key, value, expire, keep_ttl } => store_set(
            store,
            key,
            value,
            expire,
            keep_ttl,
            now,
        ),
        _ => store,
    }
}

/// A `GET` of a key that the store does not hold is answered with the null
/// value and leaves the store as it is.
pub proof fn lemma_get_of_unset_key_is_null(
    store: StoreView,
    key: Seq<char>,
    config: ConfigView,
    now: nat,
)
    requires
        !store.contains_key(key),
    ensures
        reply(CommandView::Get { key }, store, config, now) == Ok::<FrameView, ErrorView>(
            FrameView::Null,
        ),
        store_after(CommandView::Get { key }, store, now) == store,
{
}

/// The view of what executing a command returned.
pub open spec fn outcome(r: Result<Frame, RedisError>) -> Result<FrameView, ErrorView> {
    match r {
        Ok(f) => Ok(f@),
        Err(e) => Err(e@),
    }
}

impl Ping {
    /// Answers `PONG`.
    pub fn execute(self, db: &mut Db, config: &RedisConfig, now: u64) -> (r: Result<
        Frame,
        RedisError,
    >)
        ensures
            *final(db) == *old(db),
            outcome(r) == reply(CommandView::Ping, old(db)@, config@, now as nat),
    {
        Ok(Frame::Simple(String::from_str("PONG")))
    }
}

impl Echo {
    /// Answers with the message.
    pub fn execute(self, db: &mut Db, config: &RedisConfig, now: u64) -> (r: Result<
        Frame,
        RedisError,
    >)
        ensures
            *final(db) == *old(db),
            outcome(r) == reply(self@, old(db)@, config@, now as nat),
    {
        Ok(Frame::Bulk(self.msg))
    }
}

impl Get {
    /// Looks the key up: the value on a hit, the null value otherwise. An
    /// entry found expired is removed on the way.
    pub fn execute(self, db: &mut Db, config: &RedisConfig, now: u64) -> (r: Result<
        Frame,
        RedisError,
    >)
        requires
            old(db).wf(),
        ensures
            final(db).wf(),
            final(db)@ == store_after(self@, old(db)@, now as nat),
            outcome(r) == reply(self@, old(db)@, config@, now as nat),
    {
        match db.get(self.key.as_str(), now) {
            Some(value) => Ok(Frame::Bulk(value)),
            None => Ok(Frame::Null),
        }
    }
}

impl SetCmd {
    /// Stores the value and answers `OK`.
    pub fn execute(self, db: &mut Db, config: &RedisConfig, now: u64) -> (r: Result<
        Frame,
        RedisError,
    >)
        requires
            old(db).wf(),
            valid_command(self@),
        ensures
            final(db).wf(),
            final(db)@ == store_after(self@, old(db)@, now as nat),
            outcome(r) == reply(self@, old(db)@, config@, now as nat),
    {
        db.set(self.key, self.value, self.expire, self.keep_ttl, now);
        Ok(Frame::Simple(String::from_str("OK")))
    }
}

impl Info {
    /// Answers with the report on replication where that is what was asked
    /// for; every other section is not provided yet.
    pub fn execute(self, db: &mut Db, config: &RedisConfig, now: u64) -> (r: Result<
        Frame,
        RedisError,
    >)
        ensures
            *final(db) == *old(db),
            outcome(r) == reply(self@, old(db)@, config@, now as nat),
    {
        match self.sections {
            Section::Replication => {
                let mut out: Vec<u8> = Vec::new();
                if config.replicaof.is_some() {
                    append_bytes(&mut out, "role:slave\r\nmaster_replid:".as_bytes());
                } else {
                    append_bytes(&mut out, "role:master\r\nmaster_replid:".as_bytes());
                }
                append_bytes(&mut out, config.replid.as_str().as_bytes());
                append_bytes(&mut out, "\r\nmaster_repl_offset:".as_bytes());
                push_decimal(&mut out, config.repl_offset);
                out.push(13u8);
                out.push(10u8);
                assert(out@ =~= info_report(config@));
                Ok(Frame::Bulk(bytes_from_vec(out)))
            },
            _ => Err(RedisError::incomplete_err()),
        }
    }
}

impl Replconf {
    /// Acknowledges whatever option was sent.
    pub fn execute(self, db: &mut Db, config: &RedisConfig, now: u64) -> (r: Result<
        Frame,
        RedisError,
    >)
        ensures
            *final(db) == *old(db),
            outcome(r) == reply(CommandView::Replconf, old(db)@, config@, now as nat),
    {
        Ok(Frame::Simple(String::from_str("OK")))
    }
}

impl Psync {
    /// Answers with the line that starts a full resynchronisation. No
    /// snapshot follows it.
    pub fn execute(self, db: &mut Db, config: &RedisConfig, now: u64) -> (r: Result<
        Frame,
        RedisError,
    >)
        ensures
            *final(db) == *old(db),
            outcome(r) == reply(CommandView::Psync, old(db)@, config@, now as nat),
    {
        let offset = decimal_string(config.repl_offset);
        let line = String::from_str("FULLRESYNC ").concat(config.replid.as_str()).concat(
            " ",
        ).concat(offset.as_str());
        Ok(Frame::Simple(line))
    }
}

impl Command {
    /// Executes the command against the store and gives the reply frame.
    pub fn execute(self, db: &mut Db, config: &RedisConfig, now: u64) -> (r: Result<
        Frame,
        RedisError,
    >)
        requires
            old(db).wf(),
            valid_command(self@),
        ensures
            final(db).wf(),
            final(db)@ == store_after(self@, old(db)@, now as nat),
            outcome(r) == reply(self@, old(db)@, config@, now as nat),
    {
        match self {
            Command::Ping(c) => c.execute(db, config, now),
            Command::Echo(c) => c.execute(db, config, now),
            Command::Get(c) => c.execute(db, config, now),
            Command::SetCmd(c) => c.execute(db, config, now),
            Command::Info(c) => c.execute(db, config, now),
            Command::CommandIntrospect => {
                let items: Vec<Frame> = Vec::new();
                proof {
                    lemma_array_view(items);
                    assert(Frame::Array(items)@->Array_0 =~= Seq::<FrameView>::empty());
                }
                Ok(Frame::Array(items))
            },
            Command::Replconf(c) => c.execute(db, config, now),
            Command::Psync(c) => c.execute(db, config, now),
        }
    }
}

} // verus!
