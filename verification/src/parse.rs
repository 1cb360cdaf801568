//! The command grammar: from a decoded frame to a validated command, or to
//! the syntax error that the client is told.

use crate::buffer::{bytes_as_slice, bytes_view};
use crate::cmd::{
    lemma_sections_view, valid_command, Command, CommandView, Echo, Get, Info, Ping, Psync,
    Replconf, Section, SectionView, SetCmd,
};
use crate::db::Ttl;
use crate::decimal::{parse_decimal, parse_u64};
use crate::error::{ErrorView, RedisError};
use crate::frame::{lemma_array_view, Frame, FrameView};
use crate::util::{slice_to_string, syntax_message};
use bytes::Bytes;
use vstd::prelude::*;
use vstd::string::StringExecFns;
use vstd::utf8::{decode_utf8, encode_utf8, valid_utf8};

verus! {

/// An ASCII capital letter as its small letter; any other byte as it is.
pub open spec fn lower(b: u8) -> u8 {
    if 65 <= b <= 90 {
        (b + 32) as u8
    } else {
        b
    }
}

/// A token with its ASCII letters folded to lower case.
pub open spec fn folded(s: Seq<u8>) -> Seq<u8> {
    Seq::new(s.len(), |i: int| lower(s[i]))
}

/// True when `token` spells `word`, whatever the case of its letters. The
/// word is given in lower case.
pub open spec fn is_word(token: Seq<u8>, word: Seq<char>) -> bool {
    folded(token) == encode_utf8(word)
}

/// The payloads of a run of buffers.
pub open spec fn bulk_views(v: Seq<Bytes>) -> Seq<Seq<u8>> {
    Seq::new(v.len(), |i: int| bytes_view(v[i]))
}

/// True when every frame of `v` is a bulk string.
pub open spec fn all_bulks(v: Seq<FrameView>) -> bool {
    forall|i: int| 0 <= i < v.len() ==> (#[trigger] v[i]) is Bulk
}

/// The arguments that a request frame carries: it must be an array, and each
/// of its elements a bulk string.
pub open spec fn bulks_of(f: FrameView) -> Option<Seq<Seq<u8>>> {
    match f {
        FrameView::Array(v) => if all_bulks(v) {
            Some(Seq::new(v.len(), |i: int| v[i]->Bulk_0))
        } else {
            None
        },
        _ => None,
    }
}

/// The error for input that breaks the grammar.
pub open spec fn syntax_error() -> ErrorView {
    ErrorView::SyntaxErr(syntax_message())
}

/// The error for a frame that is no request at all.
pub open spec fn invalid_frame() -> ErrorView {
    ErrorView::SyntaxErr("invalid frame"@)
}

/// The error for a `GET` with the wrong number of arguments.
pub open spec fn wrong_arity_get() -> ErrorView {
    ErrorView::SyntaxErr("wrong number of arguments for GET"@)
}

/// The error for an expiry that is zero or no number.
pub open spec fn invalid_expire() -> ErrorView {
    ErrorView::SyntaxErr("invalid expire time"@)
}

/// The error for a command name that selects nothing.
pub open spec fn unknown_command(name: Seq<char>) -> ErrorView {
    ErrorView::SyntaxErr("unknown command '"@ + name + "'"@)
}

/// One section name. Only `replication` is recognised.
pub open spec fn parse_section(word: Seq<u8>) -> Result<SectionView, ErrorView> {
    if is_word(word, "replication"@) {
        Ok(SectionView::Replication)
    } else {
        Err(syntax_error())
    }
}

/// A list of section names, each recognised on its own.
pub open spec fn parse_sections(words: Seq<Seq<u8>>) -> Result<SectionView, ErrorView> {
    if forall|i: int| 0 <= i < words.len() ==> is_word(#[trigger] words[i], "replication"@) {
        Ok(SectionView::Array(Seq::new(words.len(), |i: int| SectionView::Replication)))
    } else {
        Err(syntax_error())
    }
}

/// The arguments of `INFO`: none for the default section, one section name,
/// or a list of two to thirteen of them.
pub open spec fn parse_info(args: Seq<Seq<u8>>) -> Result<CommandView, ErrorView> {
    if args.len() == 1 {
        Ok(CommandView::Info { sections: SectionView::Default })
    } else if args.len() == 2 {
        match parse_section(args[1]) {
            Ok(s) => Ok(CommandView::Info { sections: s }),
            Err(e) => Err(e),
        }
    } else if 2 < args.len() <= 14 {
        match parse_sections(args.skip(1)) {
            Ok(s) => Ok(CommandView::Info { sections: s }),
            Err(e) => Err(e),
        }
    } else {
        Err(syntax_error())
    }
}

/// The arguments of `SET`: a key that is text and a value, neither empty,
/// then nothing, or `KEEPTTL`, or a unit (`EX` seconds, `PX` milliseconds)
/// with a positive number.
pub open spec fn parse_set(args: Seq<Seq<u8>>) -> Result<CommandView, ErrorView> {
    if args.len() < 3 || args.len() > 5 {
        Err(syntax_error())
    } else if !valid_utf8(args[1]) || args[1].len() == 0 || args[2].len() == 0 {
        Err(syntax_error())
    } else if args.len() == 3 {
        Ok(
            CommandView::SetCmd {
                key: decode_utf8(args[1]),
                value: args[2],
                expire: None,
                keep_ttl: false,
            },
        )
    } else if args.len() == 4 {
        if is_word(args[3], "keepttl"@) {
            Ok(
                CommandView::SetCmd {
                    key: decode_utf8(args[1]),
                    value: args[2],
                    expire: None,
                    keep_ttl: true,
                },
            )
        } else {
            Err(syntax_error())
        }
    } else {
        match parse_decimal(args[4]) {
            Some(t) => if t == 0 {
                Err(invalid_expire())
            } else if is_word(args[3], "ex"@) {
                Ok(
                    CommandView::SetCmd {
                        key: decode_utf8(args[1]),
                        value: args[2],
                        expire: Some((t * 1000) as nat),
                        keep_ttl: false,
                    },
                )
            } else if is_word(args[3], "px"@) {
                Ok(
                    CommandView::SetCmd {
                        key: decode_utf8(args[1]),
                        value: args[2],
                        expire: Some(t as nat),
                        keep_ttl: false,
                    },
                )
            } else {
                Err(syntax_error())
            },
            None => Err(invalid_expire()),
        }
    }
}

/// The command that a non-empty list of arguments asks for. The first
/// argument, folded to lower case, selects the command.
pub open spec fn parse_args(args: Seq<Seq<u8>>) -> Result<CommandView, ErrorView> {
    let name = args[0];
    if !valid_utf8(name) {
        Err(syntax_error())
    } else if is_word(name, "command"@) {
        Ok(CommandView::CommandIntrospect)
    } else if is_word(name, "ping"@) {
        if args.len() == 1 {
            Ok(CommandView::Ping)
        } else {
            Err(unknown_command(decode_utf8(name)))
        }
    } else if is_word(name, "echo"@) {
        if args.len() == 2 {
            Ok(CommandView::Echo { msg: args[1] })
        } else {
            Err(unknown_command(decode_utf8(name)))
        }
    } else if is_word(name, "get"@) {
        if args.len() == 2 {
            if valid_utf8(args[1]) {
                Ok(CommandView::Get { key: decode_utf8(args[1]) })
            } else {
                Err(syntax_error())
            }
        } else {
            Err(wrong_arity_get())
        }
    } else if is_word(name, "set"@) {
        parse_set(args)
    } else if is_word(name, "info"@) {
        parse_info(args)
    } else if is_word(name, "replconf"@) {
        Ok(CommandView::Replconf)
    } else if is_word(name, "psync"@) {
        Ok(CommandView::Psync)
    } else {
        Err(unknown_command(decode_utf8(name)))
    }
}

/// The command that a frame asks for: the frame must be a non-empty array of
/// bulk strings.
pub open spec fn parse_command(f: FrameView) -> Result<CommandView, ErrorView> {
    match bulks_of(f) {
        Some(args) => if args.len() > 0 {
            parse_args(args)
        } else {
            Err(invalid_frame())
        },
        None => Err(invalid_frame()),
    }
}

/// A `SET` of four tokens is a syntax error unless the fourth is `KEEPTTL`,
/// and one of more than five tokens always is.
pub proof fn lemma_set_arity(args: Seq<Seq<u8>>)
    ensures
        args.len() == 4 && !is_word(args[3], "keepttl"@) ==> parse_set(args) == Err::<
            CommandView,
            ErrorView,
        >(syntax_error()),
        args.len() < 3 || args.len() > 5 ==> parse_set(args) == Err::<CommandView, ErrorView>(
            syntax_error(),
        ),
{
}

/// Text that is decoded from bytes is empty only if there are no bytes.
pub proof fn lemma_decoded_not_empty(b: Seq<u8>)
    requires
        valid_utf8(b),
        b.len() > 0,
    ensures
        decode_utf8(b).len() > 0,
{
}

/// Every command that the grammar accepts is valid to execute.
pub proof fn lemma_parsed_is_valid(f: FrameView)
    ensures
        parse_command(f) matches Ok(c) ==> valid_command(c),
{
    if let Some(args) = bulks_of(f) {
        if args.len() >= 3 && valid_utf8(args[1]) && args[1].len() > 0 {
            lemma_decoded_not_empty(args[1]);
        }
    }
}

/// Tells whether `token` spells `word`, whatever the case of its letters.
pub fn matches_word(token: &[u8], word: &str) -> (b: bool)
    ensures
        b == is_word(token@, word@),
{
    let w = word.as_bytes();
    let n: usize = token.len();
    if n != w.len() {
        assert(folded(token@).len() != encode_utf8(word@).len());
        return false;
    }
    let mut i: usize = 0;
    while i < n
        invariant
            i <= n,
            n == token@.len(),
            n == w@.len(),
            w@ == encode_utf8(word@),
            forall|j: int| 0 <= j < i ==> lower(token@[j]) == w@[j],
        decreases n - i,
    {
        let b: u8 = token[i];
        let low: u8 = if 65 <= b && b <= 90 {
            b + 32
        } else {
            b
        };
        if low != w[i] {
            assert(folded(token@)[i as int] != encode_utf8(word@)[i as int]);
            return false;
        }
        i = i + 1;
    }
    assert(folded(token@) =~= encode_utf8(word@));
    true
}

/// The view of what a conversion to a command returned.
pub open spec fn parsed<T: View<V = CommandView>>(r: Result<T, RedisError>) -> Result<
    CommandView,
    ErrorView,
> {
    match r {
        Ok(c) => Ok(c@),
        Err(e) => Err(e@),
    }
}

impl Section {
    /// Reads one section name.
    pub fn try_from(value: Bytes) -> (r: Result<Section, RedisError>)
        ensures
            match r {
                Ok(s) => parse_section(bytes_view(value)) == Ok::<SectionView, ErrorView>(s@),
                Err(e) => parse_section(bytes_view(value)) == Err::<SectionView, ErrorView>(e@),
            },
    {
        if matches_word(bytes_as_slice(&value), "replication") {
            Ok(Section::Replication)
        } else {
            Err(RedisError::syntax_err("syntax error"))
        }
    }

    /// Reads a list of section names into one section that holds them all.
    pub fn try_from_list(values: Vec<Bytes>) -> (r: Result<Section, RedisError>)
        ensures
            match r {
                Ok(s) => parse_sections(bulk_views(values@)) == Ok::<SectionView, ErrorView>(s@),
                Err(e) => parse_sections(bulk_views(values@)) == Err::<SectionView, ErrorView>(
                    e@,
                ),
            },
    {
        let ghost words = bulk_views(values@);
        let n: usize = values.len();
        let mut sections: Vec<Section> = Vec::new();
        let mut i: usize = 0;
        while i < n
            invariant
                i <= n,
                n == values@.len(),
                words == bulk_views(values@),
                sections@.len() == i,
                forall|j: int| 0 <= j < i ==> is_word(#[trigger] words[j], "replication"@),
                forall|j: int| 0 <= j < i ==> (#[trigger] sections@[j])@ == SectionView::Replication,
            decreases n - i,
        {
            assert(words[i as int] == bytes_view(values@[i as int]));
            if matches_word(bytes_as_slice(&values[i]), "replication") {
                sections.push(Section::Replication);
            } else {
                return Err(RedisError::syntax_err("syntax error"));
            }
            i = i + 1;
        }
        proof {
            lemma_sections_view(sections);
            assert(Section::Array(sections)@->Array_0 =~= Seq::new(
                words.len(),
                |i: int| SectionView::Replication,
            ));
        }
        Ok(Section::Array(sections))
    }
}

impl Info {
    /// Reads the arguments of `INFO`, the command name included.
    pub fn try_from(value: Vec<Bytes>) -> (r: Result<Info, RedisError>)
        ensures
            parsed(r) == parse_info(bulk_views(value@)),
    {
        let ghost args = bulk_views(value@);
        let len: usize = value.len();
        if len == 1 {
            return Ok(Info { sections: Section::Default });
        }
        if len == 2 {
            assert(args[1] == bytes_view(value@[1]));
            return match Section::try_from(value[1].clone()) {
                Ok(sections) => Ok(Info { sections }),
                Err(e) => Err(e),
            };
        }
        if len > 2 && len <= 14 {
            let mut rest: Vec<Bytes> = Vec::new();
            let mut i: usize = 1;
            while i < len
                invariant
                    1 <= i <= len,
                    len == value@.len(),
                    rest@.len() == i - 1,
                    forall|j: int|
                        0 <= j < i - 1 ==> bytes_view(#[trigger] rest@[j]) == bytes_view(
                            value@[j + 1],
                        ),
                decreases len - i,
            {
                rest.push(value[i].clone());
                i = i + 1;
            }
            assert(bulk_views(rest@) =~= args.skip(1));
            return match Section::try_from_list(rest) {
                Ok(sections) => Ok(Info { sections }),
                Err(e) => Err(e),
            };
        }
        Err(RedisError::syntax_err("syntax error"))
    }
}

impl SetCmd {
    /// Reads the arguments of `SET`, the command name included.
    pub fn try_from(bulks: Vec<Bytes>) -> (r: Result<SetCmd, RedisError>)
        ensures
            parsed(r) == parse_set(bulk_views(bulks@)),
    {
        let ghost args = bulk_views(bulks@);
        let len: usize = bulks.len();
        if len < 3 || len > 5 {
            return Err(RedisError::syntax_err("syntax error"));
        }
        assert(args[1] == bytes_view(bulks@[1]));
        assert(args[2] == bytes_view(bulks@[2]));
        let key_bytes = bytes_as_slice(&bulks[1]);
        let key = match slice_to_string(key_bytes) {
            Ok(k) => k,
            Err(e) => {
                return Err(e);
            },
        };
        let value = bulks[2].clone();
        if key_bytes.len() == 0 || bytes_as_slice(&value).len() == 0 {
            return Err(RedisError::syntax_err("syntax error"));
        }
        if len == 3 {
            return Ok(SetCmd { key, value, expire: None, keep_ttl: false });
        }
        assert(args[3] == bytes_view(bulks@[3]));
        if len == 4 {
            if matches_word(bytes_as_slice(&bulks[3]), "keepttl") {
                return Ok(SetCmd { key, value, expire: None, keep_ttl: true });
            }
            return Err(RedisError::syntax_err("syntax error"));
        }
        assert(args[4] == bytes_view(bulks@[4]));
        let expire: u64 = match parse_u64(bytes_as_slice(&bulks[4])) {
            Some(t) => t,
            None => {
                return Err(RedisError::syntax_err("invalid expire time"));
            },
        };
        if expire == 0 {
            return Err(RedisError::syntax_err("invalid expire time"));
        }
        let unit = bytes_as_slice(&bulks[3]);
        if matches_word(unit, "ex") {
            return Ok(SetCmd { key, value, expire: Some(Ttl::from_secs(expire)), keep_ttl: false });
        }
        if matches_word(unit, "px") {
            return Ok(
                SetCmd { key, value, expire: Some(Ttl::from_millis(expire)), keep_ttl: false },
            );
        }
        Err(RedisError::syntax_err("syntax error"))
    }
}

impl Frame {
    /// The request frame that carries `value` as its arguments.
    pub fn from(value: Vec<Bytes>) -> (f: Frame)
        ensures
            bulks_of(f@) == Some(bulk_views(value@)),
    {
        let n: usize = value.len();
        let mut items: Vec<Frame> = Vec::new();
        let mut i: usize = 0;
        while i < n
            invariant
                i <= n,
                n == value@.len(),
                items@.len() == i,
                forall|j: int|
                    0 <= j < i ==> (#[trigger] items@[j])@ == FrameView::Bulk(
                        bytes_view(value@[j]),
                    ),
            decreases n - i,
        {
            items.push(Frame::Bulk(value[i].clone()));
            i = i + 1;
        }
        proof {
            lemma_array_view(items);
        }
        let f = Frame::Array(items);
        assert(bulks_of(f@)->Some_0 =~= bulk_views(value@));
        f
    }

    /// The arguments that this frame carries. A frame that is no array of
    /// bulk strings is an invalid frame.
    pub fn try_into(self) -> (r: Result<Vec<Bytes>, RedisError>)
        ensures
            match r {
                Ok(bulks) => bulks_of(self@) == Some(bulk_views(bulks@)),
                Err(e) => bulks_of(self@) is None && e@ == invalid_frame(),
            },
    {
        match &self {
            Frame::Array(items) => {
                proof {
                    lemma_array_view(*items);
                }
                let ghost views = self@->Array_0;
                let n: usize = items.len();
                let mut bulks: Vec<Bytes> = Vec::new();
                let mut i: usize = 0;
                while i < n
                    invariant
                        i <= n,
                        n == items@.len(),
                        views.len() == n,
                        self@ == FrameView::Array(views),
                        forall|j: int| 0 <= j < n ==> (#[trigger] views[j]) == items@[j]@,
                        bulks@.len() == i,
                        forall|j: int| 0 <= j < i ==> (#[trigger] views[j]) is Bulk,
                        forall|j: int|
                            0 <= j < i ==> bytes_view(#[trigger] bulks@[j]) == views[j]->Bulk_0,
                    decreases n - i,
                {
                    match &items[i] {
                        Frame::Bulk(b) => {
                            bulks.push(b.clone());
                        },
                        _ => {
                            assert(!(views[i as int] is Bulk));
                            assert(!all_bulks(views));
                            return Err(RedisError::syntax_err("invalid frame"));
                        },
                    }
                    i = i + 1;
                }
                assert(bulks_of(self@)->Some_0 =~= bulk_views(bulks@));
                Ok(bulks)
            },
            _ => Err(RedisError::syntax_err("invalid frame")),
        }
    }

    /// Reads this frame as a request and gives the command it asks for, or
    /// the syntax error to report. A command that comes back is valid to
    /// execute.
    pub fn parse_cmd(self) -> (r: Result<Command, RedisError>)
        ensures
            parsed(r) == parse_command(self@),
            r matches Ok(c) ==> valid_command(c@),
    {
        proof {
            lemma_parsed_is_valid(self@);
        }
        let bulks: Vec<Bytes> = match self.try_into() {
            Ok(b) => b,
            Err(e) => {
                return Err(e);
            },
        };
        let ghost args = bulk_views(bulks@);
        let len: usize = bulks.len();
        if len == 0 {
            return Err(RedisError::syntax_err("invalid frame"));
        }
        assert(args[0] == bytes_view(bulks@[0]));
        let name = bytes_as_slice(&bulks[0]);
        let cmd_name: String = match slice_to_string(name) {
            Ok(s) => s,
            Err(e) => {
                return Err(e);
            },
        };
        if matches_word(name, "command") {
            return Ok(Command::CommandIntrospect);
        }
        if matches_word(name, "ping") {
            if len == 1 {
                return Ok(Command::Ping(Ping));
            }
        } else if matches_word(name, "echo") {
            if len == 2 {
                assert(args[1] == bytes_view(bulks@[1]));
                return Ok(Command::Echo(Echo { msg: bulks[1].clone() }));
            }
        } else if matches_word(name, "get") {
            if len == 2 {
                assert(args[1] == bytes_view(bulks@[1]));
                return match slice_to_string(bytes_as_slice(&bulks[1])) {
                    Ok(key) => Ok(Command::Get(Get { key })),
                    Err(e) => Err(e),
                };
            }
            return Err(RedisError::syntax_err("wrong number of arguments for GET"));
        } else if matches_word(name, "set") {
            return match SetCmd::try_from(bulks) {
                Ok(c) => Ok(Command::SetCmd(c)),
                Err(e) => Err(e),
            };
        } else if matches_word(name, "info") {
            return match Info::try_from(bulks) {
                Ok(c) => Ok(Command::Info(c)),
                Err(e) => Err(e),
            };
        } else if matches_word(name, "replconf") {
            return Ok(Command::Replconf(Replconf));
        } else if matches_word(name, "psync") {
            return Ok(Command::Psync(Psync));
        }
        let message = String::from_str("unknown command '").concat(cmd_name.as_str()).concat("'");
        Err(RedisError::SyntaxErr(message))
    }
}

} // verus!
