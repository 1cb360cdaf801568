use bytes::Bytes;
use resp_kv::cmd::{Command, Echo, Get, Info, Ping, Psync, Replconf, Section, SetCmd};
use resp_kv::db::Ttl;
use resp_kv::error::RedisError;
use resp_kv::frame::Frame;
use resp_kv::parse::matches_word;

fn b(s: &str) -> Bytes {
    Bytes::from(s.to_string())
}

fn request(words: &[&str]) -> Frame {
    Frame::Array(words.iter().map(|w| Frame::Bulk(b(w))).collect())
}

fn parse(words: &[&str]) -> Command {
    match request(words).parse_cmd() {
        Ok(c) => c,
        Err(e) => panic!("expected a command, got {:?}", e),
    }
}

fn syntax_error(words: &[&str]) -> String {
    match request(words).parse_cmd() {
        Err(RedisError::SyntaxErr(m)) => m,
        other => panic!("expected a syntax error, got {:?}", other),
    }
}

#[test]
fn ping_takes_no_argument() {
    assert_eq!(parse(&["PING"]), Command::Ping(Ping));
    assert_eq!(parse(&["ping"]), Command::Ping(Ping));
    assert_eq!(parse(&["PiNg"]), Command::Ping(Ping));
    assert_eq!(syntax_error(&["PING", "x"]), "unknown command 'PING'");
}

#[test]
fn echo_takes_one_argument() {
    assert_eq!(parse(&["ECHO", "hey"]), Command::Echo(Echo { msg: b("hey") }));
    assert_eq!(parse(&["echo", ""]), Command::Echo(Echo { msg: b("") }));
    assert_eq!(syntax_error(&["ECHO"]), "unknown command 'ECHO'");
    assert_eq!(syntax_error(&["echo", "a", "b"]), "unknown command 'echo'");
}

#[test]
fn get_takes_one_key() {
    assert_eq!(parse(&["GET", "foo"]), Command::Get(Get { key: "foo".to_string() }));
    assert_eq!(parse(&["get", "caf\u{e9}"]), Command::Get(Get { key: "caf\u{e9}".to_string() }));
    assert_eq!(syntax_error(&["GET"]), "wrong number of arguments for GET");
    assert_eq!(syntax_error(&["GET", "a", "b"]), "wrong number of arguments for GET");
}

#[test]
fn get_key_must_be_text() {
    let frame = Frame::Array(vec![Frame::Bulk(b("GET")), Frame::Bulk(Bytes::from(vec![0xff]))]);
    assert!(matches!(frame.parse_cmd(), Err(RedisError::SyntaxErr(m)) if m == "syntax error"));
}

#[test]
fn set_plain() {
    assert_eq!(
        parse(&["SET", "foo", "bar"]),
        Command::SetCmd(SetCmd { key: "foo".to_string(), value: b("bar"), expire: None, keep_ttl: false })
    );
}

#[test]
fn set_keepttl() {
    let want = Command::SetCmd(SetCmd {
        key: "foo".to_string(),
        value: b("bar"),
        expire: None,
        keep_ttl: true,
    });
    assert_eq!(parse(&["SET", "foo", "bar", "KEEPTTL"]), want);
    assert_eq!(parse(&["set", "foo", "bar", "keepttl"]), want);
    assert_eq!(parse(&["set", "foo", "bar", "KeepTtl"]), want);
}

#[test]
fn set_with_seconds_and_milliseconds() {
    assert_eq!(
        parse(&["SET", "foo", "bar", "EX", "100"]),
        Command::SetCmd(SetCmd {
            key: "foo".to_string(),
            value: b("bar"),
            expire: Some(Ttl { millis: 100_000 }),
            keep_ttl: false,
        })
    );
    assert_eq!(
        parse(&["SET", "foo", "bar", "px", "100"]),
        Command::SetCmd(SetCmd {
            key: "foo".to_string(),
            value: b("bar"),
            expire: Some(Ttl { millis: 100 }),
            keep_ttl: false,
        })
    );
    assert_eq!(
        parse(&["SET", "foo", "bar", "eX", "18446744073709551615"]),
        Command::SetCmd(SetCmd {
            key: "foo".to_string(),
            value: b("bar"),
            expire: Some(Ttl { millis: 18_446_744_073_709_551_615_000 }),
            keep_ttl: false,
        })
    );
}

#[test]
fn set_with_four_tokens_that_are_not_keepttl_is_a_syntax_error() {
    assert_eq!(syntax_error(&["SET", "foo", "bar", "baz"]), "syntax error");
    assert_eq!(syntax_error(&["SET", "foo", "bar", "EX"]), "syntax error");
    assert_eq!(syntax_error(&["SET", "foo", "bar", "KEEPTTLX"]), "syntax error");
}

#[test]
fn set_rejects_bad_expire_times() {
    assert_eq!(syntax_error(&["SET", "foo", "bar", "EX", "0"]), "invalid expire time");
    assert_eq!(syntax_error(&["SET", "foo", "bar", "PX", "0"]), "invalid expire time");
    assert_eq!(syntax_error(&["SET", "foo", "bar", "EX", "abc"]), "invalid expire time");
    assert_eq!(syntax_error(&["SET", "foo", "bar", "EX", "-5"]), "invalid expire time");
    assert_eq!(syntax_error(&["SET", "foo", "bar", "EX", ""]), "invalid expire time");
    assert_eq!(syntax_error(&["SET", "foo", "bar", "ZZ", "abc"]), "invalid expire time");
}

#[test]
fn set_rejects_bad_units_and_arities() {
    assert_eq!(syntax_error(&["SET", "foo", "bar", "ZZ", "10"]), "syntax error");
    assert_eq!(syntax_error(&["SET", "foo", "bar", "KEEPTTL", "10"]), "syntax error");
    assert_eq!(syntax_error(&["SET"]), "syntax error");
    assert_eq!(syntax_error(&["SET", "foo"]), "syntax error");
    assert_eq!(syntax_error(&["SET", "foo", "bar", "EX", "10", "extra"]), "syntax error");
}

#[test]
fn set_rejects_empty_key_and_empty_value() {
    assert_eq!(syntax_error(&["SET", "", "bar"]), "syntax error");
    assert_eq!(syntax_error(&["SET", "foo", ""]), "syntax error");
    assert_eq!(syntax_error(&["SET", "", "", "KEEPTTL"]), "syntax error");
}

#[test]
fn set_key_must_be_text() {
    let frame = Frame::Array(vec![
        Frame::Bulk(b("SET")),
        Frame::Bulk(Bytes::from(vec![0xff, 0xfe])),
        Frame::Bulk(b("v")),
    ]);
    assert!(matches!(frame.parse_cmd(), Err(RedisError::SyntaxErr(m)) if m == "syntax error"));
}

#[test]
fn set_value_may_be_any_bytes() {
    let frame = Frame::Array(vec![
        Frame::Bulk(b("SET")),
        Frame::Bulk(b("k")),
        Frame::Bulk(Bytes::from(vec![0xff, 0x00, 0x0d, 0x0a])),
    ]);
    assert_eq!(
        frame.parse_cmd().unwrap(),
        Command::SetCmd(SetCmd {
            key: "k".to_string(),
            value: Bytes::from(vec![0xff, 0x00, 0x0d, 0x0a]),
            expire: None,
            keep_ttl: false,
        })
    );
}

#[test]
fn info_sections() {
    assert_eq!(parse(&["INFO"]), Command::Info(Info { sections: Section::Default }));
    assert_eq!(parse(&["info", "replication"]), Command::Info(Info { sections: Section::Replication }));
    assert_eq!(parse(&["INFO", "REPLICATION"]), Command::Info(Info { sections: Section::Replication }));
    assert_eq!(
        parse(&["INFO", "replication", "Replication"]),
        Command::Info(Info { sections: Section::Array(vec![Section::Replication, Section::Replication]) })
    );
    assert_eq!(syntax_error(&["INFO", "server"]), "syntax error");
    assert_eq!(syntax_error(&["INFO", "replication", "server"]), "syntax error");
}

#[test]
fn info_takes_at_most_thirteen_sections() {
    let mut words = vec!["INFO"];
    for _ in 0..13 {
        words.push("replication");
    }
    match parse(&words) {
        Command::Info(Info { sections: Section::Array(v) }) => assert_eq!(v.len(), 13),
        other => panic!("expected a list of sections, got {:?}", other),
    }
    words.push("replication");
    assert_eq!(syntax_error(&words), "syntax error");
}

#[test]
fn command_replconf_and_psync_take_anything() {
    assert_eq!(parse(&["COMMAND"]), Command::CommandIntrospect);
    assert_eq!(parse(&["command", "DOCS"]), Command::CommandIntrospect);
    assert_eq!(parse(&["REPLCONF"]), Command::Replconf(Replconf));
    assert_eq!(parse(&["replconf", "listening-port", "6380"]), Command::Replconf(Replconf));
    assert_eq!(parse(&["PSYNC", "?", "-1"]), Command::Psync(Psync));
    assert_eq!(parse(&["psync"]), Command::Psync(Psync));
}

#[test]
fn unknown_command_is_named() {
    assert_eq!(syntax_error(&["asd", "asd"]), "unknown command 'asd'");
    assert_eq!(syntax_error(&["DEL", "k"]), "unknown command 'DEL'");
    assert_eq!(syntax_error(&[""]), "unknown command ''");
    assert_eq!(syntax_error(&["pin"]), "unknown command 'pin'");
    assert_eq!(syntax_error(&["pingg"]), "unknown command 'pingg'");
}

#[test]
fn command_name_must_be_text() {
    let frame = Frame::Array(vec![Frame::Bulk(Bytes::from(vec![0xff]))]);
    assert!(matches!(frame.parse_cmd(), Err(RedisError::SyntaxErr(m)) if m == "syntax error"));
}

#[test]
fn other_shapes_are_invalid_frames() {
    let shapes = vec![
        Frame::Simple("PING".to_string()),
        Frame::Error("x".to_string()),
        Frame::Integer(1),
        Frame::Bulk(b("PING")),
        Frame::Null,
        Frame::Array(vec![]),
        Frame::Array(vec![Frame::Simple("PING".to_string())]),
        Frame::Array(vec![Frame::Bulk(b("ECHO")), Frame::Integer(1)]),
        Frame::Array(vec![Frame::Bulk(b("ECHO")), Frame::Array(vec![])]),
    ];
    for shape in shapes {
        match shape.parse_cmd() {
            Err(RedisError::SyntaxErr(m)) => assert_eq!(m, "invalid frame"),
            other => panic!("expected an invalid frame, got {:?}", other),
        }
    }
}

#[test]
fn frame_from_and_try_into() {
    let frame = Frame::from(vec![b("REPLCONF"), b("capa"), b("psync2")]);
    assert_eq!(frame, request(&["REPLCONF", "capa", "psync2"]));
    assert_eq!(frame.try_into().unwrap(), vec![b("REPLCONF"), b("capa"), b("psync2")]);
    assert_eq!(Frame::Array(vec![]).try_into().unwrap(), Vec::<Bytes>::new());
    assert!(Frame::Null.try_into().is_err());
    assert!(Frame::Array(vec![Frame::Null]).try_into().is_err());
}

#[test]
fn conversions_from_arguments() {
    assert_eq!(Section::try_from(b("RePlIcAtIoN")).unwrap(), Section::Replication);
    assert!(Section::try_from(b("replicatio")).is_err());
    assert!(Section::try_from(b("")).is_err());
    assert_eq!(Section::try_from_list(vec![]).unwrap(), Section::Array(vec![]));
    assert_eq!(Info::try_from(vec![b("info")]).unwrap(), Info { sections: Section::Default });
    assert!(Info::try_from(vec![]).is_err());
    assert_eq!(
        SetCmd::try_from(vec![b("set"), b("k"), b("v"), b("PX"), b("5")]).unwrap(),
        SetCmd { key: "k".to_string(), value: b("v"), expire: Some(Ttl::from_millis(5)), keep_ttl: false }
    );
}

#[test]
fn matches_word_folds_ascii_letters_only() {
    assert!(matches_word(b"PING", "ping"));
    assert!(matches_word(b"ping", "ping"));
    assert!(matches_word(b"", ""));
    assert!(!matches_word(b"pin", "ping"));
    assert!(!matches_word(b"pingg", "ping"));
    assert!(!matches_word(b"p1ng", "ping"));
    assert!(!matches_word(b"@ING", "`ing"));
    assert!(!matches_word(b"[", "{"));
    assert!(matches_word(b"Z", "z"));
    assert!(matches_word(b"A", "a"));
}
