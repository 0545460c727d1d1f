use irc::command::Command;
use irc::line::Line;
use irc::user::User;

fn check(v: &[u8], prefix: Option<User>, command: Command, args: Vec<&[u8]>, raw: &[u8]) {
    let line = Line::parse(v);
    assert!(line.is_some());
    let line = line.unwrap();
    assert_eq!(line.prefix, prefix);
    assert_eq!(line.command, command);
    let args: Vec<Vec<u8>> = args.into_iter().map(|a| a.to_vec()).collect();
    assert_eq!(line.args, args);
    assert_eq!(line.to_raw().as_slice(), raw);
}

#[test]
fn parse_line() {
    let v: &[u8] = b":sendak.freenode.net 001 asldfkj :Welcome to the freenode Internet Relay Chat Network asldfkj";
    check(
        v,
        Some(User::parse(b"sendak.freenode.net")),
        Command::Code(1),
        vec![b"asldfkj", b"Welcome to the freenode Internet Relay Chat Network asldfkj"],
        v,
    );
    let v: &[u8] = b"004 asdf :This is a test";
    check(v, None, Command::Code(4), vec![b"asdf", b"This is a test"], v);
    let v: &[u8] = b":nick!user@host.com PRIVMSG #channel :Some message";
    check(
        v,
        Some(User::parse(b"nick!user@host.com")),
        Command::Cmd(b"PRIVMSG".to_vec()),
        vec![b"#channel", b"Some message"],
        v,
    );
    assert_eq!(Line::parse(b" :sendak.freenode.net 001 asdf :Test"), None);
    assert_eq!(Line::parse(b":sendak  001 asdf :Test"), None);
    check(b"004", None, Command::Code(4), vec![], b"004");
    check(
        b":bob!user@host.com PRIVMSG #channel :\x01ACTION does some stuff",
        Some(User::parse(b"bob!user@host.com")),
        Command::Action(b"#channel".to_vec()),
        vec![b"does some stuff"],
        b":bob!user@host.com PRIVMSG #channel :\x01ACTION does some stuff\x01",
    );
    let v: &[u8] = b":bob!user@host.com PRIVMSG #channel :\x01VERSION\x01";
    check(
        v,
        Some(User::parse(b"bob!user@host.com")),
        Command::Ctcp(b"VERSION".to_vec(), b"#channel".to_vec()),
        vec![],
        v,
    );
    let v: &[u8] = b":bob NOTICE #frobnitz :\x01RESPONSE to whatever\x01";
    check(
        v,
        Some(User::parse(b"bob")),
        Command::CtcpReply(b"RESPONSE".to_vec(), b"#frobnitz".to_vec()),
        vec![b"to whatever"],
        v,
    );
    assert_eq!(Line::parse(b":bob f\xC3\x83\xC2\xB6o"), None);
    assert_eq!(Line::parse(b":bob f23"), None);
}

#[test]
fn welcome_line_round_trips() {
    let v: &[u8] = b":sendak.freenode.net 001 asldfkj :Welcome to the freenode Internet Relay Chat Network asldfkj";
    let line = Line::parse(v).unwrap();
    assert_eq!(line.prefix.as_ref().unwrap().raw(), b"sendak.freenode.net");
    assert_eq!(line.to_raw().as_slice(), v);
    assert_eq!(Line::parse(&line.to_raw()), Some(line));
}

#[test]
fn numeric_with_trailing_arg() {
    let line = Line::parse(b"004 asdf :This is a test").unwrap();
    assert_eq!(line.prefix, None);
    assert_eq!(line.command, Command::Code(4));
    assert_eq!(line.args, vec![b"asdf".to_vec(), b"This is a test".to_vec()]);
    assert_eq!(line.to_raw(), b"004 asdf :This is a test".to_vec());
}

#[test]
fn privmsg_from_user() {
    let line = Line::parse(b":nick!user@host.com PRIVMSG #channel :Some message").unwrap();
    assert_eq!(line.command, Command::Cmd(b"PRIVMSG".to_vec()));
    assert_eq!(line.args, vec![b"#channel".to_vec(), b"Some message".to_vec()]);
    assert_eq!(line.prefix.unwrap().nick(), b"nick".to_vec());
}

#[test]
fn bare_numeric() {
    let line = Line::parse(b"004").unwrap();
    assert_eq!(line.command, Command::Code(4));
    assert!(line.args.is_empty());
    assert_eq!(line.to_raw(), b"004".to_vec());
}

#[test]
fn action_without_closing_byte() {
    let line = Line::parse(b":bob!user@host.com PRIVMSG #channel :\x01ACTION does some stuff").unwrap();
    assert_eq!(line.command, Command::Action(b"#channel".to_vec()));
    assert_eq!(line.args, vec![b"does some stuff".to_vec()]);
    assert_eq!(
        line.to_raw(),
        b":bob!user@host.com PRIVMSG #channel :\x01ACTION does some stuff\x01".to_vec()
    );
}

#[test]
fn action_with_closing_byte() {
    let v: &[u8] = b":bob!user@host.com PRIVMSG #channel :\x01ACTION does some stuff\x01";
    let line = Line::parse(v).unwrap();
    assert_eq!(line.command, Command::Action(b"#channel".to_vec()));
    assert_eq!(line.args, vec![b"does some stuff".to_vec()]);
    assert_eq!(line.to_raw().as_slice(), v);
}

#[test]
fn action_without_payload_has_empty_arg() {
    let line = Line::parse(b"PRIVMSG #c :\x01ACTION\x01").unwrap();
    assert_eq!(line.command, Command::Action(b"#c".to_vec()));
    assert_eq!(line.args, vec![Vec::new()]);
    assert_eq!(line.to_raw(), b"PRIVMSG #c :\x01ACTION \x01".to_vec());
    assert_eq!(Line::parse(&line.to_raw()), Some(line));
}

#[test]
fn ctcp_version() {
    let v: &[u8] = b":bob!user@host.com PRIVMSG #channel :\x01VERSION\x01";
    let line = Line::parse(v).unwrap();
    assert_eq!(line.command, Command::Ctcp(b"VERSION".to_vec(), b"#channel".to_vec()));
    assert!(line.args.is_empty());
    assert_eq!(line.to_raw().as_slice(), v);
}

#[test]
fn ctcp_without_closing_byte_is_canonicalised() {
    let line = Line::parse(b"PRIVMSG #c :\x01VERSION").unwrap();
    assert_eq!(line.command, Command::Ctcp(b"VERSION".to_vec(), b"#c".to_vec()));
    assert!(line.args.is_empty());
    assert_eq!(line.to_raw(), b"PRIVMSG #c :\x01VERSION\x01".to_vec());
    assert_eq!(Line::parse(&line.to_raw()), Some(line));
}

#[test]
fn ctcp_reply_notice() {
    let line = Line::parse(b":bob NOTICE #frobnitz :\x01RESPONSE to whatever\x01").unwrap();
    assert_eq!(line.prefix, Some(User::parse(b"bob")));
    assert_eq!(line.command, Command::CtcpReply(b"RESPONSE".to_vec(), b"#frobnitz".to_vec()));
    assert_eq!(line.args, vec![b"to whatever".to_vec()]);
}

#[test]
fn ctcp_without_destination_is_rejected() {
    assert_eq!(Line::parse(b"PRIVMSG :\x01VERSION\x01"), None);
}

#[test]
fn rejects_malformed_frames() {
    assert_eq!(Line::parse(b" :sendak.freenode.net 001 asdf :Test"), None);
    assert_eq!(Line::parse(b":sendak  001 asdf :Test"), None);
    assert_eq!(Line::parse(b":bob f23"), None);
    assert_eq!(Line::parse(b":bob f\xC3\x83\xC2\xB6o"), None);
    assert_eq!(Line::parse(b":nospace"), None);
    assert_eq!(Line::parse(b"12"), None);
}

#[test]
fn middle_arguments_and_plain_last() {
    let line = Line::parse(b"MODE #chan +o bob").unwrap();
    assert_eq!(
        line.args,
        vec![b"#chan".to_vec(), b"+o".to_vec(), b"bob".to_vec()]
    );
    assert_eq!(line.to_raw(), b"MODE #chan +o bob".to_vec());
}

#[test]
fn code_rendering_pads_to_three_digits() {
    let mk = |c: u32| Line { prefix: None, command: Command::Code(c), args: vec![] }.to_raw();
    assert_eq!(mk(7), b"007".to_vec());
    assert_eq!(mk(42), b"042".to_vec());
    assert_eq!(mk(433), b"433".to_vec());
    assert_eq!(mk(1000), b"1000".to_vec());
}

#[test]
fn to_raw_colon_only_where_last_has_space() {
    let line = Line {
        prefix: Some(User::new(b"n", Some(b"u"), Some(b"h"))),
        command: Command::Cmd(b"TOPIC".to_vec()),
        args: vec![b"#c".to_vec(), b"one".to_vec()],
    };
    assert_eq!(line.to_raw(), b":n!u@h TOPIC #c one".to_vec());
    let line = Line { args: vec![b"#c".to_vec(), b"one two".to_vec()], ..line };
    assert_eq!(line.to_raw(), b":n!u@h TOPIC #c :one two".to_vec());
}

#[test]
fn user_parts() {
    let u = User::new(b"nick", Some(b"user"), Some(b"host.com"));
    assert_eq!(u.raw(), b"nick!user@host.com");
    assert_eq!(u.nick(), b"nick".to_vec());
    let v = u.with_nick(b"other");
    assert_eq!(v.raw(), b"other!user@host.com");
    assert_eq!(User::new(b"n", None, None).raw(), b"n");
    assert_eq!(User::parse(b"a@b!c").nick(), b"a".to_vec());
}
