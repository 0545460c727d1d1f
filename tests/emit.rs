use irc::event_loop::{ends_with_error, EventLoop, Found, Source, Step};
use irc::command::Command;
use irc::conn::{Conn, Options, DEFAULT_PORT};
use irc::emit::{chomp, chomp_owned, command_frame, frame_bytes};

#[test]
fn chomp_strips_one_terminator() {
    assert_eq!(chomp(b"abc\r\n"), b"abc");
    assert_eq!(chomp(b"abc\n"), b"abc");
    assert_eq!(chomp(b"abc\r"), b"abc");
    assert_eq!(chomp(b"abc"), b"abc");
    assert_eq!(chomp(b"\n"), b"");
    assert_eq!(chomp(b""), b"");
    assert_eq!(chomp(b"a\r\n\r\n"), b"a\r\n");
}

#[test]
fn chomp_owned_reports_terminator() {
    let mut v = b"PING x\r\n".to_vec();
    assert!(chomp_owned(&mut v));
    assert_eq!(v, b"PING x".to_vec());
    let mut v = b"partial".to_vec();
    assert!(!chomp_owned(&mut v));
    assert_eq!(v, b"partial".to_vec());
}

#[test]
fn command_frame_joins_arguments() {
    let f = command_frame(&Command::Cmd(b"PRIVMSG".to_vec()), &[b"#c", b"hi there"], true);
    assert_eq!(f, b"PRIVMSG #c :hi there\r\n".to_vec());
    let f = command_frame(&Command::Cmd(b"JOIN".to_vec()), &[b"#c", b"key"], false);
    assert_eq!(f, b"JOIN #c key\r\n".to_vec());
    let f = command_frame(&Command::Code(1), &[], false);
    assert_eq!(f, b"001\r\n".to_vec());
}

#[test]
fn command_frame_wraps_ctcp() {
    let f = command_frame(&Command::Action(b"#c".to_vec()), &[b"waves"], false);
    assert_eq!(f, b"PRIVMSG #c :\x01ACTION waves\x01\r\n".to_vec());
    let f = command_frame(&Command::Ctcp(b"VERSION".to_vec(), b"bob".to_vec()), &[], false);
    assert_eq!(f, b"PRIVMSG bob :\x01VERSION\x01\r\n".to_vec());
    let f = command_frame(&Command::CtcpReply(b"VERSION".to_vec(), b"bob".to_vec()), &[b"irc 1"], false);
    assert_eq!(f, b"NOTICE bob :\x01VERSION irc 1\x01\r\n".to_vec());
}

#[test]
fn frames_are_cut_to_512_bytes() {
    let long = vec![b'x'; 2000];
    let f = command_frame(&Command::Cmd(b"PRIVMSG".to_vec()), &[b"#c", &long], true);
    assert_eq!(f.len(), 512);
    assert!(f.ends_with(b"\r\n"));
    assert!(f.starts_with(b"PRIVMSG #c :xxx"));
    let f = frame_bytes(&long);
    assert_eq!(f.len(), 512);
    assert!(f.ends_with(b"\r\n"));
    let exact = vec![b'y'; 510];
    assert_eq!(frame_bytes(&exact).len(), 512);
    assert_eq!(frame_bytes(b"").as_slice(), b"\r\n");
}

#[test]
fn options_defaults() {
    let o: Options<()> = Options::new("irc.example.net", DEFAULT_PORT);
    assert_eq!(o.host, "irc.example.net");
    assert_eq!(o.port, 6667);
    assert_eq!(o.nick, "ircnick");
    assert_eq!(o.user, "ircuser");
    assert_eq!(o.real, "rust-irclib user");
    assert!(o.commands.is_none());
}

fn conn() -> Conn {
    Conn::new("irc.example.net", b"me", b"ircuser")
}

#[test]
fn handshake_frames() {
    let mut c = conn();
    c.send_handshake(b"me", b"ircuser", b"rust-irclib user");
    assert_eq!(
        c.take_frames(),
        vec![b"NICK me\r\n".to_vec(), b"USER ircuser 8 * :rust-irclib user\r\n".to_vec()]
    );
    assert!(c.take_frames().is_empty());
}

#[test]
fn convenience_commands() {
    let mut c = conn();
    c.privmsg(b"#c", b"hello");
    c.notice(b"bob", b"hi");
    c.join(b"#c", b"");
    c.join(b"#d", b"key");
    c.part(b"#c", b"");
    c.part(b"#d", b"bye now");
    c.quit(b"");
    c.quit(b"gone");
    assert_eq!(
        c.take_frames(),
        vec![
            b"PRIVMSG #c :hello\r\n".to_vec(),
            b"NOTICE bob :hi\r\n".to_vec(),
            b"JOIN #c\r\n".to_vec(),
            b"JOIN #d key\r\n".to_vec(),
            b"PART #c\r\n".to_vec(),
            b"PART #d :bye now\r\n".to_vec(),
            b"QUIT\r\n".to_vec(),
            b"QUIT :gone\r\n".to_vec(),
        ]
    );
}

#[test]
fn send_raw_strips_and_skips_empty() {
    let mut c = conn();
    c.send_raw(b"PING :x\r\n");
    c.send_raw(b"\r\n");
    c.send_raw(b"");
    assert_eq!(c.take_frames(), vec![b"PING :x\r\n".to_vec()]);
}

#[test]
fn nothing_is_sent_after_disconnect() {
    let mut c = conn();
    assert!(c.is_connected());
    c.disconnect();
    assert!(!c.is_connected());
    c.privmsg(b"#c", b"hello");
    c.send_raw(b"PING x");
    assert!(c.take_frames().is_empty());
}

#[test]
fn set_nick_before_and_after_login() {
    let mut c = conn();
    assert_eq!(c.host(), "irc.example.net");
    assert_eq!(c.me().raw(), b"me!ircuser");
    c.set_nick(b"other");
    assert_eq!(c.me().raw(), b"other!ircuser");
    assert!(c.handle_frame(b":server 001 other :Welcome").is_some());
    assert!(c.is_logged_in());
    c.set_nick(b"third");
    assert_eq!(c.me().raw(), b"other!ircuser");
    assert!(c.handle_frame(b":other!ircuser@host NICK :third").is_some());
    assert_eq!(c.me().raw(), b"third!ircuser");
    assert_eq!(
        c.take_frames(),
        vec![b"NICK other\r\n".to_vec(), b"NICK third\r\n".to_vec()]
    );
}

#[test]
fn lines_are_held_back_until_login() {
    let mut c = conn();
    assert!(c.handle_frame(b":server NOTICE * :Looking up your hostname").is_none());
    assert!(!c.is_logged_in());
    assert!(c.handle_frame(b"garbage f23 !").is_none());
    let l = c.handle_frame(b":server 001 me :Welcome").unwrap();
    assert_eq!(l.command, Command::Code(1));
    assert!(c.handle_frame(b":server 002 me :Your host").is_some());
    assert!(c.handle_frame(b":bad  line").is_none());
}

#[test]
fn ping_is_answered() {
    let mut c = conn();
    assert!(c.handle_frame(b"PING :irc.example.net").is_none());
    assert_eq!(c.take_frames(), vec![b"PONG :irc.example.net\r\n".to_vec()]);
}

#[test]
fn send_command_ctcp_reply() {
    let mut c = conn();
    c.send_command(Command::CtcpReply(b"PING".to_vec(), b"bob".to_vec()), &[b"123"], false);
    assert_eq!(c.take_frames(), vec![b"NOTICE bob :\x01PING 123\x01\r\n".to_vec()]);
}

#[test]
fn event_loop_pass_order() {
    let mut lp = EventLoop::new(true);
    assert_eq!(lp.start_pass(), Step::Poll(Source::Errors));
    assert_eq!(lp.after_poll(Source::Errors, Found::Empty), Step::Poll(Source::Commands));
    assert_eq!(lp.after_poll(Source::Commands, Found::Item), Step::RunCommand);
    assert_eq!(lp.after_command(), Step::Poll(Source::Frames));
    assert_eq!(lp.after_poll(Source::Frames, Found::Item), Step::HandleFrame);
    assert_eq!(lp.after_frame(), Step::Wait);
    assert_eq!(lp.after_poll(Source::Frames, Found::Empty), Step::Wait);
    assert_eq!(lp.after_poll(Source::Commands, Found::Closed), Step::Poll(Source::Frames));
    assert!(!lp.commands_open);
    assert_eq!(lp.after_poll(Source::Errors, Found::Empty), Step::Poll(Source::Frames));
    assert_eq!(lp.after_poll(Source::Frames, Found::Closed), Step::Finish(false));
    assert_eq!(lp.after_poll(Source::Errors, Found::Item), Step::Finish(true));
    assert_eq!(lp.after_poll(Source::Errors, Found::Closed), Step::Finish(false));
    assert!(ends_with_error(true, Found::Empty));
    assert!(ends_with_error(false, Found::Item));
    assert!(!ends_with_error(false, Found::Empty));
}

#[test]
fn event_loop_without_commands_skips_them() {
    let mut lp = EventLoop::new(false);
    assert_eq!(lp.after_poll(Source::Errors, Found::Empty), Step::Poll(Source::Frames));
}
