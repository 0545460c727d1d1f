//! The state of one server connection: identity, login, and the frames that
//! wait for the writer.
use vstd::prelude::*;
use crate::bytes::bytes_eq;
use crate::command::{notice_bytes, notice_word, privmsg_bytes, privmsg_word, Command, CommandModel};
use crate::emit::{
    chomp, command_body, is_frame, command_frame, frame_bytes, frame_of, raw_frame, slices_view,
};
use crate::line::{args_view, opt_line_view, parse_line, Line, LineModel};
use crate::user::{nick_of, user_raw, User};

verus! {

/// The usual IRC port.
pub const DEFAULT_PORT: u16 = 6667;

/// Relies on std::io::Error, carried through as an opaque value.
#[verifier::external_type_specification]
#[verifier::external_body]
pub struct ExIoError(std::io::Error);

/// Errors that a connection ends with.
#[derive(Debug)]
pub enum Error {
    /// The connection to the server could not be made.
    ErrConnect(std::io::Error),
    /// An I/O error while the connection was active.
    ErrIO(std::io::Error),
}

/// Events handed to the application callback.
#[derive(Debug)]
pub enum Event {
    /// The connection was established.
    Connected,
    /// A line came from the server; sent only once logged in.
    LineReceived(Line),
    /// The connection has ended.
    Disconnected,
}

/// Options for connecting to a server. `C` is the source of commands that
/// the application hands to the connection.
pub struct Options<'a, C> {
    /// The server host to connect to.
    pub host: &'a str,
    /// The server port to connect to.
    pub port: u16,
    /// The nickname to use.
    pub nick: &'a str,
    /// The username to use.
    pub user: &'a str,
    /// The real name to use.
    pub real: &'a str,
    /// Where commands for the connection come from, if anywhere.
    pub commands: Option<C>,
}

impl<'a, C> Options<'a, C> {
    /// Options for `host` and `port`, with the default nickname `ircnick`,
    /// username `ircuser` and real name `rust-irclib user`, and no commands.
    pub fn new(host: &'a str, port: u16) -> (r: Options<'a, C>)
        ensures
            r.host == host,
            r.port == port,
            r.nick@ == "ircnick"@,
            r.user@ == "ircuser"@,
            r.real@ == "rust-irclib user"@,
            r.commands is None,
    {
        Options {
            host,
            port,
            nick: "ircnick",
            user: "ircuser",
            real: "rust-irclib user",
            commands: None,
        }
    }
}

/// The value of a connection.
pub struct ConnModel {
    pub host: Seq<char>,
    pub connected: bool,
    pub logged_in: bool,
    pub user: Seq<u8>,
    /// Frames sent and not yet taken by the writer, oldest first.
    pub outbox: Seq<Seq<u8>>,
}

/// A connection to a single IRC server.
pub struct Conn {
    host: String,
    connected: bool,
    logged_in: bool,
    user: User,
    outbox: Vec<Vec<u8>>,
}

impl View for Conn {
    type V = ConnModel;

    closed spec fn view(&self) -> ConnModel {
        ConnModel {
            host: self.host@,
            connected: self.connected,
            logged_in: self.logged_in,
            user: self.user@,
            outbox: args_view(self.outbox@),
        }
    }
}

/// `c` with `frame` sent: queued while connected, dropped otherwise.
pub open spec fn sent(c: ConnModel, frame: Seq<u8>) -> ConnModel {
    if c.connected {
        ConnModel { outbox: c.outbox.push(frame), ..c }
    } else {
        c
    }
}

/// `c` after sending `cmd` with `args`.
pub open spec fn sent_command(
    c: ConnModel,
    cmd: CommandModel,
    args: Seq<Seq<u8>>,
    add_colon: bool,
) -> ConnModel {
    sent(c, frame_of(command_body(cmd, args, add_colon)))
}

/// `NICK`
pub open spec fn nick_word() -> Seq<u8> {
    seq![78u8, 73, 67, 75]
}

fn nick_bytes() -> (r: Vec<u8>)
    ensures
        r@ == nick_word(),
{
    let r: Vec<u8> = vec![78u8, 73, 67, 75];
    assert(r@ =~= nick_word());
    r
}

/// `USER`
pub open spec fn user_word() -> Seq<u8> {
    seq![85u8, 83, 69, 82]
}

fn user_bytes() -> (r: Vec<u8>)
    ensures
        r@ == user_word(),
{
    let r: Vec<u8> = vec![85u8, 83, 69, 82];
    assert(r@ =~= user_word());
    r
}

/// `QUIT`
pub open spec fn quit_word() -> Seq<u8> {
    seq![81u8, 85, 73, 84]
}

fn quit_bytes() -> (r: Vec<u8>)
    ensures
        r@ == quit_word(),
{
    let r: Vec<u8> = vec![81u8, 85, 73, 84];
    assert(r@ =~= quit_word());
    r
}

/// `JOIN`
pub open spec fn join_word() -> Seq<u8> {
    seq![74u8, 79, 73, 78]
}

fn join_bytes() -> (r: Vec<u8>)
    ensures
        r@ == join_word(),
{
    let r: Vec<u8> = vec![74u8, 79, 73, 78];
    assert(r@ =~= join_word());
    r
}

/// `PART`
pub open spec fn part_word() -> Seq<u8> {
    seq![80u8, 65, 82, 84]
}

fn part_bytes() -> (r: Vec<u8>)
    ensures
        r@ == part_word(),
{
    let r: Vec<u8> = vec![80u8, 65, 82, 84];
    assert(r@ =~= part_word());
    r
}

/// `PING`
pub open spec fn ping_word() -> Seq<u8> {
    seq![80u8, 73, 78, 71]
}

fn ping_bytes() -> (r: Vec<u8>)
    ensures
        r@ == ping_word(),
{
    let r: Vec<u8> = vec![80u8, 73, 78, 71];
    assert(r@ =~= ping_word());
    r
}

/// `PONG`
pub open spec fn pong_word() -> Seq<u8> {
    seq![80u8, 79, 78, 71]
}

fn pong_bytes() -> (r: Vec<u8>)
    ensures
        r@ == pong_word(),
{
    let r: Vec<u8> = vec![80u8, 79, 78, 71];
    assert(r@ =~= pong_word());
    r
}

/// `8 *`
pub open spec fn mode_arg_word() -> Seq<u8> {
    seq![56u8, 32, 42]
}

fn mode_arg_bytes() -> (r: Vec<u8>)
    ensures
        r@ == mode_arg_word(),
{
    let r: Vec<u8> = vec![56u8, 32, 42];
    assert(r@ =~= mode_arg_word());
    r
}

/// `c` with `user`'s nickname replaced by `nick`.
pub open spec fn renamed(c: ConnModel, nick: Seq<u8>) -> ConnModel {
    ConnModel { user: nick + c.user.subrange(nick_of(c.user).len() as int, c.user.len() as int), ..c }
}

/// What the connection does on its own with a received line: a `001`
/// reply completes the login, a `PING` is answered with a `PONG` of the same
/// arguments, and a `NICK` from the current nickname renames the identity.
pub open spec fn housekeep(c: ConnModel, l: LineModel) -> ConnModel {
    match l.command {
        CommandModel::Code(n) => if n == 1 {
            ConnModel { logged_in: true, ..c }
        } else {
            c
        },
        CommandModel::Cmd(w) => if w == ping_word() {
            sent_command(c, CommandModel::Cmd(pong_word()), l.args, true)
        } else if w == nick_word() && l.args.len() > 0 && l.prefix is Some && nick_of(
            l.prefix->0,
        ) == nick_of(c.user) {
            renamed(c, l.args[0])
        } else {
            c
        },
        _ => c,
    }
}

impl Conn {
    /// Every queued frame fits in 512 bytes and ends with `\r\n`.
    pub closed spec fn wf(&self) -> bool {
        forall|i: int| 0 <= i < self.outbox@.len() ==> is_frame(#[trigger] self.outbox@[i]@)
    }

    /// A connection just established to `host`, as `nick` with username `user`.
    pub fn new(host: &str, nick: &[u8], user: &[u8]) -> (r: Conn)
        ensures
            r@.host == host@,
            r@.connected,
            !r@.logged_in,
            r@.user == user_raw(nick@, Some(user@), None),
            r@.outbox == Seq::<Seq<u8>>::empty(),
            r.wf(),
    {
        let c = Conn {
            host: host.to_owned(),
            connected: true,
            logged_in: false,
            user: User::new(nick, Some(user), None),
            outbox: Vec::new(),
        };
        assert(args_view(c.outbox@) =~= Seq::<Seq<u8>>::empty());
        c
    }

    /// Returns true while the connection is active.
    pub fn is_connected(&self) -> (r: bool)
        ensures
            r == self@.connected,
    {
        self.connected
    }

    /// The host this connection was made to.
    pub fn host(&self) -> (r: &str)
        ensures
            r@ == self@.host,
    {
        self.host.as_str()
    }

    /// The current identity.
    pub fn me(&self) -> (r: &User)
        ensures
            r@ == self@.user,
    {
        &self.user
    }

    /// Returns true once the server has completed the login.
    pub fn is_logged_in(&self) -> (r: bool)
        ensures
            r == self@.logged_in,
    {
        self.logged_in
    }

    fn send_frame(&mut self, frame: Vec<u8>)
        requires
            is_frame(frame@),
            old(self).wf(),
        ensures
            final(self).wf(),
            final(self)@ == sent(old(self)@, frame@),
    {
        if self.connected {
            let ghost before = self.outbox@;
            self.outbox.push(frame);
            assert(args_view(self.outbox@) =~= args_view(before).push(frame@));
        }
    }

    /// Sends a command to the server, cut to 510 bytes and closed with `\r\n`.
    ///
    /// All arguments are separated by one space; `add_colon` puts a `:`
    /// before the last one. Nothing is sent once disconnected.
    pub fn send_command(&mut self, cmd: Command, args: &[&[u8]], add_colon: bool)
        requires
            old(self).wf(),
        ensures
            final(self).wf(),
            final(self)@ == sent_command(old(self)@, cmd@, slices_view(args@), add_colon),
    {
        if self.connected {
            let f = command_frame(&cmd, args, add_colon);
            self.send_frame(f);
        }
    }

    /// Sends a raw line: its terminator stripped, cut to 510 bytes and closed
    /// with `\r\n`. An empty line is not sent.
    pub fn send_raw(&mut self, raw: &[u8])
        requires
            old(self).wf(),
        ensures
            final(self).wf(),
            final(self)@ == match raw_frame(raw@) {
                Some(f) => sent(old(self)@, f),
                None => old(self)@,
            },
    {
        let raw = chomp(raw);
        if raw.len() == 0 {
            return;
        }
        if self.connected {
            let f = frame_bytes(raw);
            self.send_frame(f);
        }
    }

    /// Sets the nickname. Before login the identity changes at once; after
    /// it, when the server echoes the `NICK`.
    pub fn set_nick(&mut self, nick: &[u8])
        requires
            old(self).wf(),
        ensures
            final(self).wf(),
            final(self)@ == if old(self)@.logged_in {
                sent_command(old(self)@, CommandModel::Cmd(nick_word()), seq![nick@], false)
            } else {
                renamed(sent_command(old(self)@, CommandModel::Cmd(nick_word()), seq![nick@], false), nick@)
            },
    {
        let args: Vec<&[u8]> = vec![nick];
        assert(slices_view(args@) =~= seq![nick@]);
        self.send_command(Command::Cmd(nick_bytes()), args.as_slice(), false);
        if !self.logged_in {
            self.user = self.user.with_nick(nick);
        }
    }

    /// Quits; an empty message sends `QUIT` alone.
    pub fn quit(&mut self, msg: &[u8])
        requires
            old(self).wf(),
        ensures
            final(self).wf(),
            final(self)@ == if msg@.len() == 0 {
                sent_command(old(self)@, CommandModel::Cmd(quit_word()), Seq::empty(), false)
            } else {
                sent_command(old(self)@, CommandModel::Cmd(quit_word()), seq![msg@], true)
            },
    {
        if msg.len() == 0 {
            let args: Vec<&[u8]> = Vec::new();
            assert(slices_view(args@) =~= Seq::<Seq<u8>>::empty());
            self.send_command(Command::Cmd(quit_bytes()), args.as_slice(), false);
        } else {
            let args: Vec<&[u8]> = vec![msg];
            assert(slices_view(args@) =~= seq![msg@]);
            self.send_command(Command::Cmd(quit_bytes()), args.as_slice(), true);
        }
    }

    /// Sends a `PRIVMSG`.
    pub fn privmsg(&mut self, dst: &[u8], msg: &[u8])
        requires
            old(self).wf(),
        ensures
            final(self).wf(),
            final(self)@ == sent_command(old(self)@, CommandModel::Cmd(privmsg_word()), seq![dst@, msg@], true),
    {
        let args: Vec<&[u8]> = vec![dst, msg];
        assert(slices_view(args@) =~= seq![dst@, msg@]);
        self.send_command(Command::Cmd(privmsg_bytes()), args.as_slice(), true);
    }

    /// Sends a `NOTICE`.
    pub fn notice(&mut self, dst: &[u8], msg: &[u8])
        requires
            old(self).wf(),
        ensures
            final(self).wf(),
            final(self)@ == sent_command(old(self)@, CommandModel::Cmd(notice_word()), seq![dst@, msg@], true),
    {
        let args: Vec<&[u8]> = vec![dst, msg];
        assert(slices_view(args@) =~= seq![dst@, msg@]);
        self.send_command(Command::Cmd(notice_bytes()), args.as_slice(), true);
    }

    /// Sends a `JOIN`; empty `keys` are left out.
    pub fn join(&mut self, room: &[u8], keys: &[u8])
        requires
            old(self).wf(),
        ensures
            final(self).wf(),
            final(self)@ == if keys@.len() == 0 {
                sent_command(old(self)@, CommandModel::Cmd(join_word()), seq![room@], false)
            } else {
                sent_command(old(self)@, CommandModel::Cmd(join_word()), seq![room@, keys@], false)
            },
    {
        if keys.len() == 0 {
            let args: Vec<&[u8]> = vec![room];
            assert(slices_view(args@) =~= seq![room@]);
            self.send_command(Command::Cmd(join_bytes()), args.as_slice(), false);
        } else {
            let args: Vec<&[u8]> = vec![room, keys];
            assert(slices_view(args@) =~= seq![room@, keys@]);
            self.send_command(Command::Cmd(join_bytes()), args.as_slice(), false);
        }
    }

    /// Sends a `PART`; an empty message is left out.
    pub fn part(&mut self, room: &[u8], msg: &[u8])
        requires
            old(self).wf(),
        ensures
            final(self).wf(),
            final(self)@ == if msg@.len() == 0 {
                sent_command(old(self)@, CommandModel::Cmd(part_word()), seq![room@], false)
            } else {
                sent_command(old(self)@, CommandModel::Cmd(part_word()), seq![room@, msg@], true)
            },
    {
        if msg.len() == 0 {
            let args: Vec<&[u8]> = vec![room];
            assert(slices_view(args@) =~= seq![room@]);
            self.send_command(Command::Cmd(part_bytes()), args.as_slice(), false);
        } else {
            let args: Vec<&[u8]> = vec![room, msg];
            assert(slices_view(args@) =~= seq![room@, msg@]);
            self.send_command(Command::Cmd(part_bytes()), args.as_slice(), true);
        }
    }

    /// Sends the login: `NICK nick`, then `USER user 8 * :real_name`.
    pub fn send_handshake(&mut self, nick: &[u8], user: &[u8], real_name: &[u8])
        requires
            old(self).wf(),
        ensures
            final(self).wf(),
            final(self)@ == sent_command(
                sent_command(old(self)@, CommandModel::Cmd(nick_word()), seq![nick@], false),
                CommandModel::Cmd(user_word()),
                seq![user@, mode_arg_word(), real_name@],
                true,
            ),
    {
        let args: Vec<&[u8]> = vec![nick];
        assert(slices_view(args@) =~= seq![nick@]);
        self.send_command(Command::Cmd(nick_bytes()), args.as_slice(), false);
        let m = mode_arg_bytes();
        let args: Vec<&[u8]> = vec![user, m.as_slice(), real_name];
        assert(slices_view(args@) =~= seq![user@, mode_arg_word(), real_name@]);
        self.send_command(Command::Cmd(user_bytes()), args.as_slice(), true);
    }

    /// Hands the queued frames to the writer, oldest first.
    pub fn take_frames(&mut self) -> (r: Vec<Vec<u8>>)
        requires
            old(self).wf(),
        ensures
            final(self).wf(),
            args_view(r@) == old(self)@.outbox,
            final(self)@ == (ConnModel { outbox: Seq::empty(), ..old(self)@ }),
            forall|i: int| 0 <= i < r@.len() ==> is_frame(#[trigger] r@[i]@),
    {
        let r = self.outbox.split_off(0);
        assert(old(self).outbox@.subrange(0, old(self).outbox@.len() as int) =~= old(self).outbox@);
        assert(args_view(self.outbox@) =~= Seq::<Seq<u8>>::empty());
        r
    }

    /// Marks the connection as ended: nothing is sent from now on.
    pub fn disconnect(&mut self)
        requires
            old(self).wf(),
        ensures
            final(self).wf(),
            final(self)@ == (ConnModel { connected: false, ..old(self)@ }),
    {
        self.connected = false;
    }

    /// The housekeeping for a received line: login, `PING`, own `NICK`.
    pub fn handle_line(&mut self, line: &Line)
        requires
            old(self).wf(),
        ensures
            final(self).wf(),
            final(self)@ == housekeep(old(self)@, line@),
    {
        match &line.command {
            Command::Code(n) => {
                if *n == 1 {
                    self.logged_in = true;
                }
            },
            Command::Cmd(w) => {
                let ping = ping_bytes();
                let nick = nick_bytes();
                if bytes_eq(w.as_slice(), ping.as_slice()) {
                    let mut args: Vec<&[u8]> = Vec::new();
                    let mut i: usize = 0;
                    while i < line.args.len()
                        invariant
                            i <= line.args@.len(),
                            slices_view(args@) == args_view(line.args@).take(i as int),
                        decreases line.args@.len() - i,
                    {
                        let ghost before = args@;
                        let a = line.args[i].as_slice();
                        args.push(a);
                        assert(args@ == before.push(a));
                        assert(slices_view(before.push(a)) =~= slices_view(before).push(a@));
                        assert(args_view(line.args@).take(i + 1) =~= args_view(line.args@).take(
                            i as int,
                        ).push(a@));
                        i = i + 1;
                    }
                    assert(args_view(line.args@).take(i as int) =~= args_view(line.args@));
                    self.send_command(Command::Cmd(pong_bytes()), args.as_slice(), true);
                } else if bytes_eq(w.as_slice(), nick.as_slice()) && line.args.len() > 0 {
                    match &line.prefix {
                        Some(p) => {
                            let theirs = p.nick();
                            let mine = self.user.nick();
                            if bytes_eq(theirs.as_slice(), mine.as_slice()) {
                                assert(args_view(line.args@)[0] == line.args@[0]@);
                                self.user = self.user.with_nick(line.args[0].as_slice());
                            }
                        },
                        None => {},
                    }
                }
            },
            _ => {},
        }
    }

    /// Handles one frame from the reader: parses it, does the housekeeping,
    /// and returns the line where it is to be delivered, which is once the
    /// login is complete. A frame that does not parse changes nothing.
    pub fn handle_frame(&mut self, frame: &[u8]) -> (r: Option<Line>)
        requires
            old(self).wf(),
        ensures
            final(self).wf(),
            match parse_line(frame@) {
                None => r is None && final(self)@ == old(self)@,
                Some(l) => final(self)@ == housekeep(old(self)@, l) && opt_line_view(r) == (
                if final(self)@.logged_in {
                    Some(l)
                } else {
                    None
                }),
            },
    {
        match Line::parse(frame) {
            None => None,
            Some(line) => {
                self.handle_line(&line);
                if self.logged_in {
                    Some(line)
                } else {
                    None
                }
            },
        }
    }
}

} // verus!
