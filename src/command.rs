//! IRC commands and the bytes that open them on the wire.
use vstd::prelude::*;
use crate::bytes::{push_all, CTCP_MARK, COLON, SP};

verus! {

/// An IRC command.
#[derive(Clone, Debug, PartialEq, Eq)]
pub enum Command {
    /// A text command such as `PRIVMSG`.
    Cmd(Vec<u8>),
    /// A numeric reply, written with at least three digits.
    Code(u32),
    /// A CTCP `ACTION`; the field is the destination.
    Action(Vec<u8>),
    /// A CTCP command: the sub-command, then the destination.
    Ctcp(Vec<u8>, Vec<u8>),
    /// A CTCP reply: the sub-command, then the destination.
    CtcpReply(Vec<u8>, Vec<u8>),
}

/// The mathematical value of a `Command`.
pub enum CommandModel {
    Cmd(Seq<u8>),
    Code(nat),
    Action(Seq<u8>),
    Ctcp(Seq<u8>, Seq<u8>),
    CtcpReply(Seq<u8>, Seq<u8>),
}

impl View for Command {
    type V = CommandModel;

    open spec fn view(&self) -> CommandModel {
        match self {
            Command::Cmd(n) => CommandModel::Cmd(n@),
            Command::Code(c) => CommandModel::Code(*c as nat),
            Command::Action(d) => CommandModel::Action(d@),
            Command::Ctcp(s, d) => CommandModel::Ctcp(s@, d@),
            Command::CtcpReply(s, d) => CommandModel::CtcpReply(s@, d@),
        }
    }
}

/// A command is CTCP when it is an action, a CTCP command or a CTCP reply.
pub open spec fn is_ctcp_model(c: CommandModel) -> bool {
    !(c is Cmd || c is Code)
}

/// `PRIVMSG`
pub open spec fn privmsg_word() -> Seq<u8> {
    seq![80u8, 82, 73, 86, 77, 83, 71]
}

/// `NOTICE`
pub open spec fn notice_word() -> Seq<u8> {
    seq![78u8, 79, 84, 73, 67, 69]
}

/// `ACTION`
pub open spec fn action_word() -> Seq<u8> {
    seq![65u8, 67, 84, 73, 79, 78]
}

/// Decimal digits of `n`, most significant first, without leading zeros.
pub open spec fn decimal(n: nat) -> Seq<u8>
    decreases n,
{
    if n < 10 {
        seq![(48 + n) as u8]
    } else {
        decimal(n / 10).push((48 + n % 10) as u8)
    }
}

/// The digits of a numeric reply, left-padded with `0` to width three.
pub open spec fn code_digits(n: nat) -> Seq<u8> {
    if n < 10 {
        seq![48u8, 48u8] + decimal(n)
    } else if n < 100 {
        seq![48u8] + decimal(n)
    } else {
        decimal(n)
    }
}

/// `verb dst :\x01sub`, the opening of a CTCP message.
pub open spec fn ctcp_header(verb: Seq<u8>, dst: Seq<u8>, sub: Seq<u8>) -> Seq<u8> {
    verb + seq![SP] + dst + seq![SP, COLON, CTCP_MARK] + sub
}

/// The bytes that stand for the command itself, before any argument.
pub open spec fn header(c: CommandModel) -> Seq<u8> {
    match c {
        CommandModel::Cmd(n) => n,
        CommandModel::Code(n) => code_digits(n),
        CommandModel::Action(d) => ctcp_header(privmsg_word(), d, action_word()),
        CommandModel::Ctcp(s, d) => ctcp_header(privmsg_word(), d, s),
        CommandModel::CtcpReply(s, d) => ctcp_header(notice_word(), d, s),
    }
}

/// Appends the decimal digits of `n`.
fn push_decimal(out: &mut Vec<u8>, n: u32)
    ensures
        final(out)@ == old(out)@ + decimal(n as nat),
    decreases n,
{
    if n >= 10 {
        push_decimal(out, n / 10);
    }
    out.push((48 + n % 10) as u8);
    assert(final(out)@ =~= old(out)@ + decimal(n as nat));
}

/// Appends the CTCP opening `verb dst :\x01sub`.
fn push_ctcp_header(out: &mut Vec<u8>, verb: &[u8], dst: &[u8], sub: &[u8])
    ensures
        final(out)@ == old(out)@ + ctcp_header(verb@, dst@, sub@),
{
    push_all(out, verb);
    out.push(SP);
    push_all(out, dst);
    out.push(SP);
    out.push(COLON);
    out.push(CTCP_MARK);
    push_all(out, sub);
    assert(final(out)@ =~= old(out)@ + ctcp_header(verb@, dst@, sub@));
}

/// The bytes of `PRIVMSG`.
pub fn privmsg_bytes() -> (r: Vec<u8>)
    ensures
        r@ == privmsg_word(),
{
    let r: Vec<u8> = vec![80u8, 82, 73, 86, 77, 83, 71];
    assert(r@ =~= privmsg_word());
    r
}

/// The bytes of `NOTICE`.
pub fn notice_bytes() -> (r: Vec<u8>)
    ensures
        r@ == notice_word(),
{
    let r: Vec<u8> = vec![78u8, 79, 84, 73, 67, 69];
    assert(r@ =~= notice_word());
    r
}

/// The bytes of `ACTION`.
pub fn action_bytes() -> (r: Vec<u8>)
    ensures
        r@ == action_word(),
{
    let r: Vec<u8> = vec![65u8, 67, 84, 73, 79, 78];
    assert(r@ =~= action_word());
    r
}

impl Command {
    /// Returns true if the command is a CTCP command.
    pub fn is_ctcp(&self) -> (r: bool)
        ensures
            r == is_ctcp_model(self@),
    {
        match self {
            Command::Action(_) | Command::Ctcp(_, _) | Command::CtcpReply(_, _) => true,
            _ => false,
        }
    }

    /// Appends the command's header bytes to `out`.
    pub fn push_header(&self, out: &mut Vec<u8>)
        ensures
            final(out)@ == old(out)@ + header(self@),
    {
        match self {
            Command::Cmd(n) => push_all(out, n.as_slice()),
            Command::Code(n) => {
                if *n < 10 {
                    out.push(48u8);
                    out.push(48u8);
                } else if *n < 100 {
                    out.push(48u8);
                }
                push_decimal(out, *n);
                assert(final(out)@ =~= old(out)@ + header(self@));
            },
            Command::Action(d) => {
                let a = action_bytes();
                let p = privmsg_bytes();
                push_ctcp_header(out, p.as_slice(), d.as_slice(), a.as_slice());
            },
            Command::Ctcp(s, d) => {
                let p = privmsg_bytes();
                push_ctcp_header(out, p.as_slice(), d.as_slice(), s.as_slice());
            },
            Command::CtcpReply(s, d) => {
                let p = notice_bytes();
                push_ctcp_header(out, p.as_slice(), d.as_slice(), s.as_slice());
            },
        }
    }
}

} // verus!
