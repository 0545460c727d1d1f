//! Outbound frames: a command and its arguments, cut to the line limit and
//! closed with `\r\n`.
use vstd::prelude::*;
use vstd::slice::slice_subrange;
use crate::bytes::{push_all, CTCP_MARK, COLON, SP};
use crate::command::{header, is_ctcp_model, Command, CommandModel};
use crate::line::spaced;

verus! {

/// The most bytes a command may take before its `\r\n`.
pub const MAX_BODY: usize = 510;

pub const CR: u8 = 13;

pub const LF: u8 = 10;

/// The bytes of each argument slice.
pub open spec fn slices_view(a: Seq<&[u8]>) -> Seq<Seq<u8>> {
    a.map_values(|x: &[u8]| x@)
}

/// A command with its arguments, before the length cap: all arguments but
/// the last after one space each, then ` :` or ` ` and the last, then a
/// closing CTCP byte for a CTCP command.
pub open spec fn command_body(c: CommandModel, args: Seq<Seq<u8>>, add_colon: bool) -> Seq<u8> {
    header(c) + (if args.len() == 0 {
        Seq::empty()
    } else {
        spaced(args.drop_last()) + (if add_colon {
            seq![SP, COLON]
        } else {
            seq![SP]
        }) + args.last()
    }) + (if is_ctcp_model(c) {
        seq![CTCP_MARK]
    } else {
        Seq::empty()
    })
}

/// At most the first `n` bytes of `s`.
pub open spec fn cut(s: Seq<u8>, n: nat) -> Seq<u8> {
    if s.len() <= n {
        s
    } else {
        s.take(n as int)
    }
}

/// The frame for a body: its first 510 bytes and `\r\n`.
pub open spec fn frame_of(body: Seq<u8>) -> Seq<u8> {
    cut(body, MAX_BODY as nat) + seq![CR, LF]
}

/// A frame fits in 512 bytes and ends with `\r\n`.
pub open spec fn is_frame(f: Seq<u8>) -> bool {
    f.len() <= MAX_BODY + 2 && f.len() >= 2 && f[f.len() - 2] == CR && f[f.len() - 1] == LF
}

/// Every frame built from a body fits the limit and ends with `\r\n`.
pub proof fn lemma_frame_bounded(body: Seq<u8>)
    ensures
        is_frame(frame_of(body)),
{
}

/// The frame for `body`.
pub fn frame_bytes(body: &[u8]) -> (r: Vec<u8>)
    ensures
        r@ == frame_of(body@),
        is_frame(r@),
{
    let n: usize = if body.len() <= MAX_BODY {
        body.len()
    } else {
        MAX_BODY
    };
    let mut r: Vec<u8> = Vec::new();
    push_all(&mut r, slice_subrange(body, 0, n));
    r.push(CR);
    r.push(LF);
    assert(r@ =~= frame_of(body@));
    r
}

/// The frame that sends `cmd` with `args`; `add_colon` marks the last
/// argument as trailing.
pub fn command_frame(cmd: &Command, args: &[&[u8]], add_colon: bool) -> (r: Vec<u8>)
    ensures
        r@ == frame_of(command_body(cmd@, slices_view(args@), add_colon)),
        is_frame(r@),
{
    let ghost av = slices_view(args@);
    let mut body: Vec<u8> = Vec::new();
    cmd.push_header(&mut body);
    let ghost base = body@;
    let n = args.len();
    if n > 0 {
        let mut i: usize = 0;
        while i < n - 1
            invariant
                n == args@.len() > 0,
                av == slices_view(args@),
                i <= n - 1,
                body@ == base + spaced(av.take(i as int)),
            decreases n - 1 - i,
        {
            body.push(SP);
            push_all(&mut body, args[i]);
            proof {
                assert(av.take(i + 1).drop_last() =~= av.take(i as int));
                assert(body@ =~= base + spaced(av.take(i + 1)));
            }
            i = i + 1;
        }
        body.push(SP);
        if add_colon {
            body.push(COLON);
        }
        push_all(&mut body, args[n - 1]);
        assert(av.take(n - 1) =~= av.drop_last());
    } else {
        assert(body@ =~= base + Seq::<u8>::empty());
    }
    if cmd.is_ctcp() {
        body.push(CTCP_MARK);
    }
    assert(body@ =~= command_body(cmd@, av, add_colon));
    frame_bytes(body.as_slice())
}

/// `s` without a final `\r`, `\n` or `\r\n`.
pub open spec fn chomped(s: Seq<u8>) -> Seq<u8> {
    if s.len() == 0 {
        s
    } else if s.last() == CR {
        s.drop_last()
    } else if s.last() == LF {
        if s.len() > 1 && s[s.len() - 2] == CR {
            s.take(s.len() - 2)
        } else {
            s.drop_last()
        }
    } else {
        s
    }
}

/// Strips one trailing `\r`, `\n` or `\r\n`.
pub fn chomp(s: &[u8]) -> (r: &[u8])
    ensures
        r@ == chomped(s@),
{
    let n = s.len();
    if n == 0 {
        return s;
    }
    if s[n - 1] == CR {
        let r = slice_subrange(s, 0, n - 1);
        assert(r@ =~= chomped(s@));
        r
    } else if s[n - 1] == LF {
        if n > 1 && s[n - 2] == CR {
            let r = slice_subrange(s, 0, n - 2);
            assert(r@ =~= chomped(s@));
            r
        } else {
            let r = slice_subrange(s, 0, n - 1);
            assert(r@ =~= chomped(s@));
            r
        }
    } else {
        s
    }
}

/// Strips the line terminator from `s` in place; tells whether there was one.
pub fn chomp_owned(s: &mut Vec<u8>) -> (r: bool)
    ensures
        final(s)@ == chomped(old(s)@),
        r == (chomped(old(s)@).len() < old(s)@.len()),
{
    let len = chomp(s.as_slice()).len();
    if len < s.len() {
        s.truncate(len);
        assert(final(s)@ =~= chomped(old(s)@));
        true
    } else {
        false
    }
}

/// The frame that `send_raw` hands on for `raw`: none where nothing is left
/// once the terminator is stripped.
pub open spec fn raw_frame(raw: Seq<u8>) -> Option<Seq<u8>> {
    if chomped(raw).len() == 0 {
        None
    } else {
        Some(frame_of(chomped(raw)))
    }
}

} // verus!
