//! Parsing received lines into `Line` and writing a `Line` back as bytes.
use vstd::prelude::*;
use vstd::slice::slice_subrange;
use crate::bytes::{
    bytes_eq, copy_range, find_byte, find_space, no_space, push_all,
    space_index, CTCP_MARK, COLON, SP,
};
use crate::command::{
    action_bytes, action_word, header, is_ctcp_model, notice_bytes, notice_word, privmsg_bytes,
    privmsg_word, Command, CommandModel,
};
use crate::user::User;

verus! {

/// A parsed line.
#[derive(Clone, Debug, PartialEq, Eq)]
pub struct Line {
    /// The optional prefix.
    pub prefix: Option<User>,
    /// The command.
    pub command: Command,
    /// Any arguments.
    pub args: Vec<Vec<u8>>,
}

/// The mathematical value of a `Line`: the prefix in its raw form.
pub struct LineModel {
    pub prefix: Option<Seq<u8>>,
    pub command: CommandModel,
    pub args: Seq<Seq<u8>>,
}

/// The bytes of each argument.
pub open spec fn args_view(a: Seq<Vec<u8>>) -> Seq<Seq<u8>> {
    a.map_values(|x: Vec<u8>| x@)
}

/// The raw form of an optional prefix.
pub open spec fn prefix_view(p: Option<User>) -> Option<Seq<u8>> {
    match p {
        Some(u) => Some(u@),
        None => None,
    }
}

impl View for Line {
    type V = LineModel;

    open spec fn view(&self) -> LineModel {
        LineModel {
            prefix: prefix_view(self.prefix),
            command: self.command@,
            args: args_view(self.args@),
        }
    }
}

/// The value of an optional line.
pub open spec fn opt_line_view(r: Option<Line>) -> Option<LineModel> {
    match r {
        Some(l) => Some(l@),
        None => None,
    }
}

pub open spec fn is_digit(b: u8) -> bool {
    48 <= b <= 57
}

pub open spec fn is_alpha(b: u8) -> bool {
    (65 <= b <= 90) || (97 <= b <= 122)
}

/// Three ASCII digits: a numeric reply.
pub open spec fn is_code_token(t: Seq<u8>) -> bool {
    t.len() == 3 && forall|i: int| 0 <= i < 3 ==> is_digit(#[trigger] t[i])
}

/// ASCII letters only: a text command.
pub open spec fn is_word_token(t: Seq<u8>) -> bool {
    forall|i: int| 0 <= i < t.len() ==> is_alpha(#[trigger] t[i])
}

/// The number that three digits stand for.
pub open spec fn code_value(t: Seq<u8>) -> nat {
    ((t[0] - 48) * 100 + (t[1] - 48) * 10 + (t[2] - 48)) as nat
}

proof fn lemma_space_index_bound(s: Seq<u8>)
    ensures
        -1 <= space_index(s) < s.len(),
    decreases s.len(),
{
    if s.len() > 0 {
        lemma_space_index_bound(s.drop_first());
    }
}

#[via_fn]
proof fn parse_args_decreases(v: Seq<u8>) {
    lemma_space_index_bound(v);
}

/// The arguments after the command: space-separated tokens, where a token
/// that opens with `:` takes the rest of the line, colon dropped.
pub open spec fn parse_args(v: Seq<u8>) -> Seq<Seq<u8>>
    decreases v.len() via parse_args_decreases
{
    if v.len() == 0 {
        Seq::empty()
    } else if v[0] == COLON {
        seq![v.drop_first()]
    } else {
        let i = space_index(v);
        if i < 0 {
            seq![v]
        } else {
            seq![v.subrange(0, i)] + parse_args(v.subrange(i + 1, v.len() as int))
        }
    }
}

/// A CTCP argument without its framing bytes: both where it ends with one,
/// else only the leading one.
pub open spec fn unframe(t: Seq<u8>) -> Seq<u8> {
    if t.len() > 1 && t.last() == CTCP_MARK {
        t.subrange(1, t.len() - 1)
    } else {
        t.drop_first()
    }
}

/// The CTCP sub-command: the text up to its first space.
pub open spec fn ctcp_sub(text: Seq<u8>) -> Seq<u8> {
    let k = space_index(text);
    if k < 0 {
        text
    } else {
        text.subrange(0, k)
    }
}

/// The CTCP payload, after the first space, as a list of at most one argument.
pub open spec fn ctcp_payload(text: Seq<u8>) -> Seq<Seq<u8>> {
    let k = space_index(text);
    if k < 0 {
        Seq::empty()
    } else {
        seq![text.subrange(k + 1, text.len() as int)]
    }
}

/// A `PRIVMSG` or `NOTICE` whose last argument opens with the CTCP byte.
pub open spec fn wants_ctcp(tok: Seq<u8>, args: Seq<Seq<u8>>) -> bool {
    (tok == privmsg_word() || tok == notice_word()) && args.len() > 0 && args.last().len() > 0
        && args.last()[0] == CTCP_MARK
}

/// The line for a text command, with its CTCP content taken out; none where
/// a CTCP message has no destination.
pub open spec fn word_line(prefix: Option<Seq<u8>>, tok: Seq<u8>, args: Seq<Seq<u8>>) -> Option<
    LineModel,
> {
    if wants_ctcp(tok, args) {
        if args.len() < 2 {
            None
        } else {
            let text = unframe(args.last());
            let dst = args[0];
            let sub = ctcp_sub(text);
            let payload = ctcp_payload(text);
            if tok == privmsg_word() {
                if sub == action_word() {
                    Some(
                        LineModel {
                            prefix,
                            command: CommandModel::Action(dst),
                            args: if payload.len() == 0 {
                                seq![Seq::empty()]
                            } else {
                                payload
                            },
                        },
                    )
                } else {
                    Some(LineModel { prefix, command: CommandModel::Ctcp(sub, dst), args: payload })
                }
            } else {
                Some(LineModel { prefix, command: CommandModel::CtcpReply(sub, dst), args: payload })
            }
        }
    } else {
        Some(LineModel { prefix, command: CommandModel::Cmd(tok), args })
    }
}

/// The line that `v`, the bytes after any prefix, stands for.
pub open spec fn parse_body(prefix: Option<Seq<u8>>, v: Seq<u8>) -> Option<LineModel> {
    let i = space_index(v);
    if i == 0 {
        None
    } else {
        let tok = if i < 0 {
            v
        } else {
            v.subrange(0, i)
        };
        let rest = if i < 0 {
            Seq::empty()
        } else {
            v.subrange(i + 1, v.len() as int)
        };
        if is_code_token(tok) {
            Some(LineModel { prefix, command: CommandModel::Code(code_value(tok)), args: parse_args(rest) })
        } else if is_word_token(tok) {
            word_line(prefix, tok, parse_args(rest))
        } else {
            None
        }
    }
}

/// The line that the frame `v` stands for, if any.
pub open spec fn parse_line(v: Seq<u8>) -> Option<LineModel> {
    if v.len() > 0 && v[0] == COLON {
        let i = space_index(v);
        if i < 0 {
            None
        } else {
            parse_body(Some(v.subrange(1, i)), v.subrange(i + 1, v.len() as int))
        }
    } else {
        parse_body(None, v)
    }
}

/// Each argument preceded by one space.
pub open spec fn spaced(s: Seq<Seq<u8>>) -> Seq<u8>
    decreases s.len(),
{
    if s.len() == 0 {
        Seq::empty()
    } else {
        spaced(s.drop_last()) + seq![SP] + s.last()
    }
}

/// A colon where the argument holds a space.
pub open spec fn colon_if_spaced(a: Seq<u8>) -> Seq<u8> {
    if no_space(a) {
        Seq::empty()
    } else {
        seq![COLON]
    }
}

/// The arguments as written after the command.
pub open spec fn args_bytes(c: CommandModel, args: Seq<Seq<u8>>) -> Seq<u8> {
    if is_ctcp_model(c) {
        spaced(args).push(CTCP_MARK)
    } else if args.len() == 0 {
        Seq::empty()
    } else {
        spaced(args.drop_last()) + seq![SP] + colon_if_spaced(args.last()) + args.last()
    }
}

/// `:prefix ` where there is a prefix.
pub open spec fn prefix_bytes(p: Option<Seq<u8>>) -> Seq<u8> {
    match p {
        Some(u) => seq![COLON] + u + seq![SP],
        None => Seq::empty(),
    }
}

/// The raw form `:prefix command args` of a line.
pub open spec fn line_bytes(l: LineModel) -> Seq<u8> {
    prefix_bytes(l.prefix) + header(l.command) + args_bytes(l.command, l.args)
}

proof fn lemma_args_view_push(a: Seq<Vec<u8>>, x: Vec<u8>)
    ensures
        args_view(a.push(x)) == args_view(a).push(x@),
{
    assert(args_view(a.push(x)) =~= args_view(a).push(x@));
}

/// The arguments of `v[from..]`.
fn parse_args_from(v: &[u8], from: usize) -> (r: Vec<Vec<u8>>)
    requires
        from <= v@.len(),
    ensures
        args_view(r@) == parse_args(v@.subrange(from as int, v@.len() as int)),
{
    let ghost whole = v@.subrange(from as int, v@.len() as int);
    let mut args: Vec<Vec<u8>> = Vec::new();
    let mut pos: usize = from;
    while pos < v.len()
        invariant
            from <= pos <= v@.len(),
            whole == v@.subrange(from as int, v@.len() as int),
            parse_args(whole) == args_view(args@) + parse_args(
                v@.subrange(pos as int, v@.len() as int),
            ),
        decreases v@.len() - pos,
    {
        let ghost cur = v@.subrange(pos as int, v@.len() as int);
        let ghost before = args@;
        if v[pos] == COLON {
            let a = copy_range(v, pos + 1, v.len());
            proof {
                assert(cur.drop_first() =~= a@);
                lemma_args_view_push(before, a);
            }
            args.push(a);
            pos = v.len();
            proof {
                assert(parse_args(v@.subrange(pos as int, v@.len() as int)) =~= Seq::empty());
                assert(args_view(args@) + Seq::<Seq<u8>>::empty() =~= args_view(before) + parse_args(cur));
            }
        } else {
            let i = find_space(v, pos);
            if i == v.len() {
                let a = copy_range(v, pos, v.len());
                proof {
                    lemma_args_view_push(before, a);
                }
                args.push(a);
                pos = v.len();
                proof {
                    assert(parse_args(v@.subrange(pos as int, v@.len() as int)) =~= Seq::empty());
                    assert(args_view(args@) + Seq::<Seq<u8>>::empty() =~= args_view(before) + parse_args(cur));
                }
            } else {
                let a = copy_range(v, pos, i);
                proof {
                    assert(cur.subrange(0, i - pos) =~= a@);
                    assert(cur.subrange(i - pos + 1, cur.len() as int) =~= v@.subrange(i + 1, v@.len() as int));
                    lemma_args_view_push(before, a);
                }
                args.push(a);
                pos = i + 1;
                proof {
                    assert(args_view(args@) + parse_args(v@.subrange(pos as int, v@.len() as int))
                        =~= args_view(before) + parse_args(cur));
                }
            }
        }
    }
    proof {
        assert(parse_args(v@.subrange(pos as int, v@.len() as int)) =~= Seq::empty());
        assert(args_view(args@) + Seq::<Seq<u8>>::empty() =~= args_view(args@));
    }
    args
}

fn is_code_bytes(t: &[u8]) -> (r: bool)
    ensures
        r == is_code_token(t@),
{
    t.len() == 3 && 48 <= t[0] && t[0] <= 57 && 48 <= t[1] && t[1] <= 57 && 48 <= t[2] && t[2]
        <= 57
}

fn code_of(t: &[u8]) -> (r: u32)
    requires
        is_code_token(t@),
    ensures
        r as nat == code_value(t@),
{
    assert(is_digit(t@[0]) && is_digit(t@[1]) && is_digit(t@[2]));
    (t[0] - 48) as u32 * 100 + (t[1] - 48) as u32 * 10 + (t[2] - 48) as u32
}

fn is_word_bytes(t: &[u8]) -> (r: bool)
    ensures
        r == is_word_token(t@),
{
    let mut i: usize = 0;
    while i < t.len()
        invariant
            i <= t@.len(),
            forall|j: int| 0 <= j < i ==> is_alpha(#[trigger] t@[j]),
        decreases t@.len() - i,
    {
        let b = t[i];
        if !((65 <= b && b <= 90) || (97 <= b && b <= 122)) {
            assert(!is_alpha(t@[i as int]));
            return false;
        }
        i = i + 1;
    }
    true
}

/// The line for the text command `tok` and its arguments.
fn word_line_exec(prefix: Option<User>, tok: &[u8], args: Vec<Vec<u8>>) -> (r: Option<Line>)
    ensures
        opt_line_view(r) == word_line(prefix_view(prefix), tok@, args_view(args@)),
{
    let ghost av = args_view(args@);
    let p = privmsg_bytes();
    let n = notice_bytes();
    let is_privmsg = bytes_eq(tok, p.as_slice());
    let is_notice = bytes_eq(tok, n.as_slice());
    let n_args = args.len();
    let wants = (is_privmsg || is_notice) && n_args > 0 && args[n_args - 1].len() > 0
        && args[n_args - 1][0] == CTCP_MARK;
    proof {
        if n_args > 0 {
            assert(av.last() == args@[n_args - 1]@);
        }
    }
    assert(wants == wants_ctcp(tok@, av));
    if !wants {
        assert(tok@.subrange(0, tok@.len() as int) =~= tok@);
        return Some(Line { prefix, command: Command::Cmd(copy_range(tok, 0, tok.len())), args });
    }
    if n_args < 2 {
        return None;
    }
    let last = &args[n_args - 1];
    let text = if last.len() > 1 && last[last.len() - 1] == CTCP_MARK {
        copy_range(last.as_slice(), 1, last.len() - 1)
    } else {
        copy_range(last.as_slice(), 1, last.len())
    };
    assert(text@ == unframe(av.last()));
    let dst = copy_range(args[0].as_slice(), 0, args[0].len());
    assert(dst@ == av[0]);
    let k = find_space(text.as_slice(), 0);
    assert(text@.subrange(0, text@.len() as int) =~= text@);
    let sub = copy_range(text.as_slice(), 0, k);
    let mut payload: Vec<Vec<u8>> = Vec::new();
    if k < text.len() {
        payload.push(copy_range(text.as_slice(), k + 1, text.len()));
    } else {
        assert(sub@ =~= text@);
    }
    assert(args_view(payload@) =~= ctcp_payload(text@));
    assert(sub@ == ctcp_sub(text@));
    if is_privmsg {
        let a = action_bytes();
        if bytes_eq(sub.as_slice(), a.as_slice()) {
            if payload.len() == 0 {
                payload.push(Vec::new());
                assert(args_view(payload@) =~= seq![Seq::<u8>::empty()]);
            }
            Some(Line { prefix, command: Command::Action(dst), args: payload })
        } else {
            Some(Line { prefix, command: Command::Ctcp(sub, dst), args: payload })
        }
    } else {
        Some(Line { prefix, command: Command::CtcpReply(sub, dst), args: payload })
    }
}

/// The line that `v[from..]`, the bytes after any prefix, stands for.
fn parse_body_exec(prefix: Option<User>, v: &[u8], from: usize) -> (r: Option<Line>)
    requires
        from <= v@.len(),
    ensures
        opt_line_view(r) == parse_body(prefix_view(prefix), v@.subrange(from as int, v@.len() as int)),
{
    let ghost body = v@.subrange(from as int, v@.len() as int);
    let i = find_space(v, from);
    if i == from && i < v.len() {
        return None;
    }
    let rest: usize = if i == v.len() {
        v.len()
    } else {
        i + 1
    };
    let tok = slice_subrange(v, from, i);
    proof {
        if i == v.len() {
            assert(tok@ =~= body);
            assert(v@.subrange(rest as int, v@.len() as int) =~= Seq::<u8>::empty());
        } else {
            assert(tok@ =~= body.subrange(0, i - from));
            assert(v@.subrange(rest as int, v@.len() as int) =~= body.subrange(i - from + 1, body.len() as int));
        }
    }
    let args = parse_args_from(v, rest);
    if is_code_bytes(tok) {
        let c = code_of(tok);
        Some(Line { prefix, command: Command::Code(c), args })
    } else if is_word_bytes(tok) {
        word_line_exec(prefix, tok, args)
    } else {
        None
    }
}

impl Line {
    /// Parses one frame, its `\r\n` already taken off, into a line.
    ///
    /// A frame that opens with `:` carries a prefix up to the first space;
    /// the command is the next token, three digits or letters only; the
    /// arguments follow. A `PRIVMSG` or `NOTICE` whose last argument opens
    /// with the CTCP byte becomes an action, a CTCP command or a CTCP reply.
    /// There is no line where the prefix has no space after it, where the
    /// command is empty or holds other bytes, or where a CTCP message has
    /// no destination.
    pub fn parse(v: &[u8]) -> (r: Option<Line>)
        ensures
            opt_line_view(r) == parse_line(v@),
    {
        if v.len() > 0 && v[0] == COLON {
            let i = find_space(v, 0);
            assert(v@.subrange(0, v@.len() as int) =~= v@);
            if i == v.len() {
                return None;
            }
            let u = User::parse(slice_subrange(v, 1, i));
            parse_body_exec(Some(u), v, i + 1)
        } else {
            let r = parse_body_exec(None, v, 0);
            assert(v@.subrange(0, v@.len() as int) =~= v@);
            r
        }
    }

    /// Converts into the raw representation `:prefix command args`.
    ///
    /// The arguments of a CTCP command each follow one space and a final
    /// CTCP byte closes them. Otherwise the last argument follows a space
    /// and a colon where it holds a space, a space alone where it does not.
    pub fn to_raw(&self) -> (r: Vec<u8>)
        ensures
            r@ == line_bytes(self@),
    {
        let mut res: Vec<u8> = Vec::new();
        match &self.prefix {
            Some(u) => {
                res.push(COLON);
                push_all(&mut res, u.raw());
                res.push(SP);
            },
            None => {},
        }
        assert(res@ =~= prefix_bytes(self@.prefix));
        self.command.push_header(&mut res);
        let ghost base = res@;
        let ghost av = self@.args;
        let n = self.args.len();
        let ctcp = self.command.is_ctcp();
        let upto: usize = if ctcp {
            n
        } else if n > 0 {
            n - 1
        } else {
            0
        };
        let mut i: usize = 0;
        while i < upto
            invariant
                upto <= n == self.args@.len(),
                av == args_view(self.args@),
                i <= upto,
                res@ == base + spaced(av.take(i as int)),
            decreases upto - i,
        {
            res.push(SP);
            push_all(&mut res, self.args[i].as_slice());
            proof {
                assert(av.take(i + 1).drop_last() =~= av.take(i as int));
                assert(res@ =~= base + spaced(av.take(i + 1)));
            }
            i = i + 1;
        }
        if ctcp {
            res.push(CTCP_MARK);
            assert(av.take(n as int) =~= av);
            assert(res@ =~= base + args_bytes(self@.command, av));
        } else if n > 0 {
            let last = self.args[n - 1].as_slice();
            res.push(SP);
            let k = find_byte(last, 0, SP);
            if k < last.len() {
                res.push(COLON);
            }
            push_all(&mut res, last);
            proof {
                assert(av.take(n - 1) =~= av.drop_last());
                assert(last@ == av.last());
                assert(res@ =~= base + args_bytes(self@.command, av));
            }
        } else {
            assert(res@ =~= base + args_bytes(self@.command, av));
        }
        assert(res@ =~= line_bytes(self@));
        res
    }
}

} // verus!
