//! Laws of the line codec: parsed lines survive writing and parsing again,
//! and CTCP content is taken out of `PRIVMSG` framing.
use vstd::prelude::*;
use crate::bytes::{
    lemma_no_space, lemma_space_after, no_space, space_index, CTCP_MARK, COLON,
    SP,
};
use crate::command::{
    action_word, code_digits, ctcp_header, decimal, header, is_ctcp_model, notice_word,
    privmsg_word, CommandModel,
};
use crate::line::{
    args_bytes, code_value, colon_if_spaced, ctcp_payload, ctcp_sub, is_alpha, is_code_token,
    is_digit, is_word_token, line_bytes, parse_args, parse_body, parse_line, spaced,
    unframe, wants_ctcp, word_line, LineModel,
};

verus! {

/// An argument that is written as it is, not as a trailing one: no space,
/// and no colon in front.
pub open spec fn plain_arg(a: Seq<u8>) -> bool {
    no_space(a) && (a.len() == 0 || a[0] != COLON)
}

/// Every argument but the last is plain.
pub open spec fn plain_init(args: Seq<Seq<u8>>) -> bool {
    forall|i: int| 0 <= i < args.len() - 1 ==> plain_arg(#[trigger] args[i])
}

/// The last argument of a line that is not CTCP comes back as it went:
/// it holds a space, or it is not empty and opens with no colon.
pub open spec fn trailing_canonical(l: LineModel) -> bool {
    is_ctcp_model(l.command) || l.args.len() == 0 || !no_space(l.args.last()) || (
    l.args.last().len() > 0 && l.args.last()[0] != COLON)
}

/// What holds of every line that parsing gives.
pub open spec fn parsed_shape(l: LineModel) -> bool {
    &&& (l.prefix is Some ==> no_space(l.prefix->0))
    &&& match l.command {
        CommandModel::Cmd(n) => is_word_token(n) && (n.len() == 0 ==> l.args.len() == 0)
            && !wants_ctcp(n, l.args) && plain_init(l.args),
        CommandModel::Code(c) => c < 1000 && plain_init(l.args),
        CommandModel::Action(d) => plain_arg(d) && l.args.len() == 1,
        CommandModel::Ctcp(s, d) => plain_arg(d) && no_space(s) && l.args.len() <= 1 && s
            != action_word(),
        CommandModel::CtcpReply(s, d) => plain_arg(d) && no_space(s) && l.args.len() <= 1,
    }
}

proof fn lemma_parse_args_plain(v: Seq<u8>)
    ensures
        plain_init(parse_args(v)),
    decreases v.len(),
{
    if v.len() > 0 && v[0] != COLON {
        let i = space_index(v);
        if i >= 0 {
            lemma_space_bound(v);
            let first = v.subrange(0, i);
            let rest = v.subrange(i + 1, v.len() as int);
            lemma_parse_args_plain(rest);
            lemma_prefix_before_space(v);
            let r = parse_args(v);
            assert(r == seq![first] + parse_args(rest));
            assert forall|j: int| 0 <= j < r.len() - 1 implies plain_arg(#[trigger] r[j]) by {
                if j > 0 {
                    assert(r[j] == parse_args(rest)[j - 1]);
                } else {
                    assert(r[0] == first);
                    if first.len() > 0 {
                        assert(first[0] == v[0]);
                    }
                }
            }
        }
    }
}

proof fn lemma_space_bound(s: Seq<u8>)
    ensures
        -1 <= space_index(s) < s.len(),
        space_index(s) >= 0 ==> s[space_index(s)] == SP,
    decreases s.len(),
{
    if s.len() > 0 && s[0] != SP {
        lemma_space_bound(s.drop_first());
        if space_index(s) >= 0 {
            assert(s[space_index(s)] == s.drop_first()[space_index(s) - 1]);
        }
    }
}

/// The bytes before the first space hold none.
proof fn lemma_prefix_before_space(s: Seq<u8>)
    ensures
        space_index(s) >= 0 ==> no_space(s.subrange(0, space_index(s))),
        space_index(s) < 0 ==> no_space(s),
    decreases s.len(),
{
    lemma_space_bound(s);
    if s.len() > 0 && s[0] != SP {
        let t = s.drop_first();
        lemma_prefix_before_space(t);
        lemma_space_bound(t);
        let k = space_index(s);
        if k >= 0 {
            assert forall|j: int| 0 <= j < k implies s.subrange(0, k)[j] != SP by {
                if j > 0 {
                    assert(s.subrange(0, k)[j] == t.subrange(0, k - 1)[j - 1]);
                }
            }
        } else {
            assert forall|j: int| 0 <= j < s.len() implies s[j] != SP by {
                if j > 0 {
                    assert(s[j] == t[j - 1]);
                }
            }
        }
    }
}

/// Every line that parsing gives has the shape above.
pub proof fn lemma_parse_shape(b: Seq<u8>)
    requires
        parse_line(b) is Some,
    ensures
        parsed_shape(parse_line(b)->0),
{
    let l = parse_line(b)->0;
    let (prefix, v) = if b.len() > 0 && b[0] == COLON {
        let i = space_index(b);
        lemma_space_bound(b);
        lemma_prefix_before_space(b);
        let p = b.subrange(1, i);
        assert forall|j: int| 0 <= j < p.len() implies p[j] != SP by {
            assert(p[j] == b.subrange(0, i)[j + 1]);
        }
        (Some(p), b.subrange(i + 1, b.len() as int))
    } else {
        (None, b)
    };
    assert(parse_body(prefix, v) == Some(l));
    let i = space_index(v);
    lemma_space_bound(v);
    lemma_prefix_before_space(v);
    let tok = if i < 0 {
        v
    } else {
        v.subrange(0, i)
    };
    let rest = if i < 0 {
        Seq::empty()
    } else {
        v.subrange(i + 1, v.len() as int)
    };
    let args = parse_args(rest);
    lemma_parse_args_plain(rest);
    if is_code_token(tok) {
        assert(is_digit(tok[0]) && is_digit(tok[1]) && is_digit(tok[2]));
    } else {
        assert(is_word_token(tok));
        if tok.len() == 0 {
            assert(i < 0);
            assert(rest.len() == 0);
        }
        if wants_ctcp(tok, args) {
            let text = unframe(args.last());
            let dst = args[0];
            assert(plain_arg(args[0]));
            let k = space_index(text);
            lemma_space_bound(text);
            lemma_prefix_before_space(text);
        }
    }
}

/// `spaced` read from the front: a space and the first argument, then the rest.
proof fn lemma_spaced_front(s: Seq<Seq<u8>>)
    requires
        s.len() > 0,
    ensures
        spaced(s) == seq![SP] + s[0] + spaced(s.drop_first()),
    decreases s.len(),
{
    if s.len() == 1 {
        assert(s.drop_last() =~= Seq::<Seq<u8>>::empty());
        assert(s.drop_first() =~= Seq::<Seq<u8>>::empty());
        assert(spaced(s) =~= seq![SP] + s[0] + spaced(s.drop_first()));
    } else {
        let t = s.drop_last();
        lemma_spaced_front(t);
        assert(t.drop_first() =~= s.drop_first().drop_last());
        assert(s.drop_first().last() == s.last());
        assert(spaced(s.drop_first()) == spaced(s.drop_first().drop_last()) + seq![SP]
            + s.drop_first().last());
        assert(spaced(s) =~= seq![SP] + s[0] + spaced(s.drop_first()));
    }
}

proof fn lemma_spaced_one(a: Seq<u8>)
    ensures
        spaced(seq![a]) == seq![SP] + a,
{
    assert(seq![a].drop_last() =~= Seq::<Seq<u8>>::empty());
    assert(spaced(Seq::<Seq<u8>>::empty()) == Seq::<u8>::empty());
    assert(spaced(seq![a]) =~= seq![SP] + a);
}

/// Plain arguments, each after a space, then a space and `tail`, parse back
/// to those arguments and what `tail` parses to.
proof fn lemma_parse_spaced(init: Seq<Seq<u8>>, tail: Seq<u8>)
    requires
        forall|i: int| 0 <= i < init.len() ==> plain_arg(#[trigger] init[i]),
    ensures
        parse_args((spaced(init) + seq![SP] + tail).drop_first()) == init + parse_args(tail),
    decreases init.len(),
{
    if init.len() == 0 {
        assert((spaced(init) + seq![SP] + tail).drop_first() =~= tail);
        assert(init + parse_args(tail) =~= parse_args(tail));
    } else {
        let a = init[0];
        let rest = init.drop_first();
        assert forall|i: int| 0 <= i < rest.len() implies plain_arg(#[trigger] rest[i]) by {
            assert(rest[i] == init[i + 1]);
        }
        assert(plain_arg(a));
        lemma_spaced_front(init);
        let x = spaced(rest) + seq![SP] + tail;
        if rest.len() > 0 {
            lemma_spaced_front(rest);
        }
        assert(x[0] == SP);
        let w = (spaced(init) + seq![SP] + tail).drop_first();
        assert(w =~= a + x);
        lemma_space_after(a, x);
        assert(w.len() > 0);
        if a.len() > 0 {
            assert(w[0] == a[0]);
        } else {
            assert(w[0] == x[0]);
        }
        assert(w.subrange(0, a.len() as int) =~= a);
        assert(w.subrange(a.len() as int + 1, w.len() as int) =~= x.drop_first());
        lemma_parse_spaced(rest, tail);
        assert(parse_args(w) == seq![a] + parse_args(x.drop_first()));
        assert(init =~= seq![a] + rest);
        assert(init + parse_args(tail) =~= seq![a] + (rest + parse_args(tail)));
    }
}

/// A canonical last argument parses back to itself.
proof fn lemma_parse_last(last: Seq<u8>)
    requires
        !no_space(last) || (last.len() > 0 && last[0] != COLON),
    ensures
        parse_args(colon_if_spaced(last) + last) == seq![last],
{
    let v = colon_if_spaced(last) + last;
    if no_space(last) {
        assert(v =~= last);
        lemma_no_space(last);
    } else {
        assert(v[0] == COLON);
        assert(v.drop_first() =~= last);
    }
}

proof fn lemma_code_digits(c: nat)
    requires
        c < 1000,
    ensures
        is_code_token(code_digits(c)),
        code_value(code_digits(c)) == c,
        no_space(code_digits(c)),
{
    let d = code_digits(c);
    if c < 10 {
        assert(decimal(c) == seq![(48 + c) as u8]);
    } else if c < 100 {
        assert(decimal(c / 10) == seq![(48 + c / 10) as u8]);
        assert(decimal(c) == decimal(c / 10).push((48 + c % 10) as u8));
    } else {
        assert(decimal(c / 100) == seq![(48 + c / 100) as u8]);
        assert(decimal(c / 10) == decimal(c / 10 / 10).push((48 + (c / 10) % 10) as u8));
        assert(c / 10 / 10 == c / 100);
        assert(decimal(c) == decimal(c / 10).push((48 + c % 10) as u8));
    }
    assert(d.len() == 3);
    assert(is_digit(d[0]) && is_digit(d[1]) && is_digit(d[2]));
    assert(code_value(d) == c);
}

proof fn lemma_alpha_no_space(n: Seq<u8>)
    requires
        is_word_token(n),
    ensures
        no_space(n),
        n.len() > 0 ==> n[0] != COLON,
        !is_code_token(n),
{
    assert forall|i: int| 0 <= i < n.len() implies n[i] != SP by {
        assert(is_alpha(n[i]));
    }
    if n.len() == 3 {
        assert(is_alpha(n[0]));
    }
    if n.len() > 0 {
        assert(is_alpha(n[0]));
    }
}

/// The body of a plain command: its token, then its arguments.
proof fn lemma_plain_body(prefix: Option<Seq<u8>>, l: LineModel, tok: Seq<u8>)
    requires
        l.prefix == prefix,
        !is_ctcp_model(l.command),
        parsed_shape(l),
        trailing_canonical(l),
        tok == header(l.command),
        no_space(tok),
        tok.len() > 0 || l.args.len() == 0,
    ensures
        parse_args(
            if space_index(tok + args_bytes(l.command, l.args)) < 0 {
                Seq::empty()
            } else {
                (tok + args_bytes(l.command, l.args)).subrange(
                    space_index(tok + args_bytes(l.command, l.args)) + 1,
                    (tok + args_bytes(l.command, l.args)).len() as int,
                )
            },
        ) == l.args,
        space_index(tok + args_bytes(l.command, l.args)) != 0,
        (if space_index(tok + args_bytes(l.command, l.args)) < 0 {
            tok + args_bytes(l.command, l.args)
        } else {
            (tok + args_bytes(l.command, l.args)).subrange(
                0,
                space_index(tok + args_bytes(l.command, l.args)),
            )
        }) == tok,
{
    let args = l.args;
    let r = tok + args_bytes(l.command, args);
    if args.len() == 0 {
        assert(r =~= tok);
        lemma_no_space(tok);
        assert(parse_args(Seq::empty()) =~= Seq::<Seq<u8>>::empty());
        assert(args =~= Seq::<Seq<u8>>::empty());
    } else {
        let init = args.drop_last();
        let last = args.last();
        let tail = colon_if_spaced(last) + last;
        let t = spaced(init) + seq![SP] + tail;
        assert(args_bytes(l.command, args) =~= t);
        if init.len() > 0 {
            lemma_spaced_front(init);
        }
        assert(t[0] == SP);
        lemma_space_after(tok, t);
        assert(r.subrange(0, tok.len() as int) =~= tok);
        assert(r.subrange(tok.len() as int + 1, r.len() as int) =~= t.drop_first());
        assert forall|i: int| 0 <= i < init.len() implies plain_arg(#[trigger] init[i]) by {
            assert(init[i] == args[i]);
        }
        lemma_parse_spaced(init, tail);
        lemma_parse_last(last);
        assert(init + seq![last] =~= args);
    }
}

proof fn lemma_words()
    ensures
        no_space(privmsg_word()),
        no_space(notice_word()),
        is_word_token(privmsg_word()),
        is_word_token(notice_word()),
        privmsg_word() != notice_word(),
        !is_code_token(privmsg_word()),
        !is_code_token(notice_word()),
        privmsg_word()[0] != COLON,
        notice_word()[0] != COLON,
{
    assert(privmsg_word()[0] != notice_word()[0]);
}

/// `verb dst :f` parses as the text command `verb` with arguments `dst`, `f`.
#[verifier::rlimit(50)]
proof fn lemma_ctcp_wire(prefix: Option<Seq<u8>>, verb: Seq<u8>, d: Seq<u8>, f: Seq<u8>)
    requires
        verb == privmsg_word() || verb == notice_word(),
        plain_arg(d),
    ensures
        parse_body(prefix, verb + (seq![SP] + d + seq![SP] + (seq![COLON] + f))) == word_line(
            prefix,
            verb,
            seq![d, f],
        ),
{
    lemma_words();
    let x = seq![SP] + d + seq![SP] + (seq![COLON] + f);
    let r = verb + x;
    lemma_space_after(verb, x);
    assert(r.subrange(0, verb.len() as int) =~= verb);
    let rest = r.subrange(verb.len() as int + 1, r.len() as int);
    lemma_spaced_one(d);
    assert(rest =~= (spaced(seq![d]) + seq![SP] + (seq![COLON] + f)).drop_first());
    assert forall|i: int| 0 <= i < seq![d].len() implies plain_arg(#[trigger] seq![d][i]) by {}
    lemma_parse_spaced(seq![d], seq![COLON] + f);
    assert((seq![COLON] + f).drop_first() =~= f);
    assert(parse_args(seq![COLON] + f) == seq![f]);
    assert(seq![d] + seq![f] =~= seq![d, f]);
    assert(parse_args(rest) == seq![d, f]);
    assert(space_index(r) == verb.len());
    assert(!is_code_token(verb));
    assert(is_word_token(verb));
}

/// The body of a CTCP line parses back to it.
proof fn lemma_ctcp_body(prefix: Option<Seq<u8>>, l: LineModel, verb: Seq<u8>, sub: Seq<u8>, d: Seq<u8>)
    requires
        l.prefix == prefix,
        is_ctcp_model(l.command),
        verb == privmsg_word() || verb == notice_word(),
        header(l.command) == ctcp_header(verb, d, sub),
        plain_arg(d),
    ensures
        parse_body(prefix, header(l.command) + args_bytes(l.command, l.args)) == word_line(
            prefix,
            verb,
            seq![d, seq![CTCP_MARK] + sub + spaced(l.args) + seq![CTCP_MARK]],
        ),
{
    let f = seq![CTCP_MARK] + sub + spaced(l.args) + seq![CTCP_MARK];
    let r = header(l.command) + args_bytes(l.command, l.args);
    assert(r =~= verb + (seq![SP] + d + seq![SP] + (seq![COLON] + f)));
    lemma_ctcp_wire(prefix, verb, d, f);
}

/// Writing a line with the shape of a parsed one and parsing it again gives
/// the line back, where its last argument is canonical.
proof fn lemma_print_parse(l: LineModel)
    requires
        parsed_shape(l),
        trailing_canonical(l),
    ensures
        parse_line(line_bytes(l)) == Some(l),
{
    lemma_words();
    let r = header(l.command) + args_bytes(l.command, l.args);
    let body_ok = parse_body(l.prefix, r) == Some(l);
    match l.command {
        CommandModel::Cmd(n) => {
            lemma_alpha_no_space(n);
            lemma_plain_body(l.prefix, l, n);
            assert(word_line(l.prefix, n, l.args) == Some(l));
        },
        CommandModel::Code(c) => {
            lemma_code_digits(c);
            lemma_plain_body(l.prefix, l, code_digits(c));
        },
        CommandModel::Action(d) => {
            lemma_ctcp_body(l.prefix, l, privmsg_word(), action_word(), d);
            ctcp_text_parts(l.args, action_word());
            assert(l.args =~= seq![l.args[0]]);
        },
        CommandModel::Ctcp(s, d) => {
            lemma_ctcp_body(l.prefix, l, privmsg_word(), s, d);
            ctcp_text_parts(l.args, s);
        },
        CommandModel::CtcpReply(s, d) => {
            lemma_ctcp_body(l.prefix, l, notice_word(), s, d);
            ctcp_text_parts(l.args, s);
        },
    }
    assert(body_ok);
    let b = line_bytes(l);
    match l.prefix {
        Some(p) => {
            let a = seq![COLON] + p;
            assert forall|j: int| 0 <= j < a.len() implies a[j] != SP by {
                if j > 0 {
                    assert(a[j] == p[j - 1]);
                }
            }
            assert(b =~= a + (seq![SP] + r));
            lemma_space_after(a, seq![SP] + r);
            assert(b.subrange(1, a.len() as int) =~= p);
            assert(b.subrange(a.len() as int + 1, b.len() as int) =~= r);
        },
        None => {
            assert(b =~= r);
            if r.len() > 0 {
                match l.command {
                    CommandModel::Cmd(n) => {
                        lemma_alpha_no_space(n);
                        if n.len() == 0 {
                            assert(r =~= Seq::<u8>::empty());
                        } else {
                            assert(r[0] == n[0]);
                        }
                    },
                    CommandModel::Code(c) => {
                        lemma_code_digits(c);
                        assert(r[0] == code_digits(c)[0]);
                        assert(is_digit(code_digits(c)[0]));
                    },
                    CommandModel::CtcpReply(s, d) => {
                        assert(r[0] == notice_word()[0]);
                    },
                    _ => {
                        assert(r[0] == privmsg_word()[0]);
                    },
                }
            }
        },
    }
}

/// The CTCP text `sub` with at most one argument splits back into them.
proof fn ctcp_text_parts(args: Seq<Seq<u8>>, sub: Seq<u8>)
    requires
        no_space(sub),
        args.len() <= 1,
    ensures
        ctcp_sub(unframe(seq![CTCP_MARK] + sub + spaced(args) + seq![CTCP_MARK])) == sub,
        ctcp_payload(unframe(seq![CTCP_MARK] + sub + spaced(args) + seq![CTCP_MARK])) == args,
{
    let f = seq![CTCP_MARK] + sub + spaced(args) + seq![CTCP_MARK];
    let text = sub + spaced(args);
    assert(unframe(f) =~= text);
    if args.len() == 0 {
        assert(text =~= sub);
        lemma_no_space(sub);
        assert(args =~= Seq::<Seq<u8>>::empty());
    } else {
        let t = seq![SP] + args[0];
        assert(args =~= seq![args[0]]);
        lemma_spaced_one(args[0]);
        lemma_space_after(sub, t);
        assert(text.subrange(0, sub.len() as int) =~= sub);
        assert(text.subrange(sub.len() as int + 1, text.len() as int) =~= args[0]);
        assert(args =~= seq![args[0]]);
    }
}

/// Round trip: a line parsed from `b` and written with `to_raw` parses back
/// to the same line, wherever its last argument is canonical (it holds a
/// space, or it is not empty and opens with no colon; CTCP lines always are).
pub proof fn lemma_round_trip(b: Seq<u8>)
    requires
        parse_line(b) is Some,
        trailing_canonical(parse_line(b)->0),
    ensures
        parse_line(line_bytes(parse_line(b)->0)) == parse_line(b),
{
    lemma_parse_shape(b);
    lemma_print_parse(parse_line(b)->0);
}


/// A `PRIVMSG` whose trailing argument opens with the CTCP byte is taken
/// apart as CTCP, whether or not the argument also ends with one: only the
/// leading byte is stripped where it does not. The destination is kept and
/// the sub-command is the text up to its first space.
pub proof fn lemma_ctcp_extracted(dst: Seq<u8>, text: Seq<u8>)
    requires
        plain_arg(dst),
    ensures
        ({
            let l = parse_line(privmsg_word() + seq![SP] + dst + seq![SP, COLON, CTCP_MARK] + text);
            let inner = if text.len() > 0 && text.last() == CTCP_MARK {
                text.drop_last()
            } else {
                text
            };
            &&& unframe(seq![CTCP_MARK] + text) == inner
            &&& l is Some
            &&& l->0.prefix is None
            &&& match l->0.command {
                CommandModel::Action(d) => d == dst && ctcp_sub(inner) == action_word(),
                CommandModel::Ctcp(s, d) => d == dst && s == ctcp_sub(inner),
                _ => false,
            }
        }),
{
    lemma_words();
    let f = seq![CTCP_MARK] + text;
    let b = privmsg_word() + seq![SP] + dst + seq![SP, COLON, CTCP_MARK] + text;
    assert(b =~= privmsg_word() + (seq![SP] + dst + seq![SP] + (seq![COLON] + f)));
    lemma_ctcp_wire(None, privmsg_word(), dst, f);
    assert(b[0] == privmsg_word()[0]);
    assert(seq![dst, f].last() == f);
    if text.len() > 0 && text.last() == CTCP_MARK {
        assert(unframe(f) =~= text.drop_last());
    } else {
        assert(unframe(f) =~= text);
    }
}

} // verus!
