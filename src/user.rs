//! The `nick!user@host` identity that prefixes server lines.
use vstd::prelude::*;
use crate::bytes::{copy_range, push_all};

verus! {

/// Byte that opens the user part of a prefix.
pub const BANG: u8 = 33;

/// Byte that opens the host part of a prefix.
pub const AT: u8 = 64;

/// A user or server identity, kept in its canonical raw form
/// (`nick`, `nick!user`, `nick@host` or `nick!user@host`).
#[derive(Clone, Debug, PartialEq, Eq)]
pub struct User {
    raw: Vec<u8>,
}

impl View for User {
    type V = Seq<u8>;

    closed spec fn view(&self) -> Seq<u8> {
        self.raw@
    }
}

/// The byte ends the nickname part of a raw identity.
pub open spec fn ends_nick(b: u8) -> bool {
    b == BANG || b == AT
}

/// The nickname: the raw form up to its first `!` or `@`.
pub open spec fn nick_of(raw: Seq<u8>) -> Seq<u8>
    decreases raw.len(),
{
    if raw.len() == 0 || ends_nick(raw[0]) {
        Seq::empty()
    } else {
        seq![raw[0]] + nick_of(raw.drop_first())
    }
}

/// The raw form built from its parts.
pub open spec fn user_raw(nick: Seq<u8>, user: Option<Seq<u8>>, host: Option<Seq<u8>>) -> Seq<u8> {
    nick + match user {
        Some(u) => seq![BANG] + u,
        None => Seq::empty(),
    } + match host {
        Some(h) => seq![AT] + h,
        None => Seq::empty(),
    }
}

/// The bytes of an optional slice.
pub open spec fn opt_view(o: Option<&[u8]>) -> Option<Seq<u8>> {
    match o {
        Some(s) => Some(s@),
        None => None,
    }
}

/// The nickname is the first `k` bytes where byte `k` is the first separator.
proof fn lemma_nick_of(raw: Seq<u8>, k: int)
    requires
        0 <= k <= raw.len(),
        forall|j: int| 0 <= j < k ==> !ends_nick(raw[j]),
        k < raw.len() ==> ends_nick(raw[k]),
    ensures
        nick_of(raw) == raw.subrange(0, k),
    decreases k,
{
    if k == 0 {
        assert(raw.subrange(0, 0) =~= Seq::<u8>::empty());
    } else {
        let t = raw.drop_first();
        assert forall|j: int| 0 <= j < k - 1 implies !ends_nick(t[j]) by {
            assert(t[j] == raw[j + 1]);
        }
        if k - 1 < t.len() {
            assert(t[k - 1] == raw[k]);
        }
        lemma_nick_of(t, k - 1);
        assert(!ends_nick(raw[0]));
        assert(raw.subrange(0, k) =~= seq![raw[0]] + t.subrange(0, k - 1));
    }
}

impl User {
    /// Parses a prefix: every byte string is a raw identity.
    pub fn parse(v: &[u8]) -> (r: User)
        ensures
            r@ == v@,
    {
        User { raw: copy_range(v, 0, v.len()) }
    }

    /// Builds an identity from a nickname and an optional user and host.
    pub fn new(nick: &[u8], user: Option<&[u8]>, host: Option<&[u8]>) -> (r: User)
        ensures
            r@ == user_raw(nick@, opt_view(user), opt_view(host)),
    {
        let mut raw: Vec<u8> = Vec::new();
        push_all(&mut raw, nick);
        match user {
            Some(u) => {
                raw.push(BANG);
                push_all(&mut raw, u);
            },
            None => {},
        }
        match host {
            Some(h) => {
                raw.push(AT);
                push_all(&mut raw, h);
            },
            None => {},
        }
        assert(raw@ =~= user_raw(nick@, opt_view(user), opt_view(host)));
        User { raw }
    }

    /// The canonical raw form.
    pub fn raw(&self) -> (r: &[u8])
        ensures
            r@ == self@,
    {
        self.raw.as_slice()
    }

    /// Length of the nickname part.
    fn nick_len(&self) -> (r: usize)
        ensures
            r <= self@.len(),
            nick_of(self@) == self@.subrange(0, r as int),
    {
        let v = self.raw.as_slice();
        let mut i: usize = 0;
        while i < v.len() && v[i] != BANG && v[i] != AT
            invariant
                i <= v@.len(),
                v@ == self@,
                forall|j: int| 0 <= j < i ==> !ends_nick(v@[j]),
            decreases v@.len() - i,
        {
            i = i + 1;
        }
        proof {
            lemma_nick_of(self@, i as int);
        }
        i
    }

    /// The nickname.
    pub fn nick(&self) -> (r: Vec<u8>)
        ensures
            r@ == nick_of(self@),
    {
        let n = self.nick_len();
        copy_range(self.raw.as_slice(), 0, n)
    }

    /// A copy whose nickname is `nick`, the rest kept.
    pub fn with_nick(&self, nick: &[u8]) -> (r: User)
        ensures
            r@ == nick@ + self@.subrange(nick_of(self@).len() as int, self@.len() as int),
    {
        let n = self.nick_len();
        let mut raw: Vec<u8> = Vec::new();
        push_all(&mut raw, nick);
        let rest = copy_range(self.raw.as_slice(), n, self.raw.len());
        push_all(&mut raw, rest.as_slice());
        User { raw }
    }
}

} // verus!
