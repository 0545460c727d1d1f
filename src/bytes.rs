//! Byte-string helpers shared by the codec and the emitter.
use vstd::prelude::*;

verus! {

/// The space byte, which separates tokens on the wire.
pub const SP: u8 = 32;

/// The colon byte, which opens a prefix or a trailing argument.
pub const COLON: u8 = 58;

/// The byte that frames a CTCP message.
pub const CTCP_MARK: u8 = 1;

/// Index of the first space in `s`, or -1 where there is none.
pub open spec fn space_index(s: Seq<u8>) -> int
    decreases s.len(),
{
    if s.len() == 0 {
        -1
    } else if s[0] == SP {
        0
    } else {
        let r = space_index(s.drop_first());
        if r < 0 {
            -1
        } else {
            r + 1
        }
    }
}

/// `s` holds no space byte.
pub open spec fn no_space(s: Seq<u8>) -> bool {
    forall|i: int| 0 <= i < s.len() ==> s[i] != SP
}

/// `space_index` is the position `k` of a space with none before it.
pub proof fn lemma_space_index(s: Seq<u8>, k: int)
    requires
        0 <= k <= s.len(),
        forall|j: int| 0 <= j < k ==> s[j] != SP,
        k < s.len() ==> s[k] == SP,
    ensures
        space_index(s) == (if k == s.len() { -1 } else { k }),
    decreases k,
{
    if k > 0 {
        let t = s.drop_first();
        assert forall|j: int| 0 <= j < k - 1 implies t[j] != SP by {
            assert(t[j] == s[j + 1]);
        }
        if k - 1 < t.len() {
            assert(t[k - 1] == s[k]);
        }
        lemma_space_index(t, k - 1);
        assert(s[0] != SP);
    }
}

/// A string without spaces has no space index.
pub proof fn lemma_no_space(s: Seq<u8>)
    requires
        no_space(s),
    ensures
        space_index(s) == -1,
{
    lemma_space_index(s, s.len() as int);
}

/// A space right after a space-free string is the first one.
pub proof fn lemma_space_after(a: Seq<u8>, b: Seq<u8>)
    requires
        no_space(a),
        b.len() > 0,
        b[0] == SP,
    ensures
        space_index(a + b) == a.len(),
{
    let s = a + b;
    assert forall|j: int| 0 <= j < a.len() implies s[j] != SP by {
        assert(s[j] == a[j]);
    }
    assert(s[a.len() as int] == b[0]);
    lemma_space_index(s, a.len() as int);
}

/// Position of the first byte `b` in `v` at or after `from`, or `v.len()`.
pub fn find_byte(v: &[u8], from: usize, b: u8) -> (r: usize)
    requires
        from <= v@.len(),
    ensures
        from <= r <= v@.len(),
        r < v@.len() ==> v@[r as int] == b,
        forall|j: int| from <= j < r ==> v@[j] != b,
{
    let mut i: usize = from;
    while i < v.len()
        invariant
            from <= i <= v@.len(),
            forall|j: int| from <= j < i ==> v@[j] != b,
        decreases v@.len() - i,
    {
        if v[i] == b {
            return i;
        }
        i = i + 1;
    }
    i
}

/// Index of the first space of `v[from..]`, as `space_index` counts it.
pub fn find_space(v: &[u8], from: usize) -> (r: usize)
    requires
        from <= v@.len(),
    ensures
        from <= r <= v@.len(),
        space_index(v@.subrange(from as int, v@.len() as int)) == (if r == v@.len() {
            -1
        } else {
            r - from
        }),
{
    let r = find_byte(v, from, SP);
    proof {
        let s = v@.subrange(from as int, v@.len() as int);
        assert forall|j: int| 0 <= j < r - from implies s[j] != SP by {
            assert(s[j] == v@[from + j]);
        }
        if r < v@.len() {
            assert(s[r - from] == v@[r as int]);
        }
        lemma_space_index(s, r - from);
    }
    r
}

/// A copy of `v[lo..hi]`.
pub fn copy_range(v: &[u8], lo: usize, hi: usize) -> (r: Vec<u8>)
    requires
        lo <= hi <= v@.len(),
    ensures
        r@ == v@.subrange(lo as int, hi as int),
{
    let mut r: Vec<u8> = Vec::new();
    let mut i: usize = lo;
    while i < hi
        invariant
            lo <= i <= hi <= v@.len(),
            r@ == v@.subrange(lo as int, i as int),
        decreases hi - i,
    {
        r.push(v[i]);
        assert(r@ =~= v@.subrange(lo as int, i + 1));
        i = i + 1;
    }
    r
}

/// Appends all of `s` to `out`.
pub fn push_all(out: &mut Vec<u8>, s: &[u8])
    ensures
        final(out)@ == old(out)@ + s@,
{
    let mut i: usize = 0;
    while i < s.len()
        invariant
            i <= s@.len(),
            out@ == old(out)@ + s@.subrange(0, i as int),
        decreases s@.len() - i,
    {
        out.push(s[i]);
        assert(out@ =~= old(out)@ + s@.subrange(0, i + 1));
        i = i + 1;
    }
    assert(s@.subrange(0, s@.len() as int) =~= s@);
}

/// Whether `a` and `b` hold the same bytes.
pub fn bytes_eq(a: &[u8], b: &[u8]) -> (r: bool)
    ensures
        r == (a@ == b@),
{
    if a.len() != b.len() {
        return false;
    }
    let mut i: usize = 0;
    while i < a.len()
        invariant
            a@.len() == b@.len(),
            i <= a@.len(),
            forall|j: int| 0 <= j < i ==> a@[j] == b@[j],
        decreases a@.len() - i,
    {
        if a[i] != b[i] {
            return false;
        }
        i = i + 1;
    }
    assert(a@ =~= b@);
    true
}

} // verus!
