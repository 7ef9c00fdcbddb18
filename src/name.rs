//! Logical paths and the 8.3 short names that stand for their components.
use vstd::prelude::*;

verus! {

pub const SLASH: u8 = 0x2f;
pub const DOT: u8 = 0x2e;
pub const SPACE: u8 = 0x20;

/// A byte that may stand in a path component: printable ASCII, not a backslash.
pub open spec fn name_byte(c: u8) -> bool {
    0x21 <= c <= 0x7e && c != 0x5c
}

/// Longest component: what a run of long-name entries can hold.
pub const MAX_NAME: usize = 255;

/// Length of the component that ends just before byte `i`.
pub open spec fn run_before(p: Seq<u8>, i: int) -> nat
    decreases i,
{
    if i <= 0 || i > p.len() {
        0
    } else if p[i - 1] == SLASH {
        0
    } else {
        run_before(p, i - 1) + 1
    }
}

/// A logical path: non-empty components of at most `MAX_NAME` bytes joined by
/// single slashes, none of them starting with a dot (so neither `.` nor `..`
/// can appear, and no 8.3 name starts with a space).
pub open spec fn valid_path(p: Seq<u8>) -> bool {
    &&& forall|i: int| 0 <= i <= p.len() ==> #[trigger] run_before(p, i) <= MAX_NAME
    &&& p.len() > 0
    &&& p[0] != SLASH
    &&& p[p.len() - 1] != SLASH
    &&& forall|i: int| 0 <= i < p.len() ==> name_byte(#[trigger] p[i])
    &&& forall|i: int| 0 <= i < p.len() - 1 && p[i] == SLASH ==> #[trigger] p[i + 1] != SLASH
    &&& p[0] != DOT
    &&& forall|i: int| 0 <= i < p.len() - 1 && p[i] == SLASH ==> #[trigger] p[i + 1] != DOT
}

pub fn is_valid_path(p: &Vec<u8>) -> (r: bool)
    ensures
        r == valid_path(p@),
{
    let n = p.len();
    if n == 0 || p[0] == SLASH || p[n - 1] == SLASH || p[0] == DOT {
        return false;
    }
    let mut i: usize = 0;
    let mut run: usize = 0;
    while i < n
        invariant
            n == p@.len(),
            n > 0,
            i <= n,
            run == run_before(p@, i as int),
            forall|k: int| 0 <= k <= i ==> #[trigger] run_before(p@, k) <= MAX_NAME,
            forall|k: int| 0 <= k < i ==> name_byte(#[trigger] p@[k]),
            forall|k: int| 0 <= k < i && k < n - 1 && p@[k] == SLASH ==> #[trigger] p@[k + 1] != SLASH,
            forall|k: int| 0 <= k < i && k < n - 1 && p@[k] == SLASH ==> #[trigger] p@[k + 1] != DOT,
        decreases n - i,
    {
        let c = p[i];
        if !(0x21 <= c && c <= 0x7e && c != 0x5c) {
            return false;
        }
        if c == SLASH && i + 1 < n && (p[i + 1] == SLASH || p[i + 1] == DOT) {
            return false;
        }
        if c == SLASH {
            run = 0;
        } else {
            run = run + 1;
        }
        if run > MAX_NAME {
            assert(run_before(p@, i + 1) > MAX_NAME);
            return false;
        }
        i = i + 1;
    }
    true
}

/// Index of the last dot in `s`, or -1 where it holds none.
pub open spec fn last_dot(s: Seq<u8>) -> int
    decreases s.len(),
{
    if s.len() == 0 {
        -1
    } else if s.last() == DOT {
        s.len() - 1
    } else {
        last_dot(s.drop_last())
    }
}

/// Bytes that an 8.3 name may not hold.
pub open spec fn short_forbidden(c: u8) -> bool {
    c == 0x20 || c == 0x22 || c == 0x2a || c == 0x2b || c == 0x2c || c == 0x2e || c == 0x2f
        || c == 0x3a || c == 0x3b || c == 0x3c || c == 0x3d || c == 0x3e || c == 0x3f
        || c == 0x5b || c == 0x5c || c == 0x5d || c == 0x7c
}

/// A name byte as it stands in a short name: upper case, forbidden bytes as `_`.
pub open spec fn short_byte(c: u8) -> u8 {
    if 0x61 <= c <= 0x7a {
        (c - 32) as u8
    } else if short_forbidden(c) {
        0x5f
    } else {
        c
    }
}

/// The first `n` bytes of `s` in short form, padded with spaces.
pub open spec fn short_field(s: Seq<u8>, n: nat) -> Seq<u8> {
    Seq::new(n, |i: int| if i < s.len() { short_byte(s[i]) } else { SPACE })
}

/// The 11-byte directory-entry name of a component: the part before the last dot
/// cut to 8 bytes, the part after it cut to 3, both padded with spaces.
pub open spec fn short_name(s: Seq<u8>) -> Seq<u8> {
    let d = last_dot(s);
    if d < 0 {
        short_field(s, 8) + short_field(Seq::empty(), 3)
    } else {
        short_field(s.take(d), 8) + short_field(s.skip(d + 1), 3)
    }
}

fn short_byte_exec(c: u8) -> (r: u8)
    ensures
        r == short_byte(c),
{
    if 0x61 <= c && c <= 0x7a {
        c - 32
    } else if c == 0x20 || c == 0x22 || c == 0x2a || c == 0x2b || c == 0x2c || c == 0x2e
        || c == 0x2f || c == 0x3a || c == 0x3b || c == 0x3c || c == 0x3d || c == 0x3e
        || c == 0x3f || c == 0x5b || c == 0x5c || c == 0x5d || c == 0x7c {
        0x5f
    } else {
        c
    }
}

/// Appends `short_field(s[lo..hi], n)`.
fn push_field(out: &mut Vec<u8>, s: &Vec<u8>, lo: usize, hi: usize, n: usize)
    requires
        lo <= hi <= s@.len(),
    ensures
        final(out)@ == old(out)@ + short_field(s@.subrange(lo as int, hi as int), n as nat),
{
    let ghost start = out@;
    let ghost part = s@.subrange(lo as int, hi as int);
    let mut i: usize = 0;
    while i < n
        invariant
            lo <= hi <= s@.len(),
            part == s@.subrange(lo as int, hi as int),
            i <= n,
            out@ =~= start + short_field(part, n as nat).take(i as int),
        decreases n - i,
    {
        let b = if i < hi - lo { short_byte_exec(s[lo + i]) } else { SPACE };
        out.push(b);
        i = i + 1;
        assert(out@ =~= start + short_field(part, n as nat).take(i as int));
    }
    assert(short_field(part, n as nat).take(n as int) =~= short_field(part, n as nat));
}

/// The short name of `s[lo..hi]`.
pub fn short_name_of(s: &Vec<u8>, lo: usize, hi: usize) -> (r: Vec<u8>)
    requires
        lo <= hi <= s@.len(),
    ensures
        r@ == short_name(s@.subrange(lo as int, hi as int)),
        r@.len() == 11,
{
    let ghost part = s@.subrange(lo as int, hi as int);
    let mut j: usize = hi;
    let mut found = false;
    assert(part.take(hi - lo) =~= part);
    while j > lo && !found
        invariant
            lo <= j <= hi <= s@.len(),
            part == s@.subrange(lo as int, hi as int),
            last_dot(part) == last_dot(part.take(j - lo)),
            found ==> j > lo && s@[j - 1] == DOT,
        decreases j, (if found { 0int } else { 1int }),
    {
        if s[j - 1] == DOT {
            found = true;
        } else {
            assert(part.take(j - lo).drop_last() =~= part.take(j - lo - 1));
            j = j - 1;
        }
    }
    let mut out: Vec<u8> = Vec::new();
    if !found {
        assert(part.take(0) =~= Seq::<u8>::empty());
        push_field(&mut out, s, lo, hi, 8);
        push_field(&mut out, s, hi, hi, 3);
        assert(s@.subrange(hi as int, hi as int) =~= Seq::<u8>::empty());
    } else {
        assert(part.take(j - lo).last() == DOT);
        assert(last_dot(part) == j - 1 - lo);
        push_field(&mut out, s, lo, j - 1, 8);
        push_field(&mut out, s, j, hi, 3);
        assert(part.take(j - 1 - lo) =~= s@.subrange(lo as int, j - 1));
        assert(part.skip(j - lo) =~= s@.subrange(j as int, hi as int));
    }
    out
}

} // verus!
