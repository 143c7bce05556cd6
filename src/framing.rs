//! Byte-level helpers: little-endian integers and the length-prefixed layout
//! of composite payloads.
use vstd::prelude::*;

verus! {

/// The integer that `b` encodes in little-endian order.
pub open spec fn le_nat(b: Seq<u8>) -> nat
    decreases b.len(),
{
    if b.len() == 0 {
        0
    } else {
        b[0] as nat + 256 * le_nat(b.drop_first())
    }
}

/// A copy of a fixed-size array as a vector.
pub fn array_to_vec<const N: usize>(a: &[u8; N]) -> (v: Vec<u8>)
    ensures
        v@ == a@,
{
    let mut v: Vec<u8> = Vec::with_capacity(N);
    let mut i: usize = 0;
    while i < N
        invariant
            0 <= i <= N,
            a@.len() == N,
            v@ == a@.subrange(0, i as int),
        decreases N - i,
    {
        v.push(a[i]);
        i = i + 1;
        assert(v@ =~= a@.subrange(0, i as int));
    }
    assert(v@ =~= a@);
    v
}

/// 256 to the power `k`.
pub open spec fn pow256(k: nat) -> nat
    decreases k,
{
    if k == 0 {
        1
    } else {
        256 * pow256((k - 1) as nat)
    }
}

/// The `len` low bytes of `n`, least significant first.
pub open spec fn le_bytes(n: nat, len: nat) -> Seq<u8>
    decreases len,
{
    if len == 0 {
        Seq::empty()
    } else {
        seq![(n % 256) as u8] + le_bytes(n / 256, (len - 1) as nat)
    }
}

/// `le_bytes` has the length asked for.
pub proof fn lemma_le_bytes_len(n: nat, len: nat)
    ensures
        le_bytes(n, len).len() == len,
    decreases len,
{
    if len > 0 {
        lemma_le_bytes_len(n / 256, (len - 1) as nat);
    }
}

/// Decoding the `len` low bytes of a number below `256^len` gives it back.
pub proof fn lemma_le_nat_le_bytes(n: nat, len: nat)
    requires
        n < pow256(len),
    ensures
        le_nat(le_bytes(n, len)) == n,
    decreases len,
{
    lemma_le_bytes_len(n, len);
    if len > 0 {
        let p = pow256((len - 1) as nat);
        assert(n / 256 < p) by (nonlinear_arith)
            requires
                n < 256 * p,
        ;
        lemma_le_nat_le_bytes(n / 256, (len - 1) as nat);
        let b = le_bytes(n, len);
        assert(b.drop_first() =~= le_bytes(n / 256, (len - 1) as nat));
        assert(n == n % 256 + 256 * (n / 256)) by (nonlinear_arith);
    }
}

/// A byte string prefixed by its length as 8 little-endian bytes.
pub open spec fn framed(a: Seq<u8>) -> Seq<u8> {
    le_bytes(a.len(), 8) + a
}

/// The length-prefixed field that starts at `off`, and the offset after it.
pub open spec fn take_field(s: Seq<u8>, off: int) -> Option<(Seq<u8>, int)> {
    if 0 <= off && off + 8 <= s.len() && off + 8 + le_nat(s.subrange(off, off + 8)) <= s.len() {
        let n = le_nat(s.subrange(off, off + 8));
        Some((s.subrange(off + 8, off + 8 + n), off + 8 + n))
    } else {
        None
    }
}

/// The `n` bytes that start at `off`, and the offset after them.
pub open spec fn take_fixed(s: Seq<u8>, off: int, n: int) -> Option<(Seq<u8>, int)> {
    if 0 <= off && 0 <= n && off + n <= s.len() {
        Some((s.subrange(off, off + n), off + n))
    } else {
        None
    }
}

/// Reading a framed field from the front of `framed(a) + rest` gives `a`.
pub proof fn lemma_take_framed(pre: Seq<u8>, a: Seq<u8>, rest: Seq<u8>)
    requires
        a.len() < pow256(8),
    ensures
        take_field(pre + framed(a) + rest, pre.len() as int) == Some(
            (a, (pre.len() + 8 + a.len()) as int),
        ),
{
    lemma_le_bytes_len(a.len(), 8);
    lemma_le_nat_le_bytes(a.len(), 8);
    let s = pre + framed(a) + rest;
    let off = pre.len() as int;
    assert(s.subrange(off, off + 8) =~= le_bytes(a.len(), 8));
    assert(s.subrange(off + 8, off + 8 + a.len()) =~= a);
}

/// Reading `n` fixed bytes from the front of `a + rest` gives `a`.
pub proof fn lemma_take_fixed(pre: Seq<u8>, a: Seq<u8>, rest: Seq<u8>)
    ensures
        take_fixed(pre + a + rest, pre.len() as int, a.len() as int) == Some(
            (a, (pre.len() + a.len()) as int),
        ),
{
    let s = pre + a + rest;
    assert(s.subrange(pre.len() as int, (pre.len() + a.len()) as int) =~= a);
}

/// Appends the `len` low bytes of `n`, least significant first.
pub fn put_le(out: &mut Vec<u8>, n: u64, len: usize)
    requires
        len <= 8,
    ensures
        final(out)@ == old(out)@ + le_bytes(n as nat, len as nat),
{
    let ghost start = old(out)@;
    let mut m: u64 = n;
    let mut i: usize = 0;
    while i < len
        invariant
            0 <= i <= len <= 8,
            out@ + le_bytes(m as nat, (len - i) as nat) == start + le_bytes(n as nat, len as nat),
        decreases len - i,
    {
        let ghost before = out@;
        out.push((m % 256) as u8);
        assert(le_bytes(m as nat, (len - i) as nat) == seq![(m % 256) as u8] + le_bytes(
            (m / 256) as nat,
            (len - i - 1) as nat,
        ));
        assert(out@ + le_bytes((m / 256) as nat, (len - i - 1) as nat) =~= before + le_bytes(
            m as nat,
            (len - i) as nat,
        ));
        m = m / 256;
        i = i + 1;
    }
    assert(le_bytes(m as nat, 0) =~= Seq::<u8>::empty());
    assert(out@ =~= out@ + le_bytes(m as nat, 0));
}

/// Appends `a` prefixed by its length.
pub fn put_field(out: &mut Vec<u8>, a: &[u8])
    ensures
        final(out)@ == old(out)@ + framed(a@),
{
    put_le(out, a.len() as u64, 8);
    out.extend_from_slice(a);
    assert(out@ =~= old(out)@ + framed(a@));
}

/// Reads the little-endian integer in `s[off .. off + len]`.
pub fn get_le(s: &[u8], off: usize, len: usize) -> (n: u64)
    requires
        len <= 8,
        off + len <= s@.len(),
    ensures
        n as nat == le_nat(s@.subrange(off as int, off + len)),
{
    let mut n: u64 = 0;
    let mut i: usize = len;
    let sl = s.len();
    while i > 0
        invariant
            0 <= i <= len <= 8,
            sl == s@.len(),
            off + len <= s@.len(),
            n as nat == le_nat(s@.subrange(off + i, off + len)),
            (n as nat) < pow256((len - i) as nat),
        decreases i,
    {
        let ghost tail = s@.subrange(off + i, off + len);
        let ghost p = pow256((len - i) as nat);
        i = i - 1;
        let b = s[off + i];
        assert(s@.subrange(off + i, off + len).drop_first() =~= tail);
        assert(n * 256 + b < 256 * p) by (nonlinear_arith)
            requires
                n < p,
                b < 256,
        ;
        proof {
            assert(pow256((len - i) as nat) == 256 * p);
            lemma_pow256_bound((len - i) as nat);
        }
        n = n * 256 + b as u64;
    }
    n
}

/// `256^k` fits in 64 bits for `k <= 8`.
pub proof fn lemma_pow256_bound(k: nat)
    requires
        k <= 8,
    ensures
        pow256(k) <= 0x1_0000_0000_0000_0000,
{
    reveal_with_fuel(pow256, 9);
}

/// Reads the length-prefixed field at `off`.
pub fn get_field(s: &[u8], off: usize) -> (r: Option<(Vec<u8>, usize)>)
    ensures
        match r {
            Some((a, o)) => take_field(s@, off as int) == Some((a@, o as int)),
            None => take_field(s@, off as int) is None,
        },
{
    if off > s.len() || s.len() - off < 8 {
        return None;
    }
    let n = get_le(s, off, 8);
    if n > (s.len() - off - 8) as u64 {
        return None;
    }
    let start = off + 8;
    let end = start + n as usize;
    let a = slice_range(s, start, end);
    Some((a, end))
}

/// Reads `n` bytes at `off`.
pub fn get_fixed(s: &[u8], off: usize, n: usize) -> (r: Option<(Vec<u8>, usize)>)
    ensures
        match r {
            Some((a, o)) => take_fixed(s@, off as int, n as int) == Some((a@, o as int)),
            None => take_fixed(s@, off as int, n as int) is None,
        },
{
    if off > s.len() || s.len() - off < n {
        return None;
    }
    Some((slice_range(s, off, off + n), off + n))
}

/// A copy of `s[start .. end]`.
pub fn slice_range(s: &[u8], start: usize, end: usize) -> (v: Vec<u8>)
    requires
        start <= end <= s@.len(),
    ensures
        v@ == s@.subrange(start as int, end as int),
{
    let mut v: Vec<u8> = Vec::with_capacity(end - start);
    let mut i: usize = start;
    while i < end
        invariant
            start <= i <= end <= s@.len(),
            v@ == s@.subrange(start as int, i as int),
        decreases end - i,
    {
        v.push(s[i]);
        i = i + 1;
        assert(v@ =~= s@.subrange(start as int, i as int));
    }
    v
}

/// The 32 bytes of `v` as an array.
pub fn to_array32(v: &[u8]) -> (a: [u8; 32])
    requires
        v@.len() == 32,
    ensures
        a@ == v@,
{
    let mut a = [0u8; 32];
    let mut i: usize = 0;
    while i < 32
        invariant
            0 <= i <= 32,
            v@.len() == 32,
            forall|j: int| 0 <= j < i ==> a@[j] == v@[j],
        decreases 32 - i,
    {
        a[i] = v[i];
        i = i + 1;
    }
    assert(a@ =~= v@);
    a
}

/// The two framed fields that make up `s`, with nothing after them.
pub open spec fn parse_pair(s: Seq<u8>) -> Option<(Seq<u8>, Seq<u8>)> {
    match take_field(s, 0) {
        Some((a, o)) => match take_field(s, o) {
            Some((b, o2)) => if o2 == s.len() {
                Some((a, b))
            } else {
                None
            },
            None => None,
        },
        None => None,
    }
}

/// A framed field followed by exactly `t` more bytes: the field and the tail.
pub open spec fn parse_field_tail(s: Seq<u8>, t: int) -> Option<(Seq<u8>, Seq<u8>)> {
    match take_field(s, 0) {
        Some((a, o)) => if s.len() - o == t {
            Some((a, s.subrange(o, s.len() as int)))
        } else {
            None
        },
        None => None,
    }
}

/// Two framed fields read back as they were written.
pub proof fn lemma_pair_round_trip(a: Seq<u8>, b: Seq<u8>)
    requires
        a.len() < pow256(8),
        b.len() < pow256(8),
    ensures
        parse_pair(framed(a) + framed(b)) == Some((a, b)),
{
    lemma_le_bytes_len(a.len(), 8);
    lemma_le_bytes_len(b.len(), 8);
    let e = Seq::<u8>::empty();
    assert(framed(a) + framed(b) =~= e + framed(a) + framed(b));
    lemma_take_framed(e, a, framed(b));
    assert(framed(a) + framed(b) =~= framed(a) + framed(b) + e);
    lemma_take_framed(framed(a), b, e);
}

/// A framed field and its tail read back as they were written.
pub proof fn lemma_field_tail_round_trip(a: Seq<u8>, tail: Seq<u8>)
    requires
        a.len() < pow256(8),
    ensures
        parse_field_tail(framed(a) + tail, tail.len() as int) == Some((a, tail)),
{
    lemma_le_bytes_len(a.len(), 8);
    let e = Seq::<u8>::empty();
    assert(framed(a) + tail =~= e + framed(a) + tail);
    lemma_take_framed(e, a, tail);
    let s = framed(a) + tail;
    assert(s.subrange((8 + a.len()) as int, s.len() as int) =~= tail);
}

/// Writes two framed fields.
pub fn encode_pair(a: &[u8], b: &[u8]) -> (s: Vec<u8>)
    ensures
        s@ == framed(a@) + framed(b@),
{
    let mut s: Vec<u8> = Vec::new();
    put_field(&mut s, a);
    put_field(&mut s, b);
    assert(s@ =~= framed(a@) + framed(b@));
    s
}

/// Reads two framed fields that make up all of `s`.
pub fn decode_pair(s: &[u8]) -> (r: Option<(Vec<u8>, Vec<u8>)>)
    ensures
        match r {
            Some((a, b)) => parse_pair(s@) == Some((a@, b@)),
            None => parse_pair(s@) is None,
        },
{
    let (a, o) = get_field(s, 0)?;
    let (b, o2) = get_field(s, o)?;
    if o2 != s.len() {
        return None;
    }
    Some((a, b))
}

/// Writes a framed field followed by a tail.
pub fn encode_field_tail(a: &[u8], tail: &[u8]) -> (s: Vec<u8>)
    ensures
        s@ == framed(a@) + tail@,
{
    let mut s: Vec<u8> = Vec::new();
    put_field(&mut s, a);
    s.extend_from_slice(tail);
    assert(s@ =~= framed(a@) + tail@);
    s
}

/// Reads a framed field followed by exactly `t` bytes.
pub fn decode_field_tail(s: &[u8], t: usize) -> (r: Option<(Vec<u8>, Vec<u8>)>)
    ensures
        match r {
            Some((a, tail)) => parse_field_tail(s@, t as int) == Some((a@, tail@)),
            None => parse_field_tail(s@, t as int) is None,
        },
{
    let (a, o) = get_field(s, 0)?;
    if s.len() - o != t {
        return None;
    }
    let tail = slice_range(s, o, s.len());
    Some((a, tail))
}

/// Encoding the value of `b` on `b.len()` bytes gives `b` back.
pub proof fn lemma_le_bytes_le_nat(b: Seq<u8>)
    ensures
        le_bytes(le_nat(b), b.len()) == b,
    decreases b.len(),
{
    if b.len() > 0 {
        let rest = b.drop_first();
        lemma_le_bytes_le_nat(rest);
        let k = le_nat(rest);
        let b0 = b[0] as nat;
        assert((b0 + 256 * k) % 256 == b0 && (b0 + 256 * k) / 256 == k) by (nonlinear_arith)
            requires
                b0 < 256,
        ;
        assert(le_bytes(le_nat(b), b.len()) =~= b);
    }
}

/// A byte string that parses as two framed fields is their concatenation.
pub proof fn lemma_parse_pair_inverse(s: Seq<u8>)
    ensures
        parse_pair(s) matches Some((a, b)) ==> s == framed(a) + framed(b),
{
    if parse_pair(s) is Some {
        let (a, o) = take_field(s, 0)->0;
        let (b, o2) = take_field(s, o)->0;
        lemma_le_bytes_le_nat(s.subrange(0, 8));
        lemma_le_bytes_le_nat(s.subrange(o, o + 8));
        assert(s =~= framed(a) + framed(b));
    }
}

/// A byte string that parses as a framed field and a tail is their
/// concatenation.
pub proof fn lemma_parse_field_tail_inverse(s: Seq<u8>, t: int)
    ensures
        parse_field_tail(s, t) matches Some((a, tail)) ==> s == framed(a) + tail,
{
    if parse_field_tail(s, t) is Some {
        let (a, o) = take_field(s, 0)->0;
        lemma_le_bytes_le_nat(s.subrange(0, 8));
        assert(s =~= framed(a) + s.subrange(o, s.len() as int));
    }
}

/// The concatenation `a ∥ b`.
pub fn concat(a: &[u8], b: &[u8]) -> (r: Vec<u8>)
    ensures
        r@ == a@ + b@,
{
    let mut r: Vec<u8> = Vec::new();
    r.extend_from_slice(a);
    r.extend_from_slice(b);
    assert(r@ =~= a@ + b@);
    r
}

/// A little-endian value is below `256^len`.
pub proof fn lemma_le_nat_bound(b: Seq<u8>)
    ensures
        le_nat(b) < pow256(b.len()),
    decreases b.len(),
{
    if b.len() > 0 {
        lemma_le_nat_bound(b.drop_first());
        let k = le_nat(b.drop_first());
        let p = pow256((b.len() - 1) as nat);
        let b0 = b[0] as nat;
        assert(b0 + 256 * k < 256 * p) by (nonlinear_arith)
            requires
                b0 < 256,
                k < p,
        ;
    }
}

} // verus!
