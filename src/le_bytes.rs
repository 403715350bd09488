//! Little-endian encoding of unsigned integers into byte windows.
use byteorder::ByteOrder;
use byteorder::LittleEndian;
use vstd::prelude::*;

verus! {

/// 256 to the power `n`.
pub open spec fn pow256(n: nat) -> nat
    decreases n,
{
    if n == 0 {
        1
    } else {
        256 * pow256((n - 1) as nat)
    }
}

/// The value of a byte string read as a little-endian unsigned integer.
pub open spec fn le_nat(s: Seq<u8>) -> nat
    decreases s.len(),
{
    if s.len() == 0 {
        0
    } else {
        s[0] as nat + 256 * le_nat(s.drop_first())
    }
}

/// The `w` low-order bytes of `v`, least significant first.
pub open spec fn le_bytes(v: nat, w: nat) -> Seq<u8>
    decreases w,
{
    if w == 0 {
        Seq::empty()
    } else {
        seq![(v % 256) as u8] + le_bytes(v / 256, (w - 1) as nat)
    }
}

/// Relies on byteorder's `LittleEndian::read_u64`: the first eight bytes of
/// `buf`, least significant first.
#[verifier::external_body]
pub(crate) fn read_u64_le(buf: &[u8]) -> (r: u64)
    requires
        buf@.len() >= 8,
    ensures
        r as nat == le_nat(buf@.subrange(0, 8)),
{
    LittleEndian::read_u64(buf)
}

/// Relies on byteorder's `LittleEndian::write_u64`: stores the eight bytes
/// of `n`, least significant first.
#[verifier::external_body]
pub(crate) fn write_u64_le(n: u64) -> (r: [u8; 8])
    ensures
        r@ == le_bytes(n as nat, 8),
{
    let mut buf = [0u8; 8];
    LittleEndian::write_u64(&mut buf, n);
    buf
}

/// `s` with the bytes from `pos` on replaced by `t`.
pub open spec fn splice(s: Seq<u8>, pos: int, t: Seq<u8>) -> Seq<u8> {
    s.subrange(0, pos) + t + s.subrange(pos + t.len(), s.len() as int)
}

pub proof fn lemma_pow256_positive(n: nat)
    ensures
        pow256(n) > 0,
    decreases n,
{
    if n > 0 {
        lemma_pow256_positive((n - 1) as nat);
    }
}

pub proof fn lemma_le_bytes_len(v: nat, w: nat)
    ensures
        le_bytes(v, w).len() == w,
    decreases w,
{
    if w > 0 {
        lemma_le_bytes_len(v / 256, (w - 1) as nat);
    }
}

pub proof fn lemma_le_nat_bound(s: Seq<u8>)
    ensures
        le_nat(s) < pow256(s.len()),
    decreases s.len(),
{
    if s.len() > 0 {
        lemma_le_nat_bound(s.drop_first());
        let r = le_nat(s.drop_first());
        let p = pow256((s.len() - 1) as nat);
        assert(s[0] as nat + 256 * r < 256 * p) by (nonlinear_arith)
            requires
                r < p,
                s[0] < 256,
        ;
    }
}

/// Concatenation: the bytes of `b` count above those of `a`.
pub proof fn lemma_le_nat_append(a: Seq<u8>, b: Seq<u8>)
    ensures
        le_nat(a + b) == le_nat(a) + pow256(a.len()) * le_nat(b),
    decreases a.len(),
{
    if a.len() > 0 {
        lemma_le_nat_append(a.drop_first(), b);
        assert((a + b).drop_first() =~= a.drop_first() + b);
        let x = le_nat(a.drop_first());
        let p = pow256((a.len() - 1) as nat);
        let y = le_nat(b);
        assert(pow256(a.len()) == 256 * p);
        assert((a + b)[0] == a[0]);
        assert(le_nat(a + b) == a[0] as nat + 256 * le_nat((a + b).drop_first()));
        assert(le_nat(a) == a[0] as nat + 256 * x);
        assert(256 * (x + p * y) == 256 * x + (256 * p) * y) by (nonlinear_arith);
    } else {
        assert(a + b =~= b);
        assert(pow256(0) == 1);
    }
}

pub proof fn lemma_le_nat_zeros(s: Seq<u8>)
    requires
        forall|i: int| 0 <= i < s.len() ==> s[i] == 0,
    ensures
        le_nat(s) == 0,
    decreases s.len(),
{
    if s.len() > 0 {
        lemma_le_nat_zeros(s.drop_first());
    }
}

/// Writing `w` bytes of `v` and reading them back gives `v` modulo `256^w`.
pub proof fn lemma_le_round_trip(v: nat, w: nat)
    ensures
        le_nat(le_bytes(v, w)) == v % pow256(w),
    decreases w,
{
    if w == 0 {
        assert(le_bytes(v, w) =~= Seq::<u8>::empty());
    } else {
        let t = le_bytes(v, w);
        lemma_le_round_trip(v / 256, (w - 1) as nat);
        assert(t.drop_first() =~= le_bytes(v / 256, (w - 1) as nat));
        let p = pow256((w - 1) as nat);
        lemma_pow256_positive((w - 1) as nat);
        assert((v % 256) + 256 * ((v / 256) % p) == v % (256 * p)) by (nonlinear_arith)
            requires
                p > 0,
        {
            vstd::arithmetic::div_mod::lemma_breakdown(v as int, 256, p as int);
        }
    }
}

/// The first `k` of `w` bytes of `v` are the `k`-byte encoding of `v`.
pub proof fn lemma_le_bytes_prefix(v: nat, w: nat, k: nat)
    requires
        k <= w,
    ensures
        le_bytes(v, w).subrange(0, k as int) == le_bytes(v, k),
    decreases k,
{
    lemma_le_bytes_len(v, w);
    lemma_le_bytes_len(v, k);
    if k > 0 {
        lemma_le_bytes_prefix(v / 256, (w - 1) as nat, (k - 1) as nat);
        assert(le_bytes(v, w).subrange(0, k as int) =~= seq![(v % 256) as u8] + le_bytes(
            v / 256,
            (w - 1) as nat,
        ).subrange(0, k - 1));
    } else {
        assert(le_bytes(v, w).subrange(0, 0) =~= le_bytes(v, 0));
    }
}

/// Reads the `w`-byte little-endian integer at `pos`.
pub fn read_le(data: &[u8], pos: usize, w: usize) -> (r: u64)
    requires
        1 <= w <= 8,
        pos + w <= data@.len(),
    ensures
        r as nat == le_nat(data@.subrange(pos as int, pos + w)),
{
    let mut buf = [0u8; 8];
    let mut i: usize = 0;
    while i < w
        invariant
            i <= w <= 8,
            pos + w <= data@.len(),
            data@.len() == data.len(),
            buf@.len() == 8,
            buf@.subrange(0, i as int) == data@.subrange(pos as int, pos + i),
            forall|j: int| i <= j < 8 ==> buf@[j] == 0,
        decreases w - i,
    {
        buf[i] = data[pos + i];
        i = i + 1;
        assert(buf@.subrange(0, i as int) =~= data@.subrange(pos as int, pos + i));
    }
    let r = read_u64_le(&buf);
    proof {
        let field = data@.subrange(pos as int, pos + w);
        let rest = buf@.subrange(w as int, 8);
        assert(buf@.subrange(0, 8) =~= field + rest);
        lemma_le_nat_append(field, rest);
        lemma_le_nat_zeros(rest);
    }
    r
}

/// Writes the `w` low-order bytes of `v` at `pos`, least significant first.
pub fn write_le(data: &mut [u8], pos: usize, w: usize, v: u64)
    requires
        1 <= w <= 8,
        pos + w <= old(data)@.len(),
    ensures
        final(data)@ == splice(old(data)@, pos as int, le_bytes(v as nat, w as nat)),
{
    let bytes = write_u64_le(v);
    proof {
        lemma_le_bytes_len(v as nat, 8);
        lemma_le_bytes_len(v as nat, w as nat);
        lemma_le_bytes_prefix(v as nat, 8, w as nat);
    }
    let ghost enc = le_bytes(v as nat, w as nat);
    let mut i: usize = 0;
    while i < w
        invariant
            i <= w <= 8,
            pos + w <= data@.len(),
            data@.len() == data.len(),
            data@.len() == old(data)@.len(),
            enc.len() == w,
            bytes@.subrange(0, w as int) == enc,
            forall|j: int| 0 <= j < data@.len() && !(pos <= j < pos + i) ==> data@[j] == old(data)@[j],
            forall|j: int| 0 <= j < i ==> data@[pos + j] == enc[j],
        decreases w - i,
    {
        assert(bytes@[i as int] == bytes@.subrange(0, w as int)[i as int]);
        data[pos + i] = bytes[i];
        i = i + 1;
    }
    assert(data@ =~= splice(old(data)@, pos as int, enc));
}

} // verus!
