//! A 48-bit unsigned integer stored as six little-endian bytes: the width
//! of every page reference and counter on disk.
use crate::le_bytes::{
    le_bytes, le_nat, lemma_le_bytes_len, lemma_le_bytes_prefix, lemma_le_nat_bound,
    lemma_le_round_trip, pow256, read_le, write_u64_le,
};
use vstd::prelude::*;
use vstd::string::StringExecFns;

verus! {

/// One more than the largest value a `U48` holds: `2^48`.
pub open spec fn u48_limit() -> nat {
    0x1_0000_0000_0000
}

pub proof fn lemma_pow256_six()
    ensures
        pow256(6) == u48_limit(),
{
    reveal_with_fuel(pow256, 7);
}

#[derive(Copy, Clone)]
pub struct U48(pub [u8; 6]);

impl PartialEq for U48 {
    fn eq(&self, other: &U48) -> (r: bool) {
        let mut i: usize = 0;
        while i < 6
            invariant
                i <= 6,
                forall|j: int| 0 <= j < i ==> self.0@[j] == other.0@[j],
            decreases 6 - i,
        {
            if self.0[i] != other.0[i] {
                return false;
            }
            i = i + 1;
        }
        assert(self.0@ =~= other.0@);
        true
    }
}

impl vstd::std_specs::cmp::PartialEqSpecImpl for U48 {
    open spec fn obeys_eq_spec() -> bool {
        true
    }

    open spec fn eq_spec(&self, other: &U48) -> bool {
        self.0@ == other.0@
    }
}

impl View for U48 {
    type V = nat;

    /// The number the six bytes encode.
    open spec fn view(&self) -> nat {
        le_nat(self.0@)
    }
}

impl Default for U48 {
    fn default() -> (r: Self)
        ensures
            r@ == 0,
    {
        let r = U48([0u8; 6]);
        proof {
            crate::le_bytes::lemma_le_nat_zeros(r.0@);
        }
        r
    }
}

impl From<[u8; 6]> for U48 {
    fn from(arr: [u8; 6]) -> (r: Self) {
        U48(arr)
    }
}

impl vstd::std_specs::convert::FromSpecImpl<[u8; 6]> for U48 {
    open spec fn obeys_from_spec() -> bool {
        true
    }

    open spec fn from_spec(v: [u8; 6]) -> U48 {
        U48(v)
    }
}

impl From<U48> for [u8; 6] {
    fn from(six_bytes: U48) -> (r: Self) {
        six_bytes.0
    }
}

impl vstd::std_specs::convert::FromSpecImpl<U48> for [u8; 6] {
    open spec fn obeys_from_spec() -> bool {
        true
    }

    open spec fn from_spec(v: U48) -> [u8; 6] {
        v.0
    }
}

impl From<U48> for u64 {
    fn from(six_bytes: U48) -> (r: Self) {
        six_bytes.to_u64()
    }
}

impl vstd::std_specs::convert::FromSpecImpl<U48> for u64 {
    open spec fn obeys_from_spec() -> bool {
        true
    }

    open spec fn from_spec(v: U48) -> u64 {
        v@ as u64
    }
}

impl U48 {
    pub const MAX: u64 = 0xFFFF_FFFF_FFFF;

    pub proof fn lemma_bound(self)
        ensures
            self@ < u48_limit(),
    {
        lemma_le_nat_bound(self.0@);
        lemma_pow256_six();
    }

    pub fn from_bytes(bytes: [u8; 6]) -> (r: Self)
        ensures
            r.0@ == bytes@,
    {
        U48(bytes)
    }

    /// The six bytes `bytes[start..end]`; the range must be exactly six
    /// bytes long and lie inside `bytes`.
    pub fn from_bytes_range(bytes: &[u8], start: usize, end: usize) -> (r: Self)
        requires
            start <= end <= bytes@.len(),
            end - start == 6,
        ensures
            r.0@ == bytes@.subrange(start as int, end as int),
    {
        let mut out = [0u8; 6];
        let mut i: usize = 0;
        while i < 6
            invariant
                i <= 6,
                start + 6 == end <= bytes@.len(),
                forall|j: int| 0 <= j < i ==> out@[j] == bytes@[start + j],
            decreases 6 - i,
        {
            out[i] = bytes[start + i];
            i = i + 1;
        }
        assert(out@ =~= bytes@.subrange(start as int, end as int));
        U48(out)
    }

    /// The `U48` holding `num`, or an error when `num` needs more than 48 bits.
    pub fn try_from_u64(num: u64) -> (r: Result<U48, &'static str>)
        ensures
            r is Ok <==> num <= Self::MAX,
            r is Ok ==> r->Ok_0@ == num,
            r is Err ==> r->Err_0@ == "The number is too large for U48."@,
    {
        if num > Self::MAX {
            Err("The number is too large for U48.")
        } else {
            let enc = write_u64_le(num);
            let mut out = [0u8; 6];
            let mut i: usize = 0;
            while i < 6
                invariant
                    i <= 6,
                    enc@.len() == 8,
                    forall|j: int| 0 <= j < i ==> out@[j] == enc@[j],
                decreases 6 - i,
            {
                out[i] = enc[i];
                i = i + 1;
            }
            proof {
                lemma_le_bytes_len(num as nat, 8);
                lemma_le_bytes_prefix(num as nat, 8, 6);
                assert(out@ =~= le_bytes(num as nat, 6));
                lemma_le_round_trip(num as nat, 6);
                lemma_pow256_six();
                assert((num as nat) % u48_limit() == num as nat);
            }
            Ok(U48(out))
        }
    }

    /// The six bytes of `slice`, which must be exactly six bytes long.
    pub fn copy_slice_to_u48(slice: &[u8]) -> (r: U48)
        requires
            slice@.len() == 6,
        ensures
            r.0@ == slice@,
    {
        let r = Self::from_bytes_range(slice, 0, 6);
        assert(slice@.subrange(0, 6) =~= slice@);
        r
    }

    pub fn to_bytes(&self) -> (r: &[u8; 6])
        ensures
            r@ == self.0@,
    {
        &self.0
    }

    pub fn to_u64(&self) -> (r: u64)
        ensures
            r == self@,
            r <= Self::MAX,
    {
        let r = read_le(&self.0, 0, 6);
        assert(self.0@.subrange(0, 6) =~= self.0@);
        proof {
            self.lemma_bound();
        }
        r
    }

    pub fn to_usize(&self) -> (r: usize)
        requires
            self@ <= usize::MAX,
        ensures
            r == self@,
    {
        self.to_u64() as usize
    }
}

/// The lowercase hexadecimal digit `d`.
pub open spec fn hex_char(d: nat) -> char {
    if d < 10 {
        ((d + 48) as u8) as char
    } else {
        ((d + 87) as u8) as char
    }
}

/// The last `k` hexadecimal digits of `n`, most significant first.
pub open spec fn hex_digits(n: nat, k: nat) -> Seq<char>
    decreases k,
{
    if k == 0 {
        Seq::empty()
    } else {
        hex_digits(n / 16, (k - 1) as nat) + seq![hex_char(n % 16)]
    }
}

fn hex_str(d: u64) -> (r: &'static str)
    requires
        d < 16,
    ensures
        r@ == seq![hex_char(d as nat)],
{
    proof {
        reveal_strlit("0");
        reveal_strlit("1");
        reveal_strlit("2");
        reveal_strlit("3");
        reveal_strlit("4");
        reveal_strlit("5");
        reveal_strlit("6");
        reveal_strlit("7");
        reveal_strlit("8");
        reveal_strlit("9");
        reveal_strlit("a");
        reveal_strlit("b");
        reveal_strlit("c");
        reveal_strlit("d");
        reveal_strlit("e");
        reveal_strlit("f");
    }
    match d {
        0 => "0",
        1 => "1",
        2 => "2",
        3 => "3",
        4 => "4",
        5 => "5",
        6 => "6",
        7 => "7",
        8 => "8",
        9 => "9",
        10 => "a",
        11 => "b",
        12 => "c",
        13 => "d",
        14 => "e",
        _ => "f",
    }
}

/// Appends the last `k` hexadecimal digits of `n`.
fn push_hex(s: &mut String, n: u64, k: u64)
    ensures
        final(s)@ == old(s)@ + hex_digits(n as nat, k as nat),
    decreases k,
{
    if k > 0 {
        push_hex(s, n / 16, k - 1);
        s.append(hex_str(n % 16));
        assert(final(s)@ =~= old(s)@ + hex_digits(n as nat, k as nat));
    } else {
        assert(final(s)@ =~= old(s)@ + hex_digits(n as nat, k as nat));
    }
}

impl U48 {
    /// The value as `0x` and twelve lowercase hexadecimal digits.
    pub fn debug_string(&self) -> (r: String)
        ensures
            r@ == "0x"@ + hex_digits(self@, 12),
    {
        let mut s = String::from_str("0x");
        push_hex(&mut s, self.to_u64(), 12);
        s
    }
}

/// Writing a value below `2^48` into a `U48` and reading it back gives the value.
pub proof fn lemma_u48_round_trip(x: nat)
    requires
        x < u48_limit(),
    ensures
        le_nat(le_bytes(x, 6)) == x,
{
    lemma_le_round_trip(x, 6);
    lemma_pow256_six();
}

} // verus!
