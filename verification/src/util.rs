//! Small arithmetic and byte helpers shared by the allocators and the
//! namespace code.
use vstd::prelude::*;
use vstd::string::StringSliceAdditionalSpecFns;

verus! {

/// `x` is a power of two (exactly one bit set).
pub open spec fn is_pow2_u64(x: u64) -> bool {
    x != 0 && x & ((x - 1) as u64) == 0
}

pub open spec fn is_pow2_u32(x: u32) -> bool {
    x != 0 && x & ((x - 1) as u32) == 0
}

pub fn is_power_of_two_u64(x: u64) -> (r: bool)
    ensures
        r == is_pow2_u64(x),
{
    x != 0 && x & (x - 1) == 0
}

pub fn is_power_of_two_u32(x: u32) -> (r: bool)
    ensures
        r == is_pow2_u32(x),
{
    x != 0 && x & (x - 1) == 0
}

/// The page size is a power of two.
pub proof fn lemma_page_size_pow2()
    ensures
        is_pow2_u64(4096u64),
{
    assert(is_pow2_u64(4096u64)) by (bit_vector);
}

/// `v` rounded up to the next multiple of `a`.
pub open spec fn spec_align_up(v: int, a: int) -> int {
    (v + a - 1) / a * a
}

/// The rounded-up value is the least multiple of `a` that is at least `v`.
pub proof fn lemma_align_up(v: int, a: int)
    requires
        a > 0,
        v >= 0,
    ensures
        spec_align_up(v, a) % a == 0,
        spec_align_up(v, a) >= v,
        spec_align_up(v, a) < v + a,
        v % a == 0 ==> spec_align_up(v, a) == v,
        spec_align_up(v, a) >= 0,
{
    let w = v + a - 1;
    let q = w / a;
    vstd::arithmetic::div_mod::lemma_fundamental_div_mod(w, a);
    vstd::arithmetic::div_mod::lemma_mod_bound(w, a);
    vstd::arithmetic::div_mod::lemma_mod_multiples_basic(q, a);
    assert(q * a == w - w % a) by (nonlinear_arith)
        requires
            w == a * q + w % a,
    ;
    assert(q >= 0) by (nonlinear_arith)
        requires
            w >= 0,
            a > 0,
            q == w / a,
    ;
    if v % a == 0 {
        vstd::arithmetic::div_mod::lemma_fundamental_div_mod(v, a);
        let qv = v / a;
        vstd::arithmetic::div_mod::lemma_fundamental_div_mod_converse(w, a, qv, a - 1);
        assert(q * a == v) by (nonlinear_arith)
            requires
                q == qv,
                v == a * qv + 0,
        ;
    }
}

/// The bytes of two strings agree exactly when the strings do.
pub proof fn lemma_str_bytes_eq(a: &str, b: &str)
    ensures
        (a.spec_bytes() == b.spec_bytes()) == (a@ == b@),
{
    vstd::utf8::encode_utf8_decode_utf8(a@);
    vstd::utf8::encode_utf8_decode_utf8(b@);
}

/// String equality by bytes.
pub fn str_eq(a: &str, b: &str) -> (r: bool)
    ensures
        r == (a@ == b@),
{
    proof {
        lemma_str_bytes_eq(a, b);
    }
    bytes_eq(a.as_bytes(), b.as_bytes())
}

/// Byte-slice equality.
pub fn bytes_eq(a: &[u8], b: &[u8]) -> (r: bool)
    ensures
        r == (a@ == b@),
{
    if a.len() != b.len() {
        return false;
    }
    let mut i: usize = 0;
    while i < a.len()
        invariant
            a@.len() == b@.len(),
            0 <= i <= a@.len(),
            forall|j: int| 0 <= j < i ==> a@[j] == b@[j],
        decreases a@.len() - i,
    {
        if a[i] != b[i] {
            return false;
        }
        i = i + 1;
    }
    assert(a@ =~= b@);
    true
}

/// Filtering one more element of a prefix either appends it or leaves the
/// filtered prefix unchanged.
pub proof fn lemma_filter_prefix_step<A>(s: Seq<A>, j: int, pred: spec_fn(A) -> bool)
    requires
        0 <= j < s.len(),
    ensures
        s.subrange(0, j + 1).filter(pred) == (if pred(s[j]) {
            s.subrange(0, j).filter(pred).push(s[j])
        } else {
            s.subrange(0, j).filter(pred)
        }),
{
    reveal(Seq::filter);
    assert(s.subrange(0, j + 1).drop_last() =~= s.subrange(0, j));
}


/// Bit facts the signal and poll laws rest on: clearing bit `i` of `p`
/// leaves every other bit as it was and bit `i` clear; and which of the
/// poll bits 1 (in), 4 (out) and 8 (error) the possible answers hold.
pub proof fn lemma_bit_facts(p: u32, i: u32, j: u32)
    by (bit_vector)
    ensures
        i < 31 && j < 32 ==> ((((p & !(1u32 << i)) >> j) & 1u32 == 1u32) <==> (((p >> j) & 1u32 == 1u32) && j != i)),
        0i16 & 1i16 == 0i16 && 1i16 & 1i16 != 0i16 && 4i16 & 1i16 == 0i16 && 5i16 & 1i16 != 0i16,
        0i16 & 4i16 == 0i16 && 1i16 & 4i16 == 0i16 && 4i16 & 4i16 != 0i16 && 5i16 & 4i16 != 0i16,
        0i16 & 8i16 == 0i16 && 1i16 & 8i16 == 0i16 && 4i16 & 8i16 == 0i16 && 5i16 & 8i16 == 0i16,
        8i16 & 1i16 == 0i16 && 8i16 & 4i16 == 0i16 && 8i16 & 8i16 != 0i16,
{
}

} // verus!
