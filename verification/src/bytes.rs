//! Big-endian integer codec over byte sequences, range splicing, and
//! null-terminated string scanning: the addressing primitives shared by
//! ROM reads, RAM reads and writes, and the string opcodes.

use vstd::prelude::*;
use vstd::pervasive::VecAdditionalExecFns;

verus! {

/// The 16-bit big-endian integer formed by the two bytes at `i`.
pub open spec fn be16_at(b: Seq<u8>, i: int) -> u16 {
    (b[i] * 0x100 + b[i + 1]) as u16
}

/// The 32-bit big-endian integer formed by the four bytes at `i`.
pub open spec fn be32_at(b: Seq<u8>, i: int) -> u32 {
    (b[i] * 0x1000000 + b[i + 1] * 0x10000 + b[i + 2] * 0x100 + b[i + 3]) as u32
}

/// The four bytes of `v`, most significant first.
pub open spec fn be32_bytes(v: u32) -> Seq<u8> {
    seq![
        (v / 0x1000000) as u8,
        ((v / 0x10000) % 0x100) as u8,
        ((v / 0x100) % 0x100) as u8,
        (v % 0x100) as u8,
    ]
}

/// `dst` with the range starting at `at` replaced by `src`; everything
/// else is unchanged. The caller is responsible for `at + src.len()`
/// staying within `dst`.
pub open spec fn splice(dst: Seq<u8>, at: int, src: Seq<u8>) -> Seq<u8> {
    Seq::new(dst.len(), |i: int| if at <= i && i < at + src.len() { src[i - at] } else { dst[i] })
}

/// Writing the four big-endian bytes of `v` and reading them back at the
/// same offset yields `v` again.
pub proof fn lemma_be32_roundtrip(v: u32)
    ensures
        be32_bytes(v).len() == 4,
        be32_at(be32_bytes(v), 0) == v,
{
    assert((v / 0x1000000) * 0x1000000 + ((v / 0x10000) % 0x100) * 0x10000 + ((v / 0x100)
        % 0x100) * 0x100 + (v % 0x100) == v) by (bit_vector);
}

/// Reading four bytes out of a freshly spliced-in big-endian write yields
/// the written value.
pub proof fn lemma_splice_be32(dst: Seq<u8>, at: int, v: u32)
    requires
        0 <= at,
        at + 4 <= dst.len(),
    ensures
        be32_at(splice(dst, at, be32_bytes(v)), at) == v,
        forall|i: int|
            0 <= i < dst.len() && !(at <= i < at + 4) ==> splice(dst, at, be32_bytes(v))[i]
                == dst[i],
{
    lemma_be32_roundtrip(v);
    let s = splice(dst, at, be32_bytes(v));
    assert(s[at] == be32_bytes(v)[0]);
    assert(s[at + 1] == be32_bytes(v)[1]);
    assert(s[at + 2] == be32_bytes(v)[2]);
    assert(s[at + 3] == be32_bytes(v)[3]);
}

/// The offset of the first zero byte at or after `a`, or `b.len()` when
/// no zero byte follows.
pub open spec fn nul_end(b: Seq<u8>, a: int) -> int
    decreases b.len() - a,
{
    if a < 0 || a >= b.len() {
        b.len() as int
    } else if b[a] == 0 {
        a
    } else {
        nul_end(b, a + 1)
    }
}

/// Whether a null terminator exists at or after `a`, within bounds.
pub open spec fn has_nul(b: Seq<u8>, a: int) -> bool {
    nul_end(b, a) < b.len()
}

/// The bytes of the null-terminated string at `a`, terminator excluded.
pub open spec fn cstr(b: Seq<u8>, a: int) -> Seq<u8> {
    b.subrange(a, nul_end(b, a))
}

/// What `nul_end` finds: every byte before it is nonzero, and the byte at
/// it (when in bounds) is the terminator.
pub proof fn lemma_nul_end_props(b: Seq<u8>, a: int)
    requires
        0 <= a <= b.len(),
    ensures
        a <= nul_end(b, a) <= b.len(),
        forall|j: int| a <= j < nul_end(b, a) ==> b[j] != 0,
        nul_end(b, a) < b.len() ==> b[nul_end(b, a)] == 0,
    decreases b.len() - a,
{
    if a < b.len() && b[a] != 0 {
        lemma_nul_end_props(b, a + 1);
    }
}

/// `nul_end` is pinned by its characterization: a run of nonzero bytes
/// followed by a terminator (or the end of the sequence).
pub proof fn lemma_nul_end_is(b: Seq<u8>, a: int, p: int)
    requires
        0 <= a <= p <= b.len(),
        forall|j: int| a <= j < p ==> b[j] != 0,
        p < b.len() ==> b[p] == 0,
    ensures
        nul_end(b, a) == p,
    decreases p - a,
{
    if a == p {
    } else {
        assert(b[a] != 0);
        lemma_nul_end_is(b, a + 1, p);
    }
}

/// Read a 16-bit big-endian integer out of a byte vector.
pub fn be16_read(b: &Vec<u8>, i: usize) -> (r: u16)
    requires
        i + 2 <= b.len(),
    ensures
        r == be16_at(b@, i as int),
{
    (b[i] as u16) * 0x100 + (b[i + 1] as u16)
}

/// Read a 32-bit big-endian integer out of a byte vector.
pub fn be32_read(b: &Vec<u8>, i: usize) -> (r: u32)
    requires
        i + 4 <= b.len(),
    ensures
        r == be32_at(b@, i as int),
{
    (b[i] as u32) * 0x1000000 + (b[i + 1] as u32) * 0x10000 + (b[i + 2] as u32) * 0x100 + (b[i
        + 3] as u32)
}

/// Write the four big-endian bytes of `v` into `b` at offset `i`.
pub fn be32_write(b: &mut Vec<u8>, i: usize, v: u32)
    requires
        i + 4 <= old(b).len(),
    ensures
        final(b)@ == splice(old(b)@, i as int, be32_bytes(v)),
{
    b.set(i, (v / 0x1000000) as u8);
    b.set(i + 1, ((v / 0x10000) % 0x100) as u8);
    b.set(i + 2, ((v / 0x100) % 0x100) as u8);
    b.set(i + 3, (v % 0x100) as u8);
    proof {
        assert(b@ =~= splice(old(b)@, i as int, be32_bytes(v)));
    }
}

} // verus!
