//! Wire-format constants, phantom-tagged offset handles, and the arithmetic
//! spec functions (padding, buffer growth) that the builder's contracts use.

use vstd::prelude::*;

verus! {

/// Largest buffer the format admits.
pub const FLATBUFFERS_MAX_BUFFER_SIZE: usize = 0x7fffffff;

/// Byte width of an unsigned forward offset.
pub const SIZE_UOFFSET: usize = 4;

/// Byte width of the signed table-to-vtable offset.
pub const SIZE_SOFFSET: usize = 4;

/// Byte width of an offset inside a vtable.
pub const SIZE_VOFFSET: usize = 2;

/// A file identifier is exactly this many bytes.
pub const FILE_IDENTIFIER_LENGTH: usize = 4;

/// Unsigned forward offset.
pub type UOffsetT = u32;

/// Signed table-to-vtable offset.
pub type SOffsetT = i32;

/// Offset inside a vtable.
pub type VOffsetT = u16;

/// The alignments a push may request: powers of two up to 64.
pub open spec fn is_alignment(a: int) -> bool {
    a == 1 || a == 2 || a == 4 || a == 8 || a == 16 || a == 32 || a == 64
}

/// Bytes of padding that bring `total` up to a multiple of `a`.
pub open spec fn spec_padding(total: int, a: int) -> int
    recommends
        a >= 1,
{
    (a - (total % a)) % a
}

/// Compute the padding that writing `len` more bytes onto `buf_size` already
/// written needs, so that the new total is a multiple of `scalar_size`.
pub fn padding_bytes(buf_size: usize, len: usize, scalar_size: usize) -> (r: usize)
    requires
        1 <= scalar_size,
        buf_size + len <= usize::MAX,
    ensures
        r == spec_padding(buf_size + len, scalar_size as int),
        r < scalar_size,
        (buf_size + len + r) % (scalar_size as int) == 0,
{
    let total: usize = buf_size + len;
    let r: usize = (scalar_size - (total % scalar_size)) % scalar_size;
    proof {
        let a = scalar_size as int;
        let t = total as int;
        vstd::arithmetic::div_mod::lemma_mod_bound(t, a);
        vstd::arithmetic::div_mod::lemma_mod_bound(a - (t % a), a);
        if t % a == 0 {
            vstd::arithmetic::div_mod::lemma_mod_self_0(a);
        } else {
            vstd::arithmetic::div_mod::lemma_small_mod((a - (t % a)) as nat, a as nat);
            vstd::arithmetic::div_mod::lemma_add_mod_noop(t, a - (t % a), a);
            vstd::arithmetic::div_mod::lemma_mod_self_0(a);
            vstd::arithmetic::div_mod::lemma_mod_twice(t, a);
            assert((t + (a - (t % a))) % a == ((t % a) + (a - (t % a))) % a);
        }
    }
    r
}

/// The capacity an exhausted buffer of capacity `cap` reaches by doubling
/// until it is at least `need`.
pub open spec fn grown_cap(cap: int, need: int) -> int
    recommends
        0 <= cap,
    decreases (if 0 <= cap < need {
        need - cap
    } else {
        0
    }),
{
    if cap < 0 || cap >= need {
        cap
    } else {
        grown_cap(if cap == 0 { 1 } else { 2 * cap }, need)
    }
}

/// Doubling until `need` is reached lands at or above both `cap` and `need`.
pub proof fn lemma_grown_cap_bounds(cap: int, need: int)
    requires
        0 <= cap,
    ensures
        grown_cap(cap, need) >= cap,
        grown_cap(cap, need) >= need || grown_cap(cap, need) == cap,
        need > cap ==> grown_cap(cap, need) >= need,
    decreases (if 0 <= cap < need {
        need - cap
    } else {
        0
    }),
{
    if cap < need {
        lemma_grown_cap_bounds(if cap == 0 { 1 } else { 2 * cap }, need);
    }
}

/// Growing in two stages is the same as growing once, when the later need is
/// at least the earlier one.
pub proof fn lemma_grown_cap_chain(cap: int, need1: int, need2: int)
    requires
        0 <= cap,
        need1 <= need2,
    ensures
        grown_cap(grown_cap(cap, need1), need2) == grown_cap(cap, need2),
    decreases (if 0 <= cap < need2 {
        need2 - cap
    } else {
        0
    }),
{
    if cap >= need1 {
    } else {
        lemma_grown_cap_chain(if cap == 0 { 1 } else { 2 * cap }, need1, need2);
    }
}

/// Growing for a larger need never lands below growing for a smaller one.
pub proof fn lemma_grown_cap_mono(cap: int, need1: int, need2: int)
    requires
        0 <= cap,
        need1 <= need2,
    ensures
        grown_cap(cap, need1) <= grown_cap(cap, need2),
{
    lemma_grown_cap_chain(cap, need1, need2);
    lemma_grown_cap_bounds(cap, need1);
    lemma_grown_cap_bounds(grown_cap(cap, need1), need2);
}

/// The padding is less than the alignment and completes a multiple of it.
pub proof fn lemma_padding_bounds(total: int, a: int)
    requires
        a >= 1,
        total >= 0,
    ensures
        0 <= spec_padding(total, a) < a,
        (total + spec_padding(total, a)) % a == 0,
{
    let t = total;
    vstd::arithmetic::div_mod::lemma_mod_bound(t, a);
    vstd::arithmetic::div_mod::lemma_mod_bound(a - (t % a), a);
    if t % a == 0 {
        vstd::arithmetic::div_mod::lemma_mod_self_0(a);
    } else {
        vstd::arithmetic::div_mod::lemma_small_mod((a - (t % a)) as nat, a as nat);
        vstd::arithmetic::div_mod::lemma_add_mod_noop(t, a - (t % a), a);
        vstd::arithmetic::div_mod::lemma_mod_self_0(a);
        vstd::arithmetic::div_mod::lemma_mod_twice(t, a);
        assert((t + (a - (t % a))) % a == ((t % a) + (a - (t % a))) % a);
    }
}

/// A multiple of a larger power-of-two alignment is a multiple of a
/// smaller one.
pub proof fn lemma_aligned_weaken(x: int, a: int, b: int)
    requires
        is_alignment(a),
        is_alignment(b),
        a <= b,
        x % b == 0,
    ensures
        x % a == 0,
{
    let k: int = if a == b {
        1
    } else if 2 * a == b {
        2
    } else if 4 * a == b {
        4
    } else if 8 * a == b {
        8
    } else if 16 * a == b {
        16
    } else if 32 * a == b {
        32
    } else {
        64
    };
    assert(b == a * k);
    vstd::arithmetic::div_mod::lemma_mod_mod(x, a, k);
    assert(0int % a == 0) by {
        vstd::arithmetic::div_mod::lemma_small_mod(0nat, a as nat);
    }
}

/// A sequence of `n` zero bytes.
pub open spec fn zero_bytes(n: int) -> Seq<u8> {
    Seq::new(n as nat, |i: int| 0u8)
}

/// A field tracked while a table is under construction: the vtable byte
/// offset `id` and the tail-relative position `off` of the written value.
#[derive(Clone, Copy)]
pub struct FieldLoc {
    pub off: UOffsetT,
    pub id: VOffsetT,
}

/// Tag of a handle to a table whose vtable is not yet written.
pub struct TableUnfinishedWIPOffset;

/// Tag of a handle to a finished table.
pub struct TableFinishedWIPOffset;

/// Tag of a handle to a written vtable.
pub struct VTableWIPOffset;

/// Tag of a handle to a written vector with elements of type `T`.
#[verifier::reject_recursive_types(T)]
pub struct Vector<T> {
    phantom: core::marker::PhantomData<T>,
}

/// Tag of a 4-byte forward offset pointing at a `T`.
#[verifier::reject_recursive_types(T)]
pub struct ForwardsUOffset<T> {
    phantom: core::marker::PhantomData<T>,
}

/// Tag of a handle to a written utf8 string.
pub struct FbString;

/// Tag of a handle to a written zero-terminated byte string.
pub struct FbByteString;

/// A handle to something already written: the `used_space` reading taken
/// immediately after the referent's bytes were written, tagged by what it
/// points to.
#[verifier::reject_recursive_types(T)]
pub struct WIPOffset<T> {
    value: UOffsetT,
    phantom: core::marker::PhantomData<T>,
}

impl<T> Clone for WIPOffset<T> {
    fn clone(&self) -> (r: Self)
        ensures
            r.spec_value() == self.spec_value(),
    {
        WIPOffset { value: self.value, phantom: core::marker::PhantomData }
    }
}

impl<T> Copy for WIPOffset<T> {

}

impl<T> WIPOffset<T> {
    /// The tail-relative distance this handle stands for.
    pub closed spec fn spec_value(&self) -> UOffsetT {
        self.value
    }

    /// Wrap a tail-relative distance as a handle.
    pub fn new(value: UOffsetT) -> (r: Self)
        ensures
            r.spec_value() == value,
    {
        WIPOffset { value, phantom: core::marker::PhantomData }
    }

    /// The tail-relative distance this handle stands for.
    pub fn value(&self) -> (r: UOffsetT)
        ensures
            r == self.spec_value(),
    {
        self.value
    }
}

} // verus!
