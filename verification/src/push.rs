//! The `Push` trait: anything the builder can append. A pushable value knows
//! its wire image, its size and its alignment; offsets additionally encode
//! relative to the position they are written at.

use vstd::prelude::*;

use crate::endian::{le16, le32, le64, splice, write_u16_at, write_u32_at, write_u64_at};
use crate::primitives::{
    is_alignment, ForwardsUOffset, WIPOffset, FbByteString, FLATBUFFERS_MAX_BUFFER_SIZE,
};

verus! {

/// The unsigned byte carrying the two's-complement bits of an `i8`.
pub open spec fn spec_u8_of_i8(x: i8) -> u8 {
    if x >= 0 {
        x as u8
    } else {
        (x + 256) as u8
    }
}

/// The unsigned value carrying the two's-complement bits of an `i16`.
pub open spec fn spec_u16_of_i16(x: i16) -> u16 {
    if x >= 0 {
        x as u16
    } else {
        (x + 0x10000) as u16
    }
}

/// The unsigned value carrying the two's-complement bits of an `i32`.
pub open spec fn spec_u32_of_i32(x: i32) -> u32 {
    if x >= 0 {
        x as u32
    } else {
        (x + 0x1_0000_0000) as u32
    }
}

/// The unsigned value carrying the two's-complement bits of an `i64`.
pub open spec fn spec_u64_of_i64(x: i64) -> u64 {
    if x >= 0 {
        x as u64
    } else {
        (x + 0x1_0000_0000_0000_0000) as u64
    }
}

/// A value the builder can push: it has a little-endian wire image, a size
/// and a power-of-two alignment.
pub trait Push: Sized {
    type Output;

    /// Wire image of the value, where `pos` is the `used_space` reading taken
    /// immediately after the write (forward offsets encode relative to it).
    spec fn wire(&self, pos: int) -> Seq<u8>;

    /// Byte width of the wire image.
    spec fn spec_size(&self) -> int;

    /// Alignment the wire image asks for.
    spec fn spec_alignment(&self) -> int;

    /// Whether the value may be written with used-space reading `pos`.
    spec fn fits_at(&self, pos: int) -> bool;

    /// Value equality, as `push_slot` compares a value with its default.
    spec fn same(&self, other: &Self) -> bool;

    proof fn wire_wf(&self, pos: int)
        ensures
            self.wire(pos).len() == self.spec_size(),
            self.spec_size() >= 1,
            is_alignment(self.spec_alignment()),
    ;

    fn size(&self) -> (r: usize)
        ensures
            r == self.spec_size(),
    ;

    fn alignment(&self) -> (r: usize)
        ensures
            r == self.spec_alignment(),
    ;

    fn write(&self, buf: &mut Vec<u8>, at: usize)
        requires
            at + self.spec_size() <= old(buf).len(),
            self.fits_at(old(buf).len() - at),
        ensures
            final(buf)@ == splice(old(buf)@, at as int, self.wire(old(buf).len() - at)),
            final(buf).len() == old(buf).len(),
    ;

    fn same_value(&self, other: &Self) -> (r: bool)
        ensures
            r == self.same(other),
    ;
}

/// A pushable value that can be a vector element: its size is a per-type
/// constant and equals its alignment.
pub trait VectorElem: Push {
    /// The per-type element width.
    spec fn spec_elem_size() -> int;

    /// The element width is itself a valid alignment.
    proof fn elem_size_wf()
        ensures
            is_alignment(Self::spec_elem_size()),
            Self::spec_elem_size() >= 1,
    ;

    proof fn elem_wf(&self)
        ensures
            self.spec_size() == Self::spec_elem_size(),
            self.spec_alignment() == Self::spec_elem_size(),
    ;

    fn elem_size() -> (r: usize)
        ensures
            r == Self::spec_elem_size(),
    ;
}

impl Push for u8 {
    type Output = u8;

    open spec fn wire(&self, pos: int) -> Seq<u8> {
        seq![*self]
    }

    open spec fn spec_size(&self) -> int {
        1
    }

    open spec fn spec_alignment(&self) -> int {
        1
    }

    open spec fn fits_at(&self, pos: int) -> bool {
        true
    }

    open spec fn same(&self, other: &Self) -> bool {
        *self == *other
    }

    proof fn wire_wf(&self, pos: int) {
    }

    fn size(&self) -> usize {
        1
    }

    fn alignment(&self) -> usize {
        1
    }

    fn write(&self, buf: &mut Vec<u8>, at: usize) {
        buf[at] = *self;
        proof {
            assert(buf@ =~= splice(old(buf)@, at as int, self.wire(old(buf).len() - at)));
        }
    }

    fn same_value(&self, other: &Self) -> bool {
        *self == *other
    }
}

impl VectorElem for u8 {
    open spec fn spec_elem_size() -> int {
        1
    }

    proof fn elem_size_wf() {
    }

    proof fn elem_wf(&self) {
    }

    fn elem_size() -> usize {
        1
    }
}

impl Push for i8 {
    type Output = i8;

    open spec fn wire(&self, pos: int) -> Seq<u8> {
        seq![spec_u8_of_i8(*self)]
    }

    open spec fn spec_size(&self) -> int {
        1
    }

    open spec fn spec_alignment(&self) -> int {
        1
    }

    open spec fn fits_at(&self, pos: int) -> bool {
        true
    }

    open spec fn same(&self, other: &Self) -> bool {
        *self == *other
    }

    proof fn wire_wf(&self, pos: int) {
    }

    fn size(&self) -> usize {
        1
    }

    fn alignment(&self) -> usize {
        1
    }

    fn write(&self, buf: &mut Vec<u8>, at: usize) {
        let b: u8 = if *self >= 0 {
            *self as u8
        } else {
            ((*self as i32) + 256) as u8
        };
        buf[at] = b;
        proof {
            assert(buf@ =~= splice(old(buf)@, at as int, self.wire(old(buf).len() - at)));
        }
    }

    fn same_value(&self, other: &Self) -> bool {
        *self == *other
    }
}

impl VectorElem for i8 {
    open spec fn spec_elem_size() -> int {
        1
    }

    proof fn elem_size_wf() {
    }

    proof fn elem_wf(&self) {
    }

    fn elem_size() -> usize {
        1
    }
}

impl Push for bool {
    type Output = bool;

    open spec fn wire(&self, pos: int) -> Seq<u8> {
        seq![if *self { 1u8 } else { 0u8 }]
    }

    open spec fn spec_size(&self) -> int {
        1
    }

    open spec fn spec_alignment(&self) -> int {
        1
    }

    open spec fn fits_at(&self, pos: int) -> bool {
        true
    }

    open spec fn same(&self, other: &Self) -> bool {
        *self == *other
    }

    proof fn wire_wf(&self, pos: int) {
    }

    fn size(&self) -> usize {
        1
    }

    fn alignment(&self) -> usize {
        1
    }

    fn write(&self, buf: &mut Vec<u8>, at: usize) {
        buf[at] = if *self { 1u8 } else { 0u8 };
        proof {
            assert(buf@ =~= splice(old(buf)@, at as int, self.wire(old(buf).len() - at)));
        }
    }

    fn same_value(&self, other: &Self) -> bool {
        *self == *other
    }
}

impl VectorElem for bool {
    open spec fn spec_elem_size() -> int {
        1
    }

    proof fn elem_size_wf() {
    }

    proof fn elem_wf(&self) {
    }

    fn elem_size() -> usize {
        1
    }
}

impl Push for u16 {
    type Output = u16;

    open spec fn wire(&self, pos: int) -> Seq<u8> {
        le16(*self)
    }

    open spec fn spec_size(&self) -> int {
        2
    }

    open spec fn spec_alignment(&self) -> int {
        2
    }

    open spec fn fits_at(&self, pos: int) -> bool {
        true
    }

    open spec fn same(&self, other: &Self) -> bool {
        *self == *other
    }

    proof fn wire_wf(&self, pos: int) {
    }

    fn size(&self) -> usize {
        2
    }

    fn alignment(&self) -> usize {
        2
    }

    fn write(&self, buf: &mut Vec<u8>, at: usize) {
        write_u16_at(buf, at, *self);
    }

    fn same_value(&self, other: &Self) -> bool {
        *self == *other
    }
}

impl VectorElem for u16 {
    open spec fn spec_elem_size() -> int {
        2
    }

    proof fn elem_size_wf() {
    }

    proof fn elem_wf(&self) {
    }

    fn elem_size() -> usize {
        2
    }
}

impl Push for i16 {
    type Output = i16;

    open spec fn wire(&self, pos: int) -> Seq<u8> {
        le16(spec_u16_of_i16(*self))
    }

    open spec fn spec_size(&self) -> int {
        2
    }

    open spec fn spec_alignment(&self) -> int {
        2
    }

    open spec fn fits_at(&self, pos: int) -> bool {
        true
    }

    open spec fn same(&self, other: &Self) -> bool {
        *self == *other
    }

    proof fn wire_wf(&self, pos: int) {
    }

    fn size(&self) -> usize {
        2
    }

    fn alignment(&self) -> usize {
        2
    }

    fn write(&self, buf: &mut Vec<u8>, at: usize) {
        let v: u16 = if *self >= 0 {
            *self as u16
        } else {
            ((*self as i32) + 0x10000) as u16
        };
        write_u16_at(buf, at, v);
    }

    fn same_value(&self, other: &Self) -> bool {
        *self == *other
    }
}

impl VectorElem for i16 {
    open spec fn spec_elem_size() -> int {
        2
    }

    proof fn elem_size_wf() {
    }

    proof fn elem_wf(&self) {
    }

    fn elem_size() -> usize {
        2
    }
}

impl Push for u32 {
    type Output = u32;

    open spec fn wire(&self, pos: int) -> Seq<u8> {
        le32(*self)
    }

    open spec fn spec_size(&self) -> int {
        4
    }

    open spec fn spec_alignment(&self) -> int {
        4
    }

    open spec fn fits_at(&self, pos: int) -> bool {
        true
    }

    open spec fn same(&self, other: &Self) -> bool {
        *self == *other
    }

    proof fn wire_wf(&self, pos: int) {
    }

    fn size(&self) -> usize {
        4
    }

    fn alignment(&self) -> usize {
        4
    }

    fn write(&self, buf: &mut Vec<u8>, at: usize) {
        write_u32_at(buf, at, *self);
    }

    fn same_value(&self, other: &Self) -> bool {
        *self == *other
    }
}

impl VectorElem for u32 {
    open spec fn spec_elem_size() -> int {
        4
    }

    proof fn elem_size_wf() {
    }

    proof fn elem_wf(&self) {
    }

    fn elem_size() -> usize {
        4
    }
}

impl Push for i32 {
    type Output = i32;

    open spec fn wire(&self, pos: int) -> Seq<u8> {
        le32(spec_u32_of_i32(*self))
    }

    open spec fn spec_size(&self) -> int {
        4
    }

    open spec fn spec_alignment(&self) -> int {
        4
    }

    open spec fn fits_at(&self, pos: int) -> bool {
        true
    }

    open spec fn same(&self, other: &Self) -> bool {
        *self == *other
    }

    proof fn wire_wf(&self, pos: int) {
    }

    fn size(&self) -> usize {
        4
    }

    fn alignment(&self) -> usize {
        4
    }

    fn write(&self, buf: &mut Vec<u8>, at: usize) {
        let v: u32 = if *self >= 0 {
            *self as u32
        } else {
            ((*self as i64) + 0x1_0000_0000) as u32
        };
        write_u32_at(buf, at, v);
    }

    fn same_value(&self, other: &Self) -> bool {
        *self == *other
    }
}

impl VectorElem for i32 {
    open spec fn spec_elem_size() -> int {
        4
    }

    proof fn elem_size_wf() {
    }

    proof fn elem_wf(&self) {
    }

    fn elem_size() -> usize {
        4
    }
}

impl Push for u64 {
    type Output = u64;

    open spec fn wire(&self, pos: int) -> Seq<u8> {
        le64(*self)
    }

    open spec fn spec_size(&self) -> int {
        8
    }

    open spec fn spec_alignment(&self) -> int {
        8
    }

    open spec fn fits_at(&self, pos: int) -> bool {
        true
    }

    open spec fn same(&self, other: &Self) -> bool {
        *self == *other
    }

    proof fn wire_wf(&self, pos: int) {
    }

    fn size(&self) -> usize {
        8
    }

    fn alignment(&self) -> usize {
        8
    }

    fn write(&self, buf: &mut Vec<u8>, at: usize) {
        write_u64_at(buf, at, *self);
    }

    fn same_value(&self, other: &Self) -> bool {
        *self == *other
    }
}

impl VectorElem for u64 {
    open spec fn spec_elem_size() -> int {
        8
    }

    proof fn elem_size_wf() {
    }

    proof fn elem_wf(&self) {
    }

    fn elem_size() -> usize {
        8
    }
}

impl Push for i64 {
    type Output = i64;

    open spec fn wire(&self, pos: int) -> Seq<u8> {
        le64(spec_u64_of_i64(*self))
    }

    open spec fn spec_size(&self) -> int {
        8
    }

    open spec fn spec_alignment(&self) -> int {
        8
    }

    open spec fn fits_at(&self, pos: int) -> bool {
        true
    }

    open spec fn same(&self, other: &Self) -> bool {
        *self == *other
    }

    proof fn wire_wf(&self, pos: int) {
    }

    fn size(&self) -> usize {
        8
    }

    fn alignment(&self) -> usize {
        8
    }

    fn write(&self, buf: &mut Vec<u8>, at: usize) {
        let v: u64 = if *self >= 0 {
            *self as u64
        } else {
            (((*self as i128) + 0x1_0000_0000_0000_0000) as u64)
        };
        write_u64_at(buf, at, v);
    }

    fn same_value(&self, other: &Self) -> bool {
        *self == *other
    }
}

impl VectorElem for i64 {
    open spec fn spec_elem_size() -> int {
        8
    }

    proof fn elem_size_wf() {
    }

    proof fn elem_wf(&self) {
    }

    fn elem_size() -> usize {
        8
    }
}

impl<T> Push for WIPOffset<T> {
    type Output = ForwardsUOffset<T>;

    open spec fn wire(&self, pos: int) -> Seq<u8> {
        le32((pos - self.spec_value()) as u32)
    }

    open spec fn spec_size(&self) -> int {
        4
    }

    open spec fn spec_alignment(&self) -> int {
        4
    }

    open spec fn fits_at(&self, pos: int) -> bool {
        self.spec_value() <= pos <= u32::MAX
    }

    open spec fn same(&self, other: &Self) -> bool {
        self.spec_value() == other.spec_value()
    }

    proof fn wire_wf(&self, pos: int) {
    }

    fn size(&self) -> usize {
        4
    }

    fn alignment(&self) -> usize {
        4
    }

    fn write(&self, buf: &mut Vec<u8>, at: usize) {
        let pos: usize = buf.len() - at;
        let v: u32 = (pos as u32) - self.value();
        write_u32_at(buf, at, v);
    }

    fn same_value(&self, other: &Self) -> bool {
        self.value() == other.value()
    }
}

impl<T> VectorElem for WIPOffset<T> {
    open spec fn spec_elem_size() -> int {
        4
    }

    proof fn elem_size_wf() {
    }

    proof fn elem_wf(&self) {
    }

    fn elem_size() -> usize {
        4
    }
}

/// Whether two byte slices hold the same bytes.
pub fn bytes_equal(a: &[u8], b: &[u8]) -> (r: bool)
    ensures
        r == (a@ == b@),
{
    if a.len() != b.len() {
        proof {
            assert(a@.len() != b@.len());
        }
        return false;
    }
    let n = a.len();
    let mut i: usize = 0;
    while i < n
        invariant
            0 <= i <= n,
            n == a@.len() == b@.len(),
            forall|j: int| 0 <= j < i ==> a@[j] == b@[j],
        decreases n - i,
    {
        if a[i] != b[i] {
            return false;
        }
        i += 1;
    }
    proof {
        assert(a@ =~= b@);
    }
    true
}

/// A byte slice pushed as `[length: u32][bytes][NUL]`, the wire form of a
/// string; the trailing NUL is not counted in the length.
pub struct ZeroTerminatedByteSlice<'a> {
    data: &'a [u8],
}

impl<'a> ZeroTerminatedByteSlice<'a> {
    /// Slices longer than the maximum buffer size cannot be pushed at all.
    #[verifier::type_invariant]
    pub closed spec fn type_inv(self) -> bool {
        self.data@.len() <= FLATBUFFERS_MAX_BUFFER_SIZE as int
    }

    /// The payload bytes.
    pub closed spec fn spec_data(&self) -> Seq<u8> {
        self.data@
    }

    pub fn new(data: &'a [u8]) -> (r: Self)
        requires
            data@.len() <= FLATBUFFERS_MAX_BUFFER_SIZE as int,
        ensures
            r.spec_data() == data@,
    {
        ZeroTerminatedByteSlice { data }
    }
}

impl<'a> Push for ZeroTerminatedByteSlice<'a> {
    type Output = FbByteString;

    open spec fn wire(&self, pos: int) -> Seq<u8> {
        le32(self.spec_data().len() as u32) + self.spec_data() + seq![0u8]
    }

    open spec fn spec_size(&self) -> int {
        self.spec_data().len() as int + 5
    }

    open spec fn spec_alignment(&self) -> int {
        4
    }

    open spec fn fits_at(&self, pos: int) -> bool {
        true
    }

    open spec fn same(&self, other: &Self) -> bool {
        self.spec_data() == other.spec_data()
    }

    proof fn wire_wf(&self, pos: int) {
    }

    fn size(&self) -> usize {
        proof {
            use_type_invariant(&*self);
        }
        self.data.len() + 5
    }

    fn alignment(&self) -> usize {
        4
    }

    fn write(&self, buf: &mut Vec<u8>, at: usize) {
        proof {
            use_type_invariant(&*self);
        }
        let n = self.data.len();
        write_u32_at(buf, at, n as u32);
        let mut i: usize = 0;
        while i < n
            invariant
                0 <= i <= n,
                n == self.spec_data().len(),
                at + n + 5 <= buf.len(),
                buf.len() == old(buf).len(),
                buf@.subrange(at as int, at + 4) == le32(n as u32),
                forall|j: int| 0 <= j < i ==> buf@[at + 4 + j] == self.spec_data()[j],
                forall|j: int|
                    0 <= j < buf@.len() && !(at <= j < at + 4 + i) ==> buf@[j] == old(buf)@[j],
            decreases n - i,
        {
            let b = self.data[i];
            buf[at + 4 + i] = b;
            proof {
                assert(buf@.subrange(at as int, at + 4) =~= le32(n as u32));
            }
            i += 1;
        }
        buf[at + 4 + n] = 0u8;
        proof {
            assert(buf@.subrange(at as int, at + 4) =~= le32(n as u32));
            assert(buf@ =~= splice(old(buf)@, at as int, self.wire(old(buf).len() - at)));
        }
    }

    fn same_value(&self, other: &Self) -> bool {
        bytes_equal(self.data, other.data)
    }
}

/// A vector element whose in-memory form equals its one-byte wire form, so a
/// whole slice of them can be copied in as a single push.
pub trait SafeSliceAccess: Sized {
    /// The single wire byte of this element.
    spec fn byte_of(&self) -> u8;

    fn to_byte(&self) -> (r: u8)
        ensures
            r == self.byte_of(),
    ;
}

impl SafeSliceAccess for u8 {
    open spec fn byte_of(&self) -> u8 {
        *self
    }

    fn to_byte(&self) -> u8 {
        *self
    }
}

impl SafeSliceAccess for i8 {
    open spec fn byte_of(&self) -> u8 {
        spec_u8_of_i8(*self)
    }

    fn to_byte(&self) -> u8 {
        if *self >= 0 {
            *self as u8
        } else {
            ((*self as i32) + 256) as u8
        }
    }
}

impl SafeSliceAccess for bool {
    open spec fn byte_of(&self) -> u8 {
        if *self {
            1u8
        } else {
            0u8
        }
    }

    fn to_byte(&self) -> u8 {
        if *self {
            1u8
        } else {
            0u8
        }
    }
}

} // verus!
