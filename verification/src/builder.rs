//! The builder: a back-filling arena over an owned byte buffer, the
//! nested/finished state machine, table and vector construction, vtable
//! deduplication, and the finalize protocol.

use vstd::prelude::*;

use vstd::string::StringSliceAdditionalSpecFns;

use crate::endian::{
    read_u16_at,
    le16, le32, lemma_le32_roundtrip, read_u32_at, splice, u16_of_le, u32_of_le, write_u32_at,
};
use crate::primitives::{
    grown_cap, is_alignment, lemma_aligned_weaken, lemma_grown_cap_bounds, lemma_grown_cap_chain,
    padding_bytes, spec_padding, zero_bytes, FbByteString, FbString, FieldLoc,
    TableFinishedWIPOffset, TableUnfinishedWIPOffset, UOffsetT, VOffsetT, VTableWIPOffset, Vector,
    WIPOffset, FILE_IDENTIFIER_LENGTH, FLATBUFFERS_MAX_BUFFER_SIZE, SIZE_UOFFSET,
};
use crate::push::{Push, SafeSliceAccess, VectorElem, ZeroTerminatedByteSlice};
use crate::vtable::{
    lemma_vt_stable, max_id_of, spec_vtable, spec_vtable_len, vt_bytes_at, vt_len_at,
    vt_regions_equal, vt_spec_header_lemma, vt_spec_len_lemma, vtable_ok, write_vtable_region,
};

verus! {

/// Tracked fields are well formed: ids are even vtable byte offsets of at
/// least 4 that leave the vtable length within 16 bits, written offsets lie
/// inside the written data, and no id occurs twice.
pub open spec fn fields_wf(fs: Seq<FieldLoc>, used: int) -> bool {
    &&& forall|i: int|
        0 <= i < fs.len() ==> {
            &&& 4 <= (#[trigger] fs[i]).id
            &&& fs[i].id % 2 == 0
            &&& fs[i].id <= 0xfffc
            &&& fs[i].off as int <= used
        }
    &&& forall|j: int, k: int| 0 <= j < k < fs.len() ==> fs[j].id != fs[k].id
}

/// Every recorded vtable position points at a well-formed vtable region.
pub open spec fn vtables_wf(bytes: Seq<u8>, vts: Seq<u32>) -> bool {
    forall|i: int| 0 <= i < vts.len() ==> vtable_ok(bytes, (#[trigger] vts[i]) as int)
}

/// The index in `vts` of the newest entry whose vtable region equals `vt`,
/// or -1 when none does.
pub open spec fn last_match(bytes: Seq<u8>, vts: Seq<u32>, vt: Seq<u8>) -> int
    decreases vts.len(),
{
    if vts.len() == 0 {
        -1
    } else if vt_bytes_at(bytes, vts.last() as int) == vt {
        vts.len() - 1
    } else {
        last_match(bytes, vts.drop_last(), vt)
    }
}

/// `last_match` is an index into the list, or -1.
pub proof fn lemma_last_match_range(bytes: Seq<u8>, vts: Seq<u32>, vt: Seq<u8>)
    ensures
        -1 <= last_match(bytes, vts, vt) < vts.len(),
    decreases vts.len(),
{
    if vts.len() > 0 {
        lemma_last_match_range(bytes, vts.drop_last(), vt);
    }
}

/// A scan that found no match identifies `last_match` as absent.
pub proof fn lemma_last_match_none(bytes: Seq<u8>, vts: Seq<u32>, vt: Seq<u8>)
    requires
        forall|j: int| 0 <= j < vts.len() ==> vt_bytes_at(bytes, (#[trigger] vts[j]) as int) != vt,
    ensures
        last_match(bytes, vts, vt) == -1,
    decreases vts.len(),
{
    if vts.len() > 0 {
        lemma_last_match_none(bytes, vts.drop_last(), vt);
    }
}

/// A newest-first scan that stops at a match identifies `last_match`.
pub proof fn lemma_last_match_found(bytes: Seq<u8>, vts: Seq<u32>, vt: Seq<u8>, i: int)
    requires
        0 <= i < vts.len(),
        vt_bytes_at(bytes, vts[i] as int) == vt,
        forall|j: int| i < j < vts.len() ==> vt_bytes_at(bytes, (#[trigger] vts[j]) as int) != vt,
    ensures
        last_match(bytes, vts, vt) == i,
    decreases vts.len(),
{
    if i == vts.len() - 1 {
    } else {
        assert(vts.drop_last()[i] == vts[i]);
        lemma_last_match_found(bytes, vts.drop_last(), vt, i);
    }
}

/// The tail-relative position a table started at used-space `used` gets for
/// its start (its soffset word): align to 4, then 4 more bytes.
pub open spec fn table_start_pos(used: int) -> int {
    used + spec_padding(used + 4, 4) + 4
}

/// The two's-complement 32-bit image of a signed offset.
pub open spec fn soffset_u32(d: int) -> u32
    recommends
        -0x8000_0000 <= d < 0x8000_0000,
{
    if d >= 0 {
        d as u32
    } else {
        (d + 0x1_0000_0000) as u32
    }
}

/// The larger of two integers.
pub open spec fn spec_max(a: int, b: int) -> int {
    if a >= b {
        a
    } else {
        b
    }
}

/// The wire image of a string or byte string: length prefix, payload, NUL.
pub open spec fn string_wire(s: Seq<u8>) -> Seq<u8> {
    le32(s.len() as u32) + s + seq![0u8]
}

/// Bytes an identifier contributes to the finish headers.
pub open spec fn ident_len(has: bool) -> int {
    if has {
        4int
    } else {
        0int
    }
}

/// Total size of the headers `finish` pushes: root offset, optional size
/// prefix, optional file identifier.
pub open spec fn finish_header_len(has_ident: bool, sp: bool) -> int {
    4 + ident_len(has_ident) + (if sp {
        4int
    } else {
        0int
    })
}

/// The used-space reading after `finish` runs on `u0` written bytes with
/// strictest alignment `ma`.
pub open spec fn finish_space(u0: int, ma: int, has_ident: bool, sp: bool) -> int {
    let p = finish_header_len(has_ident, sp);
    let pad1 = spec_padding(u0 + p, ma);
    let u1 = u0 + pad1 + ident_len(has_ident);
    let pad2 = spec_padding(u1 + 4, 4);
    u1 + pad2 + 4 + (if sp {
        4int
    } else {
        0int
    })
}

/// The finished buffer: optional size prefix, root forward offset, optional
/// identifier, then the aligned body.
pub open spec fn finish_image(
    bytes0: Seq<u8>,
    ma: int,
    root: int,
    ident: Option<Seq<u8>>,
    sp: bool,
) -> Seq<u8> {
    let u0 = bytes0.len() as int;
    let p = finish_header_len(ident.is_some(), sp);
    let pad1 = spec_padding(u0 + p, ma);
    let u1 = u0 + pad1 + ident_len(ident.is_some());
    let pad2 = spec_padding(u1 + 4, 4);
    let u2 = u1 + pad2 + 4;
    let sp_part = if sp {
        le32(u2 as u32)
    } else {
        Seq::<u8>::empty()
    };
    let ident_part = match ident {
        Option::Some(b) => b,
        Option::None => Seq::<u8>::empty(),
    };
    sp_part + le32((u2 - root) as u32) + zero_bytes(pad2) + ident_part + zero_bytes(pad1) + bytes0
}

/// What a builder must satisfy for `finish` to run.
pub open spec fn finish_pre(pre: FlatBufferBuilder, root: int, has_ident: bool, sp: bool) -> bool {
    &&& pre.wf()
    &&& !pre.is_finished()
    &&& !pre.is_nested()
    &&& 0 <= root <= pre.used()
    &&& grown_cap(
        pre.capacity(),
        finish_space(pre.used(), pre.min_alignment(), has_ident, sp),
    ) <= FLATBUFFERS_MAX_BUFFER_SIZE as int
}

/// What `finish` leaves behind: the finished image, a cleared vtable list,
/// and a total size aligned to the strictest alignment used.
pub open spec fn finish_post(
    pre: FlatBufferBuilder,
    post: FlatBufferBuilder,
    root: int,
    ident: Option<Seq<u8>>,
    sp: bool,
) -> bool {
    &&& post.wf()
    &&& post.is_finished()
    &&& !post.is_nested()
    &&& post.vtables().len() == 0
    &&& post.fields().len() == 0
    &&& post.min_alignment() == spec_max(pre.min_alignment(), 4)
    &&& post.used() == finish_space(pre.used(), pre.min_alignment(), ident.is_some(), sp)
    &&& post.bytes() == finish_image(pre.bytes(), pre.min_alignment(), root, ident, sp)
    &&& post.used() % post.min_alignment() == 0
    &&& post.capacity() >= pre.capacity()
}

/// The signed value stored as a 32-bit two\'s-complement image.
pub open spec fn i32_of_u32(u: int) -> int {
    if u < 0x8000_0000 {
        u
    } else {
        u - 0x1_0000_0000
    }
}

/// The soffset stored at the head of the table at tail-relative position `r`.
pub open spec fn soffset_at(bytes: Seq<u8>, r: int) -> int {
    i32_of_u32(
        u32_of_le(
            bytes[bytes.len() - r],
            bytes[bytes.len() - r + 1],
            bytes[bytes.len() - r + 2],
            bytes[bytes.len() - r + 3],
        ) as int,
    )
}

/// `r` is the tail-relative position of a finished table whose soffset leads
/// to a well-formed vtable.
pub open spec fn table_ok(bytes: Seq<u8>, r: int) -> bool {
    &&& 4 <= r <= bytes.len()
    &&& vtable_ok(bytes, r + soffset_at(bytes, r))
}

/// The slot stored at byte offset `q` of the vtable at tail-relative
/// position `rv`, or 0 when the vtable is too short to hold it.
pub open spec fn vt_slot(bytes: Seq<u8>, rv: int, q: int) -> int {
    if 0 <= q && q + 2 <= vt_len_at(bytes, rv) {
        u16_of_le(bytes[bytes.len() - rv + q], bytes[bytes.len() - rv + q + 1]) as int
    } else {
        0
    }
}

/// The concatenated wire images of vector elements laid out front to back:
/// element 0 at position `pos0`, each later element one slot further back.
pub open spec fn vector_elems_wire<T: Push>(items: Seq<T>, pos0: int, s: int) -> Seq<u8>
    decreases items.len(),
{
    if items.len() <= 0 {
        Seq::<u8>::empty()
    } else {
        items[0].wire(pos0) + vector_elems_wire(items.subrange(1, items.len() as int), pos0 - s, s)
    }
}

/// FlatBufferBuilder builds a FlatBuffer through manipulating its internal
/// state. It has an owned byte buffer that grows as needed, up to the
/// format's limit of just under 2 GiB.
pub struct FlatBufferBuilder {
    owned_buf: Vec<u8>,
    head: usize,
    field_locs: Vec<FieldLoc>,
    written_vtable_revpos: Vec<UOffsetT>,
    nested: bool,
    finished: bool,
    min_align: usize,
}

impl FlatBufferBuilder {
    /// Total size of the backing buffer.
    pub closed spec fn capacity(&self) -> int {
        self.owned_buf.len() as int
    }

    /// How many bytes of written data end the buffer.
    pub closed spec fn used(&self) -> int {
        self.owned_buf.len() - self.head
    }

    /// The written data: the tail of the buffer, newest bytes first.
    pub closed spec fn bytes(&self) -> Seq<u8> {
        self.owned_buf@.subrange(self.head as int, self.owned_buf.len() as int)
    }

    /// Whether a table or vector is under construction.
    pub closed spec fn is_nested(&self) -> bool {
        self.nested
    }

    /// Whether a `finish` call has completed the buffer.
    pub closed spec fn is_finished(&self) -> bool {
        self.finished
    }

    /// The strictest alignment any push has requested so far.
    pub closed spec fn min_alignment(&self) -> int {
        self.min_align as int
    }

    /// The fields tracked for the table under construction.
    pub closed spec fn fields(&self) -> Seq<FieldLoc> {
        self.field_locs@
    }

    /// Tail-relative positions of the distinct vtables written so far.
    pub closed spec fn vtables(&self) -> Seq<u32> {
        self.written_vtable_revpos@
    }

    /// The builder's invariant.
    pub closed spec fn wf(&self) -> bool {
        &&& self.head <= self.owned_buf.len()
        &&& self.owned_buf.len() <= FLATBUFFERS_MAX_BUFFER_SIZE
        &&& forall|i: int| 0 <= i < self.head ==> self.owned_buf@[i] == 0u8
        &&& is_alignment(self.min_align as int)
        &&& (!self.nested ==> self.field_locs@.len() == 0)
        &&& (self.finished ==> !self.nested)
        &&& fields_wf(self.field_locs@, self.used())
        &&& vtables_wf(self.bytes(), self.written_vtable_revpos@)
    }

    /// Basic consequences of the invariant, for callers.
    pub proof fn lemma_wf_bounds(&self)
        requires
            self.wf(),
        ensures
            0 <= self.used() <= self.capacity() <= FLATBUFFERS_MAX_BUFFER_SIZE as int,
            self.bytes().len() == self.used(),
            is_alignment(self.min_alignment()),
    {
    }

    /// Create a FlatBufferBuilder that is ready for writing.
    pub fn new() -> (r: Self)
        ensures
            r.wf(),
            r.observably_fresh(0),
    {
        Self::new_with_capacity(0)
    }

    /// Create a FlatBufferBuilder that is ready for writing, with a
    /// ready-to-use capacity of the provided size.
    ///
    /// The maximum valid value is `FLATBUFFERS_MAX_BUFFER_SIZE`.
    pub fn new_with_capacity(size: usize) -> (r: Self)
        requires
            size <= FLATBUFFERS_MAX_BUFFER_SIZE,
        ensures
            r.wf(),
            r.observably_fresh(size as int),
    {
        let mut buf: Vec<u8> = Vec::new();
        let mut i: usize = 0;
        while i < size
            invariant
                0 <= i <= size,
                buf@.len() == i,
                forall|j: int| 0 <= j < i ==> buf@[j] == 0u8,
            decreases size - i,
        {
            buf.push(0u8);
            i += 1;
        }
        let r = FlatBufferBuilder {
            owned_buf: buf,
            head: size,
            field_locs: Vec::new(),
            written_vtable_revpos: Vec::new(),
            nested: false,
            finished: false,
            min_align: 1,
        };
        proof {
            assert(r.bytes() =~= Seq::<u8>::empty());
        }
        r
    }

    /// The observable state of a builder that has written nothing: what a
    /// fresh builder shows, and what `reset` restores.
    pub open spec fn observably_fresh(&self, cap: int) -> bool {
        &&& self.capacity() == cap
        &&& self.used() == 0
        &&& self.bytes() == Seq::<u8>::empty()
        &&& self.vtables().len() == 0
        &&& self.fields().len() == 0
        &&& !self.is_nested()
        &&& !self.is_finished()
        &&& self.min_alignment() == 1
    }

    /// The number of bytes written so far.
    fn used_space(&self) -> (r: usize)
        requires
            self.wf(),
        ensures
            r as int == self.used(),
    {
        self.owned_buf.len() - self.head
    }

    /// Double the backing buffer, keeping the written tail at the tail.
    fn grow_owned_buf(&mut self)
        requires
            old(self).wf(),
            (if old(self).capacity() == 0 {
                1int
            } else {
                2 * old(self).capacity()
            }) <= FLATBUFFERS_MAX_BUFFER_SIZE as int,
        ensures
            final(self).wf(),
            final(self).capacity() == (if old(self).capacity() == 0 {
                1int
            } else {
                2 * old(self).capacity()
            }),
            final(self).used() == old(self).used(),
            final(self).bytes() == old(self).bytes(),
            final(self).fields() == old(self).fields(),
            final(self).vtables() == old(self).vtables(),
            final(self).is_nested() == old(self).is_nested(),
            final(self).is_finished() == old(self).is_finished(),
            final(self).min_alignment() == old(self).min_alignment(),
    {
        let old_len = self.owned_buf.len();
        let new_len = if old_len == 0 {
            1
        } else {
            2 * old_len
        };
        let diff = new_len - old_len;
        let used = old_len - self.head;
        let old_head = self.head;
        let new_head = old_head + diff;
        let mut i = old_len;
        while i < new_len
            invariant
                old_len <= i <= new_len,
                self.owned_buf@.len() == i,
                self.owned_buf@.subrange(0, old_len as int) == old(self).owned_buf@,
                forall|j: int| old_len <= j < i ==> self.owned_buf@[j] == 0u8,
                self.field_locs == old(self).field_locs,
                self.written_vtable_revpos == old(self).written_vtable_revpos,
                self.nested == old(self).nested,
                self.finished == old(self).finished,
                self.min_align == old(self).min_align,
                self.head == old(self).head,
            decreases new_len - i,
        {
            self.owned_buf.push(0u8);
            proof {
                assert(self.owned_buf@.subrange(0, old_len as int) =~= old(self).owned_buf@);
            }
            i += 1;
        }
        self.head = new_head;
        let mut k: usize = 0;
        while k < used
            invariant
                0 <= k <= used,
                used == old_len - old_head,
                new_head == old_head + diff,
                new_len == old_len + diff,
                new_head + used == new_len,
                old_head + diff >= old_len,
                self.owned_buf@.len() == new_len,
                self.head == new_head,
                forall|j: int| 0 <= j < old_len ==> self.owned_buf@[j] == old(self).owned_buf@[j],
                forall|j: int| old_len <= j < new_len && !(new_head <= j < new_head + k)
                    ==> self.owned_buf@[j] == 0u8,
                forall|j: int| 0 <= j < k ==> #[trigger] self.owned_buf@[new_head + j] == old(
                    self,
                ).owned_buf@[old_head + j],
                self.field_locs == old(self).field_locs,
                self.written_vtable_revpos == old(self).written_vtable_revpos,
                self.nested == old(self).nested,
                self.finished == old(self).finished,
                self.min_align == old(self).min_align,
            decreases used - k,
        {
            let b = self.owned_buf[old_head + k];
            self.owned_buf[new_head + k] = b;
            k += 1;
        }
        let mut z: usize = old_head;
        while z < old_len
            invariant
                old_head <= z <= old_len,
                used == old_len - old_head,
                new_head == old_head + diff,
                new_len == old_len + diff,
                new_head + used == new_len,
                old_head + diff >= old_len,
                self.owned_buf@.len() == new_len,
                self.head == new_head,
                forall|j: int| 0 <= j < old_head ==> self.owned_buf@[j] == old(self).owned_buf@[j],
                forall|j: int| old_head <= j < z ==> self.owned_buf@[j] == 0u8,
                forall|j: int| old_len <= j < new_head ==> self.owned_buf@[j] == 0u8,
                forall|j: int| z <= j < old_len ==> self.owned_buf@[j] == old(self).owned_buf@[j],
                forall|j: int| 0 <= j < used ==> #[trigger] self.owned_buf@[new_head + j] == old(
                    self,
                ).owned_buf@[old_head + j],
                self.field_locs == old(self).field_locs,
                self.written_vtable_revpos == old(self).written_vtable_revpos,
                self.nested == old(self).nested,
                self.finished == old(self).finished,
                self.min_align == old(self).min_align,
            decreases old_len - z,
        {
            self.owned_buf[z] = 0u8;
            z += 1;
        }
        proof {
            assert forall|j: int| 0 <= j < used implies self.bytes()[j] == old(self).bytes()[j] by {
                assert(self.owned_buf@[new_head + j] == old(self).owned_buf@[old_head + j]);
            }
            assert(self.bytes() =~= old(self).bytes());
            assert(forall|j: int| 0 <= j < self.head ==> self.owned_buf@[j] == 0u8);
            assert(vtables_wf(self.bytes(), self.written_vtable_revpos@));
        }
    }

    /// Grow until at least `want` bytes of scratch are available.
    fn ensure_capacity(&mut self, want: usize)
        requires
            old(self).wf(),
            grown_cap(old(self).capacity(), old(self).used() + want) <= FLATBUFFERS_MAX_BUFFER_SIZE
                as int,
        ensures
            final(self).wf(),
            final(self).capacity() == grown_cap(old(self).capacity(), old(self).used() + want),
            final(self).capacity() - final(self).used() >= want,
            final(self).used() == old(self).used(),
            final(self).bytes() == old(self).bytes(),
            final(self).fields() == old(self).fields(),
            final(self).vtables() == old(self).vtables(),
            final(self).is_nested() == old(self).is_nested(),
            final(self).is_finished() == old(self).is_finished(),
            final(self).min_alignment() == old(self).min_alignment(),
    {
        let ghost need = old(self).used() + want;
        while self.head < want
            invariant
                self.wf(),
                need == self.used() + want,
                grown_cap(self.capacity(), need) == grown_cap(old(self).capacity(), need),
                grown_cap(old(self).capacity(), need) <= FLATBUFFERS_MAX_BUFFER_SIZE as int,
                self.used() == old(self).used(),
                self.bytes() == old(self).bytes(),
                self.fields() == old(self).fields(),
                self.vtables() == old(self).vtables(),
                self.is_nested() == old(self).is_nested(),
                self.is_finished() == old(self).is_finished(),
                self.min_alignment() == old(self).min_alignment(),
            decreases FLATBUFFERS_MAX_BUFFER_SIZE as int - self.capacity(),
        {
            proof {
                let next = if self.capacity() == 0 {
                    1int
                } else {
                    2 * self.capacity()
                };
                assert(self.capacity() < need);
                lemma_grown_cap_bounds(next, need);
            }
            self.grow_owned_buf();
        }
        proof {
            assert(self.capacity() >= need);
            if self.capacity() == old(self).capacity() {
            }
        }
    }

    /// Move the head back over `want` bytes of zeroed scratch, growing first
    /// if needed; the exposed bytes join the written data as zeros.
    fn make_space(&mut self, want: usize) -> (r: usize)
        requires
            old(self).wf(),
            grown_cap(old(self).capacity(), old(self).used() + want) <= FLATBUFFERS_MAX_BUFFER_SIZE
                as int,
        ensures
            final(self).wf(),
            final(self).capacity() == grown_cap(old(self).capacity(), old(self).used() + want),
            final(self).used() == old(self).used() + want,
            final(self).bytes() == zero_bytes(want as int) + old(self).bytes(),
            final(self).fields() == old(self).fields(),
            final(self).vtables() == old(self).vtables(),
            final(self).is_nested() == old(self).is_nested(),
            final(self).is_finished() == old(self).is_finished(),
            final(self).min_alignment() == old(self).min_alignment(),
            r as int == final(self).capacity() - final(self).used(),
    {
        self.ensure_capacity(want);
        let ghost mid = *self;
        self.head = self.head - want;
        proof {
            assert(self.bytes() =~= zero_bytes(want as int) + mid.bytes());
            assert(fields_wf(self.field_locs@, self.used()));
            assert forall|i: int| 0 <= i < self.written_vtable_revpos@.len() implies vtable_ok(
                self.bytes(),
                (#[trigger] self.written_vtable_revpos@[i]) as int,
            ) by {
                lemma_vt_stable(
                    zero_bytes(want as int),
                    mid.bytes(),
                    self.written_vtable_revpos@[i] as int,
                );
            }
        }
        self.head
    }

    /// Pad so that after `len` more bytes the written size is a multiple of
    /// `alignment`, and remember the strictest alignment seen.
    fn align(&mut self, len: usize, alignment: usize)
        requires
            old(self).wf(),
            is_alignment(alignment as int),
            old(self).used() + len <= FLATBUFFERS_MAX_BUFFER_SIZE as int,
            grown_cap(
                old(self).capacity(),
                old(self).used() + spec_padding(old(self).used() + len, alignment as int),
            ) <= FLATBUFFERS_MAX_BUFFER_SIZE as int,
        ensures
            final(self).wf(),
            ({
                let pad = spec_padding(old(self).used() + len, alignment as int);
                &&& final(self).used() == old(self).used() + pad
                &&& final(self).bytes() == zero_bytes(pad) + old(self).bytes()
                &&& (final(self).used() + len) % (alignment as int) == 0
                &&& final(self).capacity() == grown_cap(
                    old(self).capacity(),
                    old(self).used() + pad,
                )
            }),
            final(self).fields() == old(self).fields(),
            final(self).vtables() == old(self).vtables(),
            final(self).is_nested() == old(self).is_nested(),
            final(self).is_finished() == old(self).is_finished(),
            final(self).min_alignment() == spec_max(
                old(self).min_alignment(),
                alignment as int,
            ),
    {
        if alignment > self.min_align {
            self.min_align = alignment;
        }
        let s = self.owned_buf.len() - self.head;
        let pad = padding_bytes(s, len, alignment);
        self.make_space(pad);
    }

    /// Push a value onto the front of the in-progress data: pad to its
    /// alignment, reserve its size, and write its little-endian wire image.
    /// The returned handle is the `used_space` reading taken after the write,
    /// and stays valid across all later pushes and buffer growth.
    pub fn push<X: Push>(&mut self, x: X) -> (r: WIPOffset<X::Output>)
        requires
            old(self).wf(),
            ({
                let pad = spec_padding(
                    old(self).used() + x.spec_size(),
                    x.spec_alignment(),
                );
                &&& x.fits_at(old(self).used() + pad + x.spec_size())
                &&& grown_cap(
                    old(self).capacity(),
                    old(self).used() + pad + x.spec_size(),
                ) <= FLATBUFFERS_MAX_BUFFER_SIZE as int
            }),
        ensures
            final(self).wf(),
            ({
                let pad = spec_padding(
                    old(self).used() + x.spec_size(),
                    x.spec_alignment(),
                );
                &&& final(self).used() == old(self).used() + pad + x.spec_size()
                &&& final(self).bytes() == x.wire(final(self).used()) + zero_bytes(pad) + old(
                    self,
                ).bytes()
                &&& final(self).used() % x.spec_alignment() == 0
                &&& r.spec_value() as int == final(self).used()
                &&& final(self).capacity() == grown_cap(
                    old(self).capacity(),
                    old(self).used() + pad + x.spec_size(),
                )
            }),
            final(self).fields() == old(self).fields(),
            final(self).vtables() == old(self).vtables(),
            final(self).is_nested() == old(self).is_nested(),
            final(self).is_finished() == old(self).is_finished(),
            final(self).min_alignment() == spec_max(
                old(self).min_alignment(),
                x.spec_alignment(),
            ),
    {
        proof {
            x.wire_wf(0);
            lemma_grown_cap_bounds(old(self).capacity(), old(self).used() + spec_padding(
                old(self).used() + x.spec_size(),
                x.spec_alignment(),
            ) + x.spec_size());
        }
        let size = x.size();
        let alignment = x.alignment();
        let ghost pad = spec_padding(old(self).used() + x.spec_size(), x.spec_alignment());
        proof {
            lemma_grown_cap_chain(
                old(self).capacity(),
                old(self).used() + pad,
                old(self).used() + pad + x.spec_size(),
            );
        }
        self.align(size, alignment);
        let at = self.make_space(size);
        let ghost mid2 = *self;
        proof {
            assert(at as int == self.head as int);
            x.wire_wf(self.used());
        }
        x.write(&mut self.owned_buf, self.head);
        let v = self.owned_buf.len() - self.head;
        proof {
            let w = x.wire(self.used());
            assert(self.owned_buf@.len() == mid2.owned_buf@.len());
            assert(self.used() == mid2.used());
            assert(self.bytes() =~= w + zero_bytes(pad) + old(self).bytes()) by {
                assert forall|j: int| 0 <= j < self.used() implies self.bytes()[j] == (w
                    + zero_bytes(pad) + old(self).bytes())[j] by {
                    assert(self.bytes()[j] == self.owned_buf@[self.head + j]);
                    assert(self.owned_buf@ == splice(
                        mid2.owned_buf@,
                        self.head as int,
                        w,
                    ));
                    if j < w.len() {
                    } else {
                        assert(self.owned_buf@[self.head + j] == mid2.owned_buf@[self.head + j]);
                        assert(mid2.bytes()[j] == mid2.owned_buf@[self.head + j]);
                        assert(mid2.bytes() == zero_bytes(x.spec_size()) + zero_bytes(pad) + old(
                            self,
                        ).bytes());
                    }
                }
            }
            assert(forall|i: int| 0 <= i < self.head ==> self.owned_buf@[i] == 0u8) by {
                assert(forall|i: int|
                    0 <= i < self.head ==> self.owned_buf@[i] == mid2.owned_buf@[i]);
            }
            assert(fields_wf(self.field_locs@, self.used()));
            assert forall|i: int| 0 <= i < self.written_vtable_revpos@.len() implies vtable_ok(
                self.bytes(),
                (#[trigger] self.written_vtable_revpos@[i]) as int,
            ) by {
                lemma_vt_stable(
                    w + zero_bytes(pad),
                    old(self).bytes(),
                    self.written_vtable_revpos@[i] as int,
                );
                assert((w + zero_bytes(pad)) + old(self).bytes() =~= w + zero_bytes(pad) + old(
                    self,
                ).bytes());
            }
            assert(self.used() % x.spec_alignment() == 0);
        }
        WIPOffset::new(v as u32)
    }

    /// Record a just-written field for the table under construction.
    fn track_field(&mut self, slot_off: VOffsetT, off: UOffsetT)
        requires
            old(self).wf(),
            old(self).is_nested(),
            4 <= slot_off,
            slot_off % 2 == 0,
            slot_off <= 0xfffc,
            off as int <= old(self).used(),
            forall|i: int| 0 <= i < old(self).fields().len() ==> (#[trigger] old(
                self,
            ).fields()[i]).id != slot_off,
        ensures
            final(self).wf(),
            final(self).fields() == old(self).fields().push(FieldLoc { off, id: slot_off }),
            final(self).bytes() == old(self).bytes(),
            final(self).used() == old(self).used(),
            final(self).capacity() == old(self).capacity(),
            final(self).vtables() == old(self).vtables(),
            final(self).is_nested() == old(self).is_nested(),
            final(self).is_finished() == old(self).is_finished(),
            final(self).min_alignment() == old(self).min_alignment(),
    {
        let fl = FieldLoc { id: slot_off, off };
        self.field_locs.push(fl);
        proof {
            let fs = self.field_locs@;
            let ofs = old(self).field_locs@;
            assert(fs == ofs.push(fl));
            assert forall|i: int|
                0 <= i < fs.len() implies {
                &&& 4 <= (#[trigger] fs[i]).id
                &&& fs[i].id % 2 == 0
                &&& fs[i].id <= 0xfffc
                &&& fs[i].off as int <= self.used()
            } by {
                if i < ofs.len() {
                    assert(fs[i] == ofs[i]);
                } else {
                    assert(fs[i] == fl);
                }
            }
            assert forall|j: int, k: int| 0 <= j < k < fs.len() implies fs[j].id != fs[k].id by {
                if k < ofs.len() {
                    assert(fs[j] == ofs[j] && fs[k] == ofs[k]);
                } else {
                    assert(fs[j] == ofs[j] && fs[k] == fl);
                    assert(ofs[j] == old(self).fields()[j]);
                    assert(old(self).fields()[j].id != slot_off);
                }
            }
        }
    }

    /// Start a Table write: the builder must not already be nested, and the
    /// returned handle is the reference point for the table's field offsets.
    pub fn start_table(&mut self) -> (r: WIPOffset<TableUnfinishedWIPOffset>)
        requires
            old(self).wf(),
            !old(self).is_nested(),
            !old(self).is_finished(),
        ensures
            final(self).wf(),
            final(self).is_nested(),
            r.spec_value() as int == old(self).used(),
            final(self).bytes() == old(self).bytes(),
            final(self).used() == old(self).used(),
            final(self).capacity() == old(self).capacity(),
            final(self).fields() == old(self).fields(),
            final(self).vtables() == old(self).vtables(),
            final(self).is_finished() == old(self).is_finished(),
            final(self).min_alignment() == old(self).min_alignment(),
    {
        self.nested = true;
        let v = self.used_space();
        WIPOffset::new(v as u32)
    }

    /// Push a value onto the front of the in-progress data and track it in
    /// the in-progress vtable. If the value equals the default it is skipped
    /// and the field will be absent from the vtable.
    pub fn push_slot<X: Push>(&mut self, slotoff: VOffsetT, x: X, default: X)
        requires
            old(self).wf(),
            old(self).is_nested(),
            4 <= slotoff,
            slotoff % 2 == 0,
            slotoff <= 0xfffc,
            forall|i: int|
                0 <= i < old(self).fields().len() ==> (#[trigger] old(self).fields()[i]).id
                    != slotoff,
            ({
                let pad = spec_padding(old(self).used() + x.spec_size(), x.spec_alignment());
                &&& x.fits_at(old(self).used() + pad + x.spec_size())
                &&& grown_cap(old(self).capacity(), old(self).used() + pad + x.spec_size())
                    <= FLATBUFFERS_MAX_BUFFER_SIZE as int
            }),
        ensures
            final(self).wf(),
            x.same(&default) ==> *final(self) == *old(self),
            !x.same(&default) ==> ({
                let pad = spec_padding(old(self).used() + x.spec_size(), x.spec_alignment());
                &&& final(self).used() == old(self).used() + pad + x.spec_size()
                &&& final(self).bytes() == x.wire(final(self).used()) + zero_bytes(pad) + old(
                    self,
                ).bytes()
                &&& final(self).used() % x.spec_alignment() == 0
                &&& final(self).fields() == old(self).fields().push(
                    FieldLoc { off: final(self).used() as u32, id: slotoff },
                )
                &&& final(self).capacity() == grown_cap(
                    old(self).capacity(),
                    old(self).used() + pad + x.spec_size(),
                )
                &&& final(self).vtables() == old(self).vtables()
                &&& final(self).is_nested() == old(self).is_nested()
                &&& final(self).is_finished() == old(self).is_finished()
                &&& final(self).min_alignment() == spec_max(
                    old(self).min_alignment(),
                    x.spec_alignment(),
                )
            }),
    {
        if x.same_value(&default) {
            return ;
        }
        self.push_slot_always(slotoff, x);
    }

    /// Push a value onto the front of the in-progress data and track it in
    /// the in-progress vtable, whatever its value.
    pub fn push_slot_always<X: Push>(&mut self, slotoff: VOffsetT, x: X)
        requires
            old(self).wf(),
            old(self).is_nested(),
            4 <= slotoff,
            slotoff % 2 == 0,
            slotoff <= 0xfffc,
            forall|i: int|
                0 <= i < old(self).fields().len() ==> (#[trigger] old(self).fields()[i]).id
                    != slotoff,
            ({
                let pad = spec_padding(old(self).used() + x.spec_size(), x.spec_alignment());
                &&& x.fits_at(old(self).used() + pad + x.spec_size())
                &&& grown_cap(old(self).capacity(), old(self).used() + pad + x.spec_size())
                    <= FLATBUFFERS_MAX_BUFFER_SIZE as int
            }),
        ensures
            final(self).wf(),
            ({
                let pad = spec_padding(old(self).used() + x.spec_size(), x.spec_alignment());
                &&& final(self).used() == old(self).used() + pad + x.spec_size()
                &&& final(self).bytes() == x.wire(final(self).used()) + zero_bytes(pad) + old(
                    self,
                ).bytes()
                &&& final(self).used() % x.spec_alignment() == 0
                &&& final(self).fields() == old(self).fields().push(
                    FieldLoc { off: final(self).used() as u32, id: slotoff },
                )
                &&& final(self).capacity() == grown_cap(
                    old(self).capacity(),
                    old(self).used() + pad + x.spec_size(),
                )
            }),
            final(self).vtables() == old(self).vtables(),
            final(self).is_nested() == old(self).is_nested(),
            final(self).is_finished() == old(self).is_finished(),
            final(self).min_alignment() == spec_max(old(self).min_alignment(), x.spec_alignment()),
    {
        let off = self.push(x);
        self.track_field(slotoff, off.value());
    }

    /// Scan the written vtables, newest first, for one byte-identical to
    /// the freshly synthesized vtable at the front of the written data.
    fn scan_for_vtable(
        &self,
        used_now: usize,
        vtable_len: usize,
        Ghost(old_bytes): Ghost<Seq<u8>>,
        Ghost(vt_spec): Ghost<Seq<u8>>,
    ) -> (r: Option<u32>)
        requires
            self.wf(),
            used_now as int == self.used(),
            4 <= vtable_len as int <= 0xfffe,
            vtable_len as int <= used_now as int,
            vt_spec.len() == vtable_len as int,
            self.bytes().subrange(0, vtable_len as int) == vt_spec,
            u16_of_le(self.bytes()[0], self.bytes()[1]) as int == vtable_len as int,
            old_bytes.len() <= used_now as int,
            self.bytes() == self.bytes().subrange(0, used_now - old_bytes.len()) + old_bytes,
            forall|i: int|
                0 <= i < self.vtables().len() ==> {
                    &&& vtable_ok(self.bytes(), (#[trigger] self.vtables()[i]) as int)
                    &&& vt_bytes_at(self.bytes(), self.vtables()[i] as int) == vt_bytes_at(
                        old_bytes,
                        self.vtables()[i] as int,
                    )
                    &&& self.vtables()[i] as int <= old_bytes.len()
                },
        ensures
            ({
                let m = last_match(old_bytes, self.vtables(), vt_spec);
                match r {
                    Option::None => m == -1,
                    Option::Some(c) => m >= 0 && c == self.vtables()[m],
                }
            }),
    {
        let ghost vts = self.vtables();
        let ghost vl_g = vtable_len as int;
        let ghost bytes3 = self.bytes();
        proof {
            assert(self.head + used_now == self.owned_buf@.len());
            assert forall|k: int| 0 <= k < used_now as int implies #[trigger] bytes3[k]
                == self.owned_buf@[self.head + k] by {
                assert(self.bytes()[k] == self.owned_buf@[self.head + k]);
            }
        }
        let mut idx = self.written_vtable_revpos.len();
        while idx > 0
            invariant
                0 <= idx <= vts.len(),
                vts == self.vtables(),
                self.wf(),
                used_now as int == self.used(),
                self.head + used_now == self.owned_buf@.len(),
                bytes3 == self.bytes(),
                bytes3.len() == used_now as int,
                4 <= vl_g <= 0xfffe,
                vl_g == vtable_len as int,
                vl_g <= used_now as int,
                vt_spec.len() == vl_g,
                bytes3.subrange(0, vl_g) == vt_spec,
                u16_of_le(bytes3[0], bytes3[1]) as int == vl_g,
                old_bytes.len() <= used_now as int,
                forall|k: int| 0 <= k < used_now as int ==> #[trigger] bytes3[k]
                    == self.owned_buf@[self.head + k],
                forall|i: int|
                    0 <= i < vts.len() ==> {
                        &&& vtable_ok(bytes3, (#[trigger] vts[i]) as int)
                        &&& vt_bytes_at(bytes3, vts[i] as int) == vt_bytes_at(
                            old_bytes,
                            vts[i] as int,
                        )
                        &&& vts[i] as int <= old_bytes.len()
                    },
                forall|j: int|
                    idx <= j < vts.len() ==> vt_bytes_at(old_bytes, (#[trigger] vts[j]) as int)
                        != vt_spec,
            decreases idx,
        {
            idx = idx - 1;
            let cand = self.written_vtable_revpos[idx];
            proof {
                assert(vts[idx as int] == cand);
                assert(vtable_ok(bytes3, cand as int));
            }
            let i2 = self.head + (used_now - cand as usize);
            proof {
                let hh = self.head as int;
                assert(bytes3[used_now - cand as int] == self.owned_buf@[i2 as int]);
                assert(bytes3[used_now - cand as int + 1] == self.owned_buf@[i2 as int + 1]);
                assert(bytes3[0] == self.owned_buf@[hh]);
                assert(bytes3[1] == self.owned_buf@[hh + 1]);
                assert(u16_of_le(self.owned_buf@[i2 as int], self.owned_buf@[i2 as int + 1]) as int
                    == vt_len_at(bytes3, cand as int));
            }
            let eq = vt_regions_equal(&self.owned_buf, self.head, i2);
            proof {
                let l2 = vt_len_at(bytes3, cand as int);
                assert forall|k: int| 0 <= k < vl_g implies self.owned_buf@[self.head + k]
                    == bytes3[k] by {
                    assert(bytes3[k] == self.owned_buf@[self.head + k]);
                }
                assert(self.owned_buf@.subrange(self.head as int, self.head as int + vl_g)
                    =~= bytes3.subrange(0, vl_g));
                assert(self.owned_buf@.subrange(i2 as int, i2 + l2) =~= vt_bytes_at(
                    bytes3,
                    cand as int,
                ));
                assert(eq == (vt_bytes_at(old_bytes, cand as int) == vt_spec));
            }
            if eq {
                proof {
                    lemma_last_match_found(old_bytes, vts, vt_spec, idx as int);
                }
                return Option::Some(cand);
            }
        }
        proof {
            lemma_last_match_none(old_bytes, vts, vt_spec);
        }
        Option::None
    }

    /// Zero the scratch vtable at the front of the written data and release
    /// it, once an identical vtable was found to reuse.
    fn release_scratch_vtable(&mut self, vtable_len: usize)
        requires
            old(self).wf(),
            vtable_len as int <= old(self).used(),
            forall|i: int| 0 <= i < old(self).vtables().len() ==> (#[trigger] old(
                self,
            ).vtables()[i]) as int <= old(self).used() - vtable_len,
            forall|i: int| 0 <= i < old(self).fields().len() ==> (#[trigger] old(
                self,
            ).fields()[i]).off as int <= old(self).used() - vtable_len,
        ensures
            final(self).wf(),
            final(self).used() == old(self).used() - vtable_len,
            final(self).bytes() == old(self).bytes().subrange(
                vtable_len as int,
                old(self).used() as int,
            ),
            final(self).capacity() == old(self).capacity(),
            final(self).fields() == old(self).fields(),
            final(self).vtables() == old(self).vtables(),
            final(self).is_nested() == old(self).is_nested(),
            final(self).is_finished() == old(self).is_finished(),
            final(self).min_alignment() == old(self).min_alignment(),
    {
        let ghost pre_rel = *old(self);
        let cap_now = self.owned_buf.len();
        let mut z: usize = 0;
        while z < vtable_len
            invariant
                0 <= z <= vtable_len,
                cap_now == self.owned_buf@.len(),
                self.owned_buf@.len() == pre_rel.owned_buf@.len(),
                self.head == pre_rel.head,
                self.head + vtable_len <= cap_now,
                forall|j: int| 0 <= j < self.head ==> self.owned_buf@[j] == 0u8,
                forall|j: int| self.head <= j < self.head + z ==> self.owned_buf@[j] == 0u8,
                forall|j: int|
                    self.head + z <= j < self.owned_buf@.len() ==> self.owned_buf@[j]
                        == pre_rel.owned_buf@[j],
                self.field_locs == pre_rel.field_locs,
                self.written_vtable_revpos == pre_rel.written_vtable_revpos,
                self.nested == pre_rel.nested,
                self.finished == pre_rel.finished,
                self.min_align == pre_rel.min_align,
            decreases vtable_len - z,
        {
            self.owned_buf[self.head + z] = 0u8;
            z += 1;
        }
        self.head = self.head + vtable_len;
        proof {
            let ob = pre_rel.bytes();
            assert forall|j: int| 0 <= j < self.used() implies self.bytes()[j] == ob.subrange(
                vtable_len as int,
                pre_rel.used() as int,
            )[j] by {
                assert(self.bytes()[j] == self.owned_buf@[self.head + j]);
                assert(self.owned_buf@[self.head + j] == pre_rel.owned_buf@[self.head + j]);
                assert(ob[vtable_len + j] == pre_rel.owned_buf@[pre_rel.head + vtable_len + j]);
            }
            assert(self.bytes() =~= ob.subrange(vtable_len as int, pre_rel.used() as int));
            assert(fields_wf(self.field_locs@, self.used())) by {
                assert forall|i: int| 0 <= i < self.field_locs@.len() implies (
                #[trigger] self.field_locs@[i]).off as int <= self.used() by {
                    assert(old(self).fields()[i].off as int <= old(self).used() - vtable_len);
                }
            }
            assert forall|i: int| 0 <= i < self.written_vtable_revpos@.len() implies vtable_ok(
                self.bytes(),
                (#[trigger] self.written_vtable_revpos@[i]) as int,
            ) by {
                assert(old(self).vtables()[i] == self.written_vtable_revpos@[i]);
                let r = self.written_vtable_revpos@[i] as int;
                assert(vtable_ok(ob, r));
                assert(r <= self.used());
                let nb = self.bytes();
                assert(ob == ob.subrange(0, vtable_len as int) + nb);
                assert(nb[nb.len() - r] == ob[ob.len() - r]);
                assert(nb[nb.len() - r + 1] == ob[ob.len() - r + 1]);
                assert(vt_len_at(nb, r) == vt_len_at(ob, r));
            }
        }
    }

    /// Overwrite the table's reserved soffset word, which still holds the
    /// sentinel, with the signed relative position of the chosen vtable.
    fn patch_soffset(&mut self, revloc: u32, vt_use: u32)
        requires
            old(self).wf(),
            4 <= revloc as int <= old(self).used(),
            vt_use as int <= 0x7fffffff,
            old(self).bytes().subrange(
                old(self).used() - revloc,
                old(self).used() - revloc + 4,
            ) == le32(0xF0F0F0F0u32),
            forall|i: int|
                0 <= i < old(self).vtables().len() ==> ((#[trigger] old(self).vtables()[i]) as int
                    + 4 <= revloc as int) || (old(self).used() - old(self).vtables()[i] + vt_len_at(
                    old(self).bytes(),
                    old(self).vtables()[i] as int,
                ) <= old(self).used() - revloc),
        ensures
            final(self).wf(),
            final(self).bytes() == splice(
                old(self).bytes(),
                old(self).used() - revloc,
                le32(soffset_u32(vt_use as int - revloc as int)),
            ),
            final(self).used() == old(self).used(),
            final(self).capacity() == old(self).capacity(),
            final(self).fields() == old(self).fields(),
            final(self).vtables() == old(self).vtables(),
            final(self).is_nested() == old(self).is_nested(),
            final(self).is_finished() == old(self).is_finished(),
            final(self).min_alignment() == old(self).min_alignment(),
    {
        let ghost cur_bytes = old(self).bytes();
        let ghost pos = old(self).used() - revloc as int;
        let used_cur = self.owned_buf.len() - self.head;
        let n = self.head + (used_cur - revloc as usize);
        proof {
            assert(used_cur as int == cur_bytes.len());
            lemma_le32_roundtrip(0xF0F0F0F0u32);
            assert(cur_bytes.subrange(pos, pos + 4)[0] == cur_bytes[pos]);
            assert(cur_bytes.subrange(pos, pos + 4)[1] == cur_bytes[pos + 1]);
            assert(cur_bytes.subrange(pos, pos + 4)[2] == cur_bytes[pos + 2]);
            assert(cur_bytes.subrange(pos, pos + 4)[3] == cur_bytes[pos + 3]);
            assert(self.bytes()[pos] == self.owned_buf@[n as int]);
            assert(self.bytes()[pos + 1] == self.owned_buf@[n + 1]);
            assert(self.bytes()[pos + 2] == self.owned_buf@[n + 2]);
            assert(self.bytes()[pos + 3] == self.owned_buf@[n + 3]);
        }
        let saw = read_u32_at(&self.owned_buf, n);
        proof {
            assert(saw == 0xF0F0F0F0u32);
        }
        let d: u32 = if vt_use >= revloc {
            vt_use - revloc
        } else {
            ((0x1_0000_0000u64 - ((revloc - vt_use) as u64)) as u32)
        };
        proof {
            assert(d == soffset_u32(vt_use as int - revloc as int));
        }
        let ghost pre_patch = *self;
        write_u32_at(&mut self.owned_buf, n, d);
        proof {
            assert(self.owned_buf@.len() == pre_patch.owned_buf@.len());
            assert(self.bytes() =~= splice(cur_bytes, pos, le32(d))) by {
                assert forall|j: int| 0 <= j < self.used() implies self.bytes()[j] == splice(
                    cur_bytes,
                    pos,
                    le32(d),
                )[j] by {
                    assert(self.bytes()[j] == self.owned_buf@[self.head + j]);
                    assert(self.owned_buf@ == splice(pre_patch.owned_buf@, n as int, le32(d)));
                    if !(pos <= j < pos + 4) {
                        assert(self.owned_buf@[self.head + j] == pre_patch.owned_buf@[self.head
                            + j]);
                        assert(cur_bytes[j] == pre_patch.owned_buf@[self.head + j]);
                    }
                }
            }
            assert(forall|i: int| 0 <= i < self.head ==> self.owned_buf@[i] == 0u8) by {
                assert(forall|i: int|
                    0 <= i < self.head ==> self.owned_buf@[i] == pre_patch.owned_buf@[i]);
            }
            let fb = self.bytes();
            assert forall|i: int| 0 <= i < self.written_vtable_revpos@.len() implies vtable_ok(
                fb,
                (#[trigger] self.written_vtable_revpos@[i]) as int,
            ) by {
                assert(old(self).vtables()[i] == self.written_vtable_revpos@[i]);
                let r = self.written_vtable_revpos@[i] as int;
                assert(vtable_ok(cur_bytes, r));
                let st = fb.len() - r;
                assert(fb[st] == cur_bytes[st] && fb[st + 1] == cur_bytes[st + 1]) by {
                    assert(fb == splice(cur_bytes, pos, le32(d)));
                }
                assert(vt_len_at(fb, r) == vt_len_at(cur_bytes, r));
            }
        }
    }

    /// Synthesize the vtable for the table under construction, deduplicate
    /// it against the vtables already written, and patch the table's
    /// soffset word with the chosen vtable's relative position.
    #[verifier::rlimit(100)]
    fn write_vtable(&mut self, table_tail_revloc: WIPOffset<TableUnfinishedWIPOffset>) -> (r:
        WIPOffset<VTableWIPOffset>)
        requires
            old(self).wf(),
            old(self).is_nested(),
            table_tail_revloc.spec_value() as int <= old(self).used(),
            forall|i: int|
                0 <= i < old(self).fields().len() ==> table_tail_revloc.spec_value() <= (
                #[trigger] old(self).fields()[i]).off,
            table_start_pos(old(self).used()) - table_tail_revloc.spec_value() < 0x10000,
            grown_cap(
                old(self).capacity(),
                table_start_pos(old(self).used()) + spec_vtable_len(old(self).fields()),
            ) <= FLATBUFFERS_MAX_BUFFER_SIZE as int,
        ensures
            final(self).wf(),
            final(self).fields().len() == 0,
            final(self).is_nested() == old(self).is_nested(),
            final(self).is_finished() == old(self).is_finished(),
            final(self).min_alignment() == spec_max(old(self).min_alignment(), 4),
            r.spec_value() as int == table_start_pos(old(self).used()),
            ({
                let ts = table_start_pos(old(self).used());
                let p1 = spec_padding(old(self).used() + 4, 4);
                let osz = ts - table_tail_revloc.spec_value();
                let vt = spec_vtable(old(self).fields(), ts, osz);
                let vl = spec_vtable_len(old(self).fields());
                let m = last_match(old(self).bytes(), old(self).vtables(), vt);
                if m >= 0 {
                    &&& final(self).used() == ts
                    &&& final(self).bytes() == le32(
                        soffset_u32(old(self).vtables()[m] as int - ts),
                    ) + zero_bytes(p1) + old(self).bytes()
                    &&& final(self).vtables() == old(self).vtables()
                } else {
                    &&& final(self).used() == ts + vl
                    &&& final(self).bytes() == vt + le32(soffset_u32(vl)) + zero_bytes(p1) + old(
                        self,
                    ).bytes()
                    &&& final(self).vtables() == old(self).vtables().push((ts + vl) as u32)
                }
            }),
    {
        let ghost old_used = old(self).used();
        let ghost old_bytes = old(self).bytes();
        let ghost old_vts = old(self).vtables();
        let ghost fs = old(self).fields();
        let ghost ts = table_start_pos(old_used);
        let ghost p1 = spec_padding(old_used + 4, 4);
        let ghost osz_g = ts - table_tail_revloc.spec_value() as int;
        let ghost vt_spec = spec_vtable(fs, ts, osz_g);
        let ghost vl_g = spec_vtable_len(fs);
        proof {
            lemma_grown_cap_bounds(old(self).capacity(), ts + vl_g);
            if fs.len() > 0 {
                crate::vtable::lemma_max_field_id_ge(fs, 0);
                assert(fs[0].id >= 4);
                crate::vtable::lemma_max_field_id_in(fs);
                let w = choose|i: int|
                    0 <= i < fs.len() && (#[trigger] fs[i]).id as int == crate::vtable::max_field_id(
                        fs,
                    );
                assert(fs[w].id <= 0xfffc);
            }
            assert(4 <= vl_g <= 0xfffe);
            lemma_grown_cap_chain(old(self).capacity(), ts, ts + vl_g);
        }
        let sentinel_off = self.push::<u32>(0xF0F0F0F0u32);
        let revloc: u32 = sentinel_off.value();
        let ghost bytes1 = self.bytes();
        proof {
            assert(revloc as int == ts);
            assert(bytes1 == le32(0xF0F0F0F0u32) + zero_bytes(p1) + old_bytes);
        }
        let max_id = max_id_of(&self.field_locs);
        let vtable_len: usize = if self.field_locs.len() == 0 {
            4
        } else {
            max_id as usize + 2
        };
        proof {
            assert(vtable_len as int == vl_g);
        }
        self.make_space(vtable_len);
        let ghost bytes2 = self.bytes();
        proof {
            assert(bytes2 == zero_bytes(vl_g) + bytes1);
            assert(self.used() == ts + vl_g);
            assert forall|j: int| self.head <= j < self.head + vl_g implies self.owned_buf@[j]
                == 0u8 by {
                assert(self.bytes()[j - self.head] == zero_bytes(vl_g)[j - self.head]);
            }
            assert forall|i: int| 0 <= i < fs.len() implies (#[trigger] fs[i]).off < revloc
                && revloc as int - fs[i].off < 0x10000 by {
                assert(fs[i].off as int <= old_used);
                assert(table_tail_revloc.spec_value() <= fs[i].off);
            }
        }
        let obj_size: u16 = (revloc - table_tail_revloc.value()) as u16;
        let ghost pre_pop = *self;
        write_vtable_region(
            &mut self.owned_buf,
            self.head,
            vtable_len as u16,
            obj_size,
            &self.field_locs,
            revloc,
        );
        let ghost bytes3 = self.bytes();
        proof {
            assert(self.owned_buf@.len() == pre_pop.owned_buf@.len());
            assert(bytes3 =~= vt_spec + bytes1) by {
                assert(self.owned_buf@ == splice(pre_pop.owned_buf@, self.head as int, vt_spec));
                crate::vtable::vt_spec_len_lemma(fs, ts, osz_g);
                assert forall|j: int| 0 <= j < self.used() implies bytes3[j] == (vt_spec
                    + bytes1)[j] by {
                    assert(bytes3[j] == self.owned_buf@[self.head + j]);
                    if j < vl_g {
                    } else {
                        assert(self.owned_buf@[self.head + j] == pre_pop.owned_buf@[self.head + j]);
                        assert(bytes2[j] == pre_pop.owned_buf@[self.head + j]);
                        assert(bytes2[j] == bytes1[j - vl_g]);
                    }
                }
            }
            assert(forall|i: int| 0 <= i < self.head ==> self.owned_buf@[i] == 0u8) by {
                assert(forall|i: int|
                    0 <= i < self.head ==> self.owned_buf@[i] == pre_pop.owned_buf@[i]);
            }
            assert(bytes3.subrange(0, vl_g) =~= vt_spec);
            vt_spec_header_lemma(fs, ts, osz_g);
            assert(u16_of_le(bytes3[0], bytes3[1]) as int == vl_g);
            assert forall|i: int| 0 <= i < old_vts.len() implies vtable_ok(
                bytes3,
                (#[trigger] old_vts[i]) as int,
            ) && vt_bytes_at(bytes3, old_vts[i] as int) == vt_bytes_at(
                old_bytes,
                old_vts[i] as int,
            ) && old_vts[i] as int <= old_bytes.len() by {
                assert(old(self).vtables()[i] == old_vts[i]);
                assert(vtable_ok(old_bytes, old_vts[i] as int));
                lemma_vt_stable(
                    bytes3.subrange(0, bytes3.len() - old_bytes.len()),
                    old_bytes,
                    old_vts[i] as int,
                );
                assert(bytes3.subrange(0, bytes3.len() - old_bytes.len()) + old_bytes =~= bytes3);
            }
        }
        let used_now = self.owned_buf.len() - self.head;
        proof {
            assert(bytes3.subrange(0, bytes3.len() - old_bytes.len()) + old_bytes =~= bytes3);
        }
        let m_opt = self.scan_for_vtable(used_now, vtable_len, Ghost(old_bytes), Ghost(vt_spec));
        let ghost m = last_match(old_bytes, old_vts, vt_spec);
        let mut vt_use: u32 = used_now as u32;
        let mut matched = false;
        match m_opt {
            Option::Some(c) => {
                matched = true;
                vt_use = c;
                proof {
                    lemma_last_match_range(old_bytes, old_vts, vt_spec);
                    assert(m >= 0 && c == old_vts[m]);
                    assert(old(self).vtables()[m] == c);
                    assert(vtable_ok(old(self).bytes(), old(self).vtables()[m] as int));
                    assert(vtable_ok(old_bytes, c as int));
                    assert(c as int <= old_used);
                }
                self.release_scratch_vtable(vtable_len);
                proof {
                    assert(self.bytes() =~= bytes1) by {
                        assert(self.bytes() == bytes3.subrange(vl_g, ts + vl_g));
                        assert forall|j: int| 0 <= j < bytes1.len() implies bytes3.subrange(
                            vl_g,
                            ts + vl_g,
                        )[j] == bytes1[j] by {
                            assert(bytes3[vl_g + j] == (vt_spec + bytes1)[vl_g + j]);
                        }
                    }
                }
            },
            Option::None => {
                proof {
                    assert(m == -1);
                }
                self.written_vtable_revpos.push(vt_use);
                proof {
                    vt_spec_header_lemma(fs, ts, osz_g);
                    assert(self.bytes() == bytes3);
                    assert(bytes3.subrange(0, vl_g)[0] == vt_spec[0]);
                    assert(bytes3.subrange(0, vl_g)[1] == vt_spec[1]);
                    assert forall|i: int|
                        0 <= i < self.written_vtable_revpos@.len() implies vtable_ok(
                        self.bytes(),
                        (#[trigger] self.written_vtable_revpos@[i]) as int,
                    ) by {
                        if i < old_vts.len() {
                            assert(self.written_vtable_revpos@[i] == old_vts[i]);
                            assert(vtable_ok(bytes3, old_vts[i] as int));
                        } else {
                            assert(self.written_vtable_revpos@[i] as int == ts + vl_g);
                            assert(vt_len_at(bytes3, ts + vl_g) == vl_g);
                        }
                    }
                }
            },
        }

        let ghost cur_bytes = if matched {
            bytes1
        } else {
            bytes3
        };
        proof {
            assert(self.bytes() == cur_bytes);
            assert(ts + vl_g <= FLATBUFFERS_MAX_BUFFER_SIZE as int);
            if matched {
                assert(self.used() - revloc == 0);
                assert(cur_bytes.subrange(0, 4) =~= le32(0xF0F0F0F0u32));
            } else {
                assert(self.used() - revloc == vl_g);
                assert(cur_bytes.subrange(vl_g, vl_g + 4) =~= le32(0xF0F0F0F0u32));
            }
            assert forall|i: int| 0 <= i < self.vtables().len() implies ((
            #[trigger] self.vtables()[i]) as int + 4 <= revloc as int) || (self.used()
                - self.vtables()[i] + vt_len_at(self.bytes(), self.vtables()[i] as int)
                <= self.used() - revloc) by {
                if i < old_vts.len() {
                    assert(self.vtables()[i] == old_vts[i]);
                    assert(old(self).vtables()[i] == old_vts[i]);
                    assert(vtable_ok(old(self).bytes(), old(self).vtables()[i] as int));
                    assert(old_vts[i] as int <= old_used);
                } else {
                    assert(self.vtables()[i] == (ts + vl_g) as u32);
                    assert(vt_len_at(self.bytes(), ts + vl_g) == vl_g);
                }
            }
        }
        self.patch_soffset(revloc, vt_use);
        proof {
            let w = le32(soffset_u32(vt_use as int - revloc as int));
            if matched {
                assert(self.bytes() =~= le32(soffset_u32(vt_use as int - ts)) + zero_bytes(p1)
                    + old_bytes) by {
                    assert(self.bytes() == splice(cur_bytes, 0, w));
                }
            } else {
                assert(self.bytes() =~= vt_spec + le32(soffset_u32(vl_g)) + zero_bytes(p1)
                    + old_bytes) by {
                    assert(self.bytes() == splice(cur_bytes, vl_g, w));
                    assert(soffset_u32(vt_use as int - revloc as int) == soffset_u32(vl_g));
                }
            }
        }
        self.field_locs.clear();
        WIPOffset::new(revloc)
    }

    /// End a Table write: synthesize and deduplicate its vtable, patch the
    /// soffset, clear the tracked fields, and leave the nested state. The
    /// returned handle is the finished table's position. When the vtable is
    /// byte-identical to one already written, the old one is reused and the
    /// count of written vtables does not change; otherwise it grows by one.
    pub fn end_table(&mut self, off: WIPOffset<TableUnfinishedWIPOffset>) -> (r: WIPOffset<
        TableFinishedWIPOffset,
    >)
        requires
            old(self).wf(),
            old(self).is_nested(),
            off.spec_value() as int <= old(self).used(),
            forall|i: int|
                0 <= i < old(self).fields().len() ==> off.spec_value() <= (#[trigger] old(
                    self,
                ).fields()[i]).off,
            table_start_pos(old(self).used()) - off.spec_value() < 0x10000,
            grown_cap(
                old(self).capacity(),
                table_start_pos(old(self).used()) + spec_vtable_len(old(self).fields()),
            ) <= FLATBUFFERS_MAX_BUFFER_SIZE as int,
        ensures
            final(self).wf(),
            !final(self).is_nested(),
            final(self).fields().len() == 0,
            final(self).is_finished() == old(self).is_finished(),
            final(self).min_alignment() == spec_max(old(self).min_alignment(), 4),
            r.spec_value() as int == table_start_pos(old(self).used()),
            ({
                let ts = table_start_pos(old(self).used());
                let p1 = spec_padding(old(self).used() + 4, 4);
                let osz = ts - off.spec_value();
                let vt = spec_vtable(old(self).fields(), ts, osz);
                let vl = spec_vtable_len(old(self).fields());
                let m = last_match(old(self).bytes(), old(self).vtables(), vt);
                if m >= 0 {
                    &&& final(self).used() == ts
                    &&& final(self).bytes() == le32(
                        soffset_u32(old(self).vtables()[m] as int - ts),
                    ) + zero_bytes(p1) + old(self).bytes()
                    &&& final(self).vtables() == old(self).vtables()
                } else {
                    &&& final(self).used() == ts + vl
                    &&& final(self).bytes() == vt + le32(soffset_u32(vl)) + zero_bytes(p1) + old(
                        self,
                    ).bytes()
                    &&& final(self).vtables() == old(self).vtables().push((ts + vl) as u32)
                }
            }),
    {
        let o = self.write_vtable(off);
        self.nested = false;
        WIPOffset::new(o.value())
    }


    /// Start a Vector write: align for the length prefix and for the element
    /// alignment, so the elements land at their natural alignment.
    pub fn start_vector(&mut self, len: usize, elem_size: usize)
        requires
            old(self).wf(),
            !old(self).is_nested(),
            !old(self).is_finished(),
            is_alignment(elem_size as int),
            old(self).used() + len * elem_size + 4 <= FLATBUFFERS_MAX_BUFFER_SIZE as int,
            grown_cap(
                old(self).capacity(),
                old(self).used() + spec_padding(old(self).used() + len * elem_size, 4)
                    + spec_padding(
                    old(self).used() + spec_padding(old(self).used() + len * elem_size, 4) + len
                        * elem_size,
                    elem_size as int,
                ),
            ) <= FLATBUFFERS_MAX_BUFFER_SIZE as int,
        ensures
            final(self).wf(),
            final(self).is_nested(),
            ({
                let pad1 = spec_padding(old(self).used() + len * elem_size, 4);
                let pad2 = spec_padding(
                    old(self).used() + pad1 + len * elem_size,
                    elem_size as int,
                );
                &&& final(self).used() == old(self).used() + pad1 + pad2
                &&& final(self).bytes() == zero_bytes(pad1 + pad2) + old(self).bytes()
                &&& (final(self).used() + len * elem_size) % 4int == 0
                &&& (final(self).used() + len * elem_size) % (elem_size as int) == 0
                &&& final(self).capacity() == grown_cap(
                    old(self).capacity(),
                    old(self).used() + pad1 + pad2,
                )
            }),
            final(self).fields() == old(self).fields(),
            final(self).vtables() == old(self).vtables(),
            final(self).is_finished() == old(self).is_finished(),
            final(self).min_alignment() == spec_max(
                spec_max(old(self).min_alignment(), 4),
                elem_size as int,
            ),
            final(self).capacity() >= old(self).capacity(),
    {
        self.nested = true;
        let ghost u0 = self.used();
        let ghost l = (len * elem_size) as int;
        let ghost pad1 = spec_padding(u0 + l, 4);
        let ghost pad2 = spec_padding(u0 + pad1 + l, elem_size as int);
        proof {
            lemma_grown_cap_bounds(self.capacity(), u0 + pad1 + pad2);
            lemma_grown_cap_chain(self.capacity(), u0 + pad1, u0 + pad1 + pad2);
            crate::primitives::lemma_padding_bounds(u0 + l, 4);
            crate::primitives::lemma_padding_bounds(u0 + pad1 + l, elem_size as int);
        }
        let byte_len = len * elem_size;
        self.align(byte_len, SIZE_UOFFSET);
        self.align(byte_len, elem_size);
        proof {
            if elem_size <= 4 {
                lemma_aligned_weaken(u0 + pad1 + l, elem_size as int, 4);
                assert(spec_padding(u0 + pad1 + l, elem_size as int) == 0) by {
                    assert((u0 + pad1 + l) % (elem_size as int) == 0);
                }
                assert(self.used() == u0 + pad1);
            } else {
                lemma_aligned_weaken(self.used() + l, 4, elem_size as int);
            }
            assert(self.bytes() =~= zero_bytes(pad1 + pad2) + old(self).bytes());
        }
    }

    /// End a Vector write: push the element count as the `u32` length prefix
    /// and return a handle to it.
    pub fn end_vector<T>(&mut self, num_elems: usize) -> (r: WIPOffset<Vector<T>>)
        requires
            old(self).wf(),
            old(self).is_nested(),
            old(self).fields().len() == 0,
            num_elems <= u32::MAX,
            grown_cap(
                old(self).capacity(),
                old(self).used() + spec_padding(old(self).used() + 4, 4) + 4,
            ) <= FLATBUFFERS_MAX_BUFFER_SIZE as int,
        ensures
            final(self).wf(),
            !final(self).is_nested(),
            ({
                let pad = spec_padding(old(self).used() + 4, 4);
                &&& final(self).used() == old(self).used() + pad + 4
                &&& final(self).bytes() == le32(num_elems as u32) + zero_bytes(pad) + old(
                    self,
                ).bytes()
                &&& final(self).used() % 4int == 0
                &&& r.spec_value() as int == final(self).used()
            }),
            final(self).fields() == old(self).fields(),
            final(self).vtables() == old(self).vtables(),
            final(self).is_finished() == old(self).is_finished(),
            final(self).min_alignment() == spec_max(old(self).min_alignment(), 4),
            final(self).capacity() >= old(self).capacity(),
    {
        self.nested = false;
        proof {
            lemma_grown_cap_bounds(
                self.capacity(),
                self.used() + spec_padding(self.used() + 4, 4) + 4,
            );
        }
        let o = self.push::<u32>(num_elems as u32);
        WIPOffset::new(o.value())
    }

    /// Create a utf8 string: its bytes as a zero-terminated byte vector.
    pub fn create_string(&mut self, s: &str) -> (r: WIPOffset<FbString>)
        requires
            old(self).wf(),
            !old(self).is_nested(),
            s.spec_bytes().len() <= FLATBUFFERS_MAX_BUFFER_SIZE as int,
            old(self).used() + s.spec_bytes().len() + 5 <= FLATBUFFERS_MAX_BUFFER_SIZE as int,
            grown_cap(
                old(self).capacity(),
                old(self).used() + spec_padding(old(self).used() + s.spec_bytes().len() + 5, 4)
                    + s.spec_bytes().len() + 5,
            ) <= FLATBUFFERS_MAX_BUFFER_SIZE as int,
        ensures
            final(self).wf(),
            !final(self).is_nested(),
            ({
                let sb = s.spec_bytes();
                let pad = spec_padding(old(self).used() + sb.len() + 5, 4);
                &&& final(self).used() == old(self).used() + pad + sb.len() + 5
                &&& final(self).bytes() == string_wire(sb) + zero_bytes(pad) + old(self).bytes()
                &&& final(self).used() % 4int == 0
                &&& r.spec_value() as int == final(self).used()
            }),
            final(self).fields() == old(self).fields(),
            final(self).vtables() == old(self).vtables(),
            final(self).is_finished() == old(self).is_finished(),
            final(self).min_alignment() == spec_max(old(self).min_alignment(), 4),
            final(self).capacity() >= old(self).capacity(),
    {
        proof {
            lemma_grown_cap_bounds(
                self.capacity(),
                self.used() + spec_padding(self.used() + s.spec_bytes().len() + 5, 4)
                    + s.spec_bytes().len() + 5,
            );
        }
        let z = ZeroTerminatedByteSlice::new(s.as_bytes());
        let o = self.push(z);
        proof {
            assert(string_wire(s.spec_bytes()) == z.wire(self.used()));
        }
        WIPOffset::new(o.value())
    }

    /// Create a zero-terminated byte vector.
    pub fn create_byte_string(&mut self, data: &[u8]) -> (r: WIPOffset<FbByteString>)
        requires
            old(self).wf(),
            !old(self).is_nested(),
            data@.len() <= FLATBUFFERS_MAX_BUFFER_SIZE as int,
            old(self).used() + data@.len() + 5 <= FLATBUFFERS_MAX_BUFFER_SIZE as int,
            grown_cap(
                old(self).capacity(),
                old(self).used() + spec_padding(old(self).used() + data@.len() + 5, 4)
                    + data@.len() + 5,
            ) <= FLATBUFFERS_MAX_BUFFER_SIZE as int,
        ensures
            final(self).wf(),
            !final(self).is_nested(),
            ({
                let pad = spec_padding(old(self).used() + data@.len() + 5, 4);
                &&& final(self).used() == old(self).used() + pad + data@.len() + 5
                &&& final(self).bytes() == string_wire(data@) + zero_bytes(pad) + old(self).bytes()
                &&& final(self).used() % 4int == 0
                &&& r.spec_value() as int == final(self).used()
            }),
            final(self).fields() == old(self).fields(),
            final(self).vtables() == old(self).vtables(),
            final(self).is_finished() == old(self).is_finished(),
            final(self).min_alignment() == spec_max(old(self).min_alignment(), 4),
            final(self).capacity() >= old(self).capacity(),
    {
        proof {
            lemma_grown_cap_bounds(
                self.capacity(),
                self.used() + spec_padding(self.used() + data@.len() + 5, 4) + data@.len() + 5,
            );
        }
        let z = ZeroTerminatedByteSlice::new(data);
        let o = self.push(z);
        proof {
            assert(string_wire(data@) == z.wire(self.used()));
        }
        WIPOffset::new(o.value())
    }

    /// Copy raw bytes to the front of the written data, with no length
    /// prefix and no alignment; used for the file identifier.
    fn push_bytes_unprefixed(&mut self, x: &[u8])
        requires
            old(self).wf(),
            grown_cap(old(self).capacity(), old(self).used() + x@.len())
                <= FLATBUFFERS_MAX_BUFFER_SIZE as int,
        ensures
            final(self).wf(),
            final(self).used() == old(self).used() + x@.len(),
            final(self).bytes() == x@ + old(self).bytes(),
            final(self).capacity() == grown_cap(old(self).capacity(), old(self).used() + x@.len()),
            final(self).fields() == old(self).fields(),
            final(self).vtables() == old(self).vtables(),
            final(self).is_nested() == old(self).is_nested(),
            final(self).is_finished() == old(self).is_finished(),
            final(self).min_alignment() == old(self).min_alignment(),
    {
        let n = x.len();
        self.make_space(n);
        let ghost mid = *self;
        let start = self.head;
        let cap_now = self.owned_buf.len();
        let mut i: usize = 0;
        while i < n
            invariant
                0 <= i <= n,
                n == x@.len(),
                start == self.head,
                start + n <= cap_now,
                cap_now == self.owned_buf@.len(),
                self.owned_buf@.len() == mid.owned_buf@.len(),
                self.head == mid.head,
                forall|j: int|
                    0 <= j < self.owned_buf@.len() && !(start <= j < start + i)
                        ==> self.owned_buf@[j] == mid.owned_buf@[j],
                forall|j: int| 0 <= j < i ==> self.owned_buf@[start + j] == x@[j],
                forall|j: int| 0 <= j < self.head ==> self.owned_buf@[j] == 0u8,
                self.field_locs == mid.field_locs,
                self.written_vtable_revpos == mid.written_vtable_revpos,
                self.nested == mid.nested,
                self.finished == mid.finished,
                self.min_align == mid.min_align,
            decreases n - i,
        {
            let b = x[i];
            self.owned_buf[start + i] = b;
            i += 1;
        }
        proof {
            assert(self.bytes() =~= x@ + old(self).bytes()) by {
                assert forall|j: int| 0 <= j < self.used() implies self.bytes()[j] == (x@ + old(
                    self,
                ).bytes())[j] by {
                    assert(self.bytes()[j] == self.owned_buf@[self.head + j]);
                    if j < n {
                    } else {
                        assert(self.owned_buf@[self.head + j] == mid.owned_buf@[self.head + j]);
                        assert(mid.bytes()[j] == mid.owned_buf@[self.head + j]);
                        assert(mid.bytes() == zero_bytes(n as int) + old(self).bytes());
                    }
                }
            }
            assert forall|i2: int| 0 <= i2 < self.written_vtable_revpos@.len() implies vtable_ok(
                self.bytes(),
                (#[trigger] self.written_vtable_revpos@[i2]) as int,
            ) by {
                lemma_vt_stable(x@, old(self).bytes(), self.written_vtable_revpos@[i2] as int);
            }
        }
    }

    /// Finalize the buffer: align, push the optional identifier, the root
    /// offset and the optional size prefix, and mark the builder finished.
    #[verifier::rlimit(100)]
    fn finish_with_opts<T>(
        &mut self,
        root: WIPOffset<T>,
        file_identifier: Option<&str>,
        size_prefixed: bool,
    )
        requires
            finish_pre(
                *old(self),
                root.spec_value() as int,
                file_identifier.is_some(),
                size_prefixed,
            ),
            match file_identifier {
                Option::Some(s) => s.spec_bytes().len() == 4,
                Option::None => true,
            },
        ensures
            finish_post(
                *old(self),
                *final(self),
                root.spec_value() as int,
                match file_identifier {
                    Option::Some(s) => Option::Some(s.spec_bytes()),
                    Option::None => Option::None,
                },
                size_prefixed,
            ),
    {
        let ghost u0 = self.used();
        let ghost ma = self.min_alignment();
        let ghost b0 = self.bytes();
        let ghost has_ident = file_identifier.is_some();
        let ghost p = finish_header_len(has_ident, size_prefixed);
        let ghost pad1 = spec_padding(u0 + p, ma);
        let ghost u1 = u0 + pad1 + ident_len(has_ident);
        let ghost pad2 = spec_padding(u1 + 4, 4);
        let ghost u2 = u1 + pad2 + 4;
        let ghost fs_total = finish_space(u0, ma, has_ident, size_prefixed);
        self.written_vtable_revpos.clear();
        proof {
            lemma_grown_cap_bounds(self.capacity(), fs_total);
            crate::primitives::lemma_padding_bounds(u0 + p, ma);
            crate::primitives::lemma_padding_bounds(u1 + 4, 4);
            crate::primitives::lemma_grown_cap_mono(self.capacity(), u0 + pad1, fs_total);
        }
        let to_align = {
            let a = SIZE_UOFFSET;
            let b = if size_prefixed {
                SIZE_UOFFSET
            } else {
                0
            };
            let c = if file_identifier.is_some() {
                FILE_IDENTIFIER_LENGTH
            } else {
                0
            };
            a + b + c
        };
        let ma_now = self.min_align;
        self.align(to_align, ma_now);
        proof {
            lemma_grown_cap_chain(old(self).capacity(), u0 + pad1, u1);
            crate::primitives::lemma_grown_cap_mono(old(self).capacity(), u1, fs_total);
        }
        match file_identifier {
            Option::Some(ident) => {
                self.push_bytes_unprefixed(ident.as_bytes());
            },
            Option::None => {},
        }
        proof {
            lemma_grown_cap_chain(old(self).capacity(), u1, u2);
            crate::primitives::lemma_grown_cap_mono(old(self).capacity(), u2, fs_total);
            assert(self.used() == u1);
            assert(self.capacity() == grown_cap(old(self).capacity(), u1));
        }
        let o = self.push(root);
        proof {
            assert(self.used() == u2);
            assert(self.used() % 4int == 0);
        }
        if size_prefixed {
            let sz = self.owned_buf.len() - self.head;
            proof {
                assert(spec_padding(u2 + 4, 4) == 0);
                lemma_grown_cap_chain(old(self).capacity(), u2, fs_total);
            }
            self.push::<u32>(sz as u32);
        }
        self.finished = true;
        proof {
            let identb = match file_identifier {
                Option::Some(s2) => Option::Some(s2.spec_bytes()),
                Option::None => Option::<Seq<u8>>::None,
            };
            assert(self.bytes() =~= finish_image(
                b0,
                ma,
                root.spec_value() as int,
                identb,
                size_prefixed,
            ));
            assert(self.used() == fs_total);
            if ma >= 4 {
                lemma_aligned_weaken(u0 + p + pad1, 4, ma);
                assert((u1 + 4) % 4int == 0);
                assert(pad2 == 0);
                assert(self.used() == u0 + pad1 + p);
                assert(self.used() % ma == 0);
                assert(spec_max(ma, 4) == ma);
            } else {
                lemma_aligned_weaken(self.used(), ma, 4);
                assert(spec_max(ma, 4) == 4);
            }
            assert(self.used() % spec_max(ma, 4) == 0);
        }
    }

    /// Finalize the FlatBuffer: align it, push the optional file identifier,
    /// push a size prefix, and mark the builder finished.
    pub fn finish_size_prefixed<T>(&mut self, root: WIPOffset<T>, file_identifier: Option<&str>)
        requires
            finish_pre(*old(self), root.spec_value() as int, file_identifier.is_some(), true),
            match file_identifier {
                Option::Some(s) => s.spec_bytes().len() == 4,
                Option::None => true,
            },
        ensures
            finish_post(
                *old(self),
                *final(self),
                root.spec_value() as int,
                match file_identifier {
                    Option::Some(s) => Option::Some(s.spec_bytes()),
                    Option::None => Option::None,
                },
                true,
            ),
    {
        self.finish_with_opts(root, file_identifier, true);
    }

    /// Finalize the FlatBuffer: align it, push the optional file identifier,
    /// and mark the builder finished.
    pub fn finish<T>(&mut self, root: WIPOffset<T>, file_identifier: Option<&str>)
        requires
            finish_pre(*old(self), root.spec_value() as int, file_identifier.is_some(), false),
            match file_identifier {
                Option::Some(s) => s.spec_bytes().len() == 4,
                Option::None => true,
            },
        ensures
            finish_post(
                *old(self),
                *final(self),
                root.spec_value() as int,
                match file_identifier {
                    Option::Some(s) => Option::Some(s.spec_bytes()),
                    Option::None => Option::None,
                },
                false,
            ),
    {
        self.finish_with_opts(root, file_identifier, false);
    }

    /// Finalize the FlatBuffer: align it and mark the builder finished.
    pub fn finish_minimal<T>(&mut self, root: WIPOffset<T>)
        requires
            finish_pre(*old(self), root.spec_value() as int, false, false),
        ensures
            finish_post(
                *old(self),
                *final(self),
                root.spec_value() as int,
                Option::None,
                false,
            ),
    {
        self.finish_with_opts(root, Option::None, false);
    }

    /// Reset the builder, reusing the backing buffer: afterwards it is
    /// observably a fresh builder of the same capacity.
    pub fn reset(&mut self)
        requires
            old(self).wf(),
        ensures
            final(self).wf(),
            final(self).observably_fresh(old(self).capacity()),
    {
        let len = self.owned_buf.len();
        let ghost pre = *self;
        let mut z = self.head;
        while z < len
            invariant
                pre.head <= z <= len,
                len == self.owned_buf@.len(),
                self.owned_buf@.len() == pre.owned_buf@.len(),
                self.head == pre.head,
                forall|j: int| 0 <= j < pre.head ==> self.owned_buf@[j] == 0u8,
                forall|j: int| pre.head <= j < z ==> self.owned_buf@[j] == 0u8,
                forall|j: int| 0 <= j < self.head ==> self.owned_buf@[j] == 0u8,
            decreases len - z,
        {
            self.owned_buf[z] = 0u8;
            z += 1;
        }
        self.head = len;
        self.written_vtable_revpos.clear();
        self.field_locs.clear();
        self.nested = false;
        self.finished = false;
        self.min_align = 1;
        proof {
            assert(self.bytes() =~= Seq::<u8>::empty());
        }
    }

    /// Destroy the builder, returning its backing buffer and the index where
    /// the written data starts; the written data is `r.0[r.1..]`.
    pub fn collapse(self) -> (r: (Vec<u8>, usize))
        requires
            self.wf(),
        ensures
            r.1 <= r.0@.len(),
            r.0@.len() == self.capacity(),
            r.0@.subrange(r.1 as int, r.0@.len() as int) == self.bytes(),
    {
        (self.owned_buf, self.head)
    }

    /// The written bytes, finished or not.
    pub fn unfinished_data(&self) -> (r: &[u8])
        requires
            self.wf(),
        ensures
            r@ == self.bytes(),
    {
        vstd::slice::slice_subrange(self.owned_buf.as_slice(), self.head, self.owned_buf.len())
    }

    /// The written bytes of a finished buffer.
    pub fn finished_data(&self) -> (r: &[u8])
        requires
            self.wf(),
            self.is_finished(),
        ensures
            r@ == self.bytes(),
    {
        vstd::slice::slice_subrange(self.owned_buf.as_slice(), self.head, self.owned_buf.len())
    }

    /// Whether a field is present in the just-finished table: dereference
    /// the table's vtable and test that the slot is nonzero. Generated code
    /// uses this to check schema-required fields.
    pub fn required(
        &self,
        tab_revloc: WIPOffset<TableFinishedWIPOffset>,
        slot_byte_loc: VOffsetT,
        _assert_msg_name: &str,
    ) -> (r: bool)
        requires
            self.wf(),
            table_ok(self.bytes(), tab_revloc.spec_value() as int),
        ensures
            r == (vt_slot(
                self.bytes(),
                tab_revloc.spec_value() + soffset_at(self.bytes(), tab_revloc.spec_value() as int),
                slot_byte_loc as int,
            ) != 0),
    {
        let ghost bs = self.bytes();
        let used = self.owned_buf.len() - self.head;
        let tab = tab_revloc.value() as usize;
        let ti = self.head + (used - tab);
        proof {
            assert(bs[used - tab] == self.owned_buf@[ti as int]);
            assert(bs[used - tab + 1] == self.owned_buf@[ti + 1]);
            assert(bs[used - tab + 2] == self.owned_buf@[ti + 2]);
            assert(bs[used - tab + 3] == self.owned_buf@[ti + 3]);
        }
        let so_u = read_u32_at(&self.owned_buf, ti);
        let so: i64 = if so_u < 0x8000_0000 {
            so_u as i64
        } else {
            (so_u as i64) - 0x1_0000_0000
        };
        proof {
            assert(so as int == soffset_at(bs, tab as int));
        }
        let rv: usize = ((tab as i64) + so) as usize;
        let vi = self.head + (used - rv);
        proof {
            assert(vtable_ok(bs, rv as int));
            assert(bs[used - rv] == self.owned_buf@[vi as int]);
            assert(bs[used - rv + 1] == self.owned_buf@[vi + 1]);
        }
        let vtlen = read_u16_at(&self.owned_buf, vi);
        proof {
            assert(vtlen as int == vt_len_at(bs, rv as int));
        }
        if (slot_byte_loc as usize) + 2 > vtlen as usize {
            return false;
        }
        proof {
            assert(bs[used - rv + slot_byte_loc] == self.owned_buf@[vi + slot_byte_loc]);
            assert(bs[used - rv + slot_byte_loc + 1] == self.owned_buf@[vi + slot_byte_loc + 1]);
        }
        let v = read_u16_at(&self.owned_buf, vi + slot_byte_loc as usize);
        v != 0
    }


    /// Create a vector of one-byte elements by copying the slice in as a
    /// single push: `[length: u32][bytes...]`, aligned to 4.
    pub fn create_vector_direct<T: SafeSliceAccess>(&mut self, data: &[T]) -> (r: WIPOffset<
        Vector<T>,
    >)
        requires
            old(self).wf(),
            !old(self).is_nested(),
            old(self).used() + data@.len() + 8 <= FLATBUFFERS_MAX_BUFFER_SIZE as int,
            grown_cap(
                old(self).capacity(),
                old(self).used() + spec_padding(old(self).used() + data@.len() + 4, 4)
                    + data@.len() + 4,
            ) <= FLATBUFFERS_MAX_BUFFER_SIZE as int,
        ensures
            final(self).wf(),
            !final(self).is_nested(),
            ({
                let pad = spec_padding(old(self).used() + data@.len() + 4, 4);
                &&& final(self).used() == old(self).used() + pad + data@.len() + 4
                &&& final(self).bytes() == le32(data@.len() as u32) + Seq::new(
                    data@.len(),
                    |i: int| data@[i].byte_of(),
                ) + zero_bytes(pad) + old(self).bytes()
                &&& final(self).used() % 4int == 0
                &&& r.spec_value() as int == final(self).used()
            }),
            final(self).fields() == old(self).fields(),
            final(self).vtables() == old(self).vtables(),
            final(self).is_finished() == old(self).is_finished(),
            final(self).min_alignment() == spec_max(old(self).min_alignment(), 4),
            final(self).capacity() >= old(self).capacity(),
    {
        let n = data.len();
        let ghost u0 = self.used();
        let ghost pad = spec_padding(u0 + n + 4, 4);
        proof {
            lemma_grown_cap_bounds(self.capacity(), u0 + pad + n + 4);
            lemma_grown_cap_chain(self.capacity(), u0 + pad, u0 + pad + n + 4);
            crate::primitives::lemma_padding_bounds(u0 + n + 4, 4);
        }
        self.align(n + 4, SIZE_UOFFSET);
        self.make_space(n + 4);
        let ghost mid = *self;
        let start = self.head;
        let cap_now = self.owned_buf.len();
        write_u32_at(&mut self.owned_buf, start, n as u32);
        let ghost mid2 = *self;
        let mut i: usize = 0;
        while i < n
            invariant
                0 <= i <= n,
                n == data@.len(),
                start == self.head,
                start + n + 4 <= cap_now,
                cap_now == self.owned_buf@.len(),
                self.owned_buf@.len() == mid2.owned_buf@.len(),
                self.head == mid2.head,
                forall|j: int|
                    0 <= j < self.owned_buf@.len() && !(start + 4 <= j < start + 4 + i)
                        ==> self.owned_buf@[j] == mid2.owned_buf@[j],
                forall|j: int| 0 <= j < i ==> self.owned_buf@[start + 4 + j] == data@[j].byte_of(),
                forall|j: int| 0 <= j < self.head ==> self.owned_buf@[j] == 0u8,
                self.field_locs == mid2.field_locs,
                self.written_vtable_revpos == mid2.written_vtable_revpos,
                self.nested == mid2.nested,
                self.finished == mid2.finished,
                self.min_align == mid2.min_align,
            decreases n - i,
        {
            let b = data[i].to_byte();
            self.owned_buf[start + 4 + i] = b;
            i += 1;
        }
        proof {
            let w = le32(n as u32) + Seq::new(data@.len(), |k: int| data@[k].byte_of());
            assert(self.bytes() =~= w + zero_bytes(pad) + old(self).bytes()) by {
                assert forall|j: int| 0 <= j < self.used() implies self.bytes()[j] == (w
                    + zero_bytes(pad) + old(self).bytes())[j] by {
                    assert(self.bytes()[j] == self.owned_buf@[self.head + j]);
                    if j < 4 {
                        assert(mid2.owned_buf@ == splice(mid.owned_buf@, start as int, le32(
                            n as u32,
                        )));
                        assert(self.owned_buf@[self.head + j] == mid2.owned_buf@[self.head + j]);
                    } else if j < n + 4 {
                    } else {
                        assert(self.owned_buf@[self.head + j] == mid2.owned_buf@[self.head + j]);
                        assert(mid2.owned_buf@ == splice(mid.owned_buf@, start as int, le32(
                            n as u32,
                        )));
                        assert(mid2.owned_buf@[self.head + j] == mid.owned_buf@[self.head + j]);
                        assert(mid.bytes()[j] == mid.owned_buf@[self.head + j]);
                        assert(mid.bytes() == zero_bytes((n + 4) as int) + zero_bytes(pad) + old(
                            self,
                        ).bytes());
                    }
                }
            }
            assert forall|i2: int| 0 <= i2 < self.written_vtable_revpos@.len() implies vtable_ok(
                self.bytes(),
                (#[trigger] self.written_vtable_revpos@[i2]) as int,
            ) by {
                lemma_vt_stable(
                    w + zero_bytes(pad),
                    old(self).bytes(),
                    self.written_vtable_revpos@[i2] as int,
                );
                assert((w + zero_bytes(pad)) + old(self).bytes() =~= w + zero_bytes(pad) + old(
                    self,
                ).bytes());
            }
        }
        let v = self.owned_buf.len() - self.head;
        WIPOffset::new(v as u32)
    }


    /// Create a vector of pushable elements: align once, push the elements
    /// in reverse index order so that element 0 ends nearest the length
    /// prefix, then push the `u32` length prefix.
    #[verifier::rlimit(100)]
    pub fn create_vector<T: VectorElem + Copy>(&mut self, items: &[T]) -> (r: WIPOffset<
        Vector<T::Output>,
    >)
        requires
            old(self).wf(),
            !old(self).is_nested(),
            !old(self).is_finished(),
            old(self).used() + items@.len() * T::spec_elem_size() + 4
                <= FLATBUFFERS_MAX_BUFFER_SIZE as int,
            ({
                let l = items@.len() * T::spec_elem_size();
                let pad1 = spec_padding(old(self).used() + l, 4);
                let pad2 = spec_padding(old(self).used() + pad1 + l, T::spec_elem_size());
                grown_cap(old(self).capacity(), old(self).used() + pad1 + pad2 + l + 4)
                    <= FLATBUFFERS_MAX_BUFFER_SIZE as int
            }),
            forall|i: int|
                0 <= i < items@.len() ==> (#[trigger] items@[i]).fits_at(
                    {
                        let l = items@.len() * T::spec_elem_size();
                        let pad1 = spec_padding(old(self).used() + l, 4);
                        let pad2 = spec_padding(
                            old(self).used() + pad1 + l,
                            T::spec_elem_size(),
                        );
                        old(self).used() + pad1 + pad2 + (items@.len() - i)
                            * T::spec_elem_size()
                    },
                ),
        ensures
            final(self).wf(),
            !final(self).is_nested(),
            ({
                let s = T::spec_elem_size();
                let l = items@.len() * s;
                let pad1 = spec_padding(old(self).used() + l, 4);
                let pad2 = spec_padding(old(self).used() + pad1 + l, s);
                &&& final(self).used() == old(self).used() + pad1 + pad2 + l + 4
                &&& final(self).bytes() == le32(items@.len() as u32) + vector_elems_wire(
                    items@,
                    final(self).used() - 4,
                    s,
                ) + zero_bytes(pad1 + pad2) + old(self).bytes()
                &&& r.spec_value() as int == final(self).used()
                &&& final(self).used() % 4int == 0
            }),
            final(self).fields() == old(self).fields(),
            final(self).vtables() == old(self).vtables(),
            final(self).is_finished() == old(self).is_finished(),
            final(self).capacity() >= old(self).capacity(),
    {
        let elemsize = T::elem_size();
        let n = items.len();
        let ghost s = T::spec_elem_size();
        let ghost u0 = self.used();
        let ghost l = n as int * s;
        let ghost pad1 = spec_padding(u0 + l, 4);
        let ghost pad2 = spec_padding(u0 + pad1 + l, s);
        let ghost u1 = u0 + pad1 + pad2;
        let ghost total = u1 + l + 4;
        proof {
            T::elem_size_wf();
            lemma_grown_cap_bounds(self.capacity(), total);
        }
        proof {
            crate::primitives::lemma_grown_cap_mono(self.capacity(), u1, total);
        }
        self.start_vector(n, elemsize);
        proof {
            lemma_grown_cap_chain(old(self).capacity(), u1, total);
            assert(s * (n as int) == l) by (nonlinear_arith)
                requires
                    l == (n as int) * s,
            ;
            vstd::arithmetic::div_mod::lemma_mod_multiples_vanish(n as int, u1, s);
            assert(u1 % s == 0);
        }
        let mut i = n;
        while i > 0
            invariant
                0 <= i <= n,
                n == items@.len(),
                self.wf(),
                !self.is_nested() == false || true,
                s == T::spec_elem_size(),
                s >= 1,
                is_alignment(s),
                l == n as int * s,
                u1 == u0 + pad1 + pad2,
                total == u1 + l + 4,
                total <= FLATBUFFERS_MAX_BUFFER_SIZE as int,
                self.used() == u1 + (n - i) * s,
                self.used() % s == 0,
                (self.used() + (i as int) * s) % 4int == 0,
                self.is_nested(),
                grown_cap(self.capacity(), total) <= FLATBUFFERS_MAX_BUFFER_SIZE as int,
                self.bytes() == vector_elems_wire(
                    items@.subrange(i as int, n as int),
                    self.used(),
                    s,
                ) + zero_bytes(pad1 + pad2) + old(self).bytes(),
                self.fields() == old(self).fields(),
                self.vtables() == old(self).vtables(),
                self.is_finished() == old(self).is_finished(),
                self.capacity() >= old(self).capacity(),
                forall|k: int|
                    0 <= k < n ==> (#[trigger] items@[k]).fits_at(u1 + (n - k) * s),
            decreases i,
        {
            i -= 1;
            let ghost pre = *self;
            proof {
                items@[i as int].elem_wf();
                items@[i as int].wire_wf(0);
                assert(spec_padding(self.used() + s, s) == 0) by {
                    vstd::arithmetic::div_mod::lemma_add_mod_noop(self.used(), s, s);
                    vstd::arithmetic::div_mod::lemma_mod_self_0(s);
                    crate::primitives::lemma_padding_bounds(self.used() + s, s);
                }
                assert((n - (i as int + 1)) * s + s == (n - i as int) * s) by (nonlinear_arith);
                assert((n - i as int) * s <= l) by (nonlinear_arith)
                    requires
                        0 <= (i as int),
                        (i as int) < (n as int),
                        s >= 1,
                        l == (n as int) * s,
                ;
                assert(self.used() + s <= total);
                crate::primitives::lemma_grown_cap_mono(self.capacity(), self.used() + s, total);
                lemma_grown_cap_chain(self.capacity(), self.used() + s, total);
            }
            let x = items[i];
            self.push(x);
            proof {
                let sub1 = items@.subrange(i as int, n as int);
                let sub0 = items@.subrange(i as int + 1, n as int);
                assert(sub1[0] == items@[i as int]);
                assert(sub1.subrange(1, sub1.len() as int) =~= sub0);
                assert(self.used() == pre.used() + s);
                assert(vector_elems_wire(sub1, self.used(), s) == sub1[0].wire(self.used())
                    + vector_elems_wire(sub0, self.used() - s, s));
                assert(self.bytes() =~= vector_elems_wire(sub1, self.used(), s) + zero_bytes(
                    pad1 + pad2,
                ) + old(self).bytes()) by {
                    assert(self.bytes() == items@[i as int].wire(self.used()) + zero_bytes(0)
                        + pre.bytes());
                    assert(pre.bytes() == vector_elems_wire(sub0, pre.used(), s) + zero_bytes(
                        pad1 + pad2,
                    ) + old(self).bytes());
                }
                assert((self.used() + (i as int) * s) % 4int == 0) by {
                    assert(pre.used() + ((i as int) + 1) * s == self.used() + (i as int) * s)
                        by (nonlinear_arith)
                        requires
                            self.used() == pre.used() + s,
                    ;
                    assert((pre.used() + ((i as int) + 1) * s) % 4int == 0);
                }
            }
        }
        proof {
            assert(items@.subrange(0, n as int) =~= items@);
            assert(self.used() == u1 + l) by {
                assert((n - 0) as int * s == l) by (nonlinear_arith)
                    requires
                        l == (n as int) * s,
                ;
            }
            lemma_grown_cap_chain(self.capacity(), self.used() + spec_padding(self.used() + 4, 4) + 4, total);
            crate::primitives::lemma_grown_cap_mono(self.capacity(), self.used() + spec_padding(self.used() + 4, 4) + 4, total);
            assert(spec_padding(self.used() + 4, 4) == 0) by {
                vstd::arithmetic::div_mod::lemma_add_mod_noop(self.used(), 4, 4);
                vstd::arithmetic::div_mod::lemma_mod_self_0(4);
            }
        }
        proof {
            assert(n as int <= l) by (nonlinear_arith)
                requires
                    s >= 1,
                    l == (n as int) * s,
                    n as int >= 0,
            ;
        }
        let o = self.end_vector::<T::Output>(n);
        proof {
            assert(self.bytes() =~= le32(n as u32) + vector_elems_wire(
                items@,
                self.used() - 4,
                s,
            ) + zero_bytes(pad1 + pad2) + old(self).bytes());
        }
        WIPOffset::new(o.value())
    }

    /// The number of distinct vtables serialized so far, the deduplication
    /// observable.
    pub fn num_written_vtables(&self) -> (r: usize)
        ensures
            r as int == self.vtables().len(),
    {
        self.written_vtable_revpos.len()
    }
}

} // verus!
