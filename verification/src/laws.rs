//! Laws of the builder, stated and proved over the same spec functions its
//! contracts use.

use vstd::prelude::*;

use crate::builder::FlatBufferBuilder;
use crate::endian::{le16, lemma_le16_roundtrip, u16_of_le};
use crate::primitives::FieldLoc;
use crate::vtable::{
    lemma_max_field_id_ge, lemma_slot_off_found, spec_vtable, spec_vtable_len, vtable_u16,
};

verus! {

/// Handle stability: when writing only prepends to the written data (every
/// push does, and growth moves nothing relative to the tail), the last `h`
/// bytes are unchanged, so a tail-relative handle keeps addressing the same
/// bytes across later pushes and across buffer growth.
pub proof fn lemma_tail_stable(pre: Seq<u8>, post: Seq<u8>, h: int)
    requires
        pre.len() <= post.len(),
        post.subrange(post.len() - pre.len(), post.len() as int) == pre,
        0 <= h <= pre.len(),
    ensures
        post.subrange(post.len() - h, post.len() as int) == pre.subrange(
            pre.len() - h,
            pre.len() as int,
        ),
{
    assert(post.subrange(post.len() - h, post.len() as int) =~= pre.subrange(
        pre.len() - h,
        pre.len() as int,
    )) by {
        assert forall|k: int| 0 <= k < h implies #[trigger] post.subrange(
            post.len() - h,
            post.len() as int,
        )[k] == pre.subrange(pre.len() - h, pre.len() as int)[k] by {
            assert(pre[pre.len() - h + k] == post.subrange(
                post.len() - pre.len(),
                post.len() as int,
            )[pre.len() - h + k]);
        }
    }
}

/// Field lookup: the vtable synthesized from tracked fields with distinct
/// ids maps every tracked id to a nonzero slot whose value is the distance
/// from the table start to the field's written position, so adding it to the
/// table start locates the field's bytes.
pub proof fn lemma_vtable_slot_lookup(fs: Seq<FieldLoc>, table_start: int, obj_size: int, i: int)
    requires
        0 <= i < fs.len(),
        forall|j: int, k: int| 0 <= j < k < fs.len() ==> fs[j].id != fs[k].id,
        forall|j: int|
            0 <= j < fs.len() ==> 4 <= (#[trigger] fs[j]).id && fs[j].id % 2 == 0 && fs[j].id
                <= 0xfffc,
        forall|j: int| 0 <= j < fs.len() ==> (#[trigger] fs[j]).off < table_start,
        forall|j: int| 0 <= j < fs.len() ==> table_start - (#[trigger] fs[j]).off < 0x10000,
    ensures
        ({
            let vt = spec_vtable(fs, table_start, obj_size);
            let q = fs[i].id as int;
            &&& q + 2 <= vt.len()
            &&& u16_of_le(vt[q], vt[q + 1]) == table_start - fs[i].off
            &&& u16_of_le(vt[q], vt[q + 1]) != 0
        }),
{
    lemma_max_field_id_ge(fs, i);
    lemma_slot_off_found(fs, i);
    let q = fs[i].id as int;
    let vl = spec_vtable_len(fs);
    let v = vtable_u16(fs, vl, table_start, obj_size, q);
    vstd::arithmetic::div_mod::lemma_fundamental_div_mod(q, 2);
    vstd::arithmetic::div_mod::lemma_fundamental_div_mod(q + 1, 2);
    assert(2 * (q / 2) == q);
    assert(2 * ((q + 1) / 2) == q) by {
        vstd::arithmetic::div_mod::lemma_mod_adds(q, 1, 2);
    }
    let vt = spec_vtable(fs, table_start, obj_size);
    assert(vt[q] == le16(v)[0]);
    assert(vt[q + 1] == le16(v)[1]);
    lemma_le16_roundtrip(v);
    assert(v == (table_start - fs[i].off) as u16);
}

/// Empty tables: when no field differs from its default, the synthesized
/// vtable is just the two header words, so its length is 4.
pub proof fn lemma_empty_vtable(table_start: int, obj_size: int)
    requires
        0 <= obj_size < 0x10000,
    ensures
        spec_vtable_len(Seq::<FieldLoc>::empty()) == 4,
        spec_vtable(Seq::<FieldLoc>::empty(), table_start, obj_size) =~= le16(4u16) + le16(
            obj_size as u16,
        ),
{
    let fs = Seq::<FieldLoc>::empty();
    let vt = spec_vtable(fs, table_start, obj_size);
    assert(vt[0] == le16(4u16)[0]);
    assert(vt[1] == le16(4u16)[1]);
    assert(vt[2] == le16(obj_size as u16)[0]);
    assert(vt[3] == le16(obj_size as u16)[1]);
}

/// Reset idempotence: a reset builder and a fresh builder of the same
/// capacity agree on every observation the builder offers.
pub proof fn lemma_fresh_builders_alike(a: FlatBufferBuilder, b: FlatBufferBuilder, cap: int)
    requires
        a.observably_fresh(cap),
        b.observably_fresh(cap),
    ensures
        a.used() == b.used(),
        a.bytes() == b.bytes(),
        a.vtables().len() == b.vtables().len(),
        a.fields().len() == b.fields().len(),
        a.is_nested() == b.is_nested(),
        a.is_finished() == b.is_finished(),
        a.min_alignment() == b.min_alignment(),
        a.capacity() == b.capacity(),
{
}

} // verus!
