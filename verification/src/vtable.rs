//! VTable synthesis: the spec-level byte image of a vtable built from
//! tracked fields, a verified in-place writer for it, and the byte-equality
//! comparison that deduplication uses.

use vstd::prelude::*;

use crate::endian::{le16, lemma_le16_roundtrip, read_u16_at, splice, u16_of_le, write_u16_at};
use crate::primitives::FieldLoc;

verus! {

/// The stored byte length of the vtable whose tail-relative position is `r`.
pub open spec fn vt_len_at(bytes: Seq<u8>, r: int) -> int {
    u16_of_le(bytes[bytes.len() - r], bytes[bytes.len() - r + 1]) as int
}

/// `r` is the tail-relative position of a well-formed vtable region inside
/// the written bytes.
pub open spec fn vtable_ok(bytes: Seq<u8>, r: int) -> bool {
    &&& 4 <= r <= bytes.len()
    &&& 4 <= vt_len_at(bytes, r) <= r
}

/// The byte region of the vtable at tail-relative position `r`.
pub open spec fn vt_bytes_at(bytes: Seq<u8>, r: int) -> Seq<u8> {
    bytes.subrange(bytes.len() - r, bytes.len() - r + vt_len_at(bytes, r))
}

/// Writing more data in front of the tail leaves every vtable region, which
/// is addressed tail-relatively, untouched.
pub proof fn lemma_vt_stable(pre: Seq<u8>, bytes: Seq<u8>, r: int)
    requires
        vtable_ok(bytes, r),
    ensures
        vtable_ok(pre + bytes, r),
        vt_len_at(pre + bytes, r) == vt_len_at(bytes, r),
        vt_bytes_at(pre + bytes, r) == vt_bytes_at(bytes, r),
{
    let nb = pre + bytes;
    assert(nb[nb.len() - r] == bytes[bytes.len() - r]);
    assert(nb[nb.len() - r + 1] == bytes[bytes.len() - r + 1]);
    assert(vt_bytes_at(nb, r) =~= vt_bytes_at(bytes, r));
}

/// The largest field id among the tracked fields (0 when none).
pub open spec fn max_field_id(fs: Seq<FieldLoc>) -> int
    decreases fs.len(),
{
    if fs.len() == 0 {
        0
    } else {
        let m = max_field_id(fs.drop_last());
        if fs.last().id as int > m {
            fs.last().id as int
        } else {
            m
        }
    }
}

/// Every tracked field id is at most the maximum.
pub proof fn lemma_max_field_id_ge(fs: Seq<FieldLoc>, i: int)
    requires
        0 <= i < fs.len(),
    ensures
        fs[i].id as int <= max_field_id(fs),
        max_field_id(fs) >= 0,
    decreases fs.len(),
{
    if i == fs.len() - 1 {
        lemma_max_field_id_nonneg(fs.drop_last());
    } else {
        lemma_max_field_id_ge(fs.drop_last(), i);
    }
}

/// The maximum field id is never negative.
pub proof fn lemma_max_field_id_nonneg(fs: Seq<FieldLoc>)
    ensures
        max_field_id(fs) >= 0,
    decreases fs.len(),
{
    if fs.len() > 0 {
        lemma_max_field_id_nonneg(fs.drop_last());
    }
}

/// The maximum field id is attained by some tracked field.
pub proof fn lemma_max_field_id_in(fs: Seq<FieldLoc>)
    requires
        fs.len() > 0,
    ensures
        exists|i: int| 0 <= i < fs.len() && (#[trigger] fs[i]).id as int == max_field_id(fs),
    decreases fs.len(),
{
    if fs.len() == 1 {
        assert(fs.drop_last().len() == 0);
        assert(max_field_id(fs.drop_last()) == 0);
        assert(fs.last() == fs[0]);
        assert(fs[0].id as int == max_field_id(fs));
    } else {
        let d = fs.drop_last();
        if fs.last().id as int > max_field_id(d) {
            assert(fs[fs.len() - 1].id as int == max_field_id(fs));
        } else {
            lemma_max_field_id_in(d);
            let i = choose|i: int| 0 <= i < d.len() && (#[trigger] d[i]).id as int == max_field_id(d);
            assert(fs[i] == d[i]);
            assert(fs[i].id as int == max_field_id(fs));
        }
    }
}

/// The byte length of the vtable synthesized from the tracked fields: room
/// for the two header words and a slot for every id up to the largest.
pub open spec fn spec_vtable_len(fs: Seq<FieldLoc>) -> int {
    if fs.len() == 0 {
        4
    } else {
        max_field_id(fs) + 2
    }
}

/// The written offset of the first tracked field with id `q`, or -1.
pub open spec fn slot_off(fs: Seq<FieldLoc>, q: int) -> int
    decreases fs.len(),
{
    if fs.len() == 0 {
        -1
    } else if fs[0].id as int == q {
        fs[0].off as int
    } else {
        slot_off(fs.subrange(1, fs.len() as int), q)
    }
}

/// How `slot_off` behaves when one more field is tracked.
pub proof fn lemma_slot_off_push(fs: Seq<FieldLoc>, x: FieldLoc, q: int)
    ensures
        slot_off(fs.push(x), q) == (if slot_off(fs, q) >= 0 {
            slot_off(fs, q)
        } else if x.id as int == q {
            x.off as int
        } else {
            -1
        }),
    decreases fs.len(),
{
    let p = fs.push(x);
    assert(p.len() == fs.len() + 1);
    if fs.len() == 0 {
        assert(p[0] == x);
        assert(p.subrange(1, 1) =~= Seq::<FieldLoc>::empty());
        assert(slot_off(p.subrange(1, 1), q) == -1);
    } else {
        let tail = fs.subrange(1, fs.len() as int);
        assert(p[0] == fs[0]);
        assert(p.subrange(1, fs.len() as int + 1) =~= tail.push(x));
        lemma_slot_off_push(tail, x, q);
        assert(slot_off(p, q) == (if p[0].id as int == q {
            p[0].off as int
        } else {
            slot_off(tail.push(x), q)
        }));
    }
}

/// When no tracked field has id `q`, the slot is absent.
pub proof fn lemma_slot_off_none(fs: Seq<FieldLoc>, q: int)
    requires
        forall|i: int| 0 <= i < fs.len() ==> fs[i].id as int != q,
    ensures
        slot_off(fs, q) == -1,
    decreases fs.len(),
{
    if fs.len() > 0 {
        lemma_slot_off_none(fs.subrange(1, fs.len() as int), q);
    }
}

/// With distinct ids, the slot of a tracked field is its written offset.
pub proof fn lemma_slot_off_found(fs: Seq<FieldLoc>, i: int)
    requires
        0 <= i < fs.len(),
        forall|j: int, k: int| 0 <= j < k < fs.len() ==> fs[j].id != fs[k].id,
    ensures
        slot_off(fs, fs[i].id as int) == fs[i].off as int,
    decreases fs.len(),
{
    if i == 0 {
    } else {
        assert(fs[0].id != fs[i].id);
        let tail = fs.subrange(1, fs.len() as int);
        assert(forall|j: int, k: int| 0 <= j < k < tail.len() ==> tail[j].id != tail[k].id);
        assert(tail[i - 1] == fs[i]);
        lemma_slot_off_found(tail, i - 1);
    }
}

/// The `u16` stored at byte offset `q` of the synthesized vtable.
pub open spec fn vtable_u16(
    fs: Seq<FieldLoc>,
    vtlen: int,
    table_start: int,
    obj_size: int,
    q: int,
) -> u16 {
    if q == 0 {
        vtlen as u16
    } else if q == 2 {
        obj_size as u16
    } else if slot_off(fs, q) >= 0 {
        (table_start - slot_off(fs, q)) as u16
    } else {
        0u16
    }
}

/// The byte image of a vtable of length `vtlen` synthesized from the tracked
/// fields: its own length, the table's inline size, then one little-endian
/// `u16` slot for each even byte offset, holding the distance from table
/// start to the field, or 0 for an absent field.
pub open spec fn spec_vtable_with_len(
    fs: Seq<FieldLoc>,
    vtlen: int,
    table_start: int,
    obj_size: int,
) -> Seq<u8> {
    Seq::new(
        vtlen as nat,
        |i: int|
            {
                let v = vtable_u16(fs, vtlen, table_start, obj_size, 2 * (i / 2));
                if i % 2 == 0 {
                    le16(v)[0]
                } else {
                    le16(v)[1]
                }
            },
    )
}

/// The byte image of the vtable synthesized from the tracked fields.
pub open spec fn spec_vtable(fs: Seq<FieldLoc>, table_start: int, obj_size: int) -> Seq<u8> {
    spec_vtable_with_len(fs, spec_vtable_len(fs), table_start, obj_size)
}

/// The synthesized vtable is as long as its stated length.
pub proof fn vt_spec_len_lemma(fs: Seq<FieldLoc>, ts: int, osz: int)
    ensures
        spec_vtable(fs, ts, osz).len() == spec_vtable_len(fs),
        spec_vtable_len(fs) >= 2,
{
    lemma_max_field_id_nonneg(fs);
}

/// The first two bytes of the synthesized vtable store its length.
pub proof fn vt_spec_header_lemma(fs: Seq<FieldLoc>, ts: int, osz: int)
    requires
        4 <= spec_vtable_len(fs) <= 0xffff,
    ensures
        ({
            let vt = spec_vtable(fs, ts, osz);
            u16_of_le(vt[0], vt[1]) as int == spec_vtable_len(fs)
        }),
{
    let vl = spec_vtable_len(fs);
    let vt = spec_vtable(fs, ts, osz);
    assert(vt[0] == le16(vl as u16)[0]);
    assert(vt[1] == le16(vl as u16)[1]);
    lemma_le16_roundtrip(vl as u16);
}

/// Compute the largest field id among the tracked fields (0 when none).
pub fn max_id_of(fields: &Vec<FieldLoc>) -> (r: u16)
    ensures
        r as int == max_field_id(fields@),
{
    let n = fields.len();
    let mut m: u16 = 0;
    let mut i: usize = 0;
    while i < n
        invariant
            0 <= i <= n,
            n == fields@.len(),
            m as int == max_field_id(fields@.subrange(0, i as int)),
        decreases n - i,
    {
        proof {
            assert(fields@.subrange(0, i + 1).drop_last() =~= fields@.subrange(0, i as int));
            assert(fields@.subrange(0, i + 1).last() == fields@[i as int]);
        }
        let id = fields[i].id;
        if id > m {
            m = id;
        }
        i += 1;
    }
    proof {
        assert(fields@.subrange(0, n as int) =~= fields@);
    }
    m
}

/// Fill a zeroed region of `vtlen` bytes at `at` with the vtable synthesized
/// from the tracked fields.
pub fn write_vtable_region(
    buf: &mut Vec<u8>,
    at: usize,
    vtlen: u16,
    obj_size: u16,
    fields: &Vec<FieldLoc>,
    table_start: u32,
)
    requires
        at + vtlen <= old(buf).len(),
        vtlen as int == spec_vtable_len(fields@),
        forall|i: int| 0 <= i < fields@.len() ==> 4 <= #[trigger] fields@[i].id,
        forall|i: int| 0 <= i < fields@.len() ==> #[trigger] fields@[i].id % 2 == 0,
        forall|i: int| 0 <= i < fields@.len() ==> (#[trigger] fields@[i].off as int)
            < table_start as int,
        forall|i: int| 0 <= i < fields@.len() ==> table_start as int - (
        #[trigger] fields@[i].off as int) < 0x10000,
        forall|j: int, k: int| 0 <= j < k < fields@.len() ==> fields@[j].id != fields@[k].id,
        forall|j: int| at <= j < at + vtlen ==> old(buf)@[j] == 0u8,
    ensures
        final(buf)@ == splice(
            old(buf)@,
            at as int,
            spec_vtable(fields@, table_start as int, obj_size as int),
        ),
        final(buf).len() == old(buf).len(),
{
    let ghost ts = table_start as int;
    let ghost osz = obj_size as int;
    let ghost vl = vtlen as int;
    write_u16_at(buf, at, vtlen);
    write_u16_at(buf, at + 2, obj_size);
    proof {
        assert forall|i: int| 0 <= i < fields@.len() implies (#[trigger] fields@[i].id as int) + 2
            <= vl by {
            lemma_max_field_id_ge(fields@, i);
        }
        assert forall|q: int| true implies slot_off(fields@.subrange(0, 0), q) == -1 by {
            assert(fields@.subrange(0, 0) =~= Seq::<FieldLoc>::empty());
        }
        assert((0u16 & 0xff) as u8 == 0u8) by (bit_vector);
        assert(((0u16 >> 8) & 0xff) as u8 == 0u8) by (bit_vector);
        assert(buf@ =~= splice(
            old(buf)@,
            at as int,
            spec_vtable_with_len(fields@.subrange(0, 0), vl, ts, osz),
        )) by {
            let w0 = spec_vtable_with_len(fields@.subrange(0, 0), vl, ts, osz);
            assert forall|j: int| 0 <= j < buf@.len() implies buf@[j] == splice(
                old(buf)@,
                at as int,
                w0,
            )[j] by {
                if at <= j < at + vl {
                    let p = j - at;
                    assert(2 * (p / 2) <= p < 2 * (p / 2) + 2);
                    if p >= 4 {
                        assert(w0[p] == 0u8);
                        assert(buf@[j] == old(buf)@[j]);
                    }
                }
            }
        }
    }
    let n = fields.len();
    let mut i: usize = 0;
    while i < n
        invariant
            0 <= i <= n,
            n == fields@.len(),
            at + vtlen <= buf.len(),
            buf.len() == old(buf).len(),
            vl == vtlen as int,
            ts == table_start as int,
            osz == obj_size as int,
            vl == spec_vtable_len(fields@),
            vl >= 4,
            forall|k: int| 0 <= k < fields@.len() ==> 4 <= #[trigger] fields@[k].id,
            forall|k: int| 0 <= k < fields@.len() ==> #[trigger] fields@[k].id % 2 == 0,
            forall|k: int| 0 <= k < fields@.len() ==> (#[trigger] fields@[k].id as int) + 2 <= vl,
            forall|k: int| 0 <= k < fields@.len() ==> (#[trigger] fields@[k].off as int) < ts,
            forall|k: int| 0 <= k < fields@.len() ==> ts - (#[trigger] fields@[k].off as int)
                < 0x10000,
            forall|j: int, k: int| 0 <= j < k < fields@.len() ==> fields@[j].id != fields@[k].id,
            buf@ == splice(
                old(buf)@,
                at as int,
                spec_vtable_with_len(fields@.subrange(0, i as int), vl, ts, osz),
            ),
        decreases n - i,
    {
        let id = fields[i].id;
        let off = fields[i].off;
        let v: u16 = (table_start - off) as u16;
        write_u16_at(buf, at + id as usize, v);
        proof {
            let prefix = fields@.subrange(0, i as int);
            let prefix1 = fields@.subrange(0, i + 1);
            let x = fields@[i as int];
            assert(prefix1 =~= prefix.push(x));
            assert forall|q: int| true implies slot_off(prefix1, q) == (if slot_off(prefix, q)
                >= 0 {
                slot_off(prefix, q)
            } else if x.id as int == q {
                x.off as int
            } else {
                -1
            }) by {
                lemma_slot_off_push(prefix, x, q);
            }
            assert forall|k: int| 0 <= k < prefix.len() implies prefix[k].id != x.id by {
                assert(prefix[k] == fields@[k]);
            }
            lemma_slot_off_none(prefix, x.id as int);
            assert(buf@ =~= splice(old(buf)@, at as int, spec_vtable_with_len(prefix1, vl, ts, osz)))
                by {
                assert forall|j: int| 0 <= j < buf@.len() implies buf@[j] == splice(
                    old(buf)@,
                    at as int,
                    spec_vtable_with_len(prefix1, vl, ts, osz),
                )[j] by {
                    let w = spec_vtable_with_len(prefix1, vl, ts, osz);
                    let wp = spec_vtable_with_len(prefix, vl, ts, osz);
                    if at <= j < at + vl {
                        let p = j - at;
                        let q = 2 * (p / 2);
                        if q == x.id as int {
                            assert(p == q || p == q + 1);
                        } else {
                            assert(vtable_u16(prefix1, vl, ts, osz, q) == vtable_u16(
                                prefix,
                                vl,
                                ts,
                                osz,
                                q,
                            ));
                            assert(!(at + x.id as int <= j < at + x.id as int + 2)) by {
                                assert(2 * (p / 2) <= p < 2 * (p / 2) + 2);
                            }
                        }
                    }
                }
            }
        }
        i += 1;
    }
    proof {
        assert(fields@.subrange(0, n as int) =~= fields@);
    }
}

/// Whether the two vtable regions starting at buffer indexes `i1` and `i2`
/// hold identical bytes (their stored lengths included).
pub fn vt_regions_equal(buf: &Vec<u8>, i1: usize, i2: usize) -> (r: bool)
    requires
        i1 + 2 <= buf@.len(),
        i2 + 2 <= buf@.len(),
        i1 + u16_of_le(buf@[i1 as int], buf@[i1 + 1]) <= buf@.len(),
        i2 + u16_of_le(buf@[i2 as int], buf@[i2 + 1]) <= buf@.len(),
    ensures
        r == (buf@.subrange(i1 as int, i1 + u16_of_le(buf@[i1 as int], buf@[i1 + 1]))
            == buf@.subrange(i2 as int, i2 + u16_of_le(buf@[i2 as int], buf@[i2 + 1]))),
{
    let ghost s1 = buf@.subrange(i1 as int, i1 + u16_of_le(buf@[i1 as int], buf@[i1 + 1]));
    let ghost s2 = buf@.subrange(i2 as int, i2 + u16_of_le(buf@[i2 as int], buf@[i2 + 1]));
    let n = buf.len();
    let l1 = read_u16_at(buf, i1);
    let l2 = read_u16_at(buf, i2);
    if l1 != l2 {
        proof {
            assert(s1.len() != s2.len());
        }
        return false;
    }
    let mut j: usize = 0;
    while j < l1 as usize
        invariant
            0 <= j <= l1,
            l1 == l2,
            n == buf@.len(),
            i1 + l1 <= n,
            i2 + l1 <= n,
            l1 == u16_of_le(buf@[i1 as int], buf@[i1 + 1]),
            l2 == u16_of_le(buf@[i2 as int], buf@[i2 + 1]),
            s1 == buf@.subrange(i1 as int, i1 + l1 as int),
            s2 == buf@.subrange(i2 as int, i2 + l2 as int),
            forall|k: int| 0 <= k < j ==> s1[k] == s2[k],
        decreases l1 - j,
    {
        if buf[i1 + j] != buf[i2 + j] {
            proof {
                assert(s1[j as int] != s2[j as int]);
            }
            return false;
        }
        proof {
            assert(s1[j as int] == s2[j as int]);
        }
        j += 1;
    }
    proof {
        assert(s1 =~= s2);
    }
    true
}

} // verus!
