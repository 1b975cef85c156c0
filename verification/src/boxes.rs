//! The box: a length, a four-byte type tag and a payload. Every structure of the
//! container is a box, and a payload may itself be a run of boxes.

use vstd::prelude::*;
use crate::endian::{be_u32, put_bytes, put_u32, read_be_u32};

verus! {

/// Bytes that precede the payload of a box: a 32-bit length and the type tag.
pub const BOX_HEADER_LEN: u32 = 8;

/// The bytes of all `parts`, one part after another.
pub open spec fn concat(parts: Seq<Seq<u8>>) -> Seq<u8>
    decreases parts.len(),
{
    if parts.len() == 0 {
        Seq::empty()
    } else {
        concat(parts.drop_last()) + parts.last()
    }
}

/// What each slice of `parts` holds.
pub open spec fn views(parts: Seq<&[u8]>) -> Seq<Seq<u8>> {
    Seq::new(parts.len(), |i: int| parts[i]@)
}

/// The box of type `tag` around `payload`: the total length as a big-endian
/// 32-bit number, the tag, then the payload.
pub open spec fn spec_box(tag: Seq<u8>, payload: Seq<u8>) -> Seq<u8>
    recommends
        tag.len() == 4,
        BOX_HEADER_LEN + payload.len() <= u32::MAX,
{
    be_u32((BOX_HEADER_LEN + payload.len()) as u32) + tag + payload
}

/// The payload of the first box of type `tag` in `s`, where `s` is read as a run
/// of boxes. `None` where the run ends, or stops being a run of boxes, before
/// such a box is met.
pub open spec fn find_box(s: Seq<u8>, tag: Seq<u8>) -> Option<Seq<u8>>
    decreases s.len(),
{
    if s.len() < BOX_HEADER_LEN {
        None
    } else {
        let size = read_be_u32(s, 0);
        if size < BOX_HEADER_LEN || size > s.len() {
            None
        } else if s.subrange(4, 8) == tag {
            Some(s.subrange(8, size))
        } else {
            find_box(s.subrange(size, s.len() as int), tag)
        }
    }
}

/// The payload of the first box of type `tag` inside the payload `outer`, where
/// there is one.
pub open spec fn find_in(outer: Option<Seq<u8>>, tag: Seq<u8>) -> Option<Seq<u8>> {
    match outer {
        Some(payload) => find_box(payload, tag),
        None => None,
    }
}

/// Adding a part at the end adds its bytes at the end.
pub proof fn lemma_concat_push(parts: Seq<Seq<u8>>, part: Seq<u8>)
    ensures
        concat(parts.push(part)) == concat(parts) + part,
{
    assert(parts.push(part).drop_last() =~= parts);
}

/// The first `i + 1` parts are the first `i` parts and then part `i`.
pub proof fn lemma_concat_take(parts: Seq<Seq<u8>>, i: int)
    requires
        0 <= i < parts.len(),
    ensures
        concat(parts.take(i + 1)) == concat(parts.take(i)) + parts[i],
{
    assert(parts.take(i + 1).drop_last() =~= parts.take(i));
}

/// No prefix of the parts is longer than all of them.
pub proof fn lemma_concat_prefix_len(parts: Seq<Seq<u8>>, i: int)
    requires
        0 <= i <= parts.len(),
    ensures
        concat(parts.take(i)).len() <= concat(parts).len(),
    decreases parts.len() - i,
{
    if i == parts.len() {
        assert(parts.take(i) =~= parts);
    } else {
        lemma_concat_take(parts, i);
        lemma_concat_prefix_len(parts, i + 1);
    }
}

/// The bytes of two runs of parts, one run after the other.
pub proof fn lemma_concat_append(a: Seq<Seq<u8>>, b: Seq<Seq<u8>>)
    ensures
        concat(a + b) == concat(a) + concat(b),
    decreases b.len(),
{
    if b.len() == 0 {
        assert(a + b =~= a);
        assert(concat(a) + concat(b) =~= concat(a));
    } else {
        lemma_concat_append(a, b.drop_last());
        assert((a + b).drop_last() =~= a + b.drop_last());
        assert(concat(a + b) =~= concat(a) + concat(b));
    }
}

/// Parts that all have `len` bytes make `len` bytes each.
pub proof fn lemma_concat_uniform(parts: Seq<Seq<u8>>, len: nat)
    requires
        forall|i: int| 0 <= i < parts.len() ==> (#[trigger] parts[i]).len() == len,
    ensures
        concat(parts).len() == parts.len() * len,
    decreases parts.len(),
{
    if parts.len() > 0 {
        lemma_concat_uniform(parts.drop_last(), len);
        assert(parts.len() * len == (parts.len() - 1) * len + len) by (nonlinear_arith);
    }
}

/// Among parts of `len` bytes each, byte `k` of part `i` is byte `i * len + k`
/// of the whole.
pub proof fn lemma_concat_uniform_index(parts: Seq<Seq<u8>>, len: nat, i: int, k: int)
    requires
        forall|j: int| 0 <= j < parts.len() ==> (#[trigger] parts[j]).len() == len,
        0 <= i < parts.len(),
        0 <= k < len,
    ensures
        0 <= i * len + k < concat(parts).len(),
        concat(parts)[i * len + k] == parts[i][k],
    decreases parts.len(),
{
    let front = parts.drop_last();
    lemma_concat_uniform(parts, len);
    lemma_concat_uniform(front, len);
    assert(i * len + k < parts.len() * len) by (nonlinear_arith)
        requires
            0 <= i < parts.len(),
            0 <= k < len,
    ;
    assert(0 <= i * len + k) by (nonlinear_arith)
        requires
            0 <= i,
            0 <= k,
    ;
    if i == parts.len() - 1 {
        assert(front.len() * len == i * len);
    } else {
        lemma_concat_uniform_index(front, len, i, k);
    }
}

/// One part alone.
pub proof fn lemma_concat_1(a: Seq<u8>)
    ensures
        concat(seq![a]) == a,
{
    lemma_concat_push(Seq::empty(), a);
    assert(seq![a] =~= Seq::<Seq<u8>>::empty().push(a));
    assert(Seq::<u8>::empty() + a =~= a);
}

/// Two parts.
pub proof fn lemma_concat_2(a: Seq<u8>, b: Seq<u8>)
    ensures
        concat(seq![a, b]) == a + b,
{
    lemma_concat_1(a);
    lemma_concat_push(seq![a], b);
    assert(seq![a, b] =~= seq![a].push(b));
}

/// Three parts.
pub proof fn lemma_concat_3(a: Seq<u8>, b: Seq<u8>, c: Seq<u8>)
    ensures
        concat(seq![a, b, c]) == a + b + c,
{
    lemma_concat_2(a, b);
    lemma_concat_push(seq![a, b], c);
    assert(seq![a, b, c] =~= seq![a, b].push(c));
}

/// Four parts.
pub proof fn lemma_concat_4(a: Seq<u8>, b: Seq<u8>, c: Seq<u8>, d: Seq<u8>)
    ensures
        concat(seq![a, b, c, d]) == a + b + c + d,
{
    lemma_concat_3(a, b, c);
    lemma_concat_push(seq![a, b, c], d);
    assert(seq![a, b, c, d] =~= seq![a, b, c].push(d));
}

/// Five parts.
pub proof fn lemma_concat_5(a: Seq<u8>, b: Seq<u8>, c: Seq<u8>, d: Seq<u8>, e: Seq<u8>)
    ensures
        concat(seq![a, b, c, d, e]) == a + b + c + d + e,
{
    lemma_concat_4(a, b, c, d);
    lemma_concat_push(seq![a, b, c, d], e);
    assert(seq![a, b, c, d, e] =~= seq![a, b, c, d].push(e));
}

/// A box declares its own length: its first four bytes, read as a big-endian
/// number, count every byte of the box. The tag and the payload follow unchanged.
pub proof fn lemma_box_layout(tag: Seq<u8>, payload: Seq<u8>)
    requires
        tag.len() == 4,
        BOX_HEADER_LEN + payload.len() <= u32::MAX,
    ensures
        spec_box(tag, payload).len() == BOX_HEADER_LEN + payload.len(),
        read_be_u32(spec_box(tag, payload), 0) == spec_box(tag, payload).len(),
        spec_box(tag, payload).subrange(4, 8) == tag,
        spec_box(tag, payload).subrange(8, spec_box(tag, payload).len() as int) == payload,
{
    let b = spec_box(tag, payload);
    assert(b.subrange(4, 8) =~= tag);
    assert(b.subrange(8, b.len() as int) =~= payload);
}

/// A run that starts with a box of the type looked for yields that box's payload.
pub proof fn lemma_find_box_first(tag: Seq<u8>, payload: Seq<u8>, rest: Seq<u8>)
    requires
        tag.len() == 4,
        BOX_HEADER_LEN + payload.len() <= u32::MAX,
    ensures
        find_box(spec_box(tag, payload) + rest, tag) == Some(payload),
{
    let b = spec_box(tag, payload);
    let s = b + rest;
    lemma_box_layout(tag, payload);
    assert(read_be_u32(s, 0) == read_be_u32(b, 0));
    assert(s.subrange(4, 8) =~= tag);
    assert(s.subrange(8, b.len() as int) =~= payload);
}

/// A box of another type at the start of a run is stepped over.
pub proof fn lemma_find_box_skip(other: Seq<u8>, payload: Seq<u8>, rest: Seq<u8>, tag: Seq<u8>)
    requires
        other.len() == 4,
        other != tag,
        BOX_HEADER_LEN + payload.len() <= u32::MAX,
    ensures
        find_box(spec_box(other, payload) + rest, tag) == find_box(rest, tag),
{
    let b = spec_box(other, payload);
    let s = b + rest;
    lemma_box_layout(other, payload);
    assert(read_be_u32(s, 0) == read_be_u32(b, 0));
    assert(s.subrange(4, 8) =~= other);
    assert(s.subrange(b.len() as int, s.len() as int) =~= rest);
}

/// What each vector of `boxes` holds.
pub open spec fn contents(boxes: Seq<Vec<u8>>) -> Seq<Seq<u8>> {
    Seq::new(boxes.len(), |i: int| boxes[i]@)
}

/// Appends a borrow of each of `boxes` to `parts`.
pub fn push_all<'a>(parts: &mut Vec<&'a [u8]>, boxes: &'a Vec<Vec<u8>>)
    ensures
        views(final(parts)@) == views(old(parts)@) + contents(boxes@),
{
    let mut k: usize = 0;
    while k < boxes.len()
        invariant
            k <= boxes.len(),
            parts@.len() == old(parts)@.len() + k,
            views(parts@) == views(old(parts)@) + contents(boxes@).take(k as int),
        decreases boxes.len() - k,
    {
        let ghost before = parts@;
        parts.push(boxes[k].as_slice());
        k += 1;
        assert forall|j: int| 0 <= j < parts@.len() implies views(parts@)[j] == (views(old(parts)@)
            + contents(boxes@).take(k as int))[j] by {
            if j < before.len() {
                assert(views(before)[j] == before[j]@);
            } else {
                assert(parts@[j]@ == contents(boxes@)[k - 1]);
            }
        }
        assert(views(parts@) =~= views(old(parts)@) + contents(boxes@).take(k as int));
    }
    assert(contents(boxes@).take(k as int) =~= contents(boxes@));
}

/// Builds the box of type `box_type` whose payload is the `payloads`, in order.
///
/// The length field has 32 bits, so the box and all it holds must stay under
/// 4 GiB.
pub fn mp4_box(box_type: &[u8; 4], payloads: Vec<&[u8]>) -> (out: Vec<u8>)
    requires
        BOX_HEADER_LEN + concat(views(payloads@)).len() <= u32::MAX,
    ensures
        out@ == spec_box(box_type@, concat(views(payloads@))),
        out@.len() == BOX_HEADER_LEN + concat(views(payloads@)).len(),
        read_be_u32(out@, 0) == out@.len(),
{
    let ghost parts = views(payloads@);
    let mut size: u32 = BOX_HEADER_LEN;
    let mut i: usize = 0;
    while i < payloads.len()
        invariant
            i <= payloads.len(),
            parts == views(payloads@),
            BOX_HEADER_LEN + concat(parts).len() <= u32::MAX,
            size == BOX_HEADER_LEN + concat(parts.take(i as int)).len(),
        decreases payloads.len() - i,
    {
        proof {
            lemma_concat_take(parts, i as int);
            lemma_concat_prefix_len(parts, i + 1);
        }
        size = size + payloads[i].len() as u32;
        i += 1;
    }
    assert(parts.take(i as int) =~= parts);

    let mut buffer: Vec<u8> = Vec::with_capacity(size as usize);
    put_u32(&mut buffer, size);
    put_bytes(&mut buffer, box_type.as_slice());
    let ghost header = buffer@;
    assert(header =~= be_u32(size) + box_type@);

    let mut k: usize = 0;
    while k < payloads.len()
        invariant
            k <= payloads.len(),
            parts == views(payloads@),
            buffer@ == header + concat(parts.take(k as int)),
        decreases payloads.len() - k,
    {
        proof {
            lemma_concat_take(parts, k as int);
        }
        put_bytes(&mut buffer, payloads[k]);
        k += 1;
        assert(buffer@ =~= header + concat(parts.take(k as int)));
    }
    assert(parts.take(k as int) =~= parts);
    proof {
        lemma_box_layout(box_type@, concat(parts));
    }
    buffer
}

} // verus!
