//! The canonical encoding of descriptor records, and the laws that tie it to
//! the decoder: decoding a canonical stream yields exactly its structural
//! records (so re-encoding the decoded set reproduces the stream minus its
//! annotations), and the decoder fabricates no type positions.
use vstd::prelude::*;
use vstd::utf8::{encode_utf8, encode_utf8_decode_utf8, encode_utf8_valid_utf8};
use crate::descriptors::{
    spec_cardinality_of, spec_dim_of, spec_parse_descriptor, spec_parse_shape_element,
    spec_parse_shape_element_rest, spec_parse_shape_elements, spec_parse_stream,
    spec_parse_strings, spec_parse_tuple_element, spec_parse_tuple_elements, spec_valid_dim,
    Cardinality, DescriptorV, ShapeElementV, TupleElementV, TypePos, Uuid,
};
use crate::encoding::{
    be16, be32, be128, be_nat, lemma_be_nat_bound, lemma_pow256_values, pow256, spec_parse_str,
};
use crate::errors::DecodeError;
use crate::features::ProtocolVersion;

verus! {

/// The `n`-byte big-endian encoding of `x`.
pub open spec fn be_bytes(x: nat, n: nat) -> Seq<u8>
    decreases n,
{
    if n == 0 {
        Seq::empty()
    } else {
        be_bytes(x / 256, (n - 1) as nat) + seq![(x % 256) as u8]
    }
}

pub proof fn lemma_be_bytes_len(x: nat, n: nat)
    ensures
        be_bytes(x, n).len() == n,
    decreases n,
{
    if n > 0 {
        lemma_be_bytes_len(x / 256, (n - 1) as nat);
    }
}

/// Reading back the `n`-byte encoding of a value below 256^n restores it.
pub proof fn lemma_be_nat_of_be_bytes(x: nat, n: nat)
    requires
        x < pow256(n),
    ensures
        be_nat(be_bytes(x, n)) == x,
    decreases n,
{
    if n > 0 {
        lemma_be_bytes_len(x / 256, (n - 1) as nat);
        let whole = be_bytes(x, n);
        assert(whole.drop_last() =~= be_bytes(x / 256, (n - 1) as nat));
        lemma_be_nat_of_be_bytes(x / 256, (n - 1) as nat);
    }
}

/// The bytes of a sequence of encoded pieces, in order.
pub open spec fn concat_bytes(ss: Seq<Seq<u8>>) -> Seq<u8>
    decreases ss.len(),
{
    if ss.len() == 0 {
        Seq::empty()
    } else {
        ss.first() + concat_bytes(ss.drop_first())
    }
}

/// A length-prefixed string: a 32-bit byte length, then the UTF-8 bytes.
pub open spec fn encode_str(s: Seq<char>) -> Seq<u8> {
    be_bytes(encode_utf8(s).len(), 4) + encode_utf8(s)
}

/// A name is encodable when its UTF-8 length fits the 32-bit prefix.
pub open spec fn wf_str(s: Seq<char>) -> bool {
    encode_utf8(s).len() < 0x1_0000_0000
}

/// The flag word a shape element's three booleans stand for.
pub open spec fn spec_flag_word(e: ShapeElementV) -> nat {
    (if e.flag_implicit {
        1nat
    } else {
        0nat
    }) + (if e.flag_link_property {
        2nat
    } else {
        0nat
    }) + (if e.flag_link {
        4nat
    } else {
        0nat
    })
}

/// The wire byte of each cardinality.
pub open spec fn spec_cardinality_byte(c: Cardinality) -> u8 {
    match c {
        Cardinality::NoResult => 0x6e,
        Cardinality::AtMostOne => 0x6f,
        Cardinality::One => 0x41,
        Cardinality::Many => 0x6d,
        Cardinality::AtLeastOne => 0x4d,
    }
}

pub open spec fn encode_shape_element(proto: ProtocolVersion, e: ShapeElementV) -> Seq<u8> {
    if proto.spec_is_at_least(0, 11) {
        be_bytes(spec_flag_word(e), 4) + seq![spec_cardinality_byte(e.cardinality->0)]
            + encode_str(e.name) + be_bytes(e.type_pos.0 as nat, 2)
    } else {
        seq![spec_flag_word(e) as u8] + encode_str(e.name) + be_bytes(e.type_pos.0 as nat, 2)
    }
}

pub open spec fn encode_tuple_element(e: TupleElementV) -> Seq<u8> {
    encode_str(e.name) + be_bytes(e.type_pos.0 as nat, 2)
}

pub open spec fn encode_dim(d: Option<u32>) -> Seq<u8> {
    match d {
        None => be_bytes(0xFFFF_FFFFnat, 4),
        Some(v) => be_bytes(v as nat, 4),
    }
}

/// The canonical byte encoding of one descriptor record.
pub open spec fn encode_descriptor(proto: ProtocolVersion, d: DescriptorV) -> Seq<u8> {
    match d {
        DescriptorV::SetType { id, type_pos } => seq![0u8] + be_bytes(id.0 as nat, 16) + be_bytes(
            type_pos.0 as nat,
            2,
        ),
        DescriptorV::ObjectShape { id, elements } => seq![1u8] + be_bytes(id.0 as nat, 16)
            + be_bytes(elements.len(), 2) + concat_bytes(
            elements.map_values(|e: ShapeElementV| encode_shape_element(proto, e)),
        ),
        DescriptorV::BaseScalar { id } => seq![2u8] + be_bytes(id.0 as nat, 16),
        DescriptorV::Scalar { id, base_type_pos } => seq![3u8] + be_bytes(id.0 as nat, 16)
            + be_bytes(base_type_pos.0 as nat, 2),
        DescriptorV::Tuple { id, element_types } => seq![4u8] + be_bytes(id.0 as nat, 16)
            + be_bytes(element_types.len(), 2) + concat_bytes(
            element_types.map_values(|t: TypePos| be_bytes(t.0 as nat, 2)),
        ),
        DescriptorV::NamedTuple { id, elements } => seq![5u8] + be_bytes(id.0 as nat, 16)
            + be_bytes(elements.len(), 2) + concat_bytes(
            elements.map_values(|e: TupleElementV| encode_tuple_element(e)),
        ),
        DescriptorV::Array { id, type_pos, dimensions } => seq![6u8] + be_bytes(id.0 as nat, 16)
            + be_bytes(type_pos.0 as nat, 2) + be_bytes(dimensions.len(), 2) + concat_bytes(
            dimensions.map_values(|x: Option<u32>| encode_dim(x)),
        ),
        DescriptorV::Range { id, type_pos } => seq![9u8] + be_bytes(id.0 as nat, 16) + be_bytes(
            type_pos.0 as nat,
            2,
        ),
        DescriptorV::Enumeration { id, members } => seq![7u8] + be_bytes(id.0 as nat, 16)
            + be_bytes(members.len(), 2) + concat_bytes(
            members.map_values(|s: Seq<char>| encode_str(s)),
        ),
        DescriptorV::InputShape { id, elements } => seq![8u8] + be_bytes(id.0 as nat, 16)
            + be_bytes(elements.len(), 2) + concat_bytes(
            elements.map_values(|e: ShapeElementV| encode_shape_element(proto, e)),
        ),
        DescriptorV::TypeAnnotation { annotated_type, id, annotation } => seq![annotated_type]
            + be_bytes(id.0 as nat, 16) + encode_str(annotation),
    }
}

/// A shape element is canonical for a protocol when its name is encodable and
/// its cardinality is present exactly when the protocol carries one.
pub open spec fn wf_shape_element(proto: ProtocolVersion, e: ShapeElementV) -> bool {
    &&& wf_str(e.name)
    &&& if proto.spec_is_at_least(0, 11) {
        e.cardinality is Some
    } else {
        e.cardinality is None
    }
}

/// A record is canonical when its counts fit 16 bits, its names are
/// encodable, its dimensions are valid, and an annotation's tag is in the
/// annotation range.
pub open spec fn wf_descriptor(proto: ProtocolVersion, d: DescriptorV) -> bool {
    match d {
        DescriptorV::SetType { .. } => true,
        DescriptorV::ObjectShape { id, elements } => elements.len() < 0x1_0000 && forall|i: int|
            0 <= i < elements.len() ==> wf_shape_element(proto, #[trigger] elements[i]),
        DescriptorV::BaseScalar { .. } => true,
        DescriptorV::Scalar { .. } => true,
        DescriptorV::Tuple { id, element_types } => element_types.len() < 0x1_0000,
        DescriptorV::NamedTuple { id, elements } => elements.len() < 0x1_0000 && forall|i: int|
            0 <= i < elements.len() ==> wf_str((#[trigger] elements[i]).name),
        DescriptorV::Array { id, type_pos, dimensions } => dimensions.len() < 0x1_0000 && forall|
            i: int,
        |
            0 <= i < dimensions.len() ==> match #[trigger] dimensions[i] {
                None => true,
                Some(v) => 1 <= v <= 0x7FFF_FFFFu32,
            },
        DescriptorV::Range { .. } => true,
        DescriptorV::Enumeration { id, members } => members.len() < 0x1_0000 && forall|i: int|
            0 <= i < members.len() ==> wf_str(#[trigger] members[i]),
        DescriptorV::InputShape { id, elements } => elements.len() < 0x1_0000 && forall|i: int|
            0 <= i < elements.len() ==> wf_shape_element(proto, #[trigger] elements[i]),
        DescriptorV::TypeAnnotation { annotated_type, id, annotation } => annotated_type >= 0x7F
            && wf_str(annotation),
    }
}

/// A slice of a slice: the matching piece of the encoded record.
pub proof fn lemma_slice_within(b: Seq<u8>, pos: int, enc: Seq<u8>, a: int, c: int)
    requires
        0 <= pos,
        pos + enc.len() <= b.len(),
        b.subrange(pos, pos + enc.len() as int) == enc,
        0 <= a <= c <= enc.len(),
    ensures
        b.subrange(pos + a, pos + c) == enc.subrange(a, c),
{
    assert(b.subrange(pos + a, pos + c) =~= enc.subrange(a, c)) by {
        assert forall|k: int| 0 <= k < c - a implies b.subrange(pos + a, pos + c)[k]
            == enc.subrange(a, c)[k] by {
            assert(enc[a + k] == b.subrange(pos, pos + enc.len() as int)[a + k]);
        }
    }
}

pub proof fn lemma_byte_within(b: Seq<u8>, pos: int, enc: Seq<u8>, a: int)
    requires
        0 <= pos,
        pos + enc.len() <= b.len(),
        b.subrange(pos, pos + enc.len() as int) == enc,
        0 <= a < enc.len(),
    ensures
        b[pos + a] == enc[a],
{
    assert(enc[a] == b.subrange(pos, pos + enc.len() as int)[a]);
}

/// Indexing a concatenation of 2-byte pieces.
pub proof fn lemma_concat_bytes_2(ss: Seq<Seq<u8>>)
    requires
        forall|i: int| 0 <= i < ss.len() ==> (#[trigger] ss[i]).len() == 2,
    ensures
        concat_bytes(ss).len() == 2 * ss.len(),
        forall|k: int, j: int|
            0 <= k < ss.len() && 0 <= j < 2 ==> concat_bytes(ss)[2 * k + j] == ss[k][j],
    decreases ss.len(),
{
    if ss.len() > 0 {
        let rest = ss.drop_first();
        assert(forall|i: int| 0 <= i < rest.len() ==> (#[trigger] rest[i]).len() == 2);
        lemma_concat_bytes_2(rest);
        assert forall|k: int, j: int| 0 <= k < ss.len() && 0 <= j < 2 implies concat_bytes(ss)[2
            * k + j] == ss[k][j] by {
            if k > 0 {
                assert(concat_bytes(rest)[2 * (k - 1) + j] == rest[k - 1][j]);
            }
        }
    }
}

/// Indexing a concatenation of 4-byte pieces.
pub proof fn lemma_concat_bytes_4(ss: Seq<Seq<u8>>)
    requires
        forall|i: int| 0 <= i < ss.len() ==> (#[trigger] ss[i]).len() == 4,
    ensures
        concat_bytes(ss).len() == 4 * ss.len(),
        forall|k: int, j: int|
            0 <= k < ss.len() && 0 <= j < 4 ==> concat_bytes(ss)[4 * k + j] == ss[k][j],
    decreases ss.len(),
{
    if ss.len() > 0 {
        let rest = ss.drop_first();
        assert(forall|i: int| 0 <= i < rest.len() ==> (#[trigger] rest[i]).len() == 4);
        lemma_concat_bytes_4(rest);
        assert forall|k: int, j: int| 0 <= k < ss.len() && 0 <= j < 4 implies concat_bytes(ss)[4
            * k + j] == ss[k][j] by {
            if k > 0 {
                assert(concat_bytes(rest)[4 * (k - 1) + j] == rest[k - 1][j]);
            }
        }
    }
}

/// Parsing an encoded length-prefixed string restores the characters.
pub proof fn lemma_parse_encoded_str(s: Seq<char>, b: Seq<u8>, pos: int)
    requires
        wf_str(s),
        0 <= pos,
        pos + encode_str(s).len() <= b.len(),
        b.subrange(pos, pos + encode_str(s).len() as int) == encode_str(s),
    ensures
        spec_parse_str(b, pos) == Ok::<(Seq<char>, int), DecodeError>(
            (s, pos + encode_str(s).len()),
        ),
{
    let u = encode_utf8(s);
    let enc = encode_str(s);
    lemma_be_bytes_len(u.len(), 4);
    lemma_pow256_values();
    lemma_be_nat_of_be_bytes(u.len(), 4);
    lemma_slice_within(b, pos, enc, 0, 4);
    assert(b.subrange(pos, pos + 4) =~= be_bytes(u.len(), 4));
    assert(be32(b, pos) == u.len());
    lemma_slice_within(b, pos, enc, 4, enc.len() as int);
    assert(b.subrange(pos + 4, pos + 4 + u.len() as int) =~= u);
    encode_utf8_valid_utf8(s);
    encode_utf8_decode_utf8(s);
}

/// Parsing an encoded shape element restores it.
pub proof fn lemma_parse_encoded_shape_element(
    proto: ProtocolVersion,
    e: ShapeElementV,
    b: Seq<u8>,
    pos: int,
)
    requires
        wf_shape_element(proto, e),
        0 <= pos,
        pos + encode_shape_element(proto, e).len() <= b.len(),
        b.subrange(pos, pos + encode_shape_element(proto, e).len() as int) == encode_shape_element(
            proto,
            e,
        ),
    ensures
        spec_parse_shape_element(proto, b, pos) == Ok::<(ShapeElementV, int), DecodeError>(
            (e, pos + encode_shape_element(proto, e).len()),
        ),
{
    let enc = encode_shape_element(proto, e);
    let w = spec_flag_word(e);
    let iw: u32 = if e.flag_implicit {
        1
    } else {
        0
    };
    let lw: u32 = if e.flag_link_property {
        2
    } else {
        0
    };
    let kw: u32 = if e.flag_link {
        4
    } else {
        0
    };
    let wu: u32 = w as u32;
    assert(wu == iw + lw + kw);
    assert((wu & 0b001u32 != 0) == (iw == 1u32) && (wu & 0b010u32 != 0) == (lw == 2u32) && (wu
        & 0b100u32 != 0) == (kw == 4u32)) by (bit_vector)
        requires
            (iw == 0u32 || iw == 1u32) && (lw == 0u32 || lw == 2u32) && (kw == 0u32 || kw == 4u32)
                && wu == iw + lw + kw,
    ;
    let su = encode_str(e.name);
    lemma_be_bytes_len(encode_utf8(e.name).len(), 4);
    lemma_pow256_values();
    if proto.spec_is_at_least(0, 11) {
        let cb = spec_cardinality_byte(e.cardinality->0);
        lemma_be_bytes_len(w, 4);
        lemma_be_bytes_len(e.type_pos.0 as nat, 2);
        assert(enc.len() == 4 + 1 + su.len() + 2);
        lemma_slice_within(b, pos, enc, 0, 4);
        assert(b.subrange(pos, pos + 4) =~= be_bytes(w, 4));
        lemma_be_nat_of_be_bytes(w, 4);
        assert(be32(b, pos) == w);
        lemma_byte_within(b, pos, enc, 4);
        assert(enc[4] == cb);
        assert(spec_cardinality_of(cb) == Some(e.cardinality->0));
        lemma_slice_within(b, pos, enc, 5, 5 + su.len() as int);
        assert(b.subrange(pos + 5, pos + 5 + su.len() as int) =~= su);
        lemma_parse_encoded_str(e.name, b, pos + 5);
        let p2 = pos + 5 + su.len() as int;
        lemma_slice_within(b, pos, enc, 5 + su.len() as int, enc.len() as int);
        assert(b.subrange(p2, p2 + 2) =~= be_bytes(e.type_pos.0 as nat, 2));
        lemma_be_nat_of_be_bytes(e.type_pos.0 as nat, 2);
        assert(be16(b, p2) == e.type_pos.0);
        assert(spec_parse_shape_element_rest(b, pos + 5, wu, Some(e.cardinality->0))
            == Ok::<(ShapeElementV, int), DecodeError>((e, p2 + 2)));
    } else {
        lemma_be_bytes_len(e.type_pos.0 as nat, 2);
        assert(enc.len() == 1 + su.len() + 2);
        lemma_byte_within(b, pos, enc, 0);
        assert(enc[0] == w as u8);
        assert(b[pos] as u32 == wu);
        lemma_slice_within(b, pos, enc, 1, 1 + su.len() as int);
        assert(b.subrange(pos + 1, pos + 1 + su.len() as int) =~= su);
        lemma_parse_encoded_str(e.name, b, pos + 1);
        let p2 = pos + 1 + su.len() as int;
        lemma_slice_within(b, pos, enc, 1 + su.len() as int, enc.len() as int);
        assert(b.subrange(p2, p2 + 2) =~= be_bytes(e.type_pos.0 as nat, 2));
        lemma_be_nat_of_be_bytes(e.type_pos.0 as nat, 2);
        assert(be16(b, p2) == e.type_pos.0);
        assert(spec_parse_shape_element_rest(b, pos + 1, wu, None)
            == Ok::<(ShapeElementV, int), DecodeError>((e, p2 + 2)));
    }
}

/// Parsing a run of encoded shape elements restores them all.
pub proof fn lemma_parse_encoded_shape_elements(
    proto: ProtocolVersion,
    elems: Seq<ShapeElementV>,
    b: Seq<u8>,
    pos: int,
)
    requires
        forall|i: int| 0 <= i < elems.len() ==> wf_shape_element(proto, #[trigger] elems[i]),
        0 <= pos,
        pos + concat_bytes(elems.map_values(|e: ShapeElementV| encode_shape_element(proto, e))).len()
            <= b.len(),
        b.subrange(
            pos,
            pos + concat_bytes(
                elems.map_values(|e: ShapeElementV| encode_shape_element(proto, e)),
            ).len() as int,
        ) == concat_bytes(elems.map_values(|e: ShapeElementV| encode_shape_element(proto, e))),
    ensures
        spec_parse_shape_elements(proto, b, pos, elems.len()) == Ok::<
            (Seq<ShapeElementV>, int),
            DecodeError,
        >(
            (
                elems,
                pos + concat_bytes(
                    elems.map_values(|e: ShapeElementV| encode_shape_element(proto, e)),
                ).len(),
            ),
        ),
    decreases elems.len(),
{
    let pieces = elems.map_values(|e: ShapeElementV| encode_shape_element(proto, e));
    let enc = concat_bytes(pieces);
    if elems.len() == 0 {
        assert(elems =~= Seq::<ShapeElementV>::empty());
    } else {
        let e0 = elems.first();
        let enc0 = encode_shape_element(proto, e0);
        let rest = elems.drop_first();
        let rest_pieces = rest.map_values(|e: ShapeElementV| encode_shape_element(proto, e));
        assert(pieces.drop_first() =~= rest_pieces);
        assert(enc == enc0 + concat_bytes(rest_pieces));
        let enc_rest = concat_bytes(rest_pieces);
        lemma_slice_within(b, pos, enc, 0, enc0.len() as int);
        assert(b.subrange(pos, pos + enc0.len() as int) =~= enc0);
        lemma_parse_encoded_shape_element(proto, e0, b, pos);
        let p2 = pos + enc0.len() as int;
        lemma_slice_within(b, pos, enc, enc0.len() as int, enc.len() as int);
        assert(b.subrange(p2, p2 + enc_rest.len() as int) =~= enc_rest);
        lemma_parse_encoded_shape_elements(proto, rest, b, p2);
        assert(seq![e0] + rest =~= elems);
    }
}

/// Parsing an encoded named-tuple element restores it.
pub proof fn lemma_parse_encoded_tuple_element(e: TupleElementV, b: Seq<u8>, pos: int)
    requires
        wf_str(e.name),
        0 <= pos,
        pos + encode_tuple_element(e).len() <= b.len(),
        b.subrange(pos, pos + encode_tuple_element(e).len() as int) == encode_tuple_element(e),
    ensures
        spec_parse_tuple_element(b, pos) == Ok::<(TupleElementV, int), DecodeError>(
            (e, pos + encode_tuple_element(e).len()),
        ),
{
    let enc = encode_tuple_element(e);
    let su = encode_str(e.name);
    lemma_be_bytes_len(encode_utf8(e.name).len(), 4);
    lemma_be_bytes_len(e.type_pos.0 as nat, 2);
    lemma_pow256_values();
    assert(enc.len() == su.len() + 2);
    lemma_slice_within(b, pos, enc, 0, su.len() as int);
    assert(b.subrange(pos, pos + su.len() as int) =~= su);
    lemma_parse_encoded_str(e.name, b, pos);
    let p2 = pos + su.len() as int;
    lemma_slice_within(b, pos, enc, su.len() as int, enc.len() as int);
    assert(b.subrange(p2, p2 + 2) =~= be_bytes(e.type_pos.0 as nat, 2));
    lemma_be_nat_of_be_bytes(e.type_pos.0 as nat, 2);
    assert(be16(b, p2) == e.type_pos.0);
}

/// Parsing a run of encoded named-tuple elements restores them all.
pub proof fn lemma_parse_encoded_tuple_elements(elems: Seq<TupleElementV>, b: Seq<u8>, pos: int)
    requires
        forall|i: int| 0 <= i < elems.len() ==> wf_str((#[trigger] elems[i]).name),
        0 <= pos,
        pos + concat_bytes(elems.map_values(|e: TupleElementV| encode_tuple_element(e))).len()
            <= b.len(),
        b.subrange(
            pos,
            pos + concat_bytes(
                elems.map_values(|e: TupleElementV| encode_tuple_element(e)),
            ).len() as int,
        ) == concat_bytes(elems.map_values(|e: TupleElementV| encode_tuple_element(e))),
    ensures
        spec_parse_tuple_elements(b, pos, elems.len()) == Ok::<
            (Seq<TupleElementV>, int),
            DecodeError,
        >(
            (
                elems,
                pos + concat_bytes(
                    elems.map_values(|e: TupleElementV| encode_tuple_element(e)),
                ).len(),
            ),
        ),
    decreases elems.len(),
{
    let pieces = elems.map_values(|e: TupleElementV| encode_tuple_element(e));
    let enc = concat_bytes(pieces);
    if elems.len() == 0 {
        assert(elems =~= Seq::<TupleElementV>::empty());
    } else {
        let e0 = elems.first();
        let enc0 = encode_tuple_element(e0);
        let rest = elems.drop_first();
        let rest_pieces = rest.map_values(|e: TupleElementV| encode_tuple_element(e));
        assert(pieces.drop_first() =~= rest_pieces);
        assert(enc == enc0 + concat_bytes(rest_pieces));
        let enc_rest = concat_bytes(rest_pieces);
        lemma_slice_within(b, pos, enc, 0, enc0.len() as int);
        assert(b.subrange(pos, pos + enc0.len() as int) =~= enc0);
        lemma_parse_encoded_tuple_element(e0, b, pos);
        let p2 = pos + enc0.len() as int;
        lemma_slice_within(b, pos, enc, enc0.len() as int, enc.len() as int);
        assert(b.subrange(p2, p2 + enc_rest.len() as int) =~= enc_rest);
        lemma_parse_encoded_tuple_elements(rest, b, p2);
        assert(seq![e0] + rest =~= elems);
    }
}

/// Parsing a run of encoded strings restores them all.
pub proof fn lemma_parse_encoded_strings(ss: Seq<Seq<char>>, b: Seq<u8>, pos: int)
    requires
        forall|i: int| 0 <= i < ss.len() ==> wf_str(#[trigger] ss[i]),
        0 <= pos,
        pos + concat_bytes(ss.map_values(|s: Seq<char>| encode_str(s))).len() <= b.len(),
        b.subrange(
            pos,
            pos + concat_bytes(ss.map_values(|s: Seq<char>| encode_str(s))).len() as int,
        ) == concat_bytes(ss.map_values(|s: Seq<char>| encode_str(s))),
    ensures
        spec_parse_strings(b, pos, ss.len()) == Ok::<(Seq<Seq<char>>, int), DecodeError>(
            (ss, pos + concat_bytes(ss.map_values(|s: Seq<char>| encode_str(s))).len()),
        ),
    decreases ss.len(),
{
    let pieces = ss.map_values(|s: Seq<char>| encode_str(s));
    let enc = concat_bytes(pieces);
    if ss.len() == 0 {
        assert(ss =~= Seq::<Seq<char>>::empty());
    } else {
        let s0 = ss.first();
        let enc0 = encode_str(s0);
        let rest = ss.drop_first();
        let rest_pieces = rest.map_values(|s: Seq<char>| encode_str(s));
        assert(pieces.drop_first() =~= rest_pieces);
        assert(enc == enc0 + concat_bytes(rest_pieces));
        let enc_rest = concat_bytes(rest_pieces);
        lemma_slice_within(b, pos, enc, 0, enc0.len() as int);
        assert(b.subrange(pos, pos + enc0.len() as int) =~= enc0);
        lemma_parse_encoded_str(s0, b, pos);
        let p2 = pos + enc0.len() as int;
        lemma_slice_within(b, pos, enc, enc0.len() as int, enc.len() as int);
        assert(b.subrange(p2, p2 + enc_rest.len() as int) =~= enc_rest);
        lemma_parse_encoded_strings(rest, b, p2);
        assert(seq![s0] + rest =~= ss);
    }
}

/// Every encoded record is at least a tag and an id long.
pub proof fn lemma_encode_descriptor_len(proto: ProtocolVersion, d: DescriptorV)
    ensures
        encode_descriptor(proto, d).len() >= 17,
{
    match d {
        DescriptorV::SetType { id, type_pos } => {
            lemma_be_bytes_len(id.0 as nat, 16);
            lemma_be_bytes_len(type_pos.0 as nat, 2);
        },
        DescriptorV::ObjectShape { id, elements } => {
            lemma_be_bytes_len(id.0 as nat, 16);
            lemma_be_bytes_len(elements.len(), 2);
        },
        DescriptorV::BaseScalar { id } => {
            lemma_be_bytes_len(id.0 as nat, 16);
        },
        DescriptorV::Scalar { id, base_type_pos } => {
            lemma_be_bytes_len(id.0 as nat, 16);
            lemma_be_bytes_len(base_type_pos.0 as nat, 2);
        },
        DescriptorV::Tuple { id, element_types } => {
            lemma_be_bytes_len(id.0 as nat, 16);
            lemma_be_bytes_len(element_types.len(), 2);
        },
        DescriptorV::NamedTuple { id, elements } => {
            lemma_be_bytes_len(id.0 as nat, 16);
            lemma_be_bytes_len(elements.len(), 2);
        },
        DescriptorV::Array { id, type_pos, dimensions } => {
            lemma_be_bytes_len(id.0 as nat, 16);
            lemma_be_bytes_len(type_pos.0 as nat, 2);
            lemma_be_bytes_len(dimensions.len(), 2);
        },
        DescriptorV::Range { id, type_pos } => {
            lemma_be_bytes_len(id.0 as nat, 16);
            lemma_be_bytes_len(type_pos.0 as nat, 2);
        },
        DescriptorV::Enumeration { id, members } => {
            lemma_be_bytes_len(id.0 as nat, 16);
            lemma_be_bytes_len(members.len(), 2);
        },
        DescriptorV::InputShape { id, elements } => {
            lemma_be_bytes_len(id.0 as nat, 16);
            lemma_be_bytes_len(elements.len(), 2);
        },
        DescriptorV::TypeAnnotation { annotated_type, id, annotation } => {
            lemma_be_bytes_len(id.0 as nat, 16);
            lemma_be_bytes_len(encode_utf8(annotation).len(), 4);
        },
    }
}

/// The id written at offset 1 of an encoded record reads back as itself.
proof fn lemma_uuid_at_encoded(b: Seq<u8>, pos: int, enc: Seq<u8>, id: Uuid)
    requires
        0 <= pos,
        pos + enc.len() <= b.len(),
        b.subrange(pos, pos + enc.len() as int) == enc,
        enc.len() >= 17,
        enc.subrange(1, 17) == be_bytes(id.0 as nat, 16),
    ensures
        crate::descriptors::spec_uuid_at(b, pos + 1) == id,
{
    lemma_slice_within(b, pos, enc, 1, 17);
    lemma_pow256_values();
    lemma_be_nat_of_be_bytes(id.0 as nat, 16);
    assert(be128(b, pos + 1) == id.0);
}

/// Parsing an encoded record restores it exactly.
#[verifier::rlimit(100)]
#[verifier::spinoff_prover]
pub proof fn lemma_parse_encoded_descriptor(
    proto: ProtocolVersion,
    d: DescriptorV,
    b: Seq<u8>,
    pos: int,
)
    requires
        wf_descriptor(proto, d),
        0 <= pos,
        pos + encode_descriptor(proto, d).len() <= b.len(),
        b.subrange(pos, pos + encode_descriptor(proto, d).len() as int) == encode_descriptor(
            proto,
            d,
        ),
    ensures
        spec_parse_descriptor(proto, b, pos) == Ok::<(DescriptorV, int), DecodeError>(
            (d, pos + encode_descriptor(proto, d).len()),
        ),
{
    let enc = encode_descriptor(proto, d);
    lemma_encode_descriptor_len(proto, d);
    lemma_byte_within(b, pos, enc, 0);
    lemma_pow256_values();
    match d {
        DescriptorV::SetType { id, type_pos } => {
            lemma_be_bytes_len(id.0 as nat, 16);
            lemma_be_bytes_len(type_pos.0 as nat, 2);
            assert(enc.subrange(1, 17) =~= be_bytes(id.0 as nat, 16));
            lemma_uuid_at_encoded(b, pos, enc, id);
            lemma_slice_within(b, pos, enc, 17, 19);
            assert(b.subrange(pos + 17, pos + 19) =~= be_bytes(type_pos.0 as nat, 2));
            lemma_be_nat_of_be_bytes(type_pos.0 as nat, 2);
        },
        DescriptorV::BaseScalar { id } => {
            lemma_be_bytes_len(id.0 as nat, 16);
            assert(enc.subrange(1, 17) =~= be_bytes(id.0 as nat, 16));
            lemma_uuid_at_encoded(b, pos, enc, id);
        },
        DescriptorV::Scalar { id, base_type_pos } => {
            lemma_be_bytes_len(id.0 as nat, 16);
            lemma_be_bytes_len(base_type_pos.0 as nat, 2);
            assert(enc.subrange(1, 17) =~= be_bytes(id.0 as nat, 16));
            lemma_uuid_at_encoded(b, pos, enc, id);
            lemma_slice_within(b, pos, enc, 17, 19);
            assert(b.subrange(pos + 17, pos + 19) =~= be_bytes(base_type_pos.0 as nat, 2));
            lemma_be_nat_of_be_bytes(base_type_pos.0 as nat, 2);
        },
        DescriptorV::Range { id, type_pos } => {
            lemma_be_bytes_len(id.0 as nat, 16);
            lemma_be_bytes_len(type_pos.0 as nat, 2);
            assert(enc.subrange(1, 17) =~= be_bytes(id.0 as nat, 16));
            lemma_uuid_at_encoded(b, pos, enc, id);
            lemma_slice_within(b, pos, enc, 17, 19);
            assert(b.subrange(pos + 17, pos + 19) =~= be_bytes(type_pos.0 as nat, 2));
            lemma_be_nat_of_be_bytes(type_pos.0 as nat, 2);
        },
        DescriptorV::ObjectShape { id, elements } => {
            lemma_be_bytes_len(id.0 as nat, 16);
            lemma_be_bytes_len(elements.len(), 2);
            let pieces = elements.map_values(|e: ShapeElementV| encode_shape_element(proto, e));
            assert(enc.subrange(1, 17) =~= be_bytes(id.0 as nat, 16));
            lemma_uuid_at_encoded(b, pos, enc, id);
            lemma_slice_within(b, pos, enc, 17, 19);
            assert(b.subrange(pos + 17, pos + 19) =~= be_bytes(elements.len(), 2));
            lemma_be_nat_of_be_bytes(elements.len(), 2);
            assert(be16(b, pos + 17) == elements.len());
            lemma_slice_within(b, pos, enc, 19, enc.len() as int);
            assert(b.subrange(pos + 19, pos + enc.len() as int) =~= concat_bytes(pieces));
            lemma_parse_encoded_shape_elements(proto, elements, b, pos + 19);
        },
        DescriptorV::InputShape { id, elements } => {
            lemma_be_bytes_len(id.0 as nat, 16);
            lemma_be_bytes_len(elements.len(), 2);
            let pieces = elements.map_values(|e: ShapeElementV| encode_shape_element(proto, e));
            assert(enc.subrange(1, 17) =~= be_bytes(id.0 as nat, 16));
            lemma_uuid_at_encoded(b, pos, enc, id);
            lemma_slice_within(b, pos, enc, 17, 19);
            assert(b.subrange(pos + 17, pos + 19) =~= be_bytes(elements.len(), 2));
            lemma_be_nat_of_be_bytes(elements.len(), 2);
            assert(be16(b, pos + 17) == elements.len());
            lemma_slice_within(b, pos, enc, 19, enc.len() as int);
            assert(b.subrange(pos + 19, pos + enc.len() as int) =~= concat_bytes(pieces));
            lemma_parse_encoded_shape_elements(proto, elements, b, pos + 19);
        },
        DescriptorV::NamedTuple { id, elements } => {
            lemma_be_bytes_len(id.0 as nat, 16);
            lemma_be_bytes_len(elements.len(), 2);
            let pieces = elements.map_values(|e: TupleElementV| encode_tuple_element(e));
            assert(enc.subrange(1, 17) =~= be_bytes(id.0 as nat, 16));
            lemma_uuid_at_encoded(b, pos, enc, id);
            lemma_slice_within(b, pos, enc, 17, 19);
            assert(b.subrange(pos + 17, pos + 19) =~= be_bytes(elements.len(), 2));
            lemma_be_nat_of_be_bytes(elements.len(), 2);
            assert(be16(b, pos + 17) == elements.len());
            lemma_slice_within(b, pos, enc, 19, enc.len() as int);
            assert(b.subrange(pos + 19, pos + enc.len() as int) =~= concat_bytes(pieces));
            lemma_parse_encoded_tuple_elements(elements, b, pos + 19);
        },
        DescriptorV::Enumeration { id, members } => {
            lemma_be_bytes_len(id.0 as nat, 16);
            lemma_be_bytes_len(members.len(), 2);
            let pieces = members.map_values(|s: Seq<char>| encode_str(s));
            assert(enc.subrange(1, 17) =~= be_bytes(id.0 as nat, 16));
            lemma_uuid_at_encoded(b, pos, enc, id);
            lemma_slice_within(b, pos, enc, 17, 19);
            assert(b.subrange(pos + 17, pos + 19) =~= be_bytes(members.len(), 2));
            lemma_be_nat_of_be_bytes(members.len(), 2);
            assert(be16(b, pos + 17) == members.len());
            lemma_slice_within(b, pos, enc, 19, enc.len() as int);
            assert(b.subrange(pos + 19, pos + enc.len() as int) =~= concat_bytes(pieces));
            lemma_parse_encoded_strings(members, b, pos + 19);
        },
        DescriptorV::Tuple { id, element_types } => {
            lemma_be_bytes_len(id.0 as nat, 16);
            lemma_be_bytes_len(element_types.len(), 2);
            let pieces = element_types.map_values(|t: TypePos| be_bytes(t.0 as nat, 2));
            assert forall|i: int| 0 <= i < pieces.len() implies (#[trigger] pieces[i]).len()
                == 2 by {
                lemma_be_bytes_len(element_types[i].0 as nat, 2);
            }
            lemma_concat_bytes_2(pieces);
            assert(enc.subrange(1, 17) =~= be_bytes(id.0 as nat, 16));
            lemma_uuid_at_encoded(b, pos, enc, id);
            lemma_slice_within(b, pos, enc, 17, 19);
            assert(b.subrange(pos + 17, pos + 19) =~= be_bytes(element_types.len(), 2));
            lemma_be_nat_of_be_bytes(element_types.len(), 2);
            let count = element_types.len() as int;
            assert(be16(b, pos + 17) == count);
            assert(enc.len() - 19 == 2 * count);
            assert forall|k: int| 0 <= k < count implies TypePos(
                #[trigger] be16(b, pos + 19 + 2 * k),
            ) == element_types[k] by {
                lemma_slice_within(b, pos, enc, 19 + 2 * k, 19 + 2 * k + 2);
                assert(b.subrange(pos + 19 + 2 * k, pos + 19 + 2 * k + 2) =~= pieces[k]) by {
                    assert forall|j: int| 0 <= j < 2 implies enc.subrange(
                        19 + 2 * k,
                        19 + 2 * k + 2,
                    )[j] == pieces[k][j] by {
                        assert(concat_bytes(pieces)[2 * k + j] == pieces[k][j]);
                        assert(enc[19 + 2 * k + j] == concat_bytes(pieces)[2 * k + j]);
                    }
                }
                lemma_be_nat_of_be_bytes(element_types[k].0 as nat, 2);
            }
            assert(Seq::new(count as nat, |i: int| TypePos(be16(b, pos + 19 + 2 * i)))
                =~= element_types);
        },
        DescriptorV::Array { id, type_pos, dimensions } => {
            lemma_be_bytes_len(id.0 as nat, 16);
            lemma_be_bytes_len(type_pos.0 as nat, 2);
            lemma_be_bytes_len(dimensions.len(), 2);
            let pieces = dimensions.map_values(|x: Option<u32>| encode_dim(x));
            assert forall|i: int| 0 <= i < pieces.len() implies (#[trigger] pieces[i]).len()
                == 4 by {
                match dimensions[i] {
                    None => lemma_be_bytes_len(0xFFFF_FFFFnat, 4),
                    Some(v) => lemma_be_bytes_len(v as nat, 4),
                }
            }
            lemma_concat_bytes_4(pieces);
            assert(enc.subrange(1, 17) =~= be_bytes(id.0 as nat, 16));
            lemma_uuid_at_encoded(b, pos, enc, id);
            lemma_slice_within(b, pos, enc, 17, 19);
            assert(b.subrange(pos + 17, pos + 19) =~= be_bytes(type_pos.0 as nat, 2));
            lemma_be_nat_of_be_bytes(type_pos.0 as nat, 2);
            lemma_slice_within(b, pos, enc, 19, 21);
            assert(b.subrange(pos + 19, pos + 21) =~= be_bytes(dimensions.len(), 2));
            lemma_be_nat_of_be_bytes(dimensions.len(), 2);
            let count = dimensions.len() as int;
            assert(be16(b, pos + 19) == count);
            assert(enc.len() - 21 == 4 * count);
            assert forall|k: int| 0 <= k < count implies spec_valid_dim(
                #[trigger] be32(b, pos + 21 + 4 * k),
            ) && spec_dim_of(be32(b, pos + 21 + 4 * k)) == dimensions[k] by {
                lemma_slice_within(b, pos, enc, 21 + 4 * k, 21 + 4 * k + 4);
                assert(b.subrange(pos + 21 + 4 * k, pos + 21 + 4 * k + 4) =~= pieces[k]) by {
                    assert forall|j: int| 0 <= j < 4 implies enc.subrange(
                        21 + 4 * k,
                        21 + 4 * k + 4,
                    )[j] == pieces[k][j] by {
                        assert(concat_bytes(pieces)[4 * k + j] == pieces[k][j]);
                        assert(enc[21 + 4 * k + j] == concat_bytes(pieces)[4 * k + j]);
                    }
                }
                match dimensions[k] {
                    None => {
                        lemma_be_nat_of_be_bytes(0xFFFF_FFFFnat, 4);
                    },
                    Some(v) => {
                        lemma_be_nat_of_be_bytes(v as nat, 4);
                    },
                }
            }
            assert(Seq::new(count as nat, |i: int| spec_dim_of(be32(b, pos + 21 + 4 * i)))
                =~= dimensions);
        },
        DescriptorV::TypeAnnotation { annotated_type, id, annotation } => {
            lemma_be_bytes_len(id.0 as nat, 16);
            lemma_be_bytes_len(encode_utf8(annotation).len(), 4);
            assert(enc.subrange(1, 17) =~= be_bytes(id.0 as nat, 16));
            lemma_uuid_at_encoded(b, pos, enc, id);
            let su = encode_str(annotation);
            lemma_slice_within(b, pos, enc, 17, enc.len() as int);
            assert(b.subrange(pos + 17, pos + 17 + su.len() as int) =~= su);
            lemma_parse_encoded_str(annotation, b, pos + 17);
        },
    }
}

/// The bytes of a stream of records, back to back.
pub open spec fn encode_stream(proto: ProtocolVersion, s: Seq<DescriptorV>) -> Seq<u8>
    decreases s.len(),
{
    if s.len() == 0 {
        Seq::empty()
    } else {
        encode_descriptor(proto, s.first()) + encode_stream(proto, s.drop_first())
    }
}

/// The structural records of a stream: everything but the annotations.
pub open spec fn structural(s: Seq<DescriptorV>) -> Seq<DescriptorV> {
    s.filter(|d: DescriptorV| !(d matches DescriptorV::TypeAnnotation { .. }))
}

/// Parsing an encoded stream that ends the buffer yields its structural
/// records.
pub proof fn lemma_parse_encoded_stream(
    proto: ProtocolVersion,
    all: Seq<DescriptorV>,
    b: Seq<u8>,
    pos: int,
)
    requires
        forall|i: int| 0 <= i < all.len() ==> wf_descriptor(proto, #[trigger] all[i]),
        0 <= pos,
        pos + encode_stream(proto, all).len() == b.len(),
        b.subrange(pos, b.len() as int) == encode_stream(proto, all),
    ensures
        spec_parse_stream(proto, b, pos) == Ok::<Seq<DescriptorV>, DecodeError>(structural(all)),
    decreases all.len(),
{
    reveal_with_fuel(Seq::<DescriptorV>::filter, 2);
    let pred = |d: DescriptorV| !(d matches DescriptorV::TypeAnnotation { .. });
    if all.len() == 0 {
        assert(pos == b.len());
        assert(Seq::<DescriptorV>::empty().filter(pred) =~= Seq::<DescriptorV>::empty());
        assert(structural(all) =~= Seq::<DescriptorV>::empty());
    } else {
        let d0 = all.first();
        let rest = all.drop_first();
        let enc0 = encode_descriptor(proto, d0);
        let enc_rest = encode_stream(proto, rest);
        let enc = encode_stream(proto, all);
        assert(enc == enc0 + enc_rest);
        lemma_encode_descriptor_len(proto, d0);
        lemma_slice_within(b, pos, enc, 0, enc0.len() as int);
        assert(b.subrange(pos, pos + enc0.len() as int) =~= enc0);
        lemma_parse_encoded_descriptor(proto, d0, b, pos);
        let p2 = pos + enc0.len() as int;
        lemma_slice_within(b, pos, enc, enc0.len() as int, enc.len() as int);
        assert(b.subrange(p2, b.len() as int) =~= enc_rest);
        lemma_parse_encoded_stream(proto, rest, b, p2);
        assert(all =~= seq![d0] + rest);
        Seq::filter_distributes_over_add(seq![d0], rest, pred);
        let single = seq![d0];
        assert(single.drop_last() =~= Seq::<DescriptorV>::empty());
        assert(Seq::<DescriptorV>::empty().filter(pred) =~= Seq::<DescriptorV>::empty());
        assert(single.last() == d0);
        if pred(d0) {
            assert(single.filter(pred) =~= seq![d0]);
        } else {
            assert(single.filter(pred) =~= Seq::<DescriptorV>::empty());
            assert(Seq::<DescriptorV>::empty() + rest.filter(pred) =~= rest.filter(pred));
        }
    }
}

/// Law: decoding a canonical descriptor stream yields exactly its structural
/// records, in order. Re-encoding the decoded set therefore reproduces the
/// stream with its annotation records removed, since those records' bytes are
/// the only ones the kept records' encodings do not cover.
pub proof fn lemma_reencode_round_trip(proto: ProtocolVersion, all: Seq<DescriptorV>)
    requires
        forall|i: int| 0 <= i < all.len() ==> wf_descriptor(proto, #[trigger] all[i]),
    ensures
        spec_parse_stream(proto, encode_stream(proto, all), 0) == Ok::<
            Seq<DescriptorV>,
            DecodeError,
        >(structural(all)),
        encode_stream(proto, structural(all)) == concat_bytes(
            structural(all).map_values(|d: DescriptorV| encode_descriptor(proto, d)),
        ),
{
    let b = encode_stream(proto, all);
    assert(b.subrange(0, b.len() as int) =~= b);
    lemma_parse_encoded_stream(proto, all, b, 0);
    lemma_encode_stream_is_concat(proto, structural(all));
}

/// A stream's bytes are the concatenation of its records' encodings.
pub proof fn lemma_encode_stream_is_concat(proto: ProtocolVersion, s: Seq<DescriptorV>)
    ensures
        encode_stream(proto, s) == concat_bytes(
            s.map_values(|d: DescriptorV| encode_descriptor(proto, d)),
        ),
    decreases s.len(),
{
    if s.len() > 0 {
        lemma_encode_stream_is_concat(proto, s.drop_first());
        assert(s.map_values(|d: DescriptorV| encode_descriptor(proto, d)).drop_first()
            =~= s.drop_first().map_values(|d: DescriptorV| encode_descriptor(proto, d)));
    }
}

/// Whether every type position inside one record is below `n`.
pub open spec fn descriptor_positions_ok(d: DescriptorV, n: int) -> bool {
    match d {
        DescriptorV::SetType { id, type_pos } => type_pos.0 < n,
        DescriptorV::ObjectShape { id, elements } => forall|i: int|
            0 <= i < elements.len() ==> (#[trigger] elements[i]).type_pos.0 < n,
        DescriptorV::BaseScalar { .. } => true,
        DescriptorV::Scalar { id, base_type_pos } => base_type_pos.0 < n,
        DescriptorV::Tuple { id, element_types } => forall|i: int|
            0 <= i < element_types.len() ==> (#[trigger] element_types[i]).0 < n,
        DescriptorV::NamedTuple { id, elements } => forall|i: int|
            0 <= i < elements.len() ==> (#[trigger] elements[i]).type_pos.0 < n,
        DescriptorV::Array { id, type_pos, .. } => type_pos.0 < n,
        DescriptorV::Range { id, type_pos } => type_pos.0 < n,
        DescriptorV::Enumeration { .. } => true,
        DescriptorV::InputShape { id, elements } => forall|i: int|
            0 <= i < elements.len() ==> (#[trigger] elements[i]).type_pos.0 < n,
        DescriptorV::TypeAnnotation { .. } => true,
    }
}

/// Whether every type position inside a descriptor set stays inside the set.
pub open spec fn positions_ok(arr: Seq<DescriptorV>) -> bool {
    forall|i: int|
        0 <= i < arr.len() ==> descriptor_positions_ok(#[trigger] arr[i], arr.len() as int)
}

/// Law: the decoder fabricates no type positions. A decoded set is exactly
/// the stream's structural records, so when an honest producer's positions
/// all point below the structural record count, every position in the decoded
/// set points inside the set.
pub proof fn lemma_decode_preserves_positions(proto: ProtocolVersion, all: Seq<DescriptorV>)
    requires
        forall|i: int| 0 <= i < all.len() ==> wf_descriptor(proto, #[trigger] all[i]),
        positions_ok(structural(all)),
    ensures
        spec_parse_stream(proto, encode_stream(proto, all), 0) matches Ok(arr) && positions_ok(
            arr,
        ),
{
    lemma_reencode_round_trip(proto, all);
}

} // verus!
