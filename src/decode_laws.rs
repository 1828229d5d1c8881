use crate::decode::{
    is_group, parse, parse_fields, prepend, value_span, wire_type_of, DecodeError, FieldModel,
    ResultModel, ValueModel, WireType,
};
use crate::wire::{
    group_sum, lemma_varint_encoding_read, lemma_varint_end_bounds, tag_modulus, varint_bits,
    varint_encoding, varint_end, varint_value, wide_modulus,
};
use vstd::arithmetic::div_mod::lemma_small_mod;
use vstd::prelude::*;

verus! {

/// The bytes of a field numbered `field`, wire type length-delimited,
/// carrying `payload`: its tag, the payload's length, then the payload.
pub open spec fn len_field(field: nat, payload: Seq<u8>) -> Seq<u8> {
    varint_encoding(field * 8 + 2) + varint_encoding(payload.len()) + payload
}

/// What decoding `payload` on its own gives at one level less of nesting,
/// where the depth allows a nested attempt at all.
pub open spec fn nested_attempt(payload: Seq<u8>, depth: nat) -> Option<Seq<FieldModel>> {
    if depth > 0 {
        match parse_fields(payload, 0, (depth - 1) as nat) {
            Ok(fields) => Some(fields),
            Err(_) => None,
        }
    } else {
        None
    }
}

/// The field that `len_field(field, payload)` decodes to.
pub open spec fn len_field_model(field: nat, payload: Seq<u8>, depth: nat) -> FieldModel {
    let nested = nested_attempt(payload, depth);
    FieldModel {
        field: field as u32,
        wire_type: WireType::Len,
        is_object: nested is Some,
        value: if nested is Some {
            ValueModel::Nested(ResultModel { fields: nested->0, unprocessed: Seq::empty() })
        } else {
            ValueModel::RawBytes(payload)
        },
    }
}

proof fn lemma_tag_parts(field: nat, code: nat)
    requires
        field < 0x2000_0000,
        code < 8,
    ensures
        (field * 8 + code) % tag_modulus() == field * 8 + code,
        (field * 8 + code) % 8 == code,
        (field * 8 + code) / 8 == field,
{
    lemma_small_mod(field * 8 + code, tag_modulus());
    vstd::arithmetic::div_mod::lemma_fundamental_div_mod_converse(
        (field * 8 + code) as int,
        8,
        field as int,
        code as int,
    );
}

/// A buffer that holds one length-delimited field decodes to that field
/// alone: a nested message where the payload decodes whole at one level
/// less, else the raw payload.
pub proof fn lemma_len_field(field: nat, payload: Seq<u8>, depth: nat)
    requires
        field < 0x2000_0000,
        payload.len() <= usize::MAX,
    ensures
        parse(len_field(field, payload), depth) == Ok::<ResultModel, DecodeError>(
            ResultModel { fields: seq![len_field_model(field, payload, depth)], unprocessed: Seq::empty() },
        ),
{
    let tag = field * 8 + 2;
    let e1 = varint_encoding(tag);
    let e2 = varint_encoding(payload.len());
    let data = len_field(field, payload);
    let a = e1.len() as int;
    let b = e2.len() as int;
    assert(data.subrange(0, a) =~= e1);
    assert(data.subrange(a, a + b) =~= e2);
    assert(data.subrange(a + b, data.len() as int) =~= payload);
    lemma_varint_encoding_read(data, 0, tag);
    lemma_varint_encoding_read(data, a, payload.len());
    lemma_tag_parts(field, 2);
    lemma_small_mod(payload.len(), wide_modulus());
    assert(parse_fields(data, data.len() as int, depth) == Ok::<Seq<FieldModel>, DecodeError>(
        Seq::empty(),
    ));
    assert(seq![len_field_model(field, payload, depth)] + Seq::<FieldModel>::empty() =~= seq![
        len_field_model(field, payload, depth),
    ]);
}

/// A length-delimited field whose payload decodes whole is read as a nested
/// message, equal to what decoding the payload on its own gives.
pub proof fn lemma_nested_payload(field: nat, payload: Seq<u8>, depth: nat)
    requires
        field < 0x2000_0000,
        payload.len() <= usize::MAX,
        depth > 0,
        parse(payload, (depth - 1) as nat) is Ok,
    ensures
        parse(len_field(field, payload), depth) == Ok::<ResultModel, DecodeError>(
            ResultModel {
                fields: seq![
                    FieldModel {
                        field: field as u32,
                        wire_type: WireType::Len,
                        is_object: true,
                        value: ValueModel::Nested(parse(payload, (depth - 1) as nat)->Ok_0),
                    },
                ],
                unprocessed: Seq::empty(),
            },
        ),
{
    lemma_len_field(field, payload, depth);
}

/// A length-delimited field whose payload does not decode as a message is
/// kept as its raw payload, and the decoding of the buffer goes on.
pub proof fn lemma_opaque_payload(field: nat, payload: Seq<u8>, depth: nat)
    requires
        field < 0x2000_0000,
        payload.len() <= usize::MAX,
        depth == 0 || parse(payload, (depth - 1) as nat) is Err,
    ensures
        parse(len_field(field, payload), depth) == Ok::<ResultModel, DecodeError>(
            ResultModel {
                fields: seq![
                    FieldModel {
                        field: field as u32,
                        wire_type: WireType::Len,
                        is_object: false,
                        value: ValueModel::RawBytes(payload),
                    },
                ],
                unprocessed: Seq::empty(),
            },
        ),
{
    lemma_len_field(field, payload, depth);
}

/// The low three bits of a tag survive its truncation to 32 bits.
proof fn lemma_tag_code(tag: nat)
    ensures
        (tag % tag_modulus()) % 8 == tag % 8,
{
    assert(tag_modulus() == 8 * 0x2000_0000);
    vstd::arithmetic::div_mod::lemma_mod_mod(tag as int, 8, 0x2000_0000);
}

/// After fields that decode whole (possibly none), a tag whose wire-type
/// code marks the start or the end of a group stops the decoding with
/// `UnsupportedWireType`, whatever follows it: no partial result is given.
pub proof fn lemma_group_tag(prefix: Seq<u8>, field: nat, code: nat, rest: Seq<u8>, depth: nat)
    requires
        parse(prefix, depth) is Ok,
        code == 3 || code == 4,
    ensures
        parse(prefix + (varint_encoding(field * 8 + code) + rest), depth) == Err::<
            ResultModel,
            DecodeError,
        >(DecodeError::UnsupportedWireType(code as u8)),
{
    let tag = field * 8 + code;
    let enc = varint_encoding(tag);
    let g = enc + rest;
    let data = prefix + g;
    let start = prefix.len() as int;
    lemma_parse_prefix(prefix, g, 0, depth);
    assert(enc.len() >= 1);
    assert(data.subrange(start, start + enc.len()) =~= enc);
    lemma_varint_encoding_read(data, start, tag);
    lemma_tag_code(tag);
    assert(tag % 8 == code) by {
        vstd::arithmetic::div_mod::lemma_fundamental_div_mod_converse(
            tag as int,
            8,
            field as int,
            code as int,
        );
    }
}

/// The bytes of a length-delimited field whose declared length is `length`,
/// followed by `rest`.
pub open spec fn declared_len_field(field: nat, length: nat, rest: Seq<u8>) -> Seq<u8> {
    varint_encoding(field * 8 + 2) + varint_encoding(length) + rest
}

/// After fields that decode whole (possibly none), a length-delimited
/// field that declares more bytes than remain stops the decoding with
/// `BufferExhausted`: no partial result is given.
pub proof fn lemma_length_past_end(
    prefix: Seq<u8>,
    field: nat,
    length: nat,
    rest: Seq<u8>,
    depth: nat,
)
    requires
        parse(prefix, depth) is Ok,
        length < wide_modulus(),
        length > rest.len(),
    ensures
        parse(prefix + declared_len_field(field, length, rest), depth) == Err::<
            ResultModel,
            DecodeError,
        >(DecodeError::BufferExhausted),
{
    let tag = field * 8 + 2;
    let e1 = varint_encoding(tag);
    let e2 = varint_encoding(length);
    let g = declared_len_field(field, length, rest);
    let data = prefix + g;
    let start = prefix.len() as int;
    let a = e1.len() as int;
    let b = e2.len() as int;
    lemma_parse_prefix(prefix, g, 0, depth);
    assert(e1.len() >= 1);
    assert(data.subrange(start, start + a) =~= e1);
    assert(data.subrange(start + a, start + a + b) =~= e2);
    lemma_varint_encoding_read(data, start, tag);
    lemma_varint_encoding_read(data, start + a, length);
    lemma_tag_code(tag);
    assert(tag % 8 == 2) by {
        vstd::arithmetic::div_mod::lemma_fundamental_div_mod_converse(tag as int, 8, field as int, 2);
    }
    lemma_small_mod(length, wide_modulus());
}

/// Such a field inside the payload of an outer length-delimited field does
/// not stop the outer decoding: the outer field keeps its payload raw.
pub proof fn lemma_length_past_end_nested(
    outer: nat,
    field: nat,
    length: nat,
    rest: Seq<u8>,
    depth: nat,
)
    requires
        outer < 0x2000_0000,
        length < wide_modulus(),
        length > rest.len(),
        declared_len_field(field, length, rest).len() <= usize::MAX,
    ensures
        parse(len_field(outer, declared_len_field(field, length, rest)), depth) == Ok::<
            ResultModel,
            DecodeError,
        >(
            ResultModel {
                fields: seq![
                    FieldModel {
                        field: outer as u32,
                        wire_type: WireType::Len,
                        is_object: false,
                        value: ValueModel::RawBytes(declared_len_field(field, length, rest)),
                    },
                ],
                unprocessed: Seq::empty(),
            },
        ),
{
    if depth > 0 {
        let none = Seq::<u8>::empty();
        assert(parse_fields(none, 0, (depth - 1) as nat) == Ok::<Seq<FieldModel>, DecodeError>(
            Seq::empty(),
        ));
        lemma_length_past_end(none, field, length, rest, (depth - 1) as nat);
        assert(none + declared_len_field(field, length, rest) =~= declared_len_field(
            field,
            length,
            rest,
        ));
    }
    lemma_opaque_payload(outer, declared_len_field(field, length, rest), depth);
}

/// Every field that decoding gives is marked as an object exactly when its
/// value is a nested message.
pub proof fn lemma_object_flag(data: Seq<u8>, pos: int, depth: nat)
    ensures
        parse_fields(data, pos, depth) matches Ok(fs) ==> forall|i: int|
            0 <= i < fs.len() ==> (#[trigger] fs[i]).is_object == (fs[i].value is Nested),
    decreases data.len(), data.len() - pos,
{
    if 0 <= pos < data.len() {
        if let Some(p) = varint_end(data, pos) {
            lemma_varint_end_bounds(data, pos);
            lemma_varint_end_bounds(data, p);
            let tag = group_sum(data, pos, p) % tag_modulus();
            if let Some(wt) = wire_type_of(tag % 8) {
                if let (false, Some((s, e))) = (is_group(wt), value_span(data, p, wt)) {
                    lemma_object_flag(data, e, depth);
                    if let Ok(fs) = parse_fields(data, pos, depth) {
                        let rest = parse_fields(data, e, depth)->Ok_0;
                        assert forall|i: int| 0 <= i < fs.len() implies (
                        #[trigger] fs[i]).is_object == (fs[i].value is Nested) by {
                            if i > 0 {
                                assert(fs[i] == rest[i - 1]);
                            }
                        }
                    }
                }
            }
        }
    }
}

/// Groups of bytes that two buffers share sum alike.
proof fn lemma_group_sum_agree(a: Seq<u8>, d: Seq<u8>, i: int, j: int)
    requires
        0 <= i,
        j <= a.len(),
        a.len() <= d.len(),
        forall|k: int| 0 <= k < a.len() ==> d[k] == a[k],
    ensures
        group_sum(d, i, j) == group_sum(a, i, j),
    decreases j - i,
{
    if i < j {
        lemma_group_sum_agree(a, d, i + 1, j);
    }
}

/// A varint that ends within `a` ends at the same place in any buffer that
/// starts with `a`, with the same groups.
proof fn lemma_varint_prefix(a: Seq<u8>, d: Seq<u8>, i: int)
    requires
        0 <= i,
        a.len() <= d.len(),
        forall|k: int| 0 <= k < a.len() ==> d[k] == a[k],
        varint_end(a, i) is Some,
    ensures
        varint_end(d, i) == varint_end(a, i),
        group_sum(d, i, varint_end(a, i)->0) == group_sum(a, i, varint_end(a, i)->0),
    decreases a.len() - i,
{
    lemma_varint_end_bounds(a, i);
    if a[i] >= 128 {
        lemma_varint_prefix(a, d, i + 1);
    }
    lemma_group_sum_agree(a, d, i, varint_end(a, i)->0);
}

/// The fields of `a` from `pos` on, where they decode whole, come first
/// when `a` is followed by other bytes; decoding then goes on after `a`.
pub proof fn lemma_parse_prefix(a: Seq<u8>, b: Seq<u8>, pos: int, depth: nat)
    requires
        0 <= pos <= a.len(),
        parse_fields(a, pos, depth) is Ok,
    ensures
        parse_fields(a + b, pos, depth) == prepend(
            parse_fields(a, pos, depth)->Ok_0,
            parse_fields(a + b, a.len() as int, depth),
        ),
    decreases a.len() - pos,
{
    let d = a + b;
    assert forall|k: int| 0 <= k < a.len() implies d[k] == a[k] by {}
    if pos == a.len() {
        if let Ok(r) = parse_fields(d, pos, depth) {
            assert(Seq::<FieldModel>::empty() + r =~= r);
        }
    } else {
        let p = varint_end(a, pos)->0;
        lemma_varint_prefix(a, d, pos);
        lemma_varint_end_bounds(a, pos);
        let tag = group_sum(a, pos, p) % tag_modulus();
        let wt = wire_type_of(tag % 8)->0;
        let (s, e) = value_span(a, p, wt)->0;
        if wt == WireType::VarInt || wt == WireType::Len {
            lemma_varint_prefix(a, d, p);
            lemma_varint_end_bounds(a, p);
        }
        if wt == WireType::VarInt {
            lemma_group_sum_agree(a, d, s, e);
            assert(varint_value(d, s, e) == varint_value(a, s, e));
        }
        if wt == WireType::Len {
            assert(varint_bits(d, p, s) == varint_bits(a, p, s));
        }
        assert(value_span(d, p, wt) == value_span(a, p, wt));
        assert(d.subrange(s, e) =~= a.subrange(s, e));
        lemma_parse_prefix(a, b, e, depth);
        let fs = parse_fields(a, pos, depth)->Ok_0;
        let rest = parse_fields(a, e, depth)->Ok_0;
        assert(fs == seq![fs[0]] + rest);
        if let Ok(tail) = parse_fields(d, a.len() as int, depth) {
            assert(seq![fs[0]] + (rest + tail) =~= fs + tail);
        }
    }
}

} // verus!
