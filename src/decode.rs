use crate::wire::{
    group_sum, lemma_accumulate_step, lemma_group_sum_push, lemma_tag_bits, lemma_varint_end_bounds,
    place,
    tag_modulus, varint_bits, varint_end, varint_value, wide_modulus,
};
use vstd::prelude::*;

verus! {

broadcast use {vstd::std_specs::vec::group_vec_axioms, vstd::seq::group_seq_axioms};

/// The wire type of a field, as carried in the low three bits of its tag.
#[derive(Debug, Clone, Copy, PartialEq, Eq, Structural)]
pub enum WireType {
    /// Variable-length integer (varint).
    VarInt,
    /// Eight fixed bytes.
    I64,
    /// Length-prefixed bytes.
    Len,
    /// Start of a group (recognised, never decoded).
    SGroup,
    /// End of a group (recognised, never decoded).
    EGroup,
    /// Four fixed bytes.
    I32,
}

/// Errors that stop the decoding of one level.
#[derive(Debug, Clone, Copy, PartialEq, Eq, Structural)]
pub enum DecodeError {
    /// The wire-type code of a tag is a group marker or is not defined.
    UnsupportedWireType(u8),
    /// A read asked for more bytes than remain in the buffer.
    BufferExhausted,
}

/// One decoded field.
#[derive(Debug)]
pub struct Decoded {
    /// The field number: the tag shifted right by three bits.
    pub field: u32,
    /// The wire type named by the tag.
    pub wire_type: WireType,
    /// Whether the value was read as a nested message.
    pub is_object: bool,
    /// The value of the field.
    pub value: DecodedValue,
}

/// The value of one decoded field.
#[derive(Debug)]
pub enum DecodedValue {
    /// A varint, accumulated in 128 bits.
    BigInt(i128),
    /// Raw bytes: a fixed-width value, or a length-delimited one that is no message.
    Buffer(Vec<u8>),
    /// A length-delimited value that decodes as a message of its own.
    Nested(DecodingResult),
}

/// The fields of a buffer, in the order met, and the bytes left over.
#[derive(Debug)]
pub struct DecodingResult {
    /// The decoded fields.
    pub fields: Vec<Decoded>,
    /// Bytes not consumed by the field loop.
    pub unprocessed: Vec<u8>,
}

/// The mathematical value of what a field holds.
pub enum ValueModel {
    Integer(int),
    RawBytes(Seq<u8>),
    Nested(ResultModel),
}

/// The mathematical value of a decoded field.
pub struct FieldModel {
    pub field: u32,
    pub wire_type: WireType,
    pub is_object: bool,
    pub value: ValueModel,
}

/// The mathematical value of a decoding result.
pub struct ResultModel {
    pub fields: Seq<FieldModel>,
    pub unprocessed: Seq<u8>,
}

/// The mathematical value of a decoding result.
pub open spec fn result_view(r: DecodingResult) -> ResultModel
    decreases r,
{
    ResultModel { fields: fields_view(r.fields@), unprocessed: r.unprocessed@ }
}

/// The mathematical values of decoded fields, in order.
pub open spec fn fields_view(fs: Seq<Decoded>) -> Seq<FieldModel>
    decreases fs,
{
    if fs.len() == 0 {
        Seq::empty()
    } else {
        fields_view(fs.drop_last()).push(field_view(fs.last()))
    }
}

/// The mathematical value of a decoded field.
pub open spec fn field_view(d: Decoded) -> FieldModel
    decreases d,
{
    FieldModel {
        field: d.field,
        wire_type: d.wire_type,
        is_object: d.is_object,
        value: value_view(d.value),
    }
}

/// The mathematical value of a field's value.
pub open spec fn value_view(v: DecodedValue) -> ValueModel
    decreases v,
{
    match v {
        DecodedValue::BigInt(n) => ValueModel::Integer(n as int),
        DecodedValue::Buffer(b) => ValueModel::RawBytes(b@),
        DecodedValue::Nested(r) => ValueModel::Nested(result_view(r)),
    }
}

/// The wire type that a tag's three low bits name; codes 6 and 7 name none.
pub open spec fn wire_type_of(code: nat) -> Option<WireType> {
    if code == 0 {
        Some(WireType::VarInt)
    } else if code == 1 {
        Some(WireType::I64)
    } else if code == 2 {
        Some(WireType::Len)
    } else if code == 3 {
        Some(WireType::SGroup)
    } else if code == 4 {
        Some(WireType::EGroup)
    } else if code == 5 {
        Some(WireType::I32)
    } else {
        None
    }
}

/// A group marker: a legal wire type whose values are never decoded.
pub open spec fn is_group(wt: WireType) -> bool {
    wt == WireType::SGroup || wt == WireType::EGroup
}

/// Where the value of a field of wire type `wt` whose tag ends at `p` lies:
/// the start and end of the bytes that make the value, or `None` where the
/// buffer ends too early.
pub open spec fn value_span(data: Seq<u8>, p: int, wt: WireType) -> Option<(int, int)> {
    match wt {
        WireType::VarInt => match varint_end(data, p) {
            Some(e) => Some((p, e)),
            None => None,
        },
        WireType::I64 => if p + 8 <= data.len() {
            Some((p, p + 8))
        } else {
            None
        },
        WireType::I32 => if p + 4 <= data.len() {
            Some((p, p + 4))
        } else {
            None
        },
        WireType::Len => match varint_end(data, p) {
            Some(q) => if varint_bits(data, p, q) <= data.len() - q {
                Some((q, q + varint_bits(data, p, q)))
            } else {
                None
            },
            None => None,
        },
        _ => None,
    }
}

/// The fields that `data[pos..]` decodes to, or the error that stops it.
/// A length-delimited payload is read as a nested message where `depth`
/// allows one more level and the payload decodes whole; else it stays raw.
pub open spec fn parse_fields(data: Seq<u8>, pos: int, depth: nat) -> Result<
    Seq<FieldModel>,
    DecodeError,
>
    decreases data.len(), data.len() - pos,
{
    if pos < 0 || data.len() <= pos {
        Ok(Seq::empty())
    } else {
        match varint_end(data, pos) {
            None => Err(DecodeError::BufferExhausted),
            Some(p) => {
                let tag = group_sum(data, pos, p) % tag_modulus();
                match wire_type_of(tag % 8) {
                    None => Err(DecodeError::UnsupportedWireType((tag % 8) as u8)),
                    Some(wt) => if is_group(wt) {
                        Err(DecodeError::UnsupportedWireType((tag % 8) as u8))
                    } else {
                        match value_span(data, p, wt) {
                        None => Err(DecodeError::BufferExhausted),
                        Some((s, e)) => {
                            proof {
                                lemma_varint_end_bounds(data, pos);
                                lemma_varint_end_bounds(data, p);
                            }
                            let payload = data.subrange(s, e);
                            let nested = if wt == WireType::Len && depth > 0 {
                                match parse_fields(payload, 0, (depth - 1) as nat) {
                                    Ok(fields) => Some(fields),
                                    Err(_) => None,
                                }
                            } else {
                                None
                            };
                            let head = FieldModel {
                                field: (tag / 8) as u32,
                                wire_type: wt,
                                is_object: nested is Some,
                                value: if wt == WireType::VarInt {
                                    ValueModel::Integer(varint_value(data, s, e))
                                } else if nested is Some {
                                    ValueModel::Nested(
                                        ResultModel { fields: nested->0, unprocessed: Seq::empty() },
                                    )
                                } else {
                                    ValueModel::RawBytes(payload)
                                },
                            };
                            match parse_fields(data, e, depth) {
                                Ok(rest) => Ok(seq![head] + rest),
                                Err(err) => Err(err),
                            }
                        },
                    }
                    },
                }
            },
        }
    }
}

/// What decoding all of `data` gives, nesting at most `depth` levels.
pub open spec fn parse(data: Seq<u8>, depth: nat) -> Result<ResultModel, DecodeError> {
    match parse_fields(data, 0, depth) {
        Ok(fields) => Ok(ResultModel { fields, unprocessed: Seq::empty() }),
        Err(err) => Err(err),
    }
}

/// The fields of `prefix` put before what `r` decoded, or the error of `r`.
pub open spec fn prepend(prefix: Seq<FieldModel>, r: Result<Seq<FieldModel>, DecodeError>) -> Result<
    Seq<FieldModel>,
    DecodeError,
> {
    match r {
        Ok(rest) => Ok(prefix + rest),
        Err(err) => Err(err),
    }
}

/// How many levels of nested messages a decoder made by `Decoder::new` reads.
pub const DEFAULT_MAX_DEPTH: usize = 64;

impl WireType {
    /// The wire type of a tag's three low bits. The group markers 3 and 4
    /// are accepted here; their values are refused when decoded.
    pub fn from_u8(value: u8) -> (r: Result<Self, DecodeError>)
        ensures
            r == (match wire_type_of(value as nat) {
                Some(wt) => Ok(wt),
                None => Err(DecodeError::UnsupportedWireType(value)),
            }),
    {
        match value {
            0 => Ok(WireType::VarInt),
            1 => Ok(WireType::I64),
            2 => Ok(WireType::Len),
            3 => Ok(WireType::SGroup),
            4 => Ok(WireType::EGroup),
            5 => Ok(WireType::I32),
            _ => Err(DecodeError::UnsupportedWireType(value)),
        }
    }
}

/// A cursor over a buffer that decodes it into fields.
#[derive(Debug)]
pub struct Decoder {
    data: Vec<u8>,
    idx: usize,
    max_depth: usize,
}

impl Decoder {
    /// The buffer being decoded.
    pub closed spec fn bytes(&self) -> Seq<u8> {
        self.data@
    }

    /// The position of the next unread byte.
    pub closed spec fn pos(&self) -> nat {
        self.idx as nat
    }

    /// How many levels of nested messages this decoder reads.
    pub closed spec fn depth(&self) -> nat {
        self.max_depth as nat
    }

    /// The position lies within the buffer.
    pub closed spec fn wf(&self) -> bool {
        self.idx <= self.data@.len()
    }

    /// A decoder at the start of `data`, reading nested messages down to
    /// `DEFAULT_MAX_DEPTH` levels.
    pub fn new(data: Vec<u8>) -> (r: Self)
        ensures
            r.wf(),
            r.bytes() == data@,
            r.pos() == 0,
            r.depth() == DEFAULT_MAX_DEPTH,
    {
        Self { data, idx: 0, max_depth: DEFAULT_MAX_DEPTH }
    }

    /// A decoder at the start of `data`, reading nested messages down to
    /// `max_depth` levels: a length-delimited value below that is kept raw.
    pub fn with_max_depth(data: Vec<u8>, max_depth: usize) -> (r: Self)
        ensures
            r.wf(),
            r.bytes() == data@,
            r.pos() == 0,
            r.depth() == max_depth,
    {
        Self { data, idx: 0, max_depth }
    }

    /// Reads the next byte and moves past it.
    pub fn next_byte(&mut self) -> (r: Result<u8, DecodeError>)
        requires
            old(self).wf(),
        ensures
            final(self).wf(),
            final(self).bytes() == old(self).bytes(),
            final(self).depth() == old(self).depth(),
            old(self).pos() < old(self).bytes().len() ==> r == Ok::<u8, DecodeError>(
                old(self).bytes()[old(self).pos() as int],
            ) && final(self).pos() == old(self).pos() + 1,
            old(self).pos() >= old(self).bytes().len() ==> r == Err::<u8, DecodeError>(
                DecodeError::BufferExhausted,
            ) && final(self).pos() == old(self).pos(),
    {
        if self.idx < self.data.len() {
            let byte = self.data[self.idx];
            self.idx = self.idx + 1;
            Ok(byte)
        } else {
            Err(DecodeError::BufferExhausted)
        }
    }

    /// Reads the varint at the position and returns its groups accumulated
    /// in 128 bits, unsigned.
    fn next_varint_bits(&mut self) -> (r: Result<u128, DecodeError>)
        requires
            old(self).wf(),
        ensures
            final(self).wf(),
            final(self).bytes() == old(self).bytes(),
            final(self).depth() == old(self).depth(),
            match varint_end(old(self).bytes(), old(self).pos() as int) {
                Some(e) => r == Ok::<u128, DecodeError>(
                    varint_bits(old(self).bytes(), old(self).pos() as int, e) as u128,
                ) && final(self).pos() == e,
                None => r == Err::<u128, DecodeError>(DecodeError::BufferExhausted),
            },
    {
        let ghost data = self.data@;
        let ghost start = self.idx as int;
        let mut value: u128 = 0;
        let mut mult: u128 = 1;
        assert(place(0) % wide_modulus() == 1) by {
            assert(place(0) == 1);
            vstd::arithmetic::div_mod::lemma_small_mod(1, wide_modulus());
        }
        loop
            invariant
                self.wf(),
                self.data@ == data,
                data == old(self).bytes(),
                self.depth() == old(self).depth(),
                start == old(self).pos(),
                start <= self.idx,
                varint_end(data, start) == varint_end(data, self.idx as int),
                value == group_sum(data, start, self.idx as int) % wide_modulus(),
                mult == place((self.idx - start) as nat) % wide_modulus(),
            decreases data.len() - self.idx,
        {
            let i = self.idx;
            let byte = match self.next_byte() {
                Ok(b) => b,
                Err(err) => {
                    return Err(err);
                },
            };
            let current = (byte % 128) as u128;
            proof {
                lemma_group_sum_push(data, start, i as int);
                lemma_accumulate_step(
                    group_sum(data, start, i as int),
                    current as nat,
                    place((i - start) as nat),
                );
            }
            value = value.wrapping_add(current.wrapping_mul(mult));
            if byte < 128 {
                return Ok(value);
            }
            mult = mult.wrapping_mul(128);
        }
    }

    /// Reads the varint at the position: its groups accumulated in 128 bits
    /// and read as a signed integer.
    pub fn next_varint(&mut self) -> (r: Result<i128, DecodeError>)
        requires
            old(self).wf(),
        ensures
            final(self).wf(),
            final(self).bytes() == old(self).bytes(),
            final(self).depth() == old(self).depth(),
            match varint_end(old(self).bytes(), old(self).pos() as int) {
                Some(e) => r is Ok && r->Ok_0 as int == varint_value(
                    old(self).bytes(),
                    old(self).pos() as int,
                    e,
                ) && final(self).pos() == e,
                None => r == Err::<i128, DecodeError>(DecodeError::BufferExhausted),
            },
    {
        let bits = match self.next_varint_bits() {
            Ok(b) => b,
            Err(err) => {
                return Err(err);
            },
        };
        if bits <= i128::MAX as u128 {
            Ok(bits as i128)
        } else {
            let high = (bits - (i128::MAX as u128) - 1) as i128;
            Ok(high + i128::MIN)
        }
    }

    /// Reads the next `length` bytes and moves past them.
    pub fn read(&mut self, length: usize) -> (r: Result<Vec<u8>, DecodeError>)
        requires
            old(self).wf(),
        ensures
            final(self).wf(),
            final(self).bytes() == old(self).bytes(),
            final(self).depth() == old(self).depth(),
            length <= old(self).bytes().len() - old(self).pos() ==> r is Ok && r->Ok_0@ == old(
                self,
            ).bytes().subrange(old(self).pos() as int, old(self).pos() + length) && final(self).pos()
                == old(self).pos() + length,
            length > old(self).bytes().len() - old(self).pos() ==> r == Err::<Vec<u8>, DecodeError>(
                DecodeError::BufferExhausted,
            ) && final(self).pos() == old(self).pos(),
    {
        if length > self.data.len() - self.idx {
            return Err(DecodeError::BufferExhausted);
        }
        let end = self.idx + length;
        let mut out: Vec<u8> = Vec::new();
        let mut i: usize = self.idx;
        while i < end
            invariant
                self.wf(),
                self.idx <= i <= end <= self.data@.len(),
                out@ == self.data@.subrange(self.idx as int, i as int),
            decreases end - i,
        {
            out.push(self.data[i]);
            i = i + 1;
        }
        self.idx = end;
        Ok(out)
    }

    /// The number of bytes not read yet.
    pub fn remaining(&self) -> (r: usize)
        requires
            self.wf(),
        ensures
            r == self.bytes().len() - self.pos(),
    {
        self.data.len() - self.idx
    }

    /// Decodes the fields from the position to the end of the buffer.
    ///
    /// A length-delimited value is decoded as a nested message where the
    /// depth allows and its payload decodes whole; otherwise it is kept as
    /// raw bytes. Errors of that attempt never leave it.
    pub fn decode(&mut self) -> (r: Result<DecodingResult, DecodeError>)
        requires
            old(self).wf(),
        ensures
            final(self).wf(),
            final(self).bytes() == old(self).bytes(),
            final(self).depth() == old(self).depth(),
            match parse_fields(old(self).bytes(), old(self).pos() as int, old(self).depth()) {
                Ok(fields) => r is Ok && result_view(r->Ok_0) == (ResultModel {
                    fields,
                    unprocessed: Seq::empty(),
                }) && final(self).pos() == old(self).bytes().len(),
                Err(err) => r == Err::<DecodingResult, DecodeError>(err),
            },
        decreases old(self).bytes().len(),
    {
        let ghost data = self.data@;
        let ghost start = self.idx as int;
        let ghost depth = self.max_depth as nat;
        let mut fields: Vec<Decoded> = Vec::new();
        while self.remaining() > 0
            invariant
                self.wf(),
                self.data@ == data,
                data == old(self).bytes(),
                self.max_depth == old(self).depth(),
                depth == old(self).depth(),
                start == old(self).pos(),
                start <= self.idx,
                parse_fields(data, start, depth) == prepend(
                    fields_view(fields@),
                    parse_fields(data, self.idx as int, depth),
                ),
            decreases data.len() - self.idx,
        {
            let ghost pos = self.idx as int;
            proof {
                lemma_varint_end_bounds(data, pos);
            }
            let bits = match self.next_varint_bits() {
                Ok(b) => b,
                Err(err) => {
                    return Err(err);
                },
            };
            let ghost p = self.idx as int;
            proof {
                lemma_tag_bits(group_sum(data, pos, p));
                lemma_varint_end_bounds(data, p);
            }
            let tag = (bits % 0x1_0000_0000) as u32;
            let code = (tag % 8) as u8;
            let wire_type = match WireType::from_u8(code) {
                Ok(wt) => wt,
                Err(err) => {
                    return Err(err);
                },
            };
            let mut value_decoded = false;
            let value = match wire_type {
                WireType::VarInt => match self.next_varint() {
                    Ok(v) => DecodedValue::BigInt(v),
                    Err(err) => {
                        return Err(err);
                    },
                },
                WireType::Len => {
                    let length = match self.next_varint_bits() {
                        Ok(b) => b,
                        Err(err) => {
                            return Err(err);
                        },
                    };
                    if length > self.remaining() as u128 {
                        return Err(DecodeError::BufferExhausted);
                    }
                    let sub_data = match self.read(length as usize) {
                        Ok(b) => b,
                        Err(err) => {
                            return Err(err);
                        },
                    };
                    if self.max_depth > 0 {
                        let mut nested = Decoder::with_max_depth(
                            sub_data.clone(),
                            self.max_depth - 1,
                        );
                        match nested.decode() {
                            Ok(decoded) => {
                                value_decoded = true;
                                DecodedValue::Nested(decoded)
                            },
                            Err(_) => DecodedValue::Buffer(sub_data),
                        }
                    } else {
                        DecodedValue::Buffer(sub_data)
                    }
                },
                WireType::I32 => match self.read(4) {
                    Ok(b) => DecodedValue::Buffer(b),
                    Err(err) => {
                        return Err(err);
                    },
                },
                WireType::I64 => match self.read(8) {
                    Ok(b) => DecodedValue::Buffer(b),
                    Err(err) => {
                        return Err(err);
                    },
                },
                _ => {
                    return Err(DecodeError::UnsupportedWireType(code));
                },
            };
            let decoded = Decoded { field: tag / 8, wire_type, is_object: value_decoded, value };
            let ghost before = fields@;
            fields.push(decoded);
            proof {
                assert(fields@.drop_last() =~= before);
                assert(fields_view(fields@) == fields_view(before).push(field_view(decoded)));
                match parse_fields(data, self.idx as int, depth) {
                    Ok(rest) => {
                        assert(fields_view(before) + (seq![field_view(decoded)] + rest)
                            =~= fields_view(fields@) + rest);
                    },
                    Err(_) => {},
                }
            }
        }
        let unprocessed = match self.read(0) {
            Ok(b) => b,
            Err(err) => {
                return Err(err);
            },
        };
        proof {
            assert(fields_view(fields@) + Seq::empty() =~= fields_view(fields@));
            assert(unprocessed@ =~= Seq::<u8>::empty());
        }
        Ok(DecodingResult { fields, unprocessed })
    }
}

/// A copy of `r`, nested results included.
fn copy_result(r: &DecodingResult) -> (c: DecodingResult)
    ensures
        result_view(c) == result_view(*r),
    decreases r,
{
    let mut fields: Vec<Decoded> = Vec::new();
    let mut i: usize = 0;
    while i < r.fields.len()
        invariant
            i <= r.fields@.len(),
            fields_view(fields@) == fields_view(r.fields@.subrange(0, i as int)),
        decreases r.fields@.len() - i,
    {
        let f = &r.fields[i];
        let value = match &f.value {
            DecodedValue::BigInt(n) => DecodedValue::BigInt(*n),
            DecodedValue::Buffer(b) => DecodedValue::Buffer(b.clone()),
            DecodedValue::Nested(nested) => {
                assert(decreases_to!(r => r.fields@[i as int]));
                DecodedValue::Nested(copy_result(nested))
            },
        };
        let d = Decoded { field: f.field, wire_type: f.wire_type, is_object: f.is_object, value };
        let ghost before = fields@;
        let ghost prefix = r.fields@.subrange(0, i as int);
        let ghost next = r.fields@.subrange(0, i + 1);
        fields.push(d);
        proof {
            assert(fields@.drop_last() =~= before);
            assert(next.drop_last() =~= prefix);
            assert(field_view(d) == field_view(r.fields@[i as int]));
        }
        i = i + 1;
    }
    assert(r.fields@.subrange(0, i as int) =~= r.fields@);
    DecodingResult { fields, unprocessed: r.unprocessed.clone() }
}

impl Clone for DecodingResult {
    fn clone(&self) -> Self {
        copy_result(self)
    }
}

impl Clone for DecodedValue {
    fn clone(&self) -> Self {
        match self {
            DecodedValue::BigInt(n) => DecodedValue::BigInt(*n),
            DecodedValue::Buffer(b) => DecodedValue::Buffer(b.clone()),
            DecodedValue::Nested(r) => DecodedValue::Nested(copy_result(r)),
        }
    }
}

impl Clone for Decoded {
    fn clone(&self) -> Self {
        Decoded {
            field: self.field,
            wire_type: self.wire_type,
            is_object: self.is_object,
            value: self.value.clone(),
        }
    }
}

} // verus!
