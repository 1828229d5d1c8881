use crate::decode::{
    field_view, fields_view, result_view, value_view, DecodedValue, DecodingResult,
    FieldModel, ResultModel, ValueModel, WireType,
};
use vstd::prelude::*;
use vstd::string::StringExecFns;
use vstd::utf8::{decode_utf8, valid_utf8};

verus! {

broadcast use {vstd::std_specs::vec::group_vec_axioms, vstd::seq::group_seq_axioms};

/// A decoded field made ready for display.
#[derive(Debug)]
pub struct SimpleDecoded {
    /// The field number.
    pub field: u32,
    /// The label of the wire type.
    pub wire_type: String,
    /// Whether the field holds a nested message.
    pub is_object: bool,
    /// The value, as text or as a nested result.
    pub value: SimpleDecodedValue,
}

/// The value of a field made ready for display.
#[derive(Debug)]
pub enum SimpleDecodedValue {
    /// A value rendered as text.
    String(String),
    /// A nested message, made ready for display in turn.
    Nested(SimpleDecodingResult),
}

/// A decoding result made ready for display.
#[derive(Debug)]
pub struct SimpleDecodingResult {
    /// The fields, in the order of the decoded result.
    pub fields: Vec<SimpleDecoded>,
}

/// The mathematical value of a field made ready for display.
pub enum SimpleValueModel {
    Text(Seq<char>),
    Nested(SimpleResultModel),
}

/// The mathematical value of a `SimpleDecoded`.
pub struct SimpleFieldModel {
    pub field: u32,
    pub wire_type: Seq<char>,
    pub is_object: bool,
    pub value: SimpleValueModel,
}

/// The mathematical value of a `SimpleDecodingResult`.
pub struct SimpleResultModel {
    pub fields: Seq<SimpleFieldModel>,
}

/// The mathematical value of a display tree.
pub open spec fn simple_result_view(r: SimpleDecodingResult) -> SimpleResultModel
    decreases r,
{
    SimpleResultModel { fields: simple_fields_view(r.fields@) }
}

/// The mathematical values of display fields, in order.
pub open spec fn simple_fields_view(fs: Seq<SimpleDecoded>) -> Seq<SimpleFieldModel>
    decreases fs,
{
    if fs.len() == 0 {
        Seq::empty()
    } else {
        simple_fields_view(fs.drop_last()).push(simple_field_view(fs.last()))
    }
}

/// The mathematical value of a display field.
pub open spec fn simple_field_view(d: SimpleDecoded) -> SimpleFieldModel
    decreases d,
{
    SimpleFieldModel {
        field: d.field,
        wire_type: d.wire_type@,
        is_object: d.is_object,
        value: simple_value_view(d.value),
    }
}

/// The mathematical value of a display value.
pub open spec fn simple_value_view(v: SimpleDecodedValue) -> SimpleValueModel
    decreases v,
{
    match v {
        SimpleDecodedValue::String(s) => SimpleValueModel::Text(s@),
        SimpleDecodedValue::Nested(r) => SimpleValueModel::Nested(simple_result_view(r)),
    }
}

/// The decimal digits of `n`, most significant first.
pub open spec fn digits(n: nat) -> Seq<char>
    decreases n,
{
    if n < 10 {
        seq![(48 + n) as char]
    } else {
        digits(n / 10).push((48 + n % 10) as char)
    }
}

/// `n` in decimal, with a leading `-` when it is negative.
pub open spec fn decimal(n: int) -> Seq<char> {
    if n < 0 {
        seq!['-'] + digits((-n) as nat)
    } else {
        digits(n as nat)
    }
}

/// The bytes of `b` in decimal, separated by `", "`.
pub open spec fn byte_items(b: Seq<u8>) -> Seq<char>
    decreases b.len(),
{
    if b.len() == 0 {
        Seq::empty()
    } else if b.len() == 1 {
        decimal(b[0] as int)
    } else {
        byte_items(b.drop_last()) + seq![',', ' '] + decimal(b.last() as int)
    }
}

/// The literal listing of a byte sequence: `[1, 2, 3]`.
pub open spec fn byte_listing(b: Seq<u8>) -> Seq<char> {
    seq!['['] + byte_items(b) + seq![']']
}

/// The text of a value that is not a nested message: an integer in
/// decimal, bytes as their literal listing.
pub open spec fn value_text_spec(v: ValueModel) -> Seq<char> {
    match v {
        ValueModel::Integer(n) => decimal(n),
        ValueModel::RawBytes(b) => byte_listing(b),
        ValueModel::Nested(_) => Seq::empty(),
    }
}

/// The readable text of a value: bytes that are valid UTF-8 as the text they
/// encode, anything else as `value_text_spec` gives it.
pub open spec fn readable_text_spec(v: ValueModel) -> Seq<char> {
    match v {
        ValueModel::RawBytes(b) => if valid_utf8(b) {
            decode_utf8(b)
        } else {
            byte_listing(b)
        },
        _ => value_text_spec(v),
    }
}

/// The label of a wire type.
pub open spec fn wire_label(wt: WireType) -> Seq<char> {
    match wt {
        WireType::VarInt => "varint"@,
        WireType::I64 => "i64"@,
        WireType::Len => "len"@,
        WireType::I32 => "i32"@,
        _ => "unknown"@,
    }
}

/// The display form of a decoded field.
pub open spec fn simplify_field(f: FieldModel) -> SimpleFieldModel
    decreases f,
{
    SimpleFieldModel {
        field: f.field,
        wire_type: wire_label(f.wire_type),
        is_object: f.is_object,
        value: match f.value {
            ValueModel::Nested(r) => SimpleValueModel::Nested(simplify_model(r)),
            _ => SimpleValueModel::Text(value_text_spec(f.value)),
        },
    }
}

/// The display form of decoded fields, in their order.
pub open spec fn simplify_fields(fs: Seq<FieldModel>) -> Seq<SimpleFieldModel>
    decreases fs,
{
    if fs.len() == 0 {
        Seq::empty()
    } else {
        simplify_fields(fs.drop_last()).push(simplify_field(fs.last()))
    }
}

/// The display form of a decoded result.
pub open spec fn simplify_model(r: ResultModel) -> SimpleResultModel
    decreases r,
{
    SimpleResultModel { fields: simplify_fields(r.fields) }
}

/// The digit `d` as text.
fn digit_str(d: u8) -> (r: &'static str)
    requires
        d < 10,
    ensures
        r@ == seq![(48 + d) as char],
{
    match d {
        0 => {
            proof {
                reveal_strlit("0");
            }
            "0"
        },
        1 => {
            proof {
                reveal_strlit("1");
            }
            "1"
        },
        2 => {
            proof {
                reveal_strlit("2");
            }
            "2"
        },
        3 => {
            proof {
                reveal_strlit("3");
            }
            "3"
        },
        4 => {
            proof {
                reveal_strlit("4");
            }
            "4"
        },
        5 => {
            proof {
                reveal_strlit("5");
            }
            "5"
        },
        6 => {
            proof {
                reveal_strlit("6");
            }
            "6"
        },
        7 => {
            proof {
                reveal_strlit("7");
            }
            "7"
        },
        8 => {
            proof {
                reveal_strlit("8");
            }
            "8"
        },
        _ => {
            proof {
                reveal_strlit("9");
            }
            "9"
        },
    }
}

/// Appends the decimal digits of `m` to `s`.
fn push_digits(s: &mut String, m: u128)
    ensures
        final(s)@ == old(s)@ + digits(m as nat),
    decreases m,
{
    if m >= 10 {
        push_digits(s, m / 10);
    }
    s.append(digit_str((m % 10) as u8));
    assert(s@ =~= old(s)@ + digits(m as nat));
}

/// `n` in decimal, with a leading `-` when it is negative.
pub(crate) fn decimal_text(n: i128) -> (r: String)
    ensures
        r@ == decimal(n as int),
{
    let mut s = String::new();
    if n < 0 {
        s.append("-");
        proof {
            reveal_strlit("-");
        }
        let m = ((-(n + 1)) as u128) + 1;
        push_digits(&mut s, m);
        assert(s@ =~= decimal(n as int));
    } else {
        push_digits(&mut s, n as u128);
        assert(s@ =~= decimal(n as int));
    }
    s
}

/// Relies on `String::from_utf8`: it accepts exactly the valid UTF-8 byte
/// sequences and gives the text they encode.
#[verifier::external_body]
pub(crate) fn utf8_text(bytes: Vec<u8>) -> (r: Option<String>)
    ensures
        r is Some <==> valid_utf8(bytes@),
        r matches Some(s) ==> s@ == decode_utf8(bytes@),
{
    String::from_utf8(bytes).ok()
}

/// The label of a wire type: `varint`, `i64`, `len`, `i32`, or `unknown`
/// for the group markers.
pub fn wire_type_to_str(wire_type: WireType) -> (r: String)
    ensures
        r@ == wire_label(wire_type),
{
    match wire_type {
        WireType::VarInt => String::from_str("varint"),
        WireType::I64 => String::from_str("i64"),
        WireType::Len => String::from_str("len"),
        WireType::I32 => String::from_str("i32"),
        _ => String::from_str("unknown"),
    }
}

/// The literal listing of bytes: `[1, 2, 3]`.
pub fn byte_list_text(bytes: &Vec<u8>) -> (r: String)
    ensures
        r@ == byte_listing(bytes@),
{
    let mut s = String::from_str("[");
    proof {
        reveal_strlit("[");
    }
    let mut i: usize = 0;
    while i < bytes.len()
        invariant
            i <= bytes@.len(),
            s@ == seq!['['] + byte_items(bytes@.subrange(0, i as int)),
        decreases bytes@.len() - i,
    {
        let ghost prefix = bytes@.subrange(0, i as int);
        let ghost next = bytes@.subrange(0, i + 1);
        assert(next.drop_last() =~= prefix);
        if i > 0 {
            s.append(", ");
            proof {
                reveal_strlit(", ");
            }
        }
        let item = decimal_text(bytes[i] as i128);
        s.append(item.as_str());
        proof {
            if i > 0 {
                assert(s@ =~= seq!['['] + (byte_items(prefix) + seq![',', ' '] + decimal(
                    bytes@[i as int] as int,
                )));
            } else {
                assert(prefix.len() == 0);
                assert(s@ =~= seq!['['] + byte_items(next));
            }
        }
        i = i + 1;
    }
    assert(bytes@.subrange(0, i as int) =~= bytes@);
    s.append("]");
    proof {
        reveal_strlit("]");
    }
    s
}

/// The text of a value that is not a nested message: an integer in decimal,
/// bytes as their literal listing.
pub fn value_text(value: &DecodedValue) -> (r: String)
    ensures
        r@ == value_text_spec(value_view(*value)),
{
    match value {
        DecodedValue::BigInt(n) => decimal_text(*n),
        DecodedValue::Buffer(b) => byte_list_text(b),
        DecodedValue::Nested(_) => String::new(),
    }
}

/// The readable text of a value: bytes that are valid UTF-8 as the text
/// they encode, other bytes as their literal listing, an integer in decimal.
pub fn readable_text(value: &DecodedValue) -> (r: String)
    ensures
        r@ == readable_text_spec(value_view(*value)),
{
    match value {
        DecodedValue::Buffer(b) => match utf8_text(b.clone()) {
            Some(s) => s,
            None => byte_list_text(b),
        },
        _ => value_text(value),
    }
}

/// Simplifying is a function of the decoded tree alone: running it twice on
/// the same result, or on two results that hold the same tree (two decodings
/// of one buffer), gives the same display tree.
pub proof fn lemma_simplify_idempotent(a: DecodingResult, b: DecodingResult)
    requires
        result_view(a) == result_view(b),
    ensures
        simplify_model(result_view(a)) == simplify_model(result_view(b)),
{
}

/// Makes a decoded result ready for display: each wire type becomes its
/// label, each nested message is made ready in turn, and every other value
/// becomes its text (`value_text`). The order of the fields is kept.
pub fn simplify(result: DecodingResult) -> (r: SimpleDecodingResult)
    ensures
        simple_result_view(r) == simplify_model(result_view(result)),
{
    simplify_ref(&result)
}

fn simplify_ref(result: &DecodingResult) -> (r: SimpleDecodingResult)
    ensures
        simple_result_view(r) == simplify_model(result_view(*result)),
    decreases result,
{
    let mut out: Vec<SimpleDecoded> = Vec::new();
    let mut i: usize = 0;
    while i < result.fields.len()
        invariant
            i <= result.fields@.len(),
            simple_fields_view(out@) == simplify_fields(
                fields_view(result.fields@.subrange(0, i as int)),
            ),
        decreases result.fields@.len() - i,
    {
        let field = &result.fields[i];
        let value = match &field.value {
            DecodedValue::Nested(nested) => {
                assert(decreases_to!(result => result.fields@[i as int]));
                SimpleDecodedValue::Nested(simplify_ref(nested))
            },
            _ => SimpleDecodedValue::String(value_text(&field.value)),
        };
        let item = SimpleDecoded {
            field: field.field,
            wire_type: wire_type_to_str(field.wire_type),
            is_object: field.is_object,
            value,
        };
        let ghost before = out@;
        let ghost prefix = result.fields@.subrange(0, i as int);
        let ghost next = result.fields@.subrange(0, i + 1);
        out.push(item);
        proof {
            assert(out@.drop_last() =~= before);
            assert(next.drop_last() =~= prefix);
            assert(simple_fields_view(out@) == simple_fields_view(before).push(
                simple_field_view(item),
            ));
            assert(fields_view(next) == fields_view(prefix).push(field_view(*field)));
            let fv = fields_view(next);
            assert(fv.drop_last() =~= fields_view(prefix));
            assert(simplify_fields(fv) == simplify_fields(fields_view(prefix)).push(
                simplify_field(field_view(*field)),
            ));
        }
        i = i + 1;
    }
    assert(result.fields@.subrange(0, i as int) =~= result.fields@);
    SimpleDecodingResult { fields: out }
}

/// A copy of `r`, nested results included.
fn copy_simple_result(r: &SimpleDecodingResult) -> (c: SimpleDecodingResult)
    ensures
        simple_result_view(c) == simple_result_view(*r),
    decreases r,
{
    let mut fields: Vec<SimpleDecoded> = Vec::new();
    let mut i: usize = 0;
    while i < r.fields.len()
        invariant
            i <= r.fields@.len(),
            simple_fields_view(fields@) == simple_fields_view(r.fields@.subrange(0, i as int)),
        decreases r.fields@.len() - i,
    {
        let f = &r.fields[i];
        let value = match &f.value {
            SimpleDecodedValue::String(t) => SimpleDecodedValue::String(t.clone()),
            SimpleDecodedValue::Nested(nested) => {
                assert(decreases_to!(r => r.fields@[i as int]));
                SimpleDecodedValue::Nested(copy_simple_result(nested))
            },
        };
        let d = SimpleDecoded {
            field: f.field,
            wire_type: f.wire_type.clone(),
            is_object: f.is_object,
            value,
        };
        let ghost before = fields@;
        let ghost prefix = r.fields@.subrange(0, i as int);
        let ghost next = r.fields@.subrange(0, i + 1);
        fields.push(d);
        proof {
            assert(fields@.drop_last() =~= before);
            assert(next.drop_last() =~= prefix);
            assert(simple_field_view(d) == simple_field_view(r.fields@[i as int]));
        }
        i = i + 1;
    }
    assert(r.fields@.subrange(0, i as int) =~= r.fields@);
    SimpleDecodingResult { fields }
}

impl Clone for SimpleDecodingResult {
    fn clone(&self) -> Self {
        copy_simple_result(self)
    }
}

impl Clone for SimpleDecodedValue {
    fn clone(&self) -> Self {
        match self {
            SimpleDecodedValue::String(t) => SimpleDecodedValue::String(t.clone()),
            SimpleDecodedValue::Nested(r) => SimpleDecodedValue::Nested(copy_simple_result(r)),
        }
    }
}

impl Clone for SimpleDecoded {
    fn clone(&self) -> Self {
        SimpleDecoded {
            field: self.field,
            wire_type: self.wire_type.clone(),
            is_object: self.is_object,
            value: self.value.clone(),
        }
    }
}

} // verus!
