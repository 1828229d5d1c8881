use crate::decode::{field_view, fields_view, DecodedValue, DecodingResult, FieldModel, WireType};
use crate::simplify::{decimal, decimal_text, utf8_text};
use crate::text::{last_piece, last_piece_of, second_piece, second_piece_of, text_contains, contains, text_equal};
use vstd::prelude::*;
use vstd::string::StringExecFns;
use vstd::utf8::{decode_utf8, valid_utf8};

verus! {

broadcast use {vstd::std_specs::vec::group_vec_axioms, vstd::seq::group_seq_axioms};

/// The resource addresses and versions found in a gateway message.
#[derive(Debug)]
pub struct Hotfix {
    /// Address of the asset bundles.
    pub asset_bundle_url: String,
    /// Address of the design data.
    pub ex_resource_url: String,
    /// Address of the lua resources.
    pub lua_url: String,
    /// Address of the ifix resources.
    pub ifix_url: String,
    /// Version of the mdk resources.
    pub custom_mdk_res_version: u32,
    /// Version of the ifix resources.
    pub custom_ifix_version: u32,
}

/// What the first pass over the fields has found so far.
pub struct LabelState {
    pub asset_bundle_url: Seq<char>,
    pub ex_resource_url: Seq<char>,
    pub lua_url: Seq<char>,
    pub ifix_url: Seq<char>,
    /// The lines of the message definition written so far.
    pub body: Seq<char>,
    /// The number that the next unnamed flag gets.
    pub unk: nat,
}

/// One line of the message definition: `\t<decl> = <field>;\n`.
pub open spec fn decl_line(decl: Seq<char>, field: u32) -> Seq<char> {
    "\t"@ + decl + " = "@ + decimal(field as int) + ";\n"@
}

/// The text holds the asset-bundle path marker.
pub open spec fn is_asb(v: Seq<char>) -> bool {
    contains(v, "/asb/"@)
}

/// The text is taken for the design-data address.
pub open spec fn is_design(v: Seq<char>) -> bool {
    !is_asb(v) && contains(v, "/design_data/"@)
}

/// The text is taken for the lua address.
pub open spec fn is_lua(v: Seq<char>) -> bool {
    !is_asb(v) && !contains(v, "/design_data/"@) && contains(v, "/lua/"@)
}

/// The text is taken for the ifix address.
pub open spec fn is_ifix(v: Seq<char>) -> bool {
    !is_asb(v) && !contains(v, "/design_data/"@) && !contains(v, "/lua/"@) && contains(
        v,
        "/ifix/"@,
    )
}

/// The name a text field is given: the first of the address kinds whose
/// path marker it holds, `msg` for an access message, `region_name` for the
/// region's name; empty where none fits.
pub open spec fn text_label(v: Seq<char>, region: Seq<char>) -> Seq<char> {
    if is_asb(v) {
        "asset_bundle_url"@
    } else if is_design(v) {
        "ex_resource_url"@
    } else if is_lua(v) {
        "lua_url"@
    } else if is_ifix(v) {
        "ifix_url"@
    } else if contains(v, "Access verification"@) {
        "msg"@
    } else if v == region {
        "region_name"@
    } else {
        Seq::empty()
    }
}

/// The text a field carries, where it is a length-delimited field of raw
/// bytes that are valid UTF-8.
pub open spec fn field_text(f: FieldModel) -> Option<Seq<char>> {
    if f.wire_type == WireType::Len && f.value is RawBytes && valid_utf8(f.value->RawBytes_0) {
        Some(decode_utf8(f.value->RawBytes_0))
    } else {
        None
    }
}

/// The first pass over one field: flags and ports among the varints,
/// addresses and names among the texts.
pub open spec fn label_step(st: LabelState, f: FieldModel, region: Seq<char>) -> LabelState {
    if f.wire_type == WireType::VarInt && f.value is Integer {
        if f.value->Integer_0 == 1 {
            LabelState {
                body: st.body + decl_line("bool unk"@ + decimal(st.unk as int), f.field),
                unk: st.unk + 1,
                ..st
            }
        } else if 23301 <= f.value->Integer_0 <= 23302 {
            LabelState { body: st.body + decl_line("uint32 port"@, f.field), ..st }
        } else {
            st
        }
    } else if field_text(f) is Some {
        let v = field_text(f)->0;
        let label = text_label(v, region);
        LabelState {
            asset_bundle_url: if is_asb(v) {
                v
            } else {
                st.asset_bundle_url
            },
            ex_resource_url: if is_design(v) {
                v
            } else {
                st.ex_resource_url
            },
            lua_url: if is_lua(v) {
                v
            } else {
                st.lua_url
            },
            ifix_url: if is_ifix(v) {
                v
            } else {
                st.ifix_url
            },
            body: if label.len() > 0 {
                st.body + decl_line("string "@ + label, f.field)
            } else {
                st.body
            },
            unk: st.unk,
        }
    } else {
        st
    }
}

/// The first pass over all the fields, in order.
pub open spec fn first_pass(fs: Seq<FieldModel>, region: Seq<char>) -> LabelState
    decreases fs.len(),
{
    if fs.len() == 0 {
        LabelState {
            asset_bundle_url: Seq::empty(),
            ex_resource_url: Seq::empty(),
            lua_url: Seq::empty(),
            ifix_url: Seq::empty(),
            body: "\n"@,
            unk: 1,
        }
    } else {
        label_step(first_pass(fs.drop_last(), region), fs.last(), region)
    }
}

/// The version an address carries: the second `_`-separated piece of its
/// last `/`-separated piece.
pub open spec fn version_of(url: Seq<char>) -> Seq<char> {
    second_piece(last_piece(url, '/'), '_')
}

/// The line the second pass writes for one field: a text equal to the lua
/// or the ifix version is named after it.
pub open spec fn version_line(f: FieldModel, lua: Seq<char>, ifix: Seq<char>) -> Seq<char> {
    if field_text(f) is Some && field_text(f)->0 == lua {
        decl_line("string "@ + "mdk_res_version"@, f.field)
    } else if field_text(f) is Some && field_text(f)->0 == ifix {
        decl_line("string "@ + "ifix_version"@, f.field)
    } else {
        Seq::empty()
    }
}

/// The lines of the second pass over all the fields, in order.
pub open spec fn second_pass(fs: Seq<FieldModel>, lua: Seq<char>, ifix: Seq<char>) -> Seq<char>
    decreases fs.len(),
{
    if fs.len() == 0 {
        Seq::empty()
    } else {
        second_pass(fs.drop_last(), lua, ifix) + version_line(fs.last(), lua, ifix)
    }
}

/// The message definition written for the fields.
pub open spec fn proto_text(fs: Seq<FieldModel>, region: Seq<char>) -> Seq<char> {
    let st = first_pass(fs, region);
    "syntax = \"proto3\";\n\nmessage Gateserver {"@ + st.body + second_pass(
        fs,
        version_of(st.lua_url),
        version_of(st.ifix_url),
    ) + "}"@
}

/// Appends `decl_line(kind + name, field)` to `body`.
fn push_decl_line(body: &mut String, kind: &str, name: &str, field: u32)
    ensures
        final(body)@ == old(body)@ + decl_line(kind@ + name@, field),
{
    body.append("\t");
    body.append(kind);
    body.append(name);
    body.append(" = ");
    let digits = decimal_text(field as i128);
    body.append(digits.as_str());
    body.append(";\n");
    assert(body@ =~= old(body)@ + decl_line(kind@ + name@, field));
}

/// The state of the first pass that the running values stand for.
spec fn state_of(hotfix: &Hotfix, body: &String, unk: u128) -> LabelState {
    LabelState {
        asset_bundle_url: hotfix.asset_bundle_url@,
        ex_resource_url: hotfix.ex_resource_url@,
        lua_url: hotfix.lua_url@,
        ifix_url: hotfix.ifix_url@,
        body: body@,
        unk: unk as nat,
    }
}

impl Hotfix {
    /// Finds the resource addresses among the text fields of a gateway
    /// message and writes a message definition that names the fields it
    /// could recognise: flags (varints equal to 1) and the port among the
    /// varints; the addresses, an access message and the region's name among
    /// the texts; then the texts equal to the versions that the lua and ifix
    /// addresses carry.
    pub fn create_from_simple_message(proto_dec_result: DecodingResult, region_name: &str) -> (r: (
        Self,
        String,
    ))
        ensures
            r.0.asset_bundle_url@ == first_pass(
                fields_view(proto_dec_result.fields@),
                region_name@,
            ).asset_bundle_url,
            r.0.ex_resource_url@ == first_pass(
                fields_view(proto_dec_result.fields@),
                region_name@,
            ).ex_resource_url,
            r.0.lua_url@ == first_pass(fields_view(proto_dec_result.fields@), region_name@).lua_url,
            r.0.ifix_url@ == first_pass(
                fields_view(proto_dec_result.fields@),
                region_name@,
            ).ifix_url,
            r.0.custom_mdk_res_version == 0,
            r.0.custom_ifix_version == 0,
            r.1@ == proto_text(fields_view(proto_dec_result.fields@), region_name@),
    {
        let ghost region = region_name@;
        let ghost all = proto_dec_result.fields@;
        let fields = &proto_dec_result.fields;
        let mut hotfix = Hotfix {
            asset_bundle_url: String::new(),
            ex_resource_url: String::new(),
            lua_url: String::new(),
            ifix_url: String::new(),
            custom_mdk_res_version: 0,
            custom_ifix_version: 0,
        };
        let mut proto_body = String::from_str("\n");
        let mut unk_idx: u128 = 1;
        let mut i: usize = 0;
        assert(fields@.subrange(0, 0) =~= Seq::<crate::decode::Decoded>::empty());
        while i < fields.len()
            invariant
                fields@ == all,
                region == region_name@,
                i <= all.len(),
                1 <= unk_idx <= i + 1,
                hotfix.custom_mdk_res_version == 0,
                hotfix.custom_ifix_version == 0,
                state_of(&hotfix, &proto_body, unk_idx) == first_pass(
                    fields_view(all.subrange(0, i as int)),
                    region,
                ),
            decreases all.len() - i,
        {
            let field = &fields[i];
            let ghost fm = field_view(*field);
            let ghost st = state_of(&hotfix, &proto_body, unk_idx);
            proof {
                reveal_strlit("asset_bundle_url");
                reveal_strlit("ex_resource_url");
                reveal_strlit("lua_url");
                reveal_strlit("ifix_url");
                reveal_strlit("msg");
                reveal_strlit("region_name");
            }
            match field.wire_type {
                WireType::VarInt => {
                    if let DecodedValue::BigInt(num) = field.value {
                        if num == 1 {
                            let idx = decimal_text(unk_idx as i128);
                            push_decl_line(&mut proto_body, "bool unk", idx.as_str(), field.field);
                            unk_idx = unk_idx + 1;
                        } else if 23301 <= num && num <= 23302 {
                            push_decl_line(&mut proto_body, "uint32 port", "", field.field);
                            proof {
                                reveal_strlit("");
                                assert("uint32 port"@ + ""@ =~= "uint32 port"@);
                            }
                        }
                    }
                },
                WireType::Len => {
                    if let DecodedValue::Buffer(buffer) = &field.value {
                        if let Some(v) = utf8_text(buffer.clone()) {
                            let vs = v.as_str();
                            if text_contains(vs, "/asb/") {
                                push_decl_line(&mut proto_body, "string ", "asset_bundle_url", field.field);
                                hotfix.asset_bundle_url = v;
                            } else if text_contains(vs, "/design_data/") {
                                push_decl_line(&mut proto_body, "string ", "ex_resource_url", field.field);
                                hotfix.ex_resource_url = v;
                            } else if text_contains(vs, "/lua/") {
                                push_decl_line(&mut proto_body, "string ", "lua_url", field.field);
                                hotfix.lua_url = v;
                            } else if text_contains(vs, "/ifix/") {
                                push_decl_line(&mut proto_body, "string ", "ifix_url", field.field);
                                hotfix.ifix_url = v;
                            } else if text_contains(vs, "Access verification") {
                                push_decl_line(&mut proto_body, "string ", "msg", field.field);
                            } else if text_equal(vs, region_name) {
                                push_decl_line(&mut proto_body, "string ", "region_name", field.field);
                            }
                        }
                    }
                },
                _ => {},
            }
            proof {
                let prefix = all.subrange(0, i as int);
                let next = all.subrange(0, i + 1);
                assert(next.drop_last() =~= prefix);
                assert(fields_view(next).drop_last() =~= fields_view(prefix));
                assert(fields_view(next).last() == fm);
                assert(state_of(&hotfix, &proto_body, unk_idx) == label_step(st, fm, region));
            }
            i = i + 1;
        }
        assert(all.subrange(0, i as int) =~= all);
        let lua_version = second_piece_of(last_piece_of(hotfix.lua_url.as_str(), '/').as_str(), '_');
        let ifix_version = second_piece_of(last_piece_of(hotfix.ifix_url.as_str(), '/').as_str(), '_');
        let ghost body1 = proto_body@;
        let mut j: usize = 0;
        assert(body1 + second_pass(fields_view(all.subrange(0, 0)), lua_version@, ifix_version@) =~= body1);
        while j < fields.len()
            invariant
                fields@ == all,
                j <= all.len(),
                proto_body@ == body1 + second_pass(
                    fields_view(all.subrange(0, j as int)),
                    lua_version@,
                    ifix_version@,
                ),
            decreases all.len() - j,
        {
            let field = &fields[j];
            let ghost fm = field_view(*field);
            let ghost before = proto_body@;
            if field.wire_type == WireType::Len {
                if let DecodedValue::Buffer(buf) = &field.value {
                    if let Some(v) = utf8_text(buf.clone()) {
                        if text_equal(v.as_str(), lua_version.as_str()) {
                            push_decl_line(&mut proto_body, "string ", "mdk_res_version", field.field);
                        } else if text_equal(v.as_str(), ifix_version.as_str()) {
                            push_decl_line(&mut proto_body, "string ", "ifix_version", field.field);
                        }
                    }
                }
            }
            proof {
                let prefix = all.subrange(0, j as int);
                let next = all.subrange(0, j + 1);
                assert(next.drop_last() =~= prefix);
                assert(fields_view(next).drop_last() =~= fields_view(prefix));
                assert(fields_view(next).last() == fm);
                assert(proto_body@ == before + version_line(fm, lua_version@, ifix_version@));
                assert(proto_body@ =~= body1 + second_pass(fields_view(next), lua_version@, ifix_version@));
            }
            j = j + 1;
        }
        assert(all.subrange(0, j as int) =~= all);
        let mut text = String::from_str("syntax = \"proto3\";\n\nmessage Gateserver {");
        text.append(proto_body.as_str());
        text.append("}");
        (hotfix, text)
    }
}

} // verus!
