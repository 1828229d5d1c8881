use proto_probe::decode::{Decoder, DecodingResult};
use proto_probe::hotfix::Hotfix;

fn varint(out: &mut Vec<u8>, mut n: u64) {
    loop {
        if n < 128 {
            out.push(n as u8);
            return;
        }
        out.push((n % 128 + 128) as u8);
        n /= 128;
    }
}

fn text_field(out: &mut Vec<u8>, field: u64, s: &str) {
    varint(out, field * 8 + 2);
    varint(out, s.len() as u64);
    out.extend_from_slice(s.as_bytes());
}

fn int_field(out: &mut Vec<u8>, field: u64, v: u64) {
    varint(out, field * 8);
    varint(out, v);
}

fn gateway() -> DecodingResult {
    let mut b = Vec::new();
    int_field(&mut b, 1, 1);
    int_field(&mut b, 2, 23301);
    text_field(&mut b, 3, "https://cdn.example/asb/BetaLive/output_1_aa");
    text_field(&mut b, 4, "https://cdn.example/design_data/BetaLive/output_2_bb");
    text_field(&mut b, 5, "https://cdn.example/lua/BetaLive/output_123_cc");
    text_field(&mut b, 6, "https://cdn.example/ifix/BetaLive/output_456_dd");
    text_field(&mut b, 7, "Access verification failed");
    text_field(&mut b, 8, "cn_gf01");
    text_field(&mut b, 9, "123");
    text_field(&mut b, 10, "456");
    int_field(&mut b, 11, 1);
    int_field(&mut b, 12, 7);
    text_field(&mut b, 13, "unrelated");
    Decoder::new(b).decode().unwrap()
}

#[test]
fn hotfix_addresses() {
    let (h, _) = Hotfix::create_from_simple_message(gateway(), "cn_gf01");
    assert_eq!(h.asset_bundle_url, "https://cdn.example/asb/BetaLive/output_1_aa");
    assert_eq!(h.ex_resource_url, "https://cdn.example/design_data/BetaLive/output_2_bb");
    assert_eq!(h.lua_url, "https://cdn.example/lua/BetaLive/output_123_cc");
    assert_eq!(h.ifix_url, "https://cdn.example/ifix/BetaLive/output_456_dd");
    assert_eq!(h.custom_mdk_res_version, 0);
    assert_eq!(h.custom_ifix_version, 0);
}

#[test]
fn hotfix_message_definition() {
    let (_, proto) = Hotfix::create_from_simple_message(gateway(), "cn_gf01");
    let expected = "syntax = \"proto3\";\n\nmessage Gateserver {\n\
        \tbool unk1 = 1;\n\
        \tuint32 port = 2;\n\
        \tstring asset_bundle_url = 3;\n\
        \tstring ex_resource_url = 4;\n\
        \tstring lua_url = 5;\n\
        \tstring ifix_url = 6;\n\
        \tstring msg = 7;\n\
        \tstring region_name = 8;\n\
        \tbool unk2 = 11;\n\
        \tstring mdk_res_version = 9;\n\
        \tstring ifix_version = 10;\n\
        }";
    assert_eq!(proto, expected);
}

#[test]
fn hotfix_empty_message() {
    let (h, proto) = Hotfix::create_from_simple_message(Decoder::new(vec![]).decode().unwrap(), "x");
    assert_eq!(h.lua_url, "");
    assert_eq!(proto, "syntax = \"proto3\";\n\nmessage Gateserver {\n}");
}

#[test]
fn hotfix_empty_payload_is_no_text() {
    // An empty payload decodes as an empty nested message, so it is never
    // taken for the (empty) version of a missing lua address.
    let mut b = Vec::new();
    text_field(&mut b, 4, "");
    let (_, proto) = Hotfix::create_from_simple_message(Decoder::new(b).decode().unwrap(), "r");
    assert_eq!(proto, "syntax = \"proto3\";\n\nmessage Gateserver {\n}");
}

#[test]
fn hotfix_version_without_underscore_is_empty() {
    // A lua address whose last piece has no `_` carries an empty version.
    let mut b = Vec::new();
    text_field(&mut b, 1, "https://x/lua/plain");
    text_field(&mut b, 2, "plain");
    let (h, proto) = Hotfix::create_from_simple_message(Decoder::new(b).decode().unwrap(), "r");
    assert_eq!(h.lua_url, "https://x/lua/plain");
    assert_eq!(proto, "syntax = \"proto3\";\n\nmessage Gateserver {\n\tstring lua_url = 1;\n}");
}
