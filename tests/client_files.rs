use proto_probe::binary_version::BinaryVersionData;
use proto_probe::client_config::ClientStartupConfig;
use proto_probe::cursor::{ByteCursor, CursorExt, ReadError};

fn put_string(out: &mut Vec<u8>, s: &str) {
    out.push(0);
    let mut n = s.len();
    loop {
        if n < 128 {
            out.push(n as u8);
            break;
        }
        out.push((n % 128 + 128) as u8);
        n /= 128;
    }
    out.extend_from_slice(s.as_bytes());
}

fn binary_version_bytes(version_string: &str) -> Vec<u8> {
    let mut b = Vec::new();
    put_string(&mut b, "release_branch");
    for w in [7u32, 3, 2, 1] {
        b.extend_from_slice(&w.to_be_bytes());
    }
    b.extend_from_slice(&[0xaa; 60]);
    for s in ["2024-01-01", "pak", "detail", "asset", "design", "seed123"] {
        put_string(&mut b, s);
    }
    put_string(&mut b, version_string);
    put_string(&mut b, "hash");
    b.extend_from_slice(&0x0102_0304u32.to_be_bytes());
    b.push(1);
    put_string(&mut b, "client-id");
    b
}

fn with_version(v: &str) -> BinaryVersionData {
    BinaryVersionData::try_from(binary_version_bytes(v)).unwrap()
}

#[test]
fn cursor_reads() {
    let mut c = ByteCursor::new(vec![1, 0, 0, 1, 0, 0, 0x02, b'h', b'i', 9, 8]);
    assert_eq!(c.read_bool().unwrap(), true);
    assert_eq!(c.read_u32_be().unwrap(), 0x0000_0100);
    assert_eq!(c.read_string().unwrap(), "hi");
    assert_eq!(c.read_bytes(2).unwrap(), vec![9, 8]);
    assert_eq!(c.read_bool().unwrap_err(), ReadError::UnexpectedEof);
    assert_eq!(c.read_u32_be().unwrap_err(), ReadError::UnexpectedEof);
    assert_eq!(c.read_bytes(1).unwrap_err(), ReadError::UnexpectedEof);
}

#[test]
fn cursor_flag_zero_and_lossy_text() {
    let mut c = ByteCursor::new(vec![0, 1, 0x02, 0xff, b'a']);
    assert_eq!(c.read_bool().unwrap(), false);
    assert_eq!(c.read_string().unwrap(), "\u{fffd}a");
}

#[test]
fn cursor_u32_varint() {
    let mut c = ByteCursor::new(vec![0xac, 0x02, 0xff, 0xff, 0xff, 0xff, 0x0f]);
    assert_eq!(c.read_u32_varint().unwrap(), 300);
    assert_eq!(c.read_u32_varint().unwrap(), u32::MAX);
    let mut long = ByteCursor::new(vec![0x80, 0x80, 0x80, 0x80, 0x80, 0x01]);
    assert_eq!(long.read_u32_varint().unwrap_err(), ReadError::VarintTooLong);
    let mut short = ByteCursor::new(vec![0x80, 0x80]);
    assert_eq!(short.read_u32_varint().unwrap_err(), ReadError::UnexpectedEof);
    let mut five = ByteCursor::new(vec![0x80, 0x80, 0x80, 0x80, 0x80]);
    assert_eq!(five.read_u32_varint().unwrap_err(), ReadError::UnexpectedEof);
}

#[test]
fn cursor_reads_valid_text() {
    let mut c = ByteCursor::new(vec![0u8, 3, b'a', b'b', b'c']);
    assert_eq!(c.read_string().unwrap(), "abc");
    assert_eq!(c.read_bool().unwrap_err(), ReadError::UnexpectedEof);
}

#[test]
fn string_past_end_fails() {
    let mut c = ByteCursor::new(vec![0, 5, b'a']);
    assert_eq!(c.read_string().unwrap_err(), ReadError::UnexpectedEof);
}

#[test]
fn binary_version_fields() {
    let d = with_version("V2.3.0-Beta");
    assert_eq!(d.branch, "release_branch");
    assert_eq!((d.revision, d.major_version, d.minor_version, d.patch_version), (7, 3, 2, 1));
    assert_eq!(d.reserved, vec![0xaa; 60]);
    assert_eq!(d.time, "2024-01-01");
    assert_eq!(d.pak_type, "pak");
    assert_eq!(d.pak_type_detail, "detail");
    assert_eq!(d.start_asset, "asset");
    assert_eq!(d.start_design_data, "design");
    assert_eq!(d.dispatch_seed, "seed123");
    assert_eq!(d.version_string, "V2.3.0-Beta");
    assert_eq!(d.version_hash, "hash");
    assert_eq!(d.game_core_version, 0x0102_0304);
    assert!(d.is_enable_exclude_asset);
    assert_eq!(d.sdk_ps_client_id, "client-id");
}

#[test]
fn binary_version_truncated() {
    let mut b = binary_version_bytes("x");
    b.pop();
    assert_eq!(BinaryVersionData::try_from(b).unwrap_err(), ReadError::UnexpectedEof);
    assert_eq!(BinaryVersionData::try_from(vec![]).unwrap_err(), ReadError::UnexpectedEof);
}

#[test]
fn pak_type_version_found() {
    assert_eq!(
        with_version("CNPRODWin2.3.0-V2.3.0_123-abc").get_server_pak_type_version(),
        Some("CNPRODWin2.3.0".to_string())
    );
    assert_eq!(with_version("abc-1.2.3").get_server_pak_type_version(), Some("1.2.3".to_string()));
}

#[test]
fn pak_type_version_absent() {
    assert_eq!(with_version("").get_server_pak_type_version(), None);
    assert_eq!(with_version("1.2-1.2.3.4-a_b.c.d").get_server_pak_type_version(), None);
    assert_eq!(with_version("V1.2.3_x").get_server_pak_type_version(), None);
}

fn client_config_bytes(urls: &[&str], count: u8) -> Vec<u8> {
    let mut b = Vec::new();
    for s in ["channel", "bundle", "product", "defines"] {
        put_string(&mut b, s);
    }
    b.extend_from_slice(&[1, 2, 3]);
    b.push(count);
    for u in urls {
        put_string(&mut b, u);
    }
    b
}

#[test]
fn client_config_fields() {
    let c = ClientStartupConfig::try_from(client_config_bytes(&["https://a/", "https://b/"], 2)).unwrap();
    assert_eq!(c.channel_name, "channel");
    assert_eq!(c.bundle_identifier, "bundle");
    assert_eq!(c.product_name, "product");
    assert_eq!(c.script_defines, "defines");
    assert_eq!(c.global_dispatch_url_list, vec!["https://a/".to_string(), "https://b/".to_string()]);
}

#[test]
fn client_config_list_stops_at_count_or_end() {
    let fewer = ClientStartupConfig::try_from(client_config_bytes(&["u1", "u2", "u3"], 2)).unwrap();
    assert_eq!(fewer.global_dispatch_url_list, vec!["u1".to_string(), "u2".to_string()]);
    let more = ClientStartupConfig::try_from(client_config_bytes(&["u1"], 5)).unwrap();
    assert_eq!(more.global_dispatch_url_list, vec!["u1".to_string()]);
}

#[test]
fn client_config_truncated() {
    let mut b = client_config_bytes(&[], 0);
    b.pop();
    assert_eq!(ClientStartupConfig::try_from(b).unwrap_err(), ReadError::UnexpectedEof);
}
