use token_info::{
    build_token_info, decode_instruction, encode_record, same_key, Config, Images, Instruction,
    Link, TokenInfo, TokenInfoError, TokenInfoV1,
};

fn put_str(out: &mut Vec<u8>, s: &str) {
    out.extend_from_slice(&(s.len() as u32).to_le_bytes());
    out.extend_from_slice(s.as_bytes());
}

fn link(label: &str, url: &str) -> Link {
    Link { label: label.to_string(), url: url.to_string() }
}

fn sample_bytes() -> Vec<u8> {
    let mut out = vec![0u8];
    put_str(&mut out, "Foo");
    out.extend_from_slice(&2u32.to_le_bytes());
    put_str(&mut out, "web");
    put_str(&mut out, "https://a");
    put_str(&mut out, "x");
    put_str(&mut out, "https://b");
    put_str(&mut out, "ipfs://a");
    put_str(&mut out, "ipfs://b");
    out
}

#[test]
fn decodes_a_request_with_links() {
    let r = decode_instruction(&sample_bytes()).unwrap();
    assert_eq!(
        r,
        Instruction::CreateInfo {
            description: "Foo".to_string(),
            links: vec![link("web", "https://a"), link("x", "https://b")],
            icon_uri: "ipfs://a".to_string(),
            header_uri: "ipfs://b".to_string(),
        }
    );
}

#[test]
fn decodes_utf8_text() {
    let mut out = vec![0u8];
    put_str(&mut out, "héllo ✓");
    out.extend_from_slice(&0u32.to_le_bytes());
    put_str(&mut out, "");
    put_str(&mut out, "");
    let Instruction::CreateInfo { description, links, icon_uri, header_uri } =
        decode_instruction(&out).unwrap();
    assert_eq!(description, "héllo ✓");
    assert!(links.is_empty());
    assert_eq!(icon_uri, "");
    assert_eq!(header_uri, "");
}

#[test]
fn refuses_trailing_bytes() {
    let mut data = sample_bytes();
    data.push(0);
    assert_eq!(decode_instruction(&data), Err(TokenInfoError::InvalidInstruction));
}

#[test]
fn refuses_unknown_tag() {
    let mut data = sample_bytes();
    data[0] = 1;
    assert_eq!(decode_instruction(&data), Err(TokenInfoError::InvalidInstruction));
}

#[test]
fn refuses_empty_input() {
    assert_eq!(decode_instruction(&[]), Err(TokenInfoError::InvalidInstruction));
}

#[test]
fn refuses_truncated_link_list() {
    let data = sample_bytes();
    assert_eq!(decode_instruction(&data[..20]), Err(TokenInfoError::InvalidInstruction));
}

#[test]
fn refuses_invalid_utf8() {
    let mut data = vec![0u8, 1, 0, 0, 0, 0xff];
    data.extend_from_slice(&[0; 12]);
    assert_eq!(decode_instruction(&data), Err(TokenInfoError::InvalidInstruction));
}

#[test]
fn builds_a_record_with_equal_stamps() {
    let ins = decode_instruction(&sample_bytes()).unwrap();
    let TokenInfo::V1(v) = build_token_info(&[0; 32], ins, 77);
    assert_eq!(v.mint, "11111111111111111111111111111111");
    assert_eq!(v.description, "Foo");
    assert_eq!(v.links.len(), 2);
    assert_eq!(v.images, Images { icon: "ipfs://a".to_string(), header: "ipfs://b".to_string() });
    assert_eq!(v.creation_timestamp, 77);
    assert_eq!(v.update_timestamp, 77);
}

#[test]
fn mint_text_is_base58() {
    let mut key = [0u8; 32];
    key[31] = 1;
    let ins = decode_instruction(&sample_bytes()).unwrap();
    let TokenInfo::V1(v) = build_token_info(&key, ins, 0);
    assert_eq!(v.mint, "11111111111111111111111111111112");
}

#[test]
fn encodes_a_record_exactly() {
    let info = TokenInfo::V1(TokenInfoV1 {
        mint: "M".to_string(),
        description: "d".to_string(),
        links: vec![link("a", "b")],
        images: Images { icon: "i".to_string(), header: "h".to_string() },
        creation_timestamp: 1,
        update_timestamp: -1,
    });
    let bytes = encode_record(&Config::standard(), &info).unwrap();
    let mut expected = vec![0xAB, 1, 0];
    put_str(&mut expected, "M");
    put_str(&mut expected, "d");
    expected.extend_from_slice(&1u32.to_le_bytes());
    put_str(&mut expected, "a");
    put_str(&mut expected, "b");
    put_str(&mut expected, "i");
    put_str(&mut expected, "h");
    expected.extend_from_slice(&1i64.to_le_bytes());
    expected.extend_from_slice(&(-1i64).to_le_bytes());
    assert_eq!(bytes, expected);
}

#[test]
fn compares_keys() {
    let mut b = [4u8; 32];
    assert!(same_key(&[4; 32], &b));
    b[31] = 5;
    assert!(!same_key(&[4; 32], &b));
}

#[test]
fn record_from_text_keeps_every_field() {
    let ins = decode_instruction(&sample_bytes()).unwrap();
    let TokenInfo::V1(v) = token_info::token_info_from_text("Mint".to_string(), ins, -3);
    assert_eq!(v.mint, "Mint");
    assert_eq!(v.links, vec![link("web", "https://a"), link("x", "https://b")]);
    assert_eq!(v.images.icon, "ipfs://a");
    assert_eq!(v.images.header, "ipfs://b");
    assert_eq!((v.creation_timestamp, v.update_timestamp), (-3, -3));
}
