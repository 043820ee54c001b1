// The TOTP secret of the dedicated test account is given in base32.
fn decode_base32(value: &str) -> Result<Vec<u8>, String> {
    let mut output = Vec::new();
    let mut buffer = 0_u64;
    let mut bits = 0_u8;
    for byte in value.bytes().filter(|byte| !matches!(byte, b' ' | b'-')) {
        if byte == b'=' {
            break;
        }
        let upper = byte.to_ascii_uppercase();
        let digit = match upper {
            b'A'..=b'Z' => upper - b'A',
            b'2'..=b'7' => upper - b'2' + 26,
            _ => return Err("invalid base32 character in PROTON_TEST_TOTP_SECRET".to_string()),
        };
        buffer = (buffer << 5) | u64::from(digit);
        bits += 5;
        while bits >= 8 {
            bits -= 8;
            output.push((buffer >> bits) as u8);
            buffer &= (1_u64 << bits).saturating_sub(1);
        }
    }
    if output.is_empty() {
        return Err("PROTON_TEST_TOTP_SECRET is empty".to_string());
    }
    Ok(output)
}

#[test]
fn decodes_base32() {
    assert_eq!(decode_base32("MZXW6===").unwrap(), b"foo");
}
