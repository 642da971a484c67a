use base64::Engine;
use cf::xtea_decryptor::{
    xtea_encipher, CallArgument, CallRewrite, CallSummary, DynamicXteaDecryptor,
};
use oxc_allocator::Allocator;

const DELTA: u32 = 0x9E37_79B9;

/// The inverse of the library's block cipher, to build payloads.
fn decipher(data: &[u8], key: &[u32; 4], rounds: u32) -> Vec<u8> {
    let mut out = Vec::new();
    for block in data.chunks(8) {
        let mut v0 = u32::from_le_bytes([block[0], block[1], block[2], block[3]]);
        let mut v1 = u32::from_le_bytes([block[4], block[5], block[6], block[7]]);
        let mut sum = DELTA.wrapping_mul(rounds);
        for _ in 0..rounds {
            v1 = v1.wrapping_sub(
                (((v0 << 4) ^ (v0 >> 5)).wrapping_add(v0)) ^ sum.wrapping_add(key[((sum >> 11) & 3) as usize]),
            );
            sum = sum.wrapping_sub(DELTA);
            v0 = v0.wrapping_sub(
                (((v1 << 4) ^ (v1 >> 5)).wrapping_add(v1)) ^ sum.wrapping_add(key[(sum & 3) as usize]),
            );
        }
        out.extend_from_slice(&v0.to_le_bytes());
        out.extend_from_slice(&v1.to_le_bytes());
    }
    out
}

fn b64(bytes: &[u8]) -> String {
    base64::prelude::BASE64_STANDARD.encode(bytes)
}

fn call(name: &str, arguments: Vec<CallArgument>) -> CallSummary {
    CallSummary { callee_name: Some(name.to_string()), callee_is_identifier: true, arguments }
}

#[test]
fn encipher_matches_the_reference_vector() {
    let key = [0x0001_0203, 0x0405_0607, 0x0809_0a0b, 0x0c0d_0e0f];
    let plain = vec![0x44, 0x43, 0x42, 0x41, 0x48, 0x47, 0x46, 0x45];
    let out = xtea_encipher(&plain, &key, 32);
    assert_eq!(out, vec![0xd0, 0xf3, 0x7d, 0x49, 0xb5, 0x2c, 0x61, 0x72]);
}

#[test]
fn detect_reads_key_rounds_and_payload() {
    let allocator = Allocator::default();
    let d = DynamicXteaDecryptor::new(&allocator);
    let payload = [1u8, 2, 3, 4, 5, 6, 7, 8];
    let c = call(
        "xteaDecrypt",
        vec![
            CallArgument::NumberArray(vec![Some(7), Some(8), Some(9), Some(10)]),
            CallArgument::Number(16),
            CallArgument::StringLiteral(b64(&payload)),
        ],
    );
    let ctx = d.detect_xtea_pattern(&c).unwrap();
    assert_eq!(ctx.callee_name, "xteaDecrypt");
    assert_eq!(ctx.key, [7, 8, 9, 10]);
    assert_eq!(ctx.num_rounds, 16);
    assert_eq!(ctx.encrypted_data, payload.to_vec());
}

#[test]
fn detect_rejects_zero_key_words_and_other_callees() {
    let allocator = Allocator::default();
    let d = DynamicXteaDecryptor::new(&allocator);
    let data = CallArgument::StringLiteral(b64(&[1, 2, 3, 4, 5, 6, 7, 8]));
    let zero_key = call(
        "decrypt",
        vec![CallArgument::NumberArray(vec![Some(1), Some(0), Some(3), Some(4)]), CallArgument::Other],
    );
    assert!(d.detect_xtea_pattern(&zero_key).is_none());
    let other = call(
        "compute",
        vec![CallArgument::NumberArray(vec![Some(1), Some(2), Some(3), Some(4)]), data],
    );
    assert!(d.detect_xtea_pattern(&other).is_none());
}

#[test]
fn nested_call_supplies_the_payload() {
    let allocator = Allocator::default();
    let d = DynamicXteaDecryptor::new(&allocator);
    let c = call(
        "decipherBlock",
        vec![
            CallArgument::NumberArray(vec![Some(1), Some(2), Some(3), Some(4)]),
            CallArgument::Call(Some(b64(b"abcdefgh"))),
        ],
    );
    let ctx = d.detect_xtea_pattern(&c).unwrap();
    assert_eq!(ctx.num_rounds, 32);
    assert_eq!(ctx.encrypted_data, b"abcdefgh".to_vec());
}

#[test]
fn decrypt_and_rewrite_as_atob_literal() {
    let allocator = Allocator::default();
    let d = DynamicXteaDecryptor::new(&allocator);
    let key = [11u32, 22, 33, 44];
    let secret = decipher(b"hello, world!!!!", &key, 32);
    assert_ne!(secret, b"hello, world!!!!".to_vec());
    let c = call(
        "xtea",
        vec![
            CallArgument::NumberArray(vec![Some(11), Some(22), Some(33), Some(44)]),
            CallArgument::StringLiteral(b64(&secret)),
        ],
    );
    let ctx = d.detect_xtea_pattern(&c).unwrap();
    assert_eq!(d.decrypt_xtea(&ctx).as_deref(), Some("hello, world!!!!"));
    match d.plan_call_rewrite(&c) {
        CallRewrite::AtobLiteral(t) => assert_eq!(t, "hello, world!!!!"),
        _ => panic!("expected an atob literal"),
    }
}

#[test]
fn partial_block_payload_is_not_decrypted() {
    let allocator = Allocator::default();
    let d = DynamicXteaDecryptor::new(&allocator);
    let c = call(
        "xtea",
        vec![
            CallArgument::NumberArray(vec![Some(1), Some(2), Some(3), Some(4)]),
            CallArgument::StringLiteral(b64(b"abc")),
        ],
    );
    let ctx = d.detect_xtea_pattern(&c).unwrap();
    assert!(d.decrypt_xtea(&ctx).is_none());
}

#[test]
fn long_printable_atob_is_a_response_candidate() {
    let allocator = Allocator::default();
    let d = DynamicXteaDecryptor::new(&allocator);
    let data = b64(b"this is a printable response body with enough text in it");
    assert!(data.len() > 50);
    let c = call("atob", vec![CallArgument::StringLiteral(data.clone()), CallArgument::Other]);
    match d.plan_call_rewrite(&c) {
        CallRewrite::DecryptResponse { callee, data: d2 } => {
            assert_eq!(callee, "atob");
            assert_eq!(d2, data);
        }
        _ => panic!("expected a response candidate"),
    }
}

#[test]
fn other_calls_are_descended_into() {
    let allocator = Allocator::default();
    let d = DynamicXteaDecryptor::new(&allocator);
    let short = call("atob", vec![CallArgument::StringLiteral(b64(b"hi")), CallArgument::Other]);
    assert!(matches!(d.plan_call_rewrite(&short), CallRewrite::Descend));
    let binary = b64(&[0u8; 60]);
    let not_text = call("btoa", vec![CallArgument::StringLiteral(binary), CallArgument::Other]);
    assert!(matches!(d.plan_call_rewrite(&not_text), CallRewrite::Descend));
    let mut not_ident = call(
        "atob",
        vec![CallArgument::StringLiteral(b64(b"this is a printable response body with enough text in it")), CallArgument::Other],
    );
    not_ident.callee_is_identifier = false;
    assert!(matches!(d.plan_call_rewrite(&not_ident), CallRewrite::Descend));
}
