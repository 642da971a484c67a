use cf::http::{decompress_body, extract_c_ray, DecompressError};
use std::io::Write;

fn gzip(data: &[u8]) -> Vec<u8> {
    let mut enc = flate2::write::GzEncoder::new(Vec::new(), flate2::Compression::default());
    enc.write_all(data).unwrap();
    enc.finish().unwrap()
}

fn brotli_compress(data: &[u8]) -> Vec<u8> {
    let mut out = Vec::new();
    {
        let mut w = brotli::CompressorWriter::new(&mut out, 4096, 5, 22);
        w.write_all(data).unwrap();
    }
    out
}

#[test]
fn gzip_body_is_inflated() {
    let body = b"<html>challenge</html>";
    let packed = gzip(body);
    assert_ne!(packed, body.to_vec());
    assert_eq!(decompress_body(&packed, "gzip").unwrap(), body.to_vec());
    assert_eq!(decompress_body(&packed, "GZip").unwrap(), body.to_vec());
}

#[test]
fn brotli_body_is_decompressed() {
    let body = b"window._cf_chl_opt = {};";
    let packed = brotli_compress(body);
    assert_eq!(decompress_body(&packed, "br").unwrap(), body.to_vec());
}

#[test]
fn other_encodings_keep_the_bytes() {
    let body = b"plain";
    assert_eq!(decompress_body(body, "").unwrap(), body.to_vec());
    assert_eq!(decompress_body(body, "identity").unwrap(), body.to_vec());
    assert_eq!(decompress_body(body, "zstd").unwrap(), body.to_vec());
}

#[test]
fn corrupt_bodies_are_errors() {
    assert!(matches!(decompress_body(b"not gzip at all", "gzip"), Err(DecompressError::Gzip(_))));
    assert!(matches!(decompress_body(&[0xff; 16], "br"), Err(DecompressError::Brotli(_))));
}

#[test]
fn ray_id_is_read_from_the_page() {
    let html = r#"<div class="ray" data-ray="8f1a2b3c4d5e6f70">x</div><p data-ray="second"></p>"#;
    assert_eq!(extract_c_ray(html).as_deref(), Some("8f1a2b3c4d5e6f70"));
    assert_eq!(extract_c_ray("<html>no ray here</html>"), None);
    assert_eq!(extract_c_ray(r#"data-ray="""#), None);
}
