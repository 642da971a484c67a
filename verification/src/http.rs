//! Response-body handling: content decoding and reading the ray id of a
//! challenge page.
use vstd::prelude::*;
use vstd::string::StringSliceAdditionalSpecFns;
use vstd::utf8::decode_utf8;
use std::io::Read;
use crate::regex_search::{regex_capture, regex_first_capture};
use crate::text::str_equal;

verus! {

broadcast use vstd::utf8::encode_utf8_valid_utf8, vstd::utf8::encode_utf8_decode_utf8;

/// The lower-case form that `str::to_lowercase` gives (Unicode case mapping).
pub uninterp spec fn unicode_lowercase(s: Seq<char>) -> Seq<char>;

/// The bytes a gzip stream decompresses to with `flate2::read::GzDecoder`;
/// none when decoding fails.
pub uninterp spec fn gzip_decoded(input: Seq<u8>) -> Option<Seq<u8>>;

/// The bytes a Brotli stream decompresses to with `brotli::BrotliDecompress`;
/// none when decoding fails.
pub uninterp spec fn brotli_decoded(input: Seq<u8>) -> Option<Seq<u8>>;

/// Text made only of ASCII characters.
pub open spec fn is_ascii_text(s: Seq<char>) -> bool {
    forall|i: int| 0 <= i < s.len() ==> (#[trigger] s[i] as u32) < 128
}

/// `A`..`Z` mapped to `a`..`z`, every other character kept.
pub open spec fn ascii_lower_char(c: char) -> char {
    if 'A' <= c <= 'Z' {
        ((c as int) + 32) as char
    } else {
        c
    }
}

pub open spec fn ascii_lower(s: Seq<char>) -> Seq<char> {
    s.map_values(|c: char| ascii_lower_char(c))
}

/// `str::to_lowercase`. On ASCII text the Unicode lower-case mapping maps
/// `A`..`Z` to `a`..`z` and keeps every other character.
#[verifier::external_body]
fn lowercase(s: &str) -> (r: String)
    ensures
        r@ == unicode_lowercase(s@),
        is_ascii_text(s@) ==> r@ == ascii_lower(s@),
{
    s.to_lowercase()
}

/// Reads a `flate2::read::GzDecoder` over the bytes to the end; the error's
/// text on failure.
#[verifier::external_body]
fn gunzip(bytes: &[u8]) -> (r: Result<Vec<u8>, String>)
    ensures
        r matches Ok(v) ==> gzip_decoded(bytes@) == Some(v@),
        r is Err ==> gzip_decoded(bytes@) is None,
{
    let mut decoder = flate2::read::GzDecoder::new(bytes);
    let mut decompressed = Vec::new();
    match decoder.read_to_end(&mut decompressed) {
        Ok(_) => Ok(decompressed),
        Err(e) => Err(e.to_string()),
    }
}

/// Runs `brotli::BrotliDecompress` over the bytes; the error's text on
/// failure.
#[verifier::external_body]
fn unbrotli(bytes: &[u8]) -> (r: Result<Vec<u8>, String>)
    ensures
        r matches Ok(v) ==> brotli_decoded(bytes@) == Some(v@),
        r is Err ==> brotli_decoded(bytes@) is None,
{
    let mut decompressed = Vec::new();
    let mut input = bytes;
    match brotli::BrotliDecompress(&mut input, &mut decompressed) {
        Ok(()) => Ok(decompressed),
        Err(e) => Err(e.to_string()),
    }
}

/// Why a response body could not be decoded: the decoder's message.
#[derive(Debug)]
pub enum DecompressError {
    Gzip(String),
    Brotli(String),
}

/// The decoded body for a `Content-Encoding` (compared case-insensitively):
/// gzip and Brotli are decompressed, any other encoding (`identity`, none,
/// or one not known) leaves the bytes as they are.
pub open spec fn decoded_body(bytes: Seq<u8>, encoding: Seq<char>) -> Option<Seq<u8>> {
    let e = unicode_lowercase(encoding);
    if e == "gzip"@ {
        gzip_decoded(bytes)
    } else if e == "br"@ {
        brotli_decoded(bytes)
    } else {
        Some(bytes)
    }
}

/// Decodes a response body according to its content encoding (see
/// `decoded_body`); fails only when gzip or Brotli data does not decode.
pub fn decompress_body(bytes: &[u8], encoding: &str) -> (r: Result<Vec<u8>, DecompressError>)
    ensures
        match decoded_body(bytes@, encoding@) {
            Some(d) => r matches Ok(v) && v@ == d,
            None => r is Err,
        },
        r matches Err(DecompressError::Gzip(_)) ==> unicode_lowercase(encoding@) == "gzip"@,
        r matches Err(DecompressError::Brotli(_)) ==> unicode_lowercase(encoding@) == "br"@,
        is_ascii_text(encoding@) && ascii_lower(encoding@) == "gzip"@ ==> match gzip_decoded(bytes@) {
            Some(d) => r matches Ok(v) && v@ == d,
            None => r matches Err(DecompressError::Gzip(_)),
        },
        is_ascii_text(encoding@) && ascii_lower(encoding@) == "br"@ ==> match brotli_decoded(bytes@) {
            Some(d) => r matches Ok(v) && v@ == d,
            None => r matches Err(DecompressError::Brotli(_)),
        },
        is_ascii_text(encoding@) && ascii_lower(encoding@) != "gzip"@ && ascii_lower(encoding@)
            != "br"@ ==> (r matches Ok(v) && v@ == bytes@),
{
    proof {
        reveal_strlit("gzip");
        reveal_strlit("br");
        assert("gzip"@.len() == 4 && "br"@.len() == 2);
    }
    let lower = lowercase(encoding);
    if str_equal(lower.as_str(), "gzip") {
        match gunzip(bytes) {
            Ok(v) => Ok(v),
            Err(e) => Err(DecompressError::Gzip(e)),
        }
    } else if str_equal(lower.as_str(), "br") {
        match unbrotli(bytes) {
            Ok(v) => Ok(v),
            Err(e) => Err(DecompressError::Brotli(e)),
        }
    } else {
        Ok(vstd::slice::slice_to_vec(bytes))
    }
}

/// The pattern of the ray id attribute; group 1 is the id.
pub open spec fn ray_pattern() -> Seq<char> {
    "data-ray=\"([^\"]+)\""@
}

/// The ray id is read from a `data-ray` attribute in double quotes: group 1
/// is its non-empty value, up to the closing quote.
pub proof fn lemma_ray_pattern()
    ensures
        ray_pattern() == "data-ray=\"([^\"]+)\""@,
{
}

/// The ray id of a challenge page: the value of its first `data-ray`
/// attribute.
pub open spec fn ray_id(html: &str) -> Option<Seq<char>> {
    match regex_first_capture(ray_pattern(), html@, 1) {
        Some(span) => Some(decode_utf8(html.spec_bytes().subrange(span.0 as int, span.1 as int))),
        None => None,
    }
}

/// Reads the ray id from a challenge page (see `ray_id`).
pub fn extract_c_ray(html: &str) -> (r: Option<String>)
    ensures
        match ray_id(html) {
            Some(id) => r matches Some(s) && s@ == id,
            None => r is None,
        },
{
    let span = regex_capture("data-ray=\"([^\"]+)\"", html, 1);
    match span {
        None => None,
        Some((start, end)) => {
            let ghost bytes = html.spec_bytes();
            let (_, rest) = html.split_at(start);
            proof {
                crate::vm_candidates::lemma_boundary_in_suffix(bytes, start as int, end as int);
            }
            let (piece, _) = rest.split_at(end - start);
            proof {
                assert(piece.spec_bytes() =~= bytes.subrange(start as int, end as int));
                vstd::utf8::decode_utf8_encode_utf8(piece.spec_bytes());
            }
            Some(piece.to_owned())
        },
    }
}

} // verus!
