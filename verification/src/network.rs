//! The request profile of the Chrome 136 client the solver presents.
use vstd::prelude::*;

verus! {

/// The user agent of Chrome 136 on Windows.
pub const CHROME_UA: &'static str = "Mozilla/5.0 (Windows NT 10.0; Win64; x64) AppleWebKit/537.36 (KHTML, like Gecko) Chrome/136.0.0.0 Safari/537.36";

/// The `sec-ch-ua-platform` value.
pub const CHROME_PLATFORM: &'static str = "\"Windows\"";

/// The `sec-ch-ua` brand list.
pub const CHROME_SEC_CH_UA: &'static str = "\"Not.A/Brand\";\"Chromium\";\"Google Chrome\";\"Chrome/136.0.0.0\"";

/// The `accept-language` value.
pub const ACCEPT_LANGUAGE: &'static str = "en-US,en;q=0.9";

/// The `sec-ch-ua-mobile` value.
pub const SEC_CH_UA_MOBILE: &'static str = "?0";

/// The `accept-encoding` value.
pub const ACCEPT_ENCODING: &'static str = "gzip, deflate, br";

/// The default headers, in the order they are set: name, value.
pub open spec fn default_header_list() -> Seq<(Seq<char>, Seq<char>)> {
    seq![
        ("accept"@, "text/html,application/xhtml+xml,application/xml;q=0.9,image/avif,image/webp,*/*;q=0.8"@),
        ("accept-language"@, "en-US,en;q=0.9"@),
        ("user-agent"@, "Mozilla/5.0 (Windows NT 10.0; Win64; x64) AppleWebKit/537.36 (KHTML, like Gecko) Chrome/136.0.0.0 Safari/537.36"@),
        ("sec-ch-ua"@, "\"Not.A/Brand\";\"Chromium\";\"Google Chrome\";\"Chrome/136.0.0.0\""@),
        ("sec-ch-ua-mobile"@, "?0"@),
        ("sec-ch-ua-platform"@, "\"Windows\""@),
        ("sec-fetch-dest"@, "document"@),
        ("sec-fetch-mode"@, "navigate"@),
        ("sec-fetch-site"@, "none"@),
        ("upgrade-insecure-requests"@, "1"@),
        ("accept-encoding"@, "gzip, deflate, br"@),
    ]
}

/// The headers sent with every request (see `default_header_list`).
pub fn build_default_headers() -> (r: Vec<(String, String)>)
    ensures
        r@.map_values(|h: (String, String)| (h.0@, h.1@)) == default_header_list(),
{
    let mut headers: Vec<(String, String)> = Vec::new();
    headers.push((String::from_str("accept"), String::from_str("text/html,application/xhtml+xml,application/xml;q=0.9,image/avif,image/webp,*/*;q=0.8")));
    headers.push((String::from_str("accept-language"), String::from_str(ACCEPT_LANGUAGE)));
    headers.push((String::from_str("user-agent"), String::from_str(CHROME_UA)));
    headers.push((String::from_str("sec-ch-ua"), String::from_str(CHROME_SEC_CH_UA)));
    headers.push((String::from_str("sec-ch-ua-mobile"), String::from_str(SEC_CH_UA_MOBILE)));
    headers.push((String::from_str("sec-ch-ua-platform"), String::from_str(CHROME_PLATFORM)));
    headers.push((String::from_str("sec-fetch-dest"), String::from_str("document")));
    headers.push((String::from_str("sec-fetch-mode"), String::from_str("navigate")));
    headers.push((String::from_str("sec-fetch-site"), String::from_str("none")));
    headers.push((String::from_str("upgrade-insecure-requests"), String::from_str("1")));
    headers.push((String::from_str("accept-encoding"), String::from_str(ACCEPT_ENCODING)));
    assert(headers@.map_values(|h: (String, String)| (h.0@, h.1@)) =~= default_header_list());
    headers
}

} // verus!
