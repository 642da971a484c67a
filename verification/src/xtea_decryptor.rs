//! Recognising calls that decrypt an XTEA-protected payload, and planning
//! how such a call is rewritten once its result is known.
use vstd::prelude::*;
use vstd::utf8::{decode_utf8, valid_utf8};
use byteorder::ByteOrder;
use oxc_allocator::Allocator;
use oxc_ast::builder::AstBuilder;
use rustc_hash::{FxBuildHasher, FxHashMap};
use base64::Engine;
use vstd::utf8::encode_utf8;
use crate::chars::{chars_of, find_chars, find_from, lemma_find_from_finds};
use crate::text::str_equal;

verus! {

// ---------------------------------------------------------------------------
// Outside calls.
// ---------------------------------------------------------------------------

/// What standard-alphabet, padded Base64 decoding (`base64`'s
/// `BASE64_STANDARD` engine) yields for the input bytes; none when they are
/// not valid Base64.
pub uninterp spec fn base64_standard_decoded(input: Seq<u8>) -> Option<Seq<u8>>;

/// Decodes with `base64::prelude::BASE64_STANDARD.decode`, keeping the
/// bytes on success.
#[verifier::external_body]
fn base64_decode(input: &[u8]) -> (r: Option<Vec<u8>>)
    ensures
        r matches Some(v) ==> base64_standard_decoded(input@) == Some(v@),
        r is None ==> base64_standard_decoded(input@) is None,
{
    base64::prelude::BASE64_STANDARD.decode(input).ok()
}

/// The little-endian value of four bytes.
#[verifier::opaque]
pub open spec fn le_u32(b: Seq<u8>) -> u32 {
    (b[0] as int + b[1] as int * 256 + b[2] as int * 65536 + b[3] as int * 16777216) as u32
}

/// The four little-endian bytes of a value.
#[verifier::opaque]
pub open spec fn le_bytes(n: u32) -> Seq<u8> {
    seq![
        (n % 256) as u8,
        ((n / 256) % 256) as u8,
        ((n / 65536) % 256) as u8,
        ((n / 16777216) % 256) as u8,
    ]
}

/// `byteorder::LittleEndian::read_u32`: the little-endian value of the bytes.
#[verifier::external_body]
fn le_read_u32(buf: &[u8; 4]) -> (r: u32)
    ensures
        r == le_u32(buf@),
{
    byteorder::LittleEndian::read_u32(buf)
}

/// `byteorder::LittleEndian::write_u32`: the bytes become the little-endian
/// bytes of `n`.
#[verifier::external_body]
fn le_write_u32(buf: &mut [u8; 4], n: u32)
    ensures
        final(buf)@ == le_bytes(n),
{
    byteorder::LittleEndian::write_u32(buf, n)
}

/// `String::from_utf8`: the text of the bytes when they are valid UTF-8.
#[verifier::external_body]
fn utf8_string(bytes: Vec<u8>) -> (r: Option<String>)
    ensures
        r is Some <==> valid_utf8(bytes@),
        r matches Some(s) ==> s@ == decode_utf8(bytes@),
{
    String::from_utf8(bytes).ok()
}

// ---------------------------------------------------------------------------
// XTEA.
// ---------------------------------------------------------------------------

pub open spec fn xtea_delta() -> u32 {
    0x9E37_79B9
}

/// `((v << 4) ^ (v >> 5)) + v`, wrapping.
pub open spec fn xtea_mix(v: u32) -> u32 {
    ((v << 4u32) ^ (v >> 5u32)).wrapping_add(v)
}

/// One XTEA cycle (two Feistel rounds) on `(v0, v1, sum)`.
pub open spec fn xtea_cycle(st: (u32, u32, u32), key: Seq<u32>) -> (u32, u32, u32) {
    let (v0, v1, sum) = st;
    let v0n = v0.wrapping_add(xtea_mix(v1) ^ sum.wrapping_add(key[(sum & 3u32) as int]));
    let sumn = sum.wrapping_add(xtea_delta());
    let v1n = v1.wrapping_add(xtea_mix(v0n) ^ sumn.wrapping_add(key[((sumn >> 11u32) & 3u32) as int]));
    (v0n, v1n, sumn)
}

/// The state after `n` cycles from `(v0, v1, 0)`.
pub open spec fn xtea_cycles(v0: u32, v1: u32, key: Seq<u32>, n: nat) -> (u32, u32, u32)
    decreases n,
{
    if n == 0 {
        (v0, v1, 0)
    } else {
        xtea_cycle(xtea_cycles(v0, v1, key, (n - 1) as nat), key)
    }
}

/// One enciphered 8-byte block.
pub open spec fn xtea_block(block: Seq<u8>, key: Seq<u32>, rounds: u32) -> Seq<u8> {
    let st = xtea_cycles(le_u32(block.subrange(0, 4)), le_u32(block.subrange(4, 8)), key, rounds as nat);
    le_bytes(st.0) + le_bytes(st.1)
}

/// XTEA encipherment of consecutive 8-byte blocks, each read and written as
/// two little-endian words; a trailing partial block is dropped.
pub open spec fn xtea_encipher_bytes(data: Seq<u8>, key: Seq<u32>, rounds: u32) -> Seq<u8>
    decreases data.len(),
{
    if data.len() < 8 {
        Seq::empty()
    } else {
        xtea_block(data.subrange(0, 8), key, rounds) + xtea_encipher_bytes(
            data.subrange(8, data.len() as int),
            key,
            rounds,
        )
    }
}

fn encipher_block(v0: u32, v1: u32, key: &[u32; 4], rounds: u32) -> (r: (u32, u32))
    ensures
        r.0 == xtea_cycles(v0, v1, key@, rounds as nat).0,
        r.1 == xtea_cycles(v0, v1, key@, rounds as nat).1,
{
    let mut a = v0;
    let mut b = v1;
    let mut sum: u32 = 0;
    let mut k: u32 = 0;
    while k < rounds
        invariant
            k <= rounds,
            (a, b, sum) == xtea_cycles(v0, v1, key@, k as nat),
        decreases rounds - k,
    {
        let i0 = sum & 3;
        assert(sum & 3u32 < 4u32) by (bit_vector);
        a = a.wrapping_add((((b << 4u32) ^ (b >> 5u32)).wrapping_add(b)) ^ sum.wrapping_add(
            key[i0 as usize],
        ));
        sum = sum.wrapping_add(0x9E37_79B9);
        let i1 = (sum >> 11u32) & 3;
        assert((sum >> 11u32) & 3u32 < 4u32) by (bit_vector);
        b = b.wrapping_add((((a << 4u32) ^ (a >> 5u32)).wrapping_add(a)) ^ sum.wrapping_add(
            key[i1 as usize],
        ));
        k = k + 1;
    }
    (a, b)
}

/// Enciphers every 8-byte block of `data` (see `xtea_encipher_bytes`).
pub fn xtea_encipher(data: &Vec<u8>, key: &[u32; 4], rounds: u32) -> (r: Vec<u8>)
    requires
        data@.len() % 8 == 0,
    ensures
        r@ == xtea_encipher_bytes(data@, key@, rounds),
        r@.len() == data@.len(),
{
    let n = data.len();
    let mut out: Vec<u8> = Vec::new();
    let mut j: usize = 0;
    assert(data@.subrange(0, n as int) =~= data@);
    assert(out@ + xtea_encipher_bytes(data@, key@, rounds) =~= xtea_encipher_bytes(data@, key@, rounds));
    while j < n
        invariant
            n == data@.len(),
            n % 8 == 0,
            j <= n,
            j % 8 == 0,
            out@.len() == j,
            out@ + xtea_encipher_bytes(data@.subrange(j as int, n as int), key@, rounds)
                == xtea_encipher_bytes(data@, key@, rounds),
        decreases n - j,
    {
        let ghost rest = data@.subrange(j as int, n as int);
        let lo: [u8; 4] = [data[j], data[j + 1], data[j + 2], data[j + 3]];
        let hi: [u8; 4] = [data[j + 4], data[j + 5], data[j + 6], data[j + 7]];
        proof {
            assert(lo@ =~= rest.subrange(0, 8).subrange(0, 4));
            assert(hi@ =~= rest.subrange(0, 8).subrange(4, 8));
            assert(rest.subrange(8, rest.len() as int) =~= data@.subrange(j + 8, n as int));
        }
        let (a, b) = encipher_block(le_read_u32(&lo), le_read_u32(&hi), key, rounds);
        let mut wa: [u8; 4] = [0u8; 4];
        let mut wb: [u8; 4] = [0u8; 4];
        le_write_u32(&mut wa, a);
        le_write_u32(&mut wb, b);
        let ghost before = out@;
        out.push(wa[0]);
        out.push(wa[1]);
        out.push(wa[2]);
        out.push(wa[3]);
        out.push(wb[0]);
        out.push(wb[1]);
        out.push(wb[2]);
        out.push(wb[3]);
        proof {
            assert(wa@.len() == 4 && wb@.len() == 4) by {
                reveal(le_bytes);
            }
            assert(out@ =~= before + (le_bytes(a) + le_bytes(b)));
            assert(le_bytes(a) + le_bytes(b) == xtea_block(rest.subrange(0, 8), key@, rounds));
            assert(before + xtea_block(rest.subrange(0, 8), key@, rounds) + xtea_encipher_bytes(
                data@.subrange(j + 8, n as int),
                key@,
                rounds,
            ) =~= before + xtea_encipher_bytes(rest, key@, rounds));
        }
        j = j + 8;
    }
    proof {
        assert(xtea_encipher_bytes(data@.subrange(n as int, n as int), key@, rounds) =~= Seq::<u8>::empty());
        assert(out@ + Seq::<u8>::empty() =~= out@);
    }
    out
}

// ---------------------------------------------------------------------------
// Call expressions as the detection sees them.
// ---------------------------------------------------------------------------

/// One argument of a call, as far as the detection looks at it.
pub enum CallArgument {
    /// An array literal: per element, its value (converted with `as u32`)
    /// when it is a numeric literal.
    NumberArray(Vec<Option<u32>>),
    /// A numeric literal, converted with `as u32`.
    Number(u32),
    StringLiteral(String),
    /// A nested call: its first argument when that is a string literal.
    Call(Option<String>),
    Other,
}

/// A call expression as the detection sees it.
pub struct CallSummary {
    /// The identifier the callee is, once parentheses are looked through.
    pub callee_name: Option<String>,
    /// Whether the callee itself is a plain identifier.
    pub callee_is_identifier: bool,
    pub arguments: Vec<CallArgument>,
}

/// A recognised XTEA decryption call.
pub struct XteaCallContext {
    pub callee_name: String,
    pub key: [u32; 4],
    pub encrypted_data: Vec<u8>,
    pub num_rounds: u32,
}

/// What the detection has gathered: key, rounds, payload.
pub type XteaScan = (Seq<u32>, u32, Seq<u8>);

/// The key with each of its first four words replaced by the numeric
/// element at the same position, where there is one.
pub open spec fn update_key(key: Seq<u32>, elems: Seq<Option<u32>>) -> Seq<u32> {
    Seq::new(
        4,
        |j: int|
            if j < elems.len() && elems[j] is Some {
                elems[j]->0
            } else {
                key[j]
            },
    )
}

/// The payload that a string argument decodes to, replacing the current one.
pub open spec fn with_payload(st: XteaScan, text: Seq<char>) -> XteaScan {
    match base64_standard_decoded(encode_utf8(text)) {
        Some(d) => (st.0, st.1, d),
        None => st,
    }
}

/// The scan after argument `arg` at position `i`: array literals supply key
/// words, a number in second position the round count, a string literal (or
/// a call whose first argument is one) the Base64-encoded payload.
pub open spec fn scan_argument(st: XteaScan, i: int, arg: CallArgument) -> XteaScan {
    match arg {
        CallArgument::NumberArray(elems) => (update_key(st.0, elems@), st.1, st.2),
        CallArgument::Number(v) => if i == 1 {
            (st.0, v, st.2)
        } else {
            st
        },
        CallArgument::StringLiteral(s) => with_payload(st, s@),
        CallArgument::Call(first) => match first {
            Some(s) => with_payload(st, s@),
            None => st,
        },
        CallArgument::Other => st,
    }
}

/// The scan over all arguments, from a zero key, 32 rounds and no payload.
pub open spec fn scan_arguments(args: Seq<CallArgument>) -> XteaScan
    decreases args.len(),
{
    if args.len() == 0 {
        (seq![0u32, 0u32, 0u32, 0u32], 32u32, Seq::empty())
    } else {
        scan_argument(scan_arguments(args.drop_last()), args.len() - 1, args.last())
    }
}

/// The round count a call names: its second argument when that is a
/// numeric literal, 32 otherwise.
pub open spec fn rounds_argument(args: Seq<CallArgument>) -> u32 {
    if args.len() > 1 {
        match args[1] {
            CallArgument::Number(v) => v,
            _ => 32,
        }
    } else {
        32
    }
}

/// The scan takes its round count from the second argument alone.
pub proof fn lemma_scan_rounds(args: Seq<CallArgument>)
    ensures
        scan_arguments(args).1 == rounds_argument(args),
    decreases args.len(),
{
    if args.len() > 0 {
        lemma_scan_rounds(args.drop_last());
        if args.len() > 2 {
            assert(args.drop_last()[1] == args[1]);
        }
    }
}

/// A recognised call keeps the callee's name and deciphers with the round
/// count its second argument names (32 when that is not a numeric literal).
pub proof fn lemma_xtea_call_rounds(call: CallSummary)
    ensures
        xtea_call(call) matches Some(v) ==> v.3 == rounds_argument(call.arguments@) && Some(v.0)
            == match call.callee_name {
            Some(n) => Some(n@),
            None => None::<Seq<char>>,
        },
{
    lemma_scan_rounds(call.arguments@);
}

pub open spec fn contains_text(s: Seq<char>, part: Seq<char>) -> bool {
    find_from(s, part, 0) is Some
}

/// A callee name that suggests decryption.
pub open spec fn is_decryptor_name(name: Seq<char>) -> bool {
    contains_text(name, "xtea"@) || contains_text(name, "decipher"@) || contains_text(
        name,
        "decrypt"@,
    )
}

/// The recognised call, as (callee name, key, payload, rounds): at least two
/// arguments, a decryptor-like callee, a key with no zero word and a
/// non-empty payload.
pub open spec fn xtea_call(call: CallSummary) -> Option<(Seq<char>, Seq<u32>, Seq<u8>, u32)> {
    if call.arguments.len() < 2 {
        None
    } else {
        match call.callee_name {
            None => None,
            Some(name) => if !is_decryptor_name(name@) {
                None
            } else {
                let st = scan_arguments(call.arguments@);
                if st.0[0] != 0 && st.0[1] != 0 && st.0[2] != 0 && st.0[3] != 0 && st.2.len() > 0 {
                    Some((name@, st.0, st.2, st.1))
                } else {
                    None
                }
            },
        }
    }
}

/// A two-argument call whose callee's name contains `xtea`, `decipher` or
/// `decrypt`, whose first argument is an array of four non-zero numbers and
/// whose second is a string that decodes from Base64 to some bytes, is
/// recognised: with that name, that key, those bytes and 32 rounds.
pub proof fn lemma_decryptor_calls_recognised(call: CallSummary, word: Seq<char>, k: int)
    requires
        word == "xtea"@ || word == "decipher"@ || word == "decrypt"@,
        call.callee_name is Some,
        0 <= k,
        k + word.len() <= call.callee_name->0@.len(),
        call.callee_name->0@.subrange(k, k + word.len()) == word,
        call.arguments@.len() == 2,
        call.arguments@[0] is NumberArray,
        call.arguments@[0]->NumberArray_0@.len() == 4,
        forall|j: int|
            0 <= j < 4 ==> ((#[trigger] call.arguments@[0]->NumberArray_0@[j]) matches Some(w)
                && w != 0),
        call.arguments@[1] is StringLiteral,
        base64_standard_decoded(encode_utf8(call.arguments@[1]->StringLiteral_0@)) matches Some(d)
            && d.len() > 0,
    ensures
        xtea_call(call) matches Some(v) && {
            &&& v.0 == call.callee_name->0@
            &&& forall|j: int|
                0 <= j < 4 ==> v.1[j] == (#[trigger] call.arguments@[0]->NumberArray_0@[j])->0
            &&& Some(v.2) == base64_standard_decoded(
                encode_utf8(call.arguments@[1]->StringLiteral_0@),
            )
            &&& v.3 == 32
        },
{
    reveal_strlit("xtea");
    reveal_strlit("decipher");
    reveal_strlit("decrypt");
    let name = call.callee_name->0@;
    lemma_find_from_finds(name, word, 0, k);
    assert(is_decryptor_name(name));
    let args = call.arguments@;
    let elems = args[0]->NumberArray_0@;
    assert(args.drop_last().drop_last() =~= Seq::<CallArgument>::empty());
    assert(args.drop_last().last() == args[0]);
    assert(args.drop_last().len() == 1);
    let st0 = scan_arguments(args.drop_last().drop_last());
    assert(st0 == (seq![0u32, 0u32, 0u32, 0u32], 32u32, Seq::<u8>::empty()));
    let st1 = scan_arguments(args.drop_last());
    assert(st1 == scan_argument(st0, 0, args[0]));
    let key = update_key(st0.0, elems);
    assert(st1 == (key, 32u32, Seq::<u8>::empty()));
    let st2 = scan_arguments(args);
    assert(st2 == scan_argument(st1, 1, args[1]));
    assert forall|j: int| 0 <= j < 4 implies key[j] == (#[trigger] elems[j])->0 && key[j] != 0 by {}
}

pub open spec fn context_view(c: XteaCallContext) -> (Seq<char>, Seq<u32>, Seq<u8>, u32) {
    (c.callee_name@, c.key@, c.encrypted_data@, c.num_rounds)
}

/// The text that enciphering the payload yields, when the payload is a
/// whole number of blocks and the result is valid UTF-8.
pub open spec fn xtea_plaintext(key: Seq<u32>, data: Seq<u8>, rounds: u32) -> Option<Seq<char>> {
    if data.len() % 8 != 0 {
        None
    } else {
        let bytes = xtea_encipher_bytes(data, key, rounds);
        if valid_utf8(bytes) {
            Some(decode_utf8(bytes))
        } else {
            None
        }
    }
}

fn contains_str(s: &Vec<char>, part: &str) -> (r: bool)
    ensures
        r == contains_text(s@, part@),
{
    let p = chars_of(part);
    find_chars(s, &p, 0).is_some()
}

fn key_update(key: &mut [u32; 4], elems: &Vec<Option<u32>>)
    ensures
        final(key)@ == update_key(old(key)@, elems@),
{
    let mut j: usize = 0;
    while j < elems.len()
        invariant
            j <= elems@.len(),
            key@.len() == 4,
            forall|t: int|
                0 <= t < 4 ==> #[trigger] key@[t] == if t < j && t < elems@.len() && elems@[t] is Some {
                    elems@[t]->0
                } else {
                    old(key)@[t]
                },
        decreases elems@.len() - j,
    {
        if j < 4 {
            if let Some(v) = elems[j] {
                key[j] = v;
            }
        }
        j = j + 1;
    }
    assert(key@ =~= update_key(old(key)@, elems@));
}

/// The syntax-tree builder of the JavaScript toolchain, carried through opaquely.
#[verifier::external_type_specification]
#[verifier::external_body]
pub struct ExAstBuilder<'a>(AstBuilder<'a>);

/// The hasher of `rustc_hash` maps, carried through opaquely.
#[verifier::external_type_specification]
#[verifier::external_body]
pub struct ExFxBuildHasher(FxBuildHasher);

/// A builder over `allocator`: calls `oxc_ast::AstBuilder::new`. Nothing is
/// stated of the value, which is only carried.
#[verifier::external_body]
fn ast_builder<'a>(allocator: &'a Allocator) -> AstBuilder<'a> {
    AstBuilder::new(allocator)
}

/// Finds XTEA-protected payloads in a script and decides how each call that
/// decrypts one is rewritten.
pub struct DynamicXteaDecryptor<'a> {
    ast: AstBuilder<'a>,
    pending_decryptions: Vec<XteaCallContext>,
    resolved_values: FxHashMap<usize, String>,
}

impl<'a> DynamicXteaDecryptor<'a> {
    pub fn new(allocator: &'a Allocator) -> (r: Self)
        ensures
            r.pending().len() == 0,
            r.resolved() == Map::<usize, String>::empty(),
    {
        DynamicXteaDecryptor {
            ast: ast_builder(allocator),
            pending_decryptions: Vec::new(),
            resolved_values: FxHashMap::default(),
        }
    }

    /// Decryptions noted for later.
    pub closed spec fn pending(&self) -> Seq<XteaCallContext> {
        self.pending_decryptions@
    }

    /// Values resolved so far, by position.
    pub closed spec fn resolved(&self) -> Map<usize, String> {
        self.resolved_values@
    }

    /// Recognises an XTEA decryption call (see `xtea_call`).
    pub fn detect_xtea_pattern(&self, call: &CallSummary) -> (r: Option<XteaCallContext>)
        ensures
            match xtea_call(*call) {
                Some(v) => r matches Some(c) && context_view(c) == v,
                None => r is None,
            },
    {
        if call.arguments.len() < 2 {
            return None;
        }
        let name = match &call.callee_name {
            Some(n) => n,
            None => {
                return None;
            },
        };
        let name_chars = chars_of(name.as_str());
        if !contains_str(&name_chars, "xtea") && !contains_str(&name_chars, "decipher")
            && !contains_str(&name_chars, "decrypt") {
            return None;
        }
        let mut key: [u32; 4] = [0u32; 4];
        let mut num_rounds: u32 = 32;
        let mut encrypted_data: Vec<u8> = Vec::new();
        assert(key@ =~= seq![0u32, 0u32, 0u32, 0u32]);
        let n = call.arguments.len();
        let mut i: usize = 0;
        while i < n
            invariant
                n == call.arguments@.len(),
                i <= n,
                key@.len() == 4,
                (key@, num_rounds, encrypted_data@) == scan_arguments(
                    call.arguments@.subrange(0, i as int),
                ),
            decreases n - i,
        {
            proof {
                let next = call.arguments@.subrange(0, i + 1);
                assert(next.drop_last() =~= call.arguments@.subrange(0, i as int));
                if i == 0 {
                    assert(call.arguments@.subrange(0, 0) =~= Seq::<CallArgument>::empty());
                }
            }
            match &call.arguments[i] {
                CallArgument::NumberArray(elems) => {
                    key_update(&mut key, elems);
                },
                CallArgument::Number(v) => {
                    if i == 1 {
                        num_rounds = *v;
                    }
                },
                CallArgument::StringLiteral(s) => {
                    if let Some(decoded) = base64_decode(s.as_str().as_bytes()) {
                        encrypted_data = decoded;
                    }
                },
                CallArgument::Call(first) => {
                    if let Some(data) = self.extract_static_string_from_call(first) {
                        encrypted_data = data;
                    }
                },
                CallArgument::Other => {},
            }
            i = i + 1;
        }
        assert(call.arguments@.subrange(0, n as int) =~= call.arguments@);
        if key[0] != 0 && key[1] != 0 && key[2] != 0 && key[3] != 0 && encrypted_data.len() > 0 {
            Some(XteaCallContext { callee_name: name.clone(), key, encrypted_data, num_rounds })
        } else {
            None
        }
    }

    /// The payload of a nested call whose first argument is a string
    /// literal: that literal, Base64-decoded.
    fn extract_static_string_from_call(&self, first_argument: &Option<String>) -> (r: Option<
        Vec<u8>,
    >)
        ensures
            match first_argument {
                Some(s) => match base64_standard_decoded(encode_utf8(s@)) {
                    Some(d) => r matches Some(v) && v@ == d,
                    None => r is None,
                },
                None => r is None,
            },
    {
        match first_argument {
            Some(s) => base64_decode(s.as_str().as_bytes()),
            None => None,
        }
    }

    /// Enciphers the payload with the call's key and rounds and reads the
    /// result as UTF-8 text (see `xtea_plaintext`).
    pub fn decrypt_xtea(&self, ctx: &XteaCallContext) -> (r: Option<String>)
        ensures
            match xtea_plaintext(ctx.key@, ctx.encrypted_data@, ctx.num_rounds) {
                Some(t) => r matches Some(s) && s@ == t,
                None => r is None,
            },
    {
        if ctx.encrypted_data.len() % 8 != 0 {
            return None;
        }
        let decrypted = xtea_encipher(&ctx.encrypted_data, &ctx.key, ctx.num_rounds);
        utf8_string(decrypted)
    }
}

// ---------------------------------------------------------------------------
// What to do with a call.
// ---------------------------------------------------------------------------

/// How a call expression is to be rewritten.
pub enum CallRewrite {
    /// Replace the call with `atob("<text>")`.
    AtobLiteral(String),
    /// An `atob`/`btoa` call on a long Base64 literal that decodes to
    /// printable text: its response decryption is to be tried with `data`,
    /// and on success the call replaced by `<callee>("<result>")`.
    DecryptResponse { callee: String, data: String },
    /// Leave the call and search inside it.
    Descend,
}

/// Printable ASCII, `!` to `~` (`char::is_ascii_graphic`).
pub open spec fn is_ascii_graphic(c: char) -> bool {
    0x21 <= (c as u32) <= 0x7E
}

/// The Unicode `White_Space` characters (`char::is_whitespace`).
pub open spec fn is_unicode_whitespace(c: char) -> bool {
    let u = c as u32;
    ||| 0x09 <= u <= 0x0D
    ||| u == 0x20
    ||| u == 0x85
    ||| u == 0xA0
    ||| u == 0x1680
    ||| 0x2000 <= u <= 0x200A
    ||| u == 0x2028
    ||| u == 0x2029
    ||| u == 0x202F
    ||| u == 0x205F
    ||| u == 0x3000
}

/// Whether a response-decryption attempt applies to the call, and with which
/// callee name and data: exactly two arguments, the callee the identifier
/// `atob` or `btoa`, a first argument that is a string literal of more than
/// 50 bytes, Base64 for UTF-8 text made only of printable ASCII and
/// whitespace.
pub open spec fn response_candidate(call: CallSummary) -> Option<(Seq<char>, Seq<char>)> {
    if call.arguments.len() == 2 && call.callee_is_identifier && call.callee_name is Some {
        let name = call.callee_name->0@;
        if name == "atob"@ || name == "btoa"@ {
            match call.arguments[0] {
                CallArgument::StringLiteral(s) => {
                    let bytes = encode_utf8(s@);
                    if bytes.len() > 50 {
                        match base64_standard_decoded(bytes) {
                            Some(d) => if valid_utf8(d) && (forall|k: int|
                                0 <= k < decode_utf8(d).len() ==> is_ascii_graphic(
                                    #[trigger] decode_utf8(d)[k],
                                ) || is_unicode_whitespace(decode_utf8(d)[k])) {
                                Some((name, s@))
                            } else {
                                None
                            },
                            None => None,
                        }
                    } else {
                        None
                    }
                },
                _ => None,
            }
        } else {
            None
        }
    } else {
        None
    }
}

/// The rewrite of a call as (tag, text, callee): tag 0 replaces it with
/// `atob` of the text, tag 1 tries a response decryption, tag 2 descends.
pub open spec fn planned_rewrite(call: CallSummary) -> (int, Seq<char>, Seq<char>) {
    let decrypted = match xtea_call(call) {
        Some(v) => xtea_plaintext(v.1, v.2, v.3),
        None => None,
    };
    match decrypted {
        Some(t) => (0, t, Seq::empty()),
        None => match response_candidate(call) {
            Some((name, data)) => (1, data, name),
            None => (2, Seq::empty(), Seq::empty()),
        },
    }
}

pub open spec fn rewrite_view(r: CallRewrite) -> (int, Seq<char>, Seq<char>) {
    match r {
        CallRewrite::AtobLiteral(t) => (0, t@, Seq::empty()),
        CallRewrite::DecryptResponse { callee, data } => (1, data@, callee@),
        CallRewrite::Descend => (2, Seq::empty(), Seq::empty()),
    }
}

fn printable_text(s: &String) -> (r: bool)
    ensures
        r == (forall|k: int|
            0 <= k < s@.len() ==> is_ascii_graphic(#[trigger] s@[k]) || is_unicode_whitespace(
                s@[k],
            )),
{
    let cs = chars_of(s.as_str());
    let mut k: usize = 0;
    while k < cs.len()
        invariant
            cs@ == s@,
            k <= cs@.len(),
            forall|t: int|
                0 <= t < k ==> is_ascii_graphic(#[trigger] s@[t]) || is_unicode_whitespace(s@[t]),
        decreases cs@.len() - k,
    {
        let u = cs[k] as u32;
        let graphic = 0x21 <= u && u <= 0x7E;
        let space = (0x09 <= u && u <= 0x0D) || u == 0x20 || u == 0x85 || u == 0xA0 || u == 0x1680
            || (0x2000 <= u && u <= 0x200A) || u == 0x2028 || u == 0x2029 || u == 0x202F || u
            == 0x205F || u == 0x3000;
        if !graphic && !space {
            return false;
        }
        k = k + 1;
    }
    true
}

impl<'a> DynamicXteaDecryptor<'a> {
    /// Decides what to do with a call expression: a recognised XTEA call whose
    /// payload deciphers to text becomes `atob("<text>")`; otherwise an
    /// `atob`/`btoa` call on printable Base64 text is a response-decryption
    /// candidate; anything else is searched further.
    pub fn plan_call_rewrite(&self, call: &CallSummary) -> (r: CallRewrite)
        ensures
            rewrite_view(r) == planned_rewrite(*call),
    {
        if let Some(ctx) = self.detect_xtea_pattern(call) {
            if let Some(decrypted) = self.decrypt_xtea(&ctx) {
                return CallRewrite::AtobLiteral(decrypted);
            }
        }
        if call.arguments.len() == 2 && call.callee_is_identifier {
            if let Some(name) = &call.callee_name {
                proof {
                    reveal_strlit("atob");
                    reveal_strlit("btoa");
                }
                if str_equal(name.as_str(), "atob") || str_equal(name.as_str(), "btoa") {
                    if let CallArgument::StringLiteral(s) = &call.arguments[0] {
                        let bytes = s.as_str().as_bytes();
                        if bytes.len() > 50 {
                            if let Some(decoded) = base64_decode(bytes) {
                                if let Some(text) = utf8_string(decoded) {
                                    if printable_text(&text) {
                                        return CallRewrite::DecryptResponse {
                                            callee: name.clone(),
                                            data: s.clone(),
                                        };
                                    }
                                }
                            }
                        }
                    }
                }
            }
        }
        CallRewrite::Descend
    }
}

} // verus!
