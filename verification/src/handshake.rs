//! The opening handshake: the accept key that answers a client's nonce,
//! and the response that carries it.

use crate::frame::append_bytes;
use rustc_serialize::base64::{ToBase64, STANDARD};
use vstd::prelude::*;
use vstd::slice::slice_to_vec;
use vstd::string::{StringExecFns, StringSliceAdditionalSpecFns};
use vstd::utf8::{encode_utf8, is_ascii_chars_encode_utf8};

verus! {

/// The identifier that RFC 6455 appends to every nonce.
pub const WEBSOCKET_GUID: &'static str = "258EAFA5-E914-47DA-95CA-C5AB0DC85B11";

/// The SHA-1 digest of a message: twenty bytes. What they are is left
/// to the `sha1` crate.
pub uninterp spec fn sha1_digest(data: Seq<u8>) -> Seq<u8>;

/// The base64 text of some bytes, in the standard alphabet, padded,
/// without line breaks. What it is is left to the `rustc-serialize`
/// crate.
pub uninterp spec fn base64_standard(data: Seq<u8>) -> Seq<char>;

/// The longest message, in bytes, whose length in bits the digest can
/// still count.
pub const SHA1_MAX_INPUT: u64 = 0x1fff_ffff_ffff_ffff;

/// Calls `sha1::Sha1`, through `from`, `digest` and `bytes`. Taken on
/// trust: what comes back is the digest of `data`, and depends on
/// nothing else. The crate counts the message's bits in 64 bits, so
/// longer messages stay out.
#[verifier::external_body]
fn sha1(data: &[u8]) -> (digest: [u8; 20])
    requires
        data@.len() <= SHA1_MAX_INPUT,
    ensures
        digest@ == sha1_digest(data@),
{
    sha1::Sha1::from(data).digest().bytes()
}

/// Calls `rustc_serialize::base64::ToBase64::to_base64` with the
/// `STANDARD` configuration. Taken on trust: what comes back is the
/// base64 text of `data`, and depends on nothing else. The crate
/// computes the text's length as `(len + 2) / 3 * 4`, so inputs for
/// which that overflows stay out.
#[verifier::external_body]
fn to_base64(data: &[u8]) -> (text: String)
    requires
        data@.len() <= 0x2000_0000,
    ensures
        text@ == base64_standard(data@),
{
    data.to_base64(STANDARD)
}

/// The accept key for a nonce: the base64 text of the SHA-1 digest of
/// the nonce's bytes followed by the bytes of the identifier.
pub open spec fn accept_key(nonce: Seq<char>) -> Seq<char> {
    base64_standard(sha1_digest(encode_utf8(nonce) + encode_utf8(WEBSOCKET_GUID@)))
}

/// The identifier is 36 bytes long.
pub proof fn lemma_guid_len()
    ensures
        encode_utf8(WEBSOCKET_GUID@).len() == 36,
{
    reveal_strlit("258EAFA5-E914-47DA-95CA-C5AB0DC85B11");
    is_ascii_chars_encode_utf8(WEBSOCKET_GUID@);
}

/// Derives the accept key from the nonce of a handshake.
pub fn gen_key(key: &String) -> (accept: String)
    requires
        encode_utf8(key@).len() <= SHA1_MAX_INPUT - 36,
    ensures
        accept@ == accept_key(key@),
{
    let mut data: Vec<u8> = slice_to_vec(key.as_str().as_bytes());
    append_bytes(&mut data, WEBSOCKET_GUID.as_bytes());
    proof {
        lemma_guid_len();
    }
    let digest = sha1(data.as_slice());
    to_base64(digest.as_slice())
}

/// What the response holds before the accept key.
pub const RESPONSE_HEAD: &'static str =
    "HTTP/1.1 101 Switching Protocols\r\nConnection: Upgrade\r\nSec-WebSocket-Accept: ";

/// What the response holds after the accept key.
pub const RESPONSE_TAIL: &'static str = "\r\nUpgrade: websocket\r\n\r\n";

/// What a request that cannot be upgraded is answered with.
pub const REJECTION: &'static str = "HTTP/1.1 400 Bad Request\r\n\r\n";

/// The name of the header that carries the nonce.
pub const KEY_HEADER: &'static str = "Sec-WebSocket-Key";

/// The name of the header that names the protocol to switch to.
pub const UPGRADE_HEADER: &'static str = "Upgrade";

/// The protocol that this endpoint switches to.
pub const WEBSOCKET: &'static str = "websocket";

/// The response that switches protocols, with the accept key in it.
pub open spec fn response_text(accept: Seq<char>) -> Seq<char> {
    RESPONSE_HEAD@ + accept + RESPONSE_TAIL@
}

/// Whether a byte is a digit of the standard base64 alphabet.
pub open spec fn is_base64_digit(b: u8) -> bool {
    ||| 0x41 <= b <= 0x5a
    ||| 0x61 <= b <= 0x7a
    ||| 0x30 <= b <= 0x39
    ||| b == 0x2b
    ||| b == 0x2f
}

/// Whether bytes are the base64 text of sixteen bytes: 22 digits, the
/// last of which leaves its low four bits clear (`A`, `Q`, `g` or `w`),
/// and two padding signs.
pub open spec fn is_nonce(key: Seq<u8>) -> bool {
    &&& key.len() == 24
    &&& forall|i: int| 0 <= i < 21 ==> is_base64_digit(#[trigger] key[i])
    &&& (key[21] == 0x41 || key[21] == 0x51 || key[21] == 0x67 || key[21] == 0x77)
    &&& key[22] == 0x3d
    &&& key[23] == 0x3d
}

/// Builds the response that switches protocols.
pub fn handshake_response(accept: &str) -> (response: String)
    ensures
        response@ == response_text(accept@),
{
    let mut response: String = String::from_str(RESPONSE_HEAD);
    response.append(accept);
    response.append(RESPONSE_TAIL);
    response
}

/// Tests one byte against the standard base64 alphabet.
pub fn base64_digit(b: u8) -> (r: bool)
    ensures
        r == is_base64_digit(b),
{
    (0x41 <= b && b <= 0x5a) || (0x61 <= b && b <= 0x7a) || (0x30 <= b && b <= 0x39) || b == 0x2b
        || b == 0x2f
}

/// Tests whether a header value is the base64 text of a 16-byte nonce.
pub fn valid_key(key: &str) -> (r: bool)
    ensures
        r == is_nonce(key.spec_bytes()),
{
    let bytes = key.as_bytes();
    if bytes.len() != 24 {
        return false;
    }
    let mut idx: usize = 0;
    while idx < 21
        invariant
            idx <= 21,
            bytes@.len() == 24,
            bytes@ == key.spec_bytes(),
            forall|i: int| 0 <= i < idx ==> is_base64_digit(#[trigger] bytes@[i]),
        decreases 21 - idx,
    {
        if !base64_digit(bytes[idx]) {
            return false;
        }
        idx += 1;
    }
    let last: u8 = bytes[21];
    (last == 0x41 || last == 0x51 || last == 0x67 || last == 0x77) && bytes[22] == 0x3d
        && bytes[23] == 0x3d
}

/// A byte with an upper-case ASCII letter turned into its lower case.
pub open spec fn lower(b: u8) -> u8 {
    if 0x41 <= b <= 0x5a {
        (b + 32) as u8
    } else {
        b
    }
}

/// Whether two texts are the same but for the case of ASCII letters.
pub open spec fn same_ignoring_case(a: Seq<u8>, b: Seq<u8>) -> bool {
    &&& a.len() == b.len()
    &&& forall|i: int| 0 <= i < a.len() ==> lower(#[trigger] a[i]) == lower(b[i])
}

/// Whether the value of an upgrade header names the WebSocket
/// protocol, in whatever case.
pub open spec fn names_websocket(value: Seq<char>) -> bool {
    same_ignoring_case(encode_utf8(value), encode_utf8(WEBSOCKET@))
}

/// Turns an upper-case ASCII letter into its lower case.
pub fn to_lower(b: u8) -> (r: u8)
    ensures
        r == lower(b),
{
    if 0x41 <= b && b <= 0x5a {
        b + 32
    } else {
        b
    }
}

/// Tests whether the value of an upgrade header names the WebSocket
/// protocol.
pub fn is_websocket(value: &str) -> (r: bool)
    ensures
        r == names_websocket(value@),
{
    let x = value.as_bytes();
    let y = WEBSOCKET.as_bytes();
    if x.len() != y.len() {
        return false;
    }
    let n: usize = x.len();
    let mut idx: usize = 0;
    while idx < n
        invariant
            idx <= n,
            n == x@.len(),
            n == y@.len(),
            x@ == encode_utf8(value@),
            y@ == encode_utf8(WEBSOCKET@),
            forall|i: int| 0 <= i < idx ==> lower(#[trigger] x@[i]) == lower(y@[i]),
        decreases n - idx,
    {
        if to_lower(x[idx]) != to_lower(y[idx]) {
            return false;
        }
        idx += 1;
    }
    true
}

} // verus!
