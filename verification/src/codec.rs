//! Packing of variable-length text into fixed-size buffers with an explicit length.

use vstd::prelude::*;
use vstd::utf8::*;

verus! {

/// The text is longer than the buffer it should be packed into.
#[derive(Clone, Copy, Debug)]
pub struct TooLong;

/// What `String::from_utf8_lossy` makes of a byte sequence.
pub uninterp spec fn lossy_text(bytes: Seq<u8>) -> Seq<char>;

/// The bytes of `text`, left-aligned in a zero-filled buffer of `capacity` bytes.
pub open spec fn packed(text: Seq<char>, capacity: nat) -> Seq<u8> {
    Seq::new(
        capacity,
        |i: int| if i < encode_utf8(text).len() { encode_utf8(text)[i] } else { 0u8 },
    )
}

/// The text read from a byte sequence: its characters where the bytes are
/// well-formed UTF-8, the lossy reading otherwise.
pub open spec fn unpacked(bytes: Seq<u8>) -> Seq<char> {
    if valid_utf8(bytes) {
        decode_utf8(bytes)
    } else {
        lossy_text(bytes)
    }
}

/// Calls `String::from_utf8_lossy` and owns the result. The contract claims that
/// the outcome depends on the bytes alone, and that well-formed UTF-8 is read as
/// the characters it encodes; nothing is claimed about how malformed input is
/// substituted.
#[verifier::external_body]
fn from_utf8_lossy(bytes: &[u8]) -> (text: String)
    ensures
        text@ == lossy_text(bytes@),
        valid_utf8(bytes@) ==> text@ == decode_utf8(bytes@),
{
    String::from_utf8_lossy(bytes).into_owned()
}

/// Packs `text` into a buffer of `N` bytes and reports its byte length.
pub fn encode<const N: usize>(text: &str) -> (r: Result<([u8; N], usize), TooLong>)
    ensures
        r is Ok <==> encode_utf8(text@).len() <= N,
        r matches Ok((buffer, length)) ==> {
            &&& length == encode_utf8(text@).len()
            &&& buffer@ == packed(text@, N as nat)
        },
{
    let bytes = text.as_bytes();
    let n: usize = bytes.len();
    if n > N {
        return Err(TooLong);
    }
    let mut buffer: [u8; N] = [0u8; N];
    let mut i: usize = 0;
    while i < n
        invariant
            i <= n <= N,
            n == bytes@.len(),
            bytes@ == encode_utf8(text@),
            buffer@.len() == N,
            forall|j: int| 0 <= j < i ==> buffer@[j] == bytes@[j],
            forall|j: int| i <= j < N ==> buffer@[j] == 0u8,
        decreases n - i,
    {
        buffer[i] = bytes[i];
        i += 1;
    }
    assert(buffer@ =~= packed(text@, N as nat));
    Ok((buffer, n))
}

/// Reads the text held in the first `length` bytes of `buffer`.
pub fn decode(buffer: &[u8], length: usize) -> (text: String)
    requires
        length <= buffer@.len(),
    ensures
        text@ == unpacked(buffer@.take(length as int)),
{
    let prefix = vstd::slice::slice_subrange(buffer, 0, length);
    from_utf8_lossy(prefix)
}

/// Decoding what was encoded gives the text back: for every text that fits the
/// capacity, the first `length` bytes of its packed form read as the text itself.
pub proof fn lemma_round_trip(text: Seq<char>, capacity: nat)
    requires
        encode_utf8(text).len() <= capacity,
    ensures
        unpacked(packed(text, capacity).take(encode_utf8(text).len() as int)) == text,
{
    let bytes = encode_utf8(text);
    assert(packed(text, capacity).take(bytes.len() as int) =~= bytes);
    encode_utf8_valid_utf8(text);
    encode_utf8_decode_utf8(text);
}

} // verus!
