//! Values handed to the local backend: messages and images.

use crate::text::{chars_of, string_of};
use vstd::prelude::*;

verus! {

/// One message of a conversation.
#[derive(Debug, Clone)]
pub struct ChatMessage {
    pub role: String,
    pub content: String,
}

/// An image, held as Base64 text.
#[derive(Debug, Clone)]
pub struct ImageInput {
    pub data: String,
}

/// The Base64 alphabet.
pub open spec fn alphabet() -> Seq<char> {
    "ABCDEFGHIJKLMNOPQRSTUVWXYZabcdefghijklmnopqrstuvwxyz0123456789+/"@
}

/// The four characters for a full group of three bytes.
pub open spec fn group_of_three(a: u8, b: u8, c: u8) -> Seq<char> {
    seq![
        alphabet()[a as int / 4],
        alphabet()[(a as int % 4) * 16 + b as int / 16],
        alphabet()[(b as int % 16) * 4 + c as int / 64],
        alphabet()[c as int % 64],
    ]
}

/// The four characters for a last group of two bytes.
pub open spec fn group_of_two(a: u8, b: u8) -> Seq<char> {
    seq![
        alphabet()[a as int / 4],
        alphabet()[(a as int % 4) * 16 + b as int / 16],
        alphabet()[(b as int % 16) * 4],
        '=',
    ]
}

/// The four characters for a last group of one byte.
pub open spec fn group_of_one(a: u8) -> Seq<char> {
    seq![alphabet()[a as int / 4], alphabet()[(a as int % 4) * 16], '=', '=']
}

/// The standard Base64 text of some bytes, padded with `=`.
pub open spec fn base64(data: Seq<u8>) -> Seq<char>
    decreases data.len(),
{
    if data.len() == 0 {
        seq![]
    } else if data.len() == 1 {
        group_of_one(data[0])
    } else if data.len() == 2 {
        group_of_two(data[0], data[1])
    } else {
        group_of_three(data[0], data[1], data[2]) + base64(data.skip(3))
    }
}

/// Base64 text has four characters for every three bytes begun.
pub proof fn lemma_base64_len(data: Seq<u8>)
    ensures
        base64(data).len() == 4 * ((data.len() + 2) / 3),
    decreases data.len(),
{
    if data.len() >= 3 {
        lemma_base64_len(data.skip(3));
    }
}

/// Writes bytes as standard Base64 text.
pub fn base64_encode(data: &[u8]) -> (r: String)
    ensures
        r@ == base64(data@),
{
    let table = chars_of("ABCDEFGHIJKLMNOPQRSTUVWXYZabcdefghijklmnopqrstuvwxyz0123456789+/");
    proof {
        reveal_strlit("ABCDEFGHIJKLMNOPQRSTUVWXYZabcdefghijklmnopqrstuvwxyz0123456789+/");
    }
    let n = data.len();
    let mut out: Vec<char> = Vec::new();
    let mut i: usize = 0;
    assert(data@.skip(0) =~= data@);
    while n - i >= 3
        invariant
            i <= n == data.len(),
            table@ == alphabet(),
            table@.len() == 64,
            base64(data@) == out@ + base64(data@.skip(i as int)),
        decreases n - i,
    {
        let a = data[i];
        let b = data[i + 1];
        let c = data[i + 2];
        let ghost rest = data@.skip(i as int);
        proof {
            assert(rest[0] == a && rest[1] == b && rest[2] == c);
            assert(rest.skip(3) =~= data@.skip(i + 3));
        }
        out.push(table[(a / 4) as usize]);
        out.push(table[((a % 4) * 16 + b / 16) as usize]);
        out.push(table[((b % 16) * 4 + c / 64) as usize]);
        out.push(table[(c % 64) as usize]);
        proof {
            assert(out@ + base64(data@.skip(i + 3)) =~= base64(data@));
        }
        i += 3;
    }
    let ghost rest = data@.skip(i as int);
    if n - i == 2 {
        let a = data[i];
        let b = data[i + 1];
        assert(rest[0] == a && rest[1] == b);
        out.push(table[(a / 4) as usize]);
        out.push(table[((a % 4) * 16 + b / 16) as usize]);
        out.push(table[((b % 16) * 4) as usize]);
        out.push('=');
        assert(out@ =~= base64(data@));
    } else if n - i == 1 {
        let a = data[i];
        assert(rest[0] == a);
        out.push(table[(a / 4) as usize]);
        out.push(table[((a % 4) * 16) as usize]);
        out.push('=');
        out.push('=');
        assert(out@ =~= base64(data@));
    } else {
        assert(out@ =~= base64(data@));
    }
    string_of(&out)
}

impl ImageInput {
    /// An image from its bytes.
    pub fn from_bytes(bytes: &[u8]) -> (r: Self)
        ensures
            r.data@ == base64(bytes@),
    {
        ImageInput { data: base64_encode(bytes) }
    }

    /// An image from its Base64 text.
    pub fn from_base64(data: String) -> (r: Self)
        ensures
            r.data == data,
    {
        ImageInput { data }
    }
}

/// Whether a model of the given name reads images: its name begins with the
/// name of a known vision model.
pub open spec fn reads_images(model: Seq<char>) -> bool {
    crate::text::starts_with(model, "llava"@) || crate::text::starts_with(model, "llava-llama3"@)
        || crate::text::starts_with(model, "llava-phi3"@) || crate::text::starts_with(
        model,
        "bakllava"@,
    ) || crate::text::starts_with(model, "moondream"@) || crate::text::starts_with(
        model,
        "minicpm-v"@,
    )
}

/// Tells whether a model of the given name reads images.
pub fn is_vision_model(model: &str) -> (r: bool)
    ensures
        r == reads_images(model@),
{
    let m = chars_of(model);
    crate::text::starts_with_str(&m, "llava") || crate::text::starts_with_str(&m, "llava-llama3")
        || crate::text::starts_with_str(&m, "llava-phi3") || crate::text::starts_with_str(
        &m,
        "bakllava",
    ) || crate::text::starts_with_str(&m, "moondream") || crate::text::starts_with_str(
        &m,
        "minicpm-v",
    )
}

} // verus!
