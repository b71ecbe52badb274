//! Content hashing of blob bytes.

use vstd::prelude::*;
use vstd::string::StringExecFns;
use sha2::Digest;

verus! {

/// Length in bytes of a content digest.
pub const DIGEST_LEN: usize = 32;

/// A running SHA-256 computation over the bytes of one blob.
///
/// The state of the computation belongs to the `sha2` crate and is not
/// visible to the verifier; [`absorbed`] stands for the bytes it was fed.
#[verifier::external_body]
pub struct BlobHasher {
    inner: sha2::Sha256,
}

/// The bytes that a hasher has been fed since it was created, in feeding order.
pub uninterp spec fn absorbed(h: BlobHasher) -> Seq<u8>;

/// The SHA-256 digest of a byte string.
pub uninterp spec fn sha256(bytes: Seq<u8>) -> Seq<u8>;

/// Calls `sha2::Sha256::new`. A fresh hasher has been fed nothing.
#[verifier::external_body]
pub(crate) fn hasher_new() -> (h: BlobHasher)
    ensures
        absorbed(h) == Seq::<u8>::empty(),
{
    BlobHasher { inner: sha2::Sha256::new() }
}

/// Calls `sha2::Digest::update`. Feeding `data` appends it to what the
/// hasher had been fed before.
#[verifier::external_body]
pub(crate) fn hasher_update(h: &mut BlobHasher, data: &[u8])
    ensures
        absorbed(*final(h)) == absorbed(*old(h)) + data@,
{
    h.inner.update(data);
}

/// Calls `Clone::clone` on the `sha2` hasher. The copy has been fed the same
/// bytes as the hasher it was made from.
#[verifier::external_body]
pub(crate) fn hasher_clone(h: &BlobHasher) -> (c: BlobHasher)
    ensures
        absorbed(c) == absorbed(*h),
{
    BlobHasher { inner: h.inner.clone() }
}

/// Calls `sha2::Digest::finalize`. The result is the SHA-256 digest of
/// everything the hasher was fed; it is 32 bytes long.
#[verifier::external_body]
pub(crate) fn hasher_finalize(h: BlobHasher) -> (d: Vec<u8>)
    ensures
        d@ == sha256(absorbed(h)),
        d@.len() == DIGEST_LEN,
{
    h.inner.finalize().to_vec()
}

/// The lower-case hexadecimal digit of a value below 16.
pub open spec fn hex_char(nibble: int) -> char {
    if nibble == 0 {
        '0'
    } else if nibble == 1 {
        '1'
    } else if nibble == 2 {
        '2'
    } else if nibble == 3 {
        '3'
    } else if nibble == 4 {
        '4'
    } else if nibble == 5 {
        '5'
    } else if nibble == 6 {
        '6'
    } else if nibble == 7 {
        '7'
    } else if nibble == 8 {
        '8'
    } else if nibble == 9 {
        '9'
    } else if nibble == 10 {
        'a'
    } else if nibble == 11 {
        'b'
    } else if nibble == 12 {
        'c'
    } else if nibble == 13 {
        'd'
    } else if nibble == 14 {
        'e'
    } else {
        'f'
    }
}

/// The text of a byte string in lower-case hexadecimal: two digits per byte,
/// the high half first.
pub open spec fn hex_of(bytes: Seq<u8>) -> Seq<char> {
    Seq::new(
        2 * bytes.len(),
        |i: int|
            if i % 2 == 0 {
                hex_char(bytes[i / 2] as int / 16)
            } else {
                hex_char(bytes[i / 2] as int % 16)
            },
    )
}

/// The one-character text of a hexadecimal digit.
fn hex_digit(nibble: u8) -> (text: &'static str)
    requires
        nibble < 16,
    ensures
        text@ == seq![hex_char(nibble as int)],
{
    proof {
        reveal_strlit("0");
        reveal_strlit("1");
        reveal_strlit("2");
        reveal_strlit("3");
        reveal_strlit("4");
        reveal_strlit("5");
        reveal_strlit("6");
        reveal_strlit("7");
        reveal_strlit("8");
        reveal_strlit("9");
        reveal_strlit("a");
        reveal_strlit("b");
        reveal_strlit("c");
        reveal_strlit("d");
        reveal_strlit("e");
        reveal_strlit("f");
    }
    let text = match nibble {
        0 => "0",
        1 => "1",
        2 => "2",
        3 => "3",
        4 => "4",
        5 => "5",
        6 => "6",
        7 => "7",
        8 => "8",
        9 => "9",
        10 => "a",
        11 => "b",
        12 => "c",
        13 => "d",
        14 => "e",
        _ => "f",
    };
    assert(text@ =~= seq![hex_char(nibble as int)]);
    text
}

/// Writes a byte string in lower-case hexadecimal.
pub fn hex_encode(bytes: &[u8]) -> (text: String)
    ensures
        text@ == hex_of(bytes@),
{
    let mut text = String::new();
    let mut i: usize = 0;
    while i < bytes.len()
        invariant
            i <= bytes.len(),
            text@ == hex_of(bytes@.take(i as int)),
        decreases bytes.len() - i,
    {
        let byte: u8 = bytes[i];
        text.append(hex_digit(byte / 16));
        text.append(hex_digit(byte % 16));
        assert(text@ =~= hex_of(bytes@.take(i + 1)));
        i += 1;
    }
    assert(bytes@.take(bytes@.len() as int) =~= bytes@);
    text
}

/// The identifier of a blob with the content `data`: the SHA-256 digest of
/// the content in lower-case hexadecimal.
pub open spec fn blob_id_of(data: Seq<u8>) -> Seq<char> {
    hex_of(sha256(data))
}

} // verus!
