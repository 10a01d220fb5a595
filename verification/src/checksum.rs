//! The checksum of a migration file: the SHA3-256 digest of its content,
//! written in lower-case hexadecimal.

use vstd::prelude::*;

verus! {

/// The SHA3-256 digest of a message.
pub uninterp spec fn sha3_256_of(data: Seq<u8>) -> Seq<u8>;

/// The SHA3-256 digest of `data`, by `sha3::Digest::digest` for
/// `sha3::Sha3_256`.
///
/// Trusted: the result is the digest of the bytes given, whatever they are.
#[verifier::external_body]
fn sha3_256(data: &[u8]) -> (digest: Vec<u8>)
    ensures
        digest@ == sha3_256_of(data@),
{
    <sha3::Sha3_256 as sha3::Digest>::digest(data).to_vec()
}

/// The character of one hexadecimal digit, in lower case.
pub open spec fn hex_char(d: int) -> char {
    if d == 0 {
        '0'
    } else if d == 1 {
        '1'
    } else if d == 2 {
        '2'
    } else if d == 3 {
        '3'
    } else if d == 4 {
        '4'
    } else if d == 5 {
        '5'
    } else if d == 6 {
        '6'
    } else if d == 7 {
        '7'
    } else if d == 8 {
        '8'
    } else if d == 9 {
        '9'
    } else if d == 10 {
        'a'
    } else if d == 11 {
        'b'
    } else if d == 12 {
        'c'
    } else if d == 13 {
        'd'
    } else if d == 14 {
        'e'
    } else {
        'f'
    }
}

/// Bytes in hexadecimal: two digits for each byte, the high half first.
pub open spec fn hex_of(bytes: Seq<u8>) -> Seq<char>
    decreases bytes.len(),
{
    if bytes.len() == 0 {
        Seq::empty()
    } else {
        hex_of(bytes.drop_last()) + seq![
            hex_char(bytes.last() as int / 16),
            hex_char(bytes.last() as int % 16),
        ]
    }
}

/// The checksum of a content.
pub open spec fn checksum(content: Seq<u8>) -> Seq<char> {
    hex_of(sha3_256_of(content))
}

/// One hexadecimal digit as text.
fn hex_text(d: u8) -> (r: &'static str)
    requires
        d < 16,
    ensures
        r@ == seq![hex_char(d as int)],
{
    proof {
        reveal_strlit("0");
        reveal_strlit("1");
        reveal_strlit("2");
        reveal_strlit("3");
        reveal_strlit("4");
        reveal_strlit("5");
        reveal_strlit("6");
        reveal_strlit("7");
        reveal_strlit("8");
        reveal_strlit("9");
        reveal_strlit("a");
        reveal_strlit("b");
        reveal_strlit("c");
        reveal_strlit("d");
        reveal_strlit("e");
        reveal_strlit("f");
    }
    let r = if d == 0 {
        "0"
    } else if d == 1 {
        "1"
    } else if d == 2 {
        "2"
    } else if d == 3 {
        "3"
    } else if d == 4 {
        "4"
    } else if d == 5 {
        "5"
    } else if d == 6 {
        "6"
    } else if d == 7 {
        "7"
    } else if d == 8 {
        "8"
    } else if d == 9 {
        "9"
    } else if d == 10 {
        "a"
    } else if d == 11 {
        "b"
    } else if d == 12 {
        "c"
    } else if d == 13 {
        "d"
    } else if d == 14 {
        "e"
    } else {
        "f"
    };
    assert(r@ =~= seq![hex_char(d as int)]);
    r
}

/// Writes bytes in lower-case hexadecimal.
pub fn to_hex(bytes: &[u8]) -> (r: String)
    ensures
        r@ == hex_of(bytes@),
{
    let mut out = String::new();
    let mut i: usize = 0;
    assert(bytes@.take(0) =~= Seq::<u8>::empty());
    while i < bytes.len()
        invariant
            i <= bytes@.len(),
            out@ == hex_of(bytes@.take(i as int)),
        decreases bytes@.len() - i,
    {
        let byte = bytes[i];
        out.append(hex_text(byte / 16));
        out.append(hex_text(byte % 16));
        proof {
            let longer = bytes@.take(i as int + 1);
            assert(longer.drop_last() =~= bytes@.take(i as int));
            assert(longer.last() == byte);
            assert(out@ =~= hex_of(longer));
        }
        i += 1;
    }
    assert(bytes@.take(bytes@.len() as int) =~= bytes@);
    out
}

/// The checksum of a content: its SHA3-256 digest in lower-case
/// hexadecimal.
pub fn checksum_of(content: &[u8]) -> (r: String)
    ensures
        r@ == checksum(content@),
{
    let digest = sha3_256(content);
    to_hex(digest.as_slice())
}

} // verus!
