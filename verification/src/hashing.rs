//! Stable hashing of cycles.
//!
//! A cycle's identity is the first characters of the SHA-256 digest of its
//! sorted relative file paths, each followed by a newline. SHA-256 itself is
//! computed by an outside crate; its result is given a name here
//! (`sha256_of`) and everything around the digest is verified.

use vstd::prelude::*;

verus! {

/// The sixteen lowercase hexadecimal digit characters.
pub open spec fn hex_digit(n: u8) -> char {
    if n == 0 {
        '0'
    } else if n == 1 {
        '1'
    } else if n == 2 {
        '2'
    } else if n == 3 {
        '3'
    } else if n == 4 {
        '4'
    } else if n == 5 {
        '5'
    } else if n == 6 {
        '6'
    } else if n == 7 {
        '7'
    } else if n == 8 {
        '8'
    } else if n == 9 {
        '9'
    } else if n == 10 {
        'a'
    } else if n == 11 {
        'b'
    } else if n == 12 {
        'c'
    } else if n == 13 {
        'd'
    } else if n == 14 {
        'e'
    } else {
        'f'
    }
}

/// Whether `c` is a lowercase hexadecimal digit.
pub open spec fn is_hex_char(c: char) -> bool {
    c == '0' || c == '1' || c == '2' || c == '3' || c == '4' || c == '5' || c == '6' || c == '7'
        || c == '8' || c == '9' || c == 'a' || c == 'b' || c == 'c' || c == 'd' || c == 'e' || c
        == 'f'
}

/// The two hexadecimal digits of one byte, high digit first.
pub open spec fn hex_of_byte(b: u8) -> Seq<char> {
    seq![hex_digit(b / 16), hex_digit(b % 16)]
}

/// The hexadecimal rendering of a byte sequence.
pub open spec fn hex_of(bytes: Seq<u8>) -> Seq<char>
    decreases bytes.len(),
{
    if bytes.len() == 0 {
        Seq::<char>::empty()
    } else {
        hex_of(bytes.drop_last()) + hex_of_byte(bytes.last())
    }
}

pub proof fn lemma_hex_of_len(bytes: Seq<u8>)
    ensures
        hex_of(bytes).len() == 2 * bytes.len(),
        forall|i: int| 0 <= i < hex_of(bytes).len() ==> is_hex_char(#[trigger] hex_of(bytes)[i]),
    decreases bytes.len(),
{
    if bytes.len() > 0 {
        lemma_hex_of_len(bytes.drop_last());
    }
}

/// One hexadecimal digit as a string.
fn hex_digit_str(n: u8) -> (r: &'static str)
    requires
        n < 16,
    ensures
        r@ == seq![hex_digit(n)],
{
    proof {
        reveal_strlit("0");
        reveal_strlit("1");
        reveal_strlit("2");
        reveal_strlit("3");
        reveal_strlit("4");
        reveal_strlit("5");
        reveal_strlit("6");
        reveal_strlit("7");
        reveal_strlit("8");
        reveal_strlit("9");
        reveal_strlit("a");
        reveal_strlit("b");
        reveal_strlit("c");
        reveal_strlit("d");
        reveal_strlit("e");
        reveal_strlit("f");
    }
    if n == 0 {
        "0"
    } else if n == 1 {
        "1"
    } else if n == 2 {
        "2"
    } else if n == 3 {
        "3"
    } else if n == 4 {
        "4"
    } else if n == 5 {
        "5"
    } else if n == 6 {
        "6"
    } else if n == 7 {
        "7"
    } else if n == 8 {
        "8"
    } else if n == 9 {
        "9"
    } else if n == 10 {
        "a"
    } else if n == 11 {
        "b"
    } else if n == 12 {
        "c"
    } else if n == 13 {
        "d"
    } else if n == 14 {
        "e"
    } else {
        "f"
    }
}

/// Encodes bytes as a lowercase hexadecimal string.
pub fn hex_encode(bytes: &Vec<u8>) -> (r: String)
    ensures
        r@ == hex_of(bytes@),
{
    let mut r = String::new();
    let mut i: usize = 0;
    proof {
        assert(bytes@.take(0) =~= Seq::<u8>::empty());
    }
    while i < bytes.len()
        invariant
            i <= bytes.len(),
            r@ == hex_of(bytes@.take(i as int)),
        decreases bytes.len() - i,
    {
        let b = bytes[i];
        r.append(hex_digit_str(b / 16));
        r.append(hex_digit_str(b % 16));
        proof {
            assert(bytes@.take(i + 1).drop_last() =~= bytes@.take(i as int));
            assert(bytes@.take(i + 1).last() == bytes@[i as int]);
            assert(hex_of(bytes@.take(i as int)) + seq![hex_digit(bytes@[i as int] / 16)] + seq![
                hex_digit(bytes@[i as int] % 16),
            ] =~= hex_of(bytes@.take(i as int)) + hex_of_byte(bytes@[i as int]));
        }
        i = i + 1;
    }
    proof {
        assert(bytes@.take(bytes.len() as int) =~= bytes@);
    }
    r
}

/// The SHA-256 digest of the UTF-8 encoding of a character sequence. The
/// digest is computed by an outside crate and is named here; nothing in this
/// crate states what its value is.
pub uninterp spec fn sha256_of(s: Seq<char>) -> Seq<u8>;

/// Relies on `sha2::Sha256::digest`: the 32-byte SHA-256 digest of the
/// input bytes, a function of the input alone.
#[verifier::external_body]
fn sha256_digest(s: &String) -> (r: Vec<u8>)
    ensures
        r@ == sha256_of(s@),
        r@.len() == 32,
{
    <sha2::Sha256 as sha2::Digest>::digest(s.as_bytes()).to_vec()
}

/// Each line followed by a newline, concatenated.
pub open spec fn lines_concat(lines: Seq<Seq<char>>) -> Seq<char>
    decreases lines.len(),
{
    if lines.len() == 0 {
        Seq::<char>::empty()
    } else {
        lines_concat(lines.drop_last()) + lines.last() + seq!['\n']
    }
}

/// The stable hash of a list of strings: the first `hex_len` hexadecimal
/// characters of the SHA-256 digest of the strings, each followed by a
/// newline.
pub open spec fn spec_hash_strings(lines: Seq<Seq<char>>, hex_len: int) -> Seq<char> {
    hex_of(sha256_of(lines_concat(lines))).take(hex_len)
}

/// Computes the SHA-256 hash of the input strings and returns the first
/// `hex_len` hexadecimal characters.
pub fn hash_strings(strings: &Vec<String>, hex_len: usize) -> (r: String)
    requires
        hex_len <= 64,
    ensures
        r@ == spec_hash_strings(strings.deep_view(), hex_len as int),
        r@.len() == hex_len,
        forall|i: int| 0 <= i < r@.len() ==> is_hex_char(#[trigger] r@[i]),
{
    let mut joined = String::new();
    let mut i: usize = 0;
    proof {
        assert(strings.deep_view().take(0) =~= Seq::<Seq<char>>::empty());
        reveal_strlit("\n");
    }
    while i < strings.len()
        invariant
            i <= strings.len(),
            strings.deep_view().len() == strings.len(),
            joined@ == lines_concat(strings.deep_view().take(i as int)),
        decreases strings.len() - i,
    {
        joined.append(strings[i].as_str());
        joined.append("\n");
        proof {
            reveal_strlit("\n");
            assert("\n"@ =~= seq!['\n']);
            assert(strings.deep_view().take(i + 1).drop_last() =~= strings.deep_view().take(
                i as int,
            ));
            assert(strings.deep_view().take(i + 1).last() == strings.deep_view()[i as int]);
        }
        i = i + 1;
    }
    proof {
        assert(strings.deep_view().take(strings.len() as int) =~= strings.deep_view());
    }
    let digest = sha256_digest(&joined);
    let hex = hex_encode(&digest);
    proof {
        lemma_hex_of_len(digest@);
    }
    let r = crate::pathstr::substr_string(&hex, 0, hex_len);
    proof {
        assert(hex@.subrange(0, hex_len as int) =~= hex@.take(hex_len as int));
    }
    r
}

} // verus!
