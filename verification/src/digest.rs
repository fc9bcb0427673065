//! Content hashing: the hex digest that identifies an image and keys
//! deduplication.
use vstd::prelude::*;

verus! {

/// What SHA-256 returns on a given byte sequence. Named, not spelled
/// out: the compression function is a function of the bytes alone, and
/// nothing is assumed of it here beyond its 32-byte output size.
pub uninterp spec fn sha256_of(b: Seq<u8>) -> Seq<u8>;

/// Relies on `sha2::Sha256` through the `Digest` trait: the digest is
/// a function of the input bytes alone, 32 bytes long as the SHA-256
/// specification fixes it.
#[verifier::external_body]
fn sha256(bytes: &Vec<u8>) -> (r: Vec<u8>)
    ensures
        r@ == sha256_of(bytes@),
        r@.len() == 32,
{
    <sha2::Sha256 as sha2::Digest>::digest(bytes.as_slice()).to_vec()
}

/// The lower-case hex character of one value below 16.
pub open spec fn hex_digit(d: int) -> char {
    if d < 10 {
        (48 + d) as char
    } else {
        (87 + d) as char
    }
}

/// Lower-case hex notation: two characters per byte, high nibble
/// first.
pub open spec fn hex_of(b: Seq<u8>) -> Seq<char> {
    Seq::new(
        2 * b.len(),
        |i: int|
            if i % 2 == 0 {
                hex_digit(b[i / 2] as int / 16)
            } else {
                hex_digit(b[i / 2] as int % 16)
            },
    )
}

/// The content hash in its external form: the hex of the SHA-256
/// digest.
pub open spec fn sha256_hex(b: Seq<u8>) -> Seq<char> {
    hex_of(sha256_of(b))
}

fn hex_digit_str(d: u8) -> (r: &'static str)
    requires
        d < 16,
    ensures
        r@ == seq![hex_digit(d as int)],
{
    let r = match d {
        0 => "0",
        1 => "1",
        2 => "2",
        3 => "3",
        4 => "4",
        5 => "5",
        6 => "6",
        7 => "7",
        8 => "8",
        9 => "9",
        10 => "a",
        11 => "b",
        12 => "c",
        13 => "d",
        14 => "e",
        _ => "f",
    };
    proof {
        reveal_strlit("0");
        reveal_strlit("1");
        reveal_strlit("2");
        reveal_strlit("3");
        reveal_strlit("4");
        reveal_strlit("5");
        reveal_strlit("6");
        reveal_strlit("7");
        reveal_strlit("8");
        reveal_strlit("9");
        reveal_strlit("a");
        reveal_strlit("b");
        reveal_strlit("c");
        reveal_strlit("d");
        reveal_strlit("e");
        reveal_strlit("f");
        assert(r@ =~= seq![hex_digit(d as int)]);
    }
    r
}

/// Hex notation of a byte sequence.
fn hex_string(bytes: &Vec<u8>) -> (r: String)
    ensures
        r@ == hex_of(bytes@),
{
    let n = bytes.len();
    let mut out = String::new();
    let mut i: usize = 0;
    while i < n
        invariant
            n == bytes@.len(),
            i <= n,
            out@ == hex_of(bytes@.take(i as int)),
        decreases n - i,
    {
        let ghost before = out@;
        let b = bytes[i];
        let hi = hex_digit_str(b / 16);
        out.append(hi);
        let lo = hex_digit_str(b % 16);
        out.append(lo);
        i += 1;
        proof {
            assert(out@ =~= hex_of(bytes@.take(i as int))) by {
                assert(out@ == before.push(hex_digit(b as int / 16)).push(
                    hex_digit(b as int % 16),
                ));
                assert forall|k: int|
                    0 <= k < 2 * i implies out@[k] == hex_of(bytes@.take(i as int))[k] by {
                    assert(bytes@.take(i as int)[k / 2] == bytes@[k / 2]);
                    if k < 2 * (i - 1) {
                        assert(out@[k] == before[k]);
                        assert(bytes@.take(i - 1)[k / 2] == bytes@[k / 2]);
                    }
                }
            }
        }
    }
    proof {
        assert(bytes@.take(n as int) =~= bytes@);
    }
    out
}

/// The content hash of a byte payload: the hex SHA-256 digest, the
/// image's identity and dedup key.
pub fn content_hash(bytes: &Vec<u8>) -> (r: String)
    ensures
        r@ == sha256_hex(bytes@),
        r@.len() == 64,
{
    let digest = sha256(bytes);
    hex_string(&digest)
}

} // verus!
