//! Content identity: the SHA-1 digest of a frame rendered as 40 lowercase hex
//! characters. The hash itself comes from an outside crate; the hex rendering
//! is verified here.

use vstd::prelude::*;

use sha1::Digest;

use crate::cli::Kind;
use crate::codec::frame_of;

verus! {

/// The SHA-1 digest of a byte sequence: 20 bytes, a function of the input alone.
pub uninterp spec fn sha1_of(data: Seq<u8>) -> Seq<u8>;

/// Relies on sha1::Sha1 (RustCrypto): the SHA-1 digest of the input bytes,
/// always 20 bytes long, depending on the input bytes alone.
#[verifier::external_body]
fn sha1_bytes(data: &Vec<u8>) -> (r: Vec<u8>)
    ensures
        r@ == sha1_of(data@),
        r@.len() == 20,
{
    sha1::Sha1::digest(data.as_slice()).to_vec()
}

/// The lowercase hex character of a nibble value.
pub open spec fn hex_digit(n: u8) -> u8 {
    if n < 10 {
        (48 + n) as u8
    } else {
        (87 + n) as u8
    }
}

/// Bytes rendered as lowercase hex, two characters per byte, in order.
pub open spec fn hex_of(bytes: Seq<u8>) -> Seq<u8>
    decreases bytes.len(),
{
    if bytes.len() == 0 {
        Seq::empty()
    } else {
        hex_of(bytes.drop_last()) + seq![
            hex_digit(bytes.last() / 16),
            hex_digit(bytes.last() % 16),
        ]
    }
}

/// A hex rendering has two characters per byte.
pub proof fn lemma_hex_of_len(bytes: Seq<u8>)
    ensures
        hex_of(bytes).len() == 2 * bytes.len(),
    decreases bytes.len(),
{
    if bytes.len() > 0 {
        lemma_hex_of_len(bytes.drop_last());
    }
}

/// Render bytes as lowercase hex, two characters per byte.
#[verifier::loop_isolation(false)]
pub fn hex_string(bytes: &Vec<u8>) -> (r: Vec<u8>)
    ensures
        r@ == hex_of(bytes@),
{
    let mut out: Vec<u8> = Vec::new();
    let mut i: usize = 0;
    while i < bytes.len()
        invariant
            0 <= i <= bytes@.len(),
            out@ == hex_of(bytes@.take(i as int)),
        decreases bytes@.len() - i,
    {
        let b = bytes[i];
        let hi = b / 16;
        let lo = b % 16;
        out.push(if hi < 10 {
            48 + hi
        } else {
            87 + hi
        });
        out.push(if lo < 10 {
            48 + lo
        } else {
            87 + lo
        });
        proof {
            let t = bytes@.take(i as int + 1);
            assert(t.drop_last() =~= bytes@.take(i as int));
            assert(t.last() == b);
            assert(out@ =~= hex_of(bytes@.take(i as int)) + seq![
                hex_digit(b / 16),
                hex_digit(b % 16),
            ]);
        }
        i += 1;
    }
    proof {
        assert(bytes@.take(bytes@.len() as int) =~= bytes@);
    }
    out
}

/// The identity of an object: the hex-rendered SHA-1 digest of its frame.
pub open spec fn identity_of(k: Kind, p: Seq<u8>) -> Seq<u8> {
    hex_of(sha1_of(frame_of(k, p)))
}

/// Digest a frame and render the result as a 40-character hex identity.
pub fn digest_hex(data: &Vec<u8>) -> (r: Vec<u8>)
    ensures
        r@ == hex_of(sha1_of(data@)),
        r@.len() == 40,
{
    let digest = sha1_bytes(data);
    proof {
        lemma_hex_of_len(digest@);
    }
    hex_string(&digest)
}

} // verus!
