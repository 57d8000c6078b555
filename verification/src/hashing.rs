//! Content fingerprinting: SHA-256 digests of file bytes, rendered as
//! lower-case hex, collected into a fingerprint snapshot.

use vstd::prelude::*;
use sha2::{Digest, Sha256};
use crate::digest_map::{DigestMap, DigestPair, spec_put};

verus! {

/// The SHA-256 digest of a byte sequence, as the outside implementation
/// computes it. The digest is a function of the bytes alone.
pub uninterp spec fn sha256_of(data: Seq<u8>) -> Seq<u8>;

/// Relies on `sha2::Sha256::digest`: the one-shot SHA-256 of the bytes,
/// 32 bytes long, determined by the input alone.
#[verifier::external_body]
fn sha256_digest(data: &Vec<u8>) -> (r: Vec<u8>)
    ensures
        r@ == sha256_of(data@),
        r@.len() == 32,
{
    Sha256::digest(data).to_vec()
}

/// The lower-case hex character of a value below sixteen.
pub open spec fn hex_char(d: int) -> char {
    if d == 0 {
        '0'
    } else if d == 1 {
        '1'
    } else if d == 2 {
        '2'
    } else if d == 3 {
        '3'
    } else if d == 4 {
        '4'
    } else if d == 5 {
        '5'
    } else if d == 6 {
        '6'
    } else if d == 7 {
        '7'
    } else if d == 8 {
        '8'
    } else if d == 9 {
        '9'
    } else if d == 10 {
        'a'
    } else if d == 11 {
        'b'
    } else if d == 12 {
        'c'
    } else if d == 13 {
        'd'
    } else if d == 14 {
        'e'
    } else {
        'f'
    }
}

/// Lower-case hex rendering of a byte sequence, two characters per byte.
pub open spec fn hex_of(bytes: Seq<u8>) -> Seq<char>
    decreases bytes.len(),
{
    if bytes.len() == 0 {
        Seq::empty()
    } else {
        hex_of(bytes.drop_last()) + seq![
            hex_char((bytes.last() / 16) as int),
            hex_char((bytes.last() % 16) as int),
        ]
    }
}

/// Hex rendering doubles the length.
pub proof fn lemma_hex_of_len(bytes: Seq<u8>)
    ensures
        hex_of(bytes).len() == 2 * bytes.len(),
    decreases bytes.len(),
{
    if bytes.len() > 0 {
        lemma_hex_of_len(bytes.drop_last());
    }
}

/// The exec hex digit table lookup.
fn hex_char_exec(d: u8) -> (c: char)
    requires
        d < 16,
    ensures
        c == hex_char(d as int),
{
    if d == 0 {
        '0'
    } else if d == 1 {
        '1'
    } else if d == 2 {
        '2'
    } else if d == 3 {
        '3'
    } else if d == 4 {
        '4'
    } else if d == 5 {
        '5'
    } else if d == 6 {
        '6'
    } else if d == 7 {
        '7'
    } else if d == 8 {
        '8'
    } else if d == 9 {
        '9'
    } else if d == 10 {
        'a'
    } else if d == 11 {
        'b'
    } else if d == 12 {
        'c'
    } else if d == 13 {
        'd'
    } else if d == 14 {
        'e'
    } else {
        'f'
    }
}

/// The digest a file's bytes fingerprint to: the lower-case 64-character
/// SHA-256 hex string. Identical bytes yield the identical digest.
pub fn file_digest(bytes: &Vec<u8>) -> (r: String)
    ensures
        r@ == hex_of(sha256_of(bytes@)),
        r@.len() == 64,
{
    let digest = sha256_digest(bytes);
    let n = digest.len();
    let mut out: Vec<char> = Vec::new();
    let mut i: usize = 0;
    proof {
        assert(digest@.subrange(0, 0) =~= Seq::<u8>::empty());
    }
    while i < n
        invariant
            n == digest@.len(),
            i <= n,
            out@ == hex_of(digest@.subrange(0, i as int)),
            out@.len() == 2 * i,
        decreases n - i,
    {
        let b = digest[i];
        out.push(hex_char_exec(b / 16));
        out.push(hex_char_exec(b % 16));
        proof {
            let next = digest@.subrange(0, i + 1);
            assert(next.drop_last() =~= digest@.subrange(0, i as int));
            assert(next.last() == digest@[i as int]);
            assert(out@ =~= hex_of(next));
        }
        i = i + 1;
    }
    proof {
        assert(digest@.subrange(0, n as int) =~= digest@);
    }
    crate::strutil::chars_to_string(&out)
}

/// The views of the path/bytes pairs handed in for fingerprinting.
pub open spec fn file_pairs_view(files: Seq<(String, Vec<u8>)>) -> Seq<(Seq<char>, Seq<u8>)> {
    files.map_values(|p: (String, Vec<u8>)| (p.0@, p.1@))
}

/// The snapshot that fingerprinting a list of files produces: each path is
/// bound to the hex SHA-256 of its bytes, later entries overwriting earlier
/// ones with the same path.
pub open spec fn spec_content_hashes(files: Seq<(Seq<char>, Seq<u8>)>) -> Seq<DigestPair>
    decreases files.len(),
{
    if files.len() == 0 {
        Seq::empty()
    } else {
        spec_put(
            spec_content_hashes(files.drop_last()),
            files.last().0,
            hex_of(sha256_of(files.last().1)),
        )
    }
}

/// Fingerprints the given root-relative files: hashes each one's raw bytes
/// and builds the path-to-digest snapshot. Deterministic and side-effect
/// free; the caller supplies the bytes exactly as read.
pub fn compute_content_hashes(files: &Vec<(String, Vec<u8>)>) -> (r: DigestMap)
    ensures
        r@ == spec_content_hashes(file_pairs_view(files@)),
        r.wf(),
{
    let mut map = DigestMap::new();
    let n = files.len();
    let mut i: usize = 0;
    proof {
        assert(file_pairs_view(files@).subrange(0, 0) =~= Seq::<(Seq<char>, Seq<u8>)>::empty());
    }
    while i < n
        invariant
            n == files@.len(),
            i <= n,
            map@ == spec_content_hashes(file_pairs_view(files@).subrange(0, i as int)),
            map.wf(),
        decreases n - i,
    {
        let digest = file_digest(&files[i].1);
        map.insert(files[i].0.clone(), digest);
        proof {
            let fv = file_pairs_view(files@);
            let next = fv.subrange(0, i + 1);
            assert(next.drop_last() =~= fv.subrange(0, i as int));
            assert(next.last() == fv[i as int]);
        }
        i = i + 1;
    }
    proof {
        assert(file_pairs_view(files@).subrange(0, n as int) =~= file_pairs_view(files@));
    }
    map
}

} // verus!
