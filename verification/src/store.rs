//! The object store: the pure path derivation from an identity, and the
//! compute parts of the write, read and render operations. The filesystem
//! itself stays outside; callers load and persist the bytes these functions
//! produce and consume.

use vstd::prelude::*;

use crate::cli::Kind;
use crate::codec::decode_spec;
use crate::codec::decode_object;
use crate::codec::frame;
use crate::codec::frame_of;
use crate::codec::lemma_frame_decode_round_trip;
use crate::digest::digest_hex;
use crate::digest::identity_of;
use crate::error::ObjectError;
use crate::zlib::zlib_compress;
use crate::zlib::zlib_decompress;
use crate::zlib::zlib_deflate;
use crate::zlib::zlib_inflate;

verus! {

/// The directory under the store root that holds all objects, with its
/// trailing separator: the bytes of `objects/`.
pub open spec fn objects_dir_prefix() -> Seq<u8> {
    seq![111u8, 98u8, 106u8, 101u8, 99u8, 116u8, 115u8, 47u8]
}

/// The path of an object relative to the store root, derived from its identity
/// alone: `objects/`, the first two identity characters as a directory name,
/// `/`, then the remaining thirty-eight as the file name.
pub open spec fn path_of(id: Seq<u8>) -> Seq<u8> {
    objects_dir_prefix() + id.take(2) + seq![47u8] + id.skip(2)
}

/// Derive the relative path of a 40-character identity.
#[verifier::loop_isolation(false)]
pub fn path_for(identity: &Vec<u8>) -> (r: Vec<u8>)
    requires
        identity@.len() == 40,
    ensures
        r@ == path_of(identity@),
{
    let mut out: Vec<u8> = Vec::new();
    out.push(111);
    out.push(98);
    out.push(106);
    out.push(101);
    out.push(99);
    out.push(116);
    out.push(115);
    out.push(47);
    out.push(identity[0]);
    out.push(identity[1]);
    out.push(47);
    assert(out@ =~= objects_dir_prefix() + identity@.take(2) + seq![47u8]);
    let mut i: usize = 2;
    while i < identity.len()
        invariant
            2 <= i <= 40,
            out@ == objects_dir_prefix() + identity@.take(2) + seq![47u8] + identity@.subrange(
                2,
                i as int,
            ),
        decreases identity@.len() - i,
    {
        out.push(identity[i]);
        proof {
            assert(out@ =~= objects_dir_prefix() + identity@.take(2) + seq![47u8]
                + identity@.subrange(2, i as int + 1));
        }
        i += 1;
    }
    proof {
        assert(identity@.subrange(2, 40) =~= identity@.skip(2));
    }
    out
}

/// The result of a write: the identity, the path derived from it, and the
/// compressed frame to persist at that path.
pub struct StoredObject {
    pub identity: Vec<u8>,
    pub path: Vec<u8>,
    pub compressed: Vec<u8>,
}

/// The compute part of the write operation: frame the payload, derive its
/// identity and path, and compress the frame for persisting. `must_write` is
/// the operation's mandatory flag, re-validated here before any work.
pub fn store_write(kind: Kind, payload: &Vec<u8>, must_write: bool) -> (r: Result<
    StoredObject,
    ObjectError,
>)
    ensures
        match r {
            Ok(s) => must_write && s.identity@ == identity_of(kind, payload@)
                && s.identity@.len() == 40 && s.path@ == path_of(identity_of(kind, payload@))
                && s.compressed@ == zlib_deflate(frame_of(kind, payload@)) && zlib_inflate(
                s.compressed@,
            ) == Some(frame_of(kind, payload@)),
            Err(e) => !must_write && e == ObjectError::UnsupportedOperation,
        },
{
    if !must_write {
        return Err(ObjectError::UnsupportedOperation);
    }
    let framed = frame(kind, payload);
    let identity = digest_hex(&framed);
    let path = path_for(&identity);
    let compressed = zlib_compress(&framed);
    Ok(StoredObject { identity, path, compressed })
}

/// The bytes a caller loaded from an object's path, if a file was there.
pub open spec fn loaded_view(loaded: Option<&Vec<u8>>) -> Option<Seq<u8>> {
    match loaded {
        None => None,
        Some(c) => Some(c@),
    }
}

/// What reading loaded bytes yields: the expected miss when no file was there,
/// a corruption failure when the bytes do not decompress, else the decode of
/// the decompressed frame.
pub open spec fn read_spec(loaded: Option<Seq<u8>>) -> Result<(Kind, Seq<u8>), ObjectError> {
    match loaded {
        None => Err(ObjectError::ObjectNotFound),
        Some(c) => match zlib_inflate(c) {
            None => Err(ObjectError::CorruptObject),
            Some(f) => decode_spec(f),
        },
    }
}

/// The compute part of the read operation: decompress the loaded bytes and
/// decode the frame. `None` stands for "no file at the object's path".
pub fn store_read(loaded: Option<&Vec<u8>>) -> (r: Result<(Kind, Vec<u8>), ObjectError>)
    ensures
        match r {
            Ok((k, p)) => read_spec(loaded_view(loaded)) == Ok::<_, ObjectError>((k, p@)),
            Err(e) => read_spec(loaded_view(loaded)) == Err::<(Kind, Seq<u8>), _>(e),
        },
{
    let compressed = match loaded {
        None => {
            return Err(ObjectError::ObjectNotFound);
        },
        Some(c) => c,
    };
    let decompressed = match zlib_decompress(compressed) {
        None => {
            return Err(ObjectError::CorruptObject);
        },
        Some(f) => f,
    };
    decode_object(&decompressed)
}

/// What the cat-file operation yields: the raw payload of a blob object, after
/// re-validating the operation's mandatory pretty-print flag. Only a blob is
/// renderable; any other kind is refused, never shown as something else.
pub open spec fn cat_file_spec(pretty_print: bool, loaded: Option<Seq<u8>>) -> Result<
    Seq<u8>,
    ObjectError,
> {
    if !pretty_print {
        Err(ObjectError::UnsupportedOperation)
    } else {
        match read_spec(loaded) {
            Err(e) => Err(e),
            Ok((k, p)) => if k == Kind::Blob {
                Ok(p)
            } else {
                Err(ObjectError::UnsupportedOperation)
            },
        }
    }
}

/// The compute part of the cat-file operation: decode the loaded object and
/// hand back the blob payload for the caller to emit verbatim.
pub fn cat_file_payload(pretty_print: bool, loaded: Option<&Vec<u8>>) -> (r: Result<
    Vec<u8>,
    ObjectError,
>)
    ensures
        match r {
            Ok(p) => cat_file_spec(pretty_print, loaded_view(loaded)) == Ok::<_, ObjectError>(p@),
            Err(e) => cat_file_spec(pretty_print, loaded_view(loaded)) == Err::<Seq<u8>, _>(e),
        },
{
    if !pretty_print {
        return Err(ObjectError::UnsupportedOperation);
    }
    match store_read(loaded) {
        Err(e) => Err(e),
        Ok((k, p)) => match k {
            Kind::Blob => Ok(p),
            Kind::Tree => Err(ObjectError::UnsupportedOperation),
        },
    }
}

/// What the listing operation yields: the raw payload of a directory-listing
/// object, not decomposed into entries. Any other kind is refused.
pub open spec fn ls_tree_spec(loaded: Option<Seq<u8>>) -> Result<Seq<u8>, ObjectError> {
    match read_spec(loaded) {
        Err(e) => Err(e),
        Ok((k, p)) => if k == Kind::Tree {
            Ok(p)
        } else {
            Err(ObjectError::UnsupportedOperation)
        },
    }
}

/// The compute part of the listing operation: decode the loaded object and
/// hand back the raw directory-listing payload for the caller to emit verbatim.
pub fn ls_tree_payload(loaded: Option<&Vec<u8>>) -> (r: Result<Vec<u8>, ObjectError>)
    ensures
        match r {
            Ok(p) => ls_tree_spec(loaded_view(loaded)) == Ok::<_, ObjectError>(p@),
            Err(e) => ls_tree_spec(loaded_view(loaded)) == Err::<Seq<u8>, _>(e),
        },
{
    match store_read(loaded) {
        Err(e) => Err(e),
        Ok((k, p)) => match k {
            Kind::Tree => Ok(p),
            Kind::Blob => Err(ObjectError::UnsupportedOperation),
        },
    }
}

/// Determinism law: two writes of the same kind and payload produce the same
/// identity both times, and byte-identical stored bytes — exactly what every
/// successful `store_write` guarantees of its results.
pub proof fn lemma_write_deterministic(
    k: Kind,
    p: Seq<u8>,
    id1: Seq<u8>,
    c1: Seq<u8>,
    id2: Seq<u8>,
    c2: Seq<u8>,
)
    requires
        id1 == identity_of(k, p),
        c1 == zlib_deflate(frame_of(k, p)),
        id2 == identity_of(k, p),
        c2 == zlib_deflate(frame_of(k, p)),
    ensures
        id1 == id2,
        c1 == c2,
{
}

/// Round-trip law: bytes stored for a kind and payload — they decompress to the
/// canonical frame, as every successful `store_write` guarantees — read back as
/// exactly that kind and payload.
pub proof fn lemma_write_read_round_trip(k: Kind, p: Seq<u8>, stored: Seq<u8>)
    requires
        p.len() <= usize::MAX,
        zlib_inflate(stored) == Some(frame_of(k, p)),
    ensures
        read_spec(Some(stored)) == Ok::<_, ObjectError>((k, p)),
{
    lemma_frame_decode_round_trip(k, p);
}

} // verus!
