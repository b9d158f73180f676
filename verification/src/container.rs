//! The container as a whole: salt, base nonce and sealed stream, and the
//! three operations on it.

use crate::compress::{compress, decompress, zstd_decoded};
use crate::error::{fails, gives, outcome, RstfError};
use crate::frame::{CHUNK_SIZE, FRAME_SIZE, NONCE_LEN};
use crate::head::{lemma_head_of_sealed, open_head, opened_head};
use crate::header::{
    header_encoding, lemma_header_of_head, parsed_header, parsed_prelude, prelude_of, HeaderView,
    RstfHeader,
};
use crate::kdf::{
    combined_credentials, derived_key, keyfile_view, process_credentials, MAX_CREDENTIAL_LEN,
    SALT_LEN,
};
use crate::stream::{open_stream, opened_stream, seal_stream, sealed_stream, stream_opens};
use crate::wipe::{wipe_key, wipe_string};
use rand::Rng;
use vstd::prelude::*;
use vstd::slice::{slice_subrange, slice_to_vec};
use vstd::string::StringExecFns;

verus! {

/// Bytes that stand in clear before the sealed stream: salt, then base nonce.
pub const PREFIX_LEN: usize = SALT_LEN + NONCE_LEN;

/// Calls `Rng::gen` on `rand::thread_rng()`, once for the salt and once for
/// the base nonce.
///
/// Trusted: nothing but the two lengths, which the types give.
#[verifier::external_body]
fn random_prefix() -> (r: ([u8; 16], [u8; 7])) {
    let mut rng = rand::thread_rng();
    (rng.gen(), rng.gen())
}

/// The name of the container for a source of the given file name: the name
/// with `.rstf` behind it.
pub fn container_name(file_name: &str) -> (name: String)
    ensures
        name@ == file_name@ + ".rstf"@,
{
    String::from_str(file_name).concat(".rstf")
}

/// The salt of a container of at least `PREFIX_LEN` bytes.
pub open spec fn salt_of(container: Seq<u8>) -> Seq<u8> {
    container.take(SALT_LEN as int)
}

/// The base nonce of a container of at least `PREFIX_LEN` bytes.
pub open spec fn nonce_of(container: Seq<u8>) -> Seq<u8> {
    container.subrange(SALT_LEN as int, PREFIX_LEN as int)
}

/// The sealed stream of a container of at least `PREFIX_LEN` bytes.
pub open spec fn stream_of(container: Seq<u8>) -> Seq<u8> {
    container.skip(PREFIX_LEN as int)
}

/// What lies under the seal of `container`, opened with `key`: the header,
/// and the payload as it was stored, still compressed.
pub open spec fn unsealed(key: Seq<u8>, container: Seq<u8>) -> Result<
    (HeaderView, Seq<u8>),
    RstfError,
> {
    if container.len() < PREFIX_LEN {
        Err(RstfError::Format)
    } else {
        match opened_stream(key, nonce_of(container), stream_of(container)) {
            Ok(plaintext) => match parsed_prelude(plaintext) {
                Some(parts) => Ok(parts),
                None => Err(RstfError::Format),
            },
            Err(e) => Err(e),
        }
    }
}

/// What unpacking `container` with `key` gives: the header and the payload.
pub open spec fn unpacked_with_key(key: Seq<u8>, container: Seq<u8>) -> Result<
    (HeaderView, Seq<u8>),
    RstfError,
> {
    match unsealed(key, container) {
        Ok((header, stored)) => match zstd_decoded(stored) {
            Some(payload) => Ok((header, payload)),
            None => Err(RstfError::Compression),
        },
        Err(e) => Err(e),
    }
}

/// What unpacking `container` with the given credentials gives. A container
/// too short to hold salt and base nonce is malformed, whatever the
/// credentials.
pub open spec fn unpacked(
    container: Seq<u8>,
    password: Seq<char>,
    keyfile: Option<Seq<u8>>,
) -> Result<(HeaderView, Seq<u8>), RstfError> {
    if container.len() < PREFIX_LEN {
        Err(RstfError::Format)
    } else {
        match derived_key(password, keyfile, salt_of(container)) {
            Ok(key) => unpacked_with_key(key, container),
            Err(e) => Err(e),
        }
    }
}

/// What listing `container` with `key` gives: the header, read from the
/// leading frames alone.
pub open spec fn listed_with_key(key: Seq<u8>, container: Seq<u8>) -> Result<
    HeaderView,
    RstfError,
> {
    if container.len() < PREFIX_LEN {
        Err(RstfError::Format)
    } else {
        match opened_head(key, nonce_of(container), stream_of(container)) {
            Ok(head) => match parsed_header(head) {
                Some(header) => Ok(header),
                None => Err(RstfError::Format),
            },
            Err(e) => Err(e),
        }
    }
}

/// What listing `container` with the given credentials gives.
pub open spec fn listed(
    container: Seq<u8>,
    password: Seq<char>,
    keyfile: Option<Seq<u8>>,
) -> Result<HeaderView, RstfError> {
    if container.len() < PREFIX_LEN {
        Err(RstfError::Format)
    } else {
        match derived_key(password, keyfile, salt_of(container)) {
            Ok(key) => listed_with_key(key, container),
            Err(e) => Err(e),
        }
    }
}

/// Whether `cut` bytes of `container` end where a frame begins: behind the
/// clear prefix or behind a full frame, and before the end.
pub open spec fn cut_between_frames(container: Seq<u8>, cut: int) -> bool {
    &&& PREFIX_LEN <= cut < container.len()
    &&& (cut - PREFIX_LEN) % (FRAME_SIZE as int) == 0
}

/// Reads the salt from the head of a container.
fn read_salt(container: &[u8]) -> (salt: [u8; 16])
    requires
        container@.len() >= PREFIX_LEN,
    ensures
        salt@ == salt_of(container@),
{
    let mut salt: [u8; 16] = [0u8; 16];
    let mut i: usize = 0;
    while i < 16
        invariant
            i <= 16,
            container@.len() >= PREFIX_LEN,
            forall|j: int| 0 <= j < i ==> salt@[j] == container@[j],
        decreases 16 - i,
    {
        salt[i] = container[i];
        i = i + 1;
    }
    assert(salt@ == salt_of(container@));
    salt
}

/// Reads the base nonce, which stands behind the salt.
fn read_nonce(container: &[u8]) -> (nonce: [u8; 7])
    requires
        container@.len() >= PREFIX_LEN,
    ensures
        nonce@ == nonce_of(container@),
{
    let mut nonce: [u8; 7] = [0u8; 7];
    let mut i: usize = 0;
    while i < 7
        invariant
            i <= 7,
            container@.len() >= PREFIX_LEN,
            forall|j: int| 0 <= j < i ==> nonce@[j] == container@[SALT_LEN + j],
        decreases 7 - i,
    {
        nonce[i] = container[SALT_LEN + i];
        i = i + 1;
    }
    assert(nonce@ == nonce_of(container@));
    nonce
}

/// Puts a container together: salt and base nonce in clear, then `prelude`
/// and `stored` sealed as one stream. Fails only where the counter cannot
/// number the frames.
pub fn seal_container(
    prelude: &[u8],
    stored: &[u8],
    key: &[u8; 32],
    salt: &[u8; 16],
    nonce: &[u8; 7],
) -> (r: Result<Vec<u8>, RstfError>)
    ensures
        match r {
            Ok(container) => {
                &&& (prelude@.len() + stored@.len()) / (CHUNK_SIZE as nat) <= u32::MAX
                &&& container@ == salt@ + nonce@ + sealed_stream(
                    key@,
                    nonce@,
                    prelude@ + stored@,
                )
                &&& container@.len() >= PREFIX_LEN
                &&& salt_of(container@) == salt@
                &&& nonce_of(container@) == nonce@
                &&& gives(opened_stream(key@, nonce@, stream_of(container@)), prelude@ + stored@)
                &&& stream_opens(key@, nonce@, 0, prelude@ + stored@)
                &&& forall|cut: int| #[trigger]
                    cut_between_frames(container@, cut) ==> fails(
                        unsealed(key@, container@.take(cut)),
                        RstfError::Truncation,
                    )
            },
            Err(e) => {
                &&& e == RstfError::Seal
                &&& (prelude@.len() + stored@.len()) / (CHUNK_SIZE as nat) > u32::MAX
            },
        },
{
    let mut plaintext: Vec<u8> = slice_to_vec(prelude);
    plaintext.extend_from_slice(stored);
    assert(plaintext@ == prelude@ + stored@);
    match seal_stream(key, nonce, plaintext.as_slice()) {
        Ok(sealed) => {
            let mut container: Vec<u8> = slice_to_vec(salt.as_slice());
            container.extend_from_slice(nonce.as_slice());
            container.extend_from_slice(sealed.as_slice());
            assert(container@ == salt@ + nonce@ + sealed@);
            assert(salt_of(container@) == salt@);
            assert(nonce_of(container@) == nonce@);
            assert(stream_of(container@) == sealed@);
            assert forall|cut: int| #[trigger]
                cut_between_frames(container@, cut) implies fails(
                unsealed(key@, container@.take(cut)),
                RstfError::Truncation,
            ) by {
                let shorter = container@.take(cut);
                assert(nonce_of(shorter) == nonce@);
                assert(stream_of(shorter) == sealed@.take(cut - PREFIX_LEN));
            }
            Ok(container)
        },
        Err(e) => Err(e),
    }
}

/// Opens the seal of `container` with `key` and reads the header. Nothing is
/// handed out unless the whole stream authenticated.
pub fn unseal_container(key: &[u8; 32], container: &[u8]) -> (r: Result<
    (RstfHeader, Vec<u8>),
    RstfError,
>)
    ensures
        outcome(r) == unsealed(key@, container@),
{
    if container.len() < PREFIX_LEN {
        return Err(RstfError::Format);
    }
    let nonce = read_nonce(container);
    let sealed = slice_subrange(container, PREFIX_LEN, container.len());
    assert(sealed@ == stream_of(container@));
    match open_stream(key, &nonce, sealed) {
        Ok(plaintext) => match RstfHeader::split_prelude(plaintext.as_slice()) {
            Ok((header, start)) => {
                let stored = slice_to_vec(
                    slice_subrange(plaintext.as_slice(), start, plaintext.len()),
                );
                assert(stored@ == plaintext@.skip(start as int));
                Ok((header, stored))
            },
            Err(e) => Err(e),
        },
        Err(e) => Err(e),
    }
}

/// Packs `payload` under `header` into a container with the given key, salt
/// and base nonce: the header with its length before it and the payload,
/// compressed, sealed as one stream behind salt and base nonce. What comes
/// out unpacks, with the same key, to the header and the payload that went
/// in, and lists as the header; cut short where a frame begins, it is found
/// truncated.
pub fn pack_with(
    header: &RstfHeader,
    payload: &[u8],
    level: i32,
    workers: u32,
    key: &[u8; 32],
    salt: &[u8; 16],
    nonce: &[u8; 7],
) -> (r: Result<Vec<u8>, RstfError>)
    ensures
        match r {
            Ok(container) => {
                &&& container@.len() >= PREFIX_LEN
                &&& salt_of(container@) == salt@
                &&& nonce_of(container@) == nonce@
                &&& gives(unpacked_with_key(key@, container@), (header@, payload@))
                &&& gives(listed_with_key(key@, container@), header@)
                &&& exists|stored: Seq<u8>|
                    {
                        &&& #[trigger] zstd_decoded(stored) == Some(payload@)
                        &&& container@ == salt@ + nonce@ + sealed_stream(
                            key@,
                            nonce@,
                            prelude_of(
                                header_encoding(
                                    header.is_dir,
                                    header.original_name@,
                                    header.original_size,
                                ),
                            ) + stored,
                        )
                    }
                &&& forall|cut: int| #[trigger]
                    cut_between_frames(container@, cut) ==> fails(
                        unpacked_with_key(key@, container@.take(cut)),
                        RstfError::Truncation,
                    )
            },
            Err(e) => {
                &&& e == RstfError::Format || e == RstfError::Compression || e == RstfError::Seal
                &&& e == RstfError::Format <==> header_encoding(
                    header.is_dir,
                    header.original_name@,
                    header.original_size,
                ).len() > u32::MAX
            },
        },
{
    let prelude = match header.prelude() {
        Ok(prelude) => prelude,
        Err(e) => {
            return Err(e);
        },
    };
    let stored = match compress(payload, level, workers) {
        Ok(stored) => stored,
        Err(e) => {
            return Err(e);
        },
    };
    assert(parsed_prelude(prelude@ + stored@) == Some((header@, stored@)));
    let packed = seal_container(prelude.as_slice(), stored.as_slice(), key, salt, nonce);
    proof {
        if let Ok(container) = &packed {
            let data = prelude@ + stored@;
            assert(Seq::<u8>::empty() + data == data);
            assert(stream_of(container@) == sealed_stream(key@, nonce@, data));
            lemma_head_of_sealed(key@, nonce@, 0, data, Seq::empty());
            let head = opened_head(key@, nonce@, stream_of(container@))->Ok_0;
            lemma_header_of_head(head, data);
        }
    }
    packed
}

/// Reads the header of `container` with `key`, opening no more frames than
/// the header lies in.
pub fn list_with(key: &[u8; 32], container: &[u8]) -> (r: Result<RstfHeader, RstfError>)
    ensures
        outcome(r) == listed_with_key(key@, container@),
{
    if container.len() < PREFIX_LEN {
        return Err(RstfError::Format);
    }
    let nonce = read_nonce(container);
    let sealed = slice_subrange(container, PREFIX_LEN, container.len());
    assert(sealed@ == stream_of(container@));
    match open_head(key, &nonce, sealed) {
        Ok(head) => match RstfHeader::split_prelude(head.as_slice()) {
            Ok((header, _)) => Ok(header),
            Err(e) => Err(e),
        },
        Err(e) => Err(e),
    }
}

/// Packs `payload` under `header` into a new container: draws salt and base
/// nonce, derives the key, compresses at `level` on `workers` threads, and
/// seals. The password is wiped on every path. What comes out unpacks, with
/// the same credentials, to the header and the payload that went in, and
/// lists as the header; cut short where a frame begins, it is found
/// truncated. Credentials too long for the key derivation are refused first,
/// then a header too long for its length prefix; after that only the codec
/// or the frame counter can refuse.
pub fn pack(
    header: &RstfHeader,
    payload: &[u8],
    level: i32,
    workers: u32,
    password: &mut String,
    keyfile: Option<&[u8]>,
) -> (r: Result<Vec<u8>, RstfError>)
    ensures
        final(password)@.len() == 0,
        match r {
            Ok(container) => {
                &&& gives(
                    unpacked(container@, old(password)@, keyfile_view(keyfile)),
                    (header@, payload@),
                )
                &&& gives(listed(container@, old(password)@, keyfile_view(keyfile)), header@)
                &&& forall|cut: int| #[trigger]
                    cut_between_frames(container@, cut) ==> fails(
                        unpacked(container@.take(cut), old(password)@, keyfile_view(keyfile)),
                        RstfError::Truncation,
                    )
            },
            Err(e) => {
                &&& e != RstfError::Auth && e != RstfError::Truncation
                &&& e == RstfError::Credential <==> combined_credentials(
                    old(password)@,
                    keyfile_view(keyfile),
                ).len() > MAX_CREDENTIAL_LEN
                &&& e == RstfError::Format <==> combined_credentials(
                    old(password)@,
                    keyfile_view(keyfile),
                ).len() <= MAX_CREDENTIAL_LEN && header_encoding(
                    header.is_dir,
                    header.original_name@,
                    header.original_size,
                ).len() > u32::MAX
            },
        },
{
    let (salt, nonce) = random_prefix();
    let mut key = match process_credentials(password, keyfile, &salt) {
        Ok(key) => key,
        Err(e) => {
            return Err(e);
        },
    };
    let packed = pack_with(header, payload, level, workers, &key, &salt, &nonce);
    proof {
        if let Ok(container) = &packed {
            assert forall|cut: int| #[trigger]
                cut_between_frames(container@, cut) implies salt_of(container@.take(cut))
                == salt@ by {
                assert(salt_of(container@.take(cut)) == salt_of(container@));
            }
        }
    }
    wipe_key(&mut key);
    packed
}

/// Unpacks `container` with the given credentials: derives the key from the
/// container's salt, opens the whole stream, reads the header and
/// decompresses the payload. The password is wiped on every path. No payload
/// is handed out unless every frame authenticated.
pub fn unpack(container: &[u8], password: &mut String, keyfile: Option<&[u8]>) -> (r: Result<
    (RstfHeader, Vec<u8>),
    RstfError,
>)
    ensures
        final(password)@.len() == 0,
        outcome(r) == unpacked(container@, old(password)@, keyfile_view(keyfile)),
{
    if container.len() < PREFIX_LEN {
        wipe_string(password);
        return Err(RstfError::Format);
    }
    let salt = read_salt(container);
    let mut key = match process_credentials(password, keyfile, &salt) {
        Ok(key) => key,
        Err(e) => {
            return Err(e);
        },
    };
    let unsealed = unseal_container(&key, container);
    wipe_key(&mut key);
    match unsealed {
        Ok((header, stored)) => match decompress(stored.as_slice()) {
            Ok(payload) => Ok((header, payload)),
            Err(e) => Err(e),
        },
        Err(e) => Err(e),
    }
}

/// Lists `container` with the given credentials: derives the key from the
/// container's salt and reads the header, opening no more frames than the
/// header lies in. The password is wiped on every path. No payload is handed
/// out.
pub fn list(container: &[u8], password: &mut String, keyfile: Option<&[u8]>) -> (r: Result<
    RstfHeader,
    RstfError,
>)
    ensures
        final(password)@.len() == 0,
        outcome(r) == listed(container@, old(password)@, keyfile_view(keyfile)),
{
    if container.len() < PREFIX_LEN {
        wipe_string(password);
        return Err(RstfError::Format);
    }
    let salt = read_salt(container);
    let mut key = match process_credentials(password, keyfile, &salt) {
        Ok(key) => key,
        Err(e) => {
            return Err(e);
        },
    };
    let header = list_with(&key, container);
    wipe_key(&mut key);
    header
}

} // verus!
