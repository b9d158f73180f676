//! One frame of the sealed stream: the two calls into the AEAD that make and
//! open it, and how an incoming frame is told apart.

use chacha20poly1305::aead::generic_array::GenericArray;
use chacha20poly1305::aead::stream::{NewStream, StreamBE32, StreamPrimitive};
use chacha20poly1305::{ChaCha20Poly1305, KeyInit};
use vstd::prelude::*;

verus! {

/// Plaintext bytes carried by every frame but the closing one.
pub const CHUNK_SIZE: usize = 65536;

/// Bytes of authentication tag at the end of every frame.
pub const TAG_SIZE: usize = 16;

/// Size on the wire of a frame that carries a full chunk.
pub const FRAME_SIZE: usize = CHUNK_SIZE + TAG_SIZE;

/// Bytes of key.
pub const KEY_LEN: usize = 32;

/// Bytes of base nonce, from which the nonce of each frame is derived.
pub const NONCE_LEN: usize = 7;

#[verifier::external_type_specification]
#[verifier::external_body]
pub struct ExAeadError(chacha20poly1305::aead::Error);

/// The frame that the STREAM construction over ChaCha20-Poly1305 makes of
/// `plaintext` at counter value `position`, with the last-frame flag `last`.
pub uninterp spec fn sealed_frame(
    key: Seq<u8>,
    nonce: Seq<u8>,
    position: u32,
    last: bool,
    plaintext: Seq<u8>,
) -> Seq<u8>;

/// The plaintext that the STREAM construction recovers from `frame` at counter
/// value `position` with the last-frame flag `last`, or `None` where the frame
/// does not authenticate.
pub uninterp spec fn opened_frame(
    key: Seq<u8>,
    nonce: Seq<u8>,
    position: u32,
    last: bool,
    frame: Seq<u8>,
) -> Option<Seq<u8>>;

/// `frame` is the sealing of `plaintext`: it is one tag longer, and it opens
/// to `plaintext` again at the same position and with the same flag.
pub open spec fn seals_to(
    key: Seq<u8>,
    nonce: Seq<u8>,
    position: u32,
    last: bool,
    plaintext: Seq<u8>,
    frame: Seq<u8>,
) -> bool {
    &&& frame == sealed_frame(key, nonce, position, last, plaintext)
    &&& frame.len() == plaintext.len() + TAG_SIZE
    &&& opened_frame(key, nonce, position, last, frame) == Some(plaintext)
}

/// The frame made of `plaintext` is one tag longer than it and opens to it
/// again.
pub open spec fn opens_back(
    key: Seq<u8>,
    nonce: Seq<u8>,
    position: u32,
    last: bool,
    plaintext: Seq<u8>,
) -> bool {
    seals_to(
        key,
        nonce,
        position,
        last,
        plaintext,
        sealed_frame(key, nonce, position, last, plaintext),
    )
}

/// Calls `StreamPrimitive::encrypt` of `StreamBE32<ChaCha20Poly1305>`, made
/// from `key` and `nonce`, with no associated data.
///
/// Trusted: the call fails exactly for a plaintext of `u32::MAX` or more
/// cipher blocks of 64 bytes; the frame depends on the five arguments alone
/// and is one tag longer than the plaintext; and opening it with the same
/// key, nonce, position and flag gives the plaintext back.
#[verifier::external_body]
pub(crate) fn stream_encrypt(
    key: &[u8; 32],
    nonce: &[u8; 7],
    position: u32,
    last: bool,
    plaintext: &[u8],
) -> (r: Result<Vec<u8>, chacha20poly1305::aead::Error>)
    ensures
        r is Ok <==> plaintext@.len() / 64 < 0xffff_ffff,
        r matches Ok(frame) ==> {
            &&& frame@ == sealed_frame(key@, nonce@, position, last, plaintext@)
            &&& frame@.len() == plaintext@.len() + TAG_SIZE
            &&& opened_frame(key@, nonce@, position, last, frame@) == Some(plaintext@)
        },
{
    let aead = ChaCha20Poly1305::new(GenericArray::from_slice(key));
    let stream = StreamBE32::from_aead(aead, GenericArray::from_slice(nonce));
    stream.encrypt(position, last, plaintext)
}

/// Calls `StreamPrimitive::decrypt` of `StreamBE32<ChaCha20Poly1305>`, made
/// from `key` and `nonce`, with no associated data.
///
/// Trusted: whether the frame authenticates, and the plaintext it then
/// gives, depend on the five arguments alone; the plaintext is one tag
/// shorter than the frame.
#[verifier::external_body]
pub(crate) fn stream_decrypt(
    key: &[u8; 32],
    nonce: &[u8; 7],
    position: u32,
    last: bool,
    frame: &[u8],
) -> (r: Result<Vec<u8>, chacha20poly1305::aead::Error>)
    ensures
        match r {
            Ok(plaintext) => opened_frame(key@, nonce@, position, last, frame@) == Some(
                plaintext@,
            ) && plaintext@.len() + TAG_SIZE == frame@.len(),
            Err(_) => opened_frame(key@, nonce@, position, last, frame@) is None,
        },
{
    let aead = ChaCha20Poly1305::new(GenericArray::from_slice(key));
    let stream = StreamBE32::from_aead(aead, GenericArray::from_slice(nonce));
    stream.decrypt(position, last, frame)
}

/// What opening one frame at a given position gave.
pub enum Frame {
    /// The frame authenticated without the last-frame flag: more follow.
    More(Vec<u8>),
    /// The frame authenticated with the last-frame flag: it closes the stream.
    Last(Vec<u8>),
    /// The frame did not authenticate either way.
    Rejected,
}

/// The plain value of a [`Frame`].
pub enum FrameView {
    More(Seq<u8>),
    Last(Seq<u8>),
    Rejected,
}

impl View for Frame {
    type V = FrameView;

    open spec fn view(&self) -> FrameView {
        match self {
            Frame::More(plaintext) => FrameView::More(plaintext@),
            Frame::Last(plaintext) => FrameView::Last(plaintext@),
            Frame::Rejected => FrameView::Rejected,
        }
    }
}

/// How a frame read at `position` is told apart. A frame that is not the
/// closing one has the full size and authenticates without the last-frame
/// flag, at a counter value below the last. Any other frame can only be the
/// closing one: it authenticates with the flag, or not at all.
pub open spec fn frame_outcome(
    key: Seq<u8>,
    nonce: Seq<u8>,
    position: u32,
    frame: Seq<u8>,
) -> FrameView {
    if frame.len() == FRAME_SIZE && position < u32::MAX && opened_frame(
        key,
        nonce,
        position,
        false,
        frame,
    ) is Some {
        FrameView::More(opened_frame(key, nonce, position, false, frame)->0)
    } else if frame.len() <= FRAME_SIZE && opened_frame(key, nonce, position, true, frame) is Some {
        FrameView::Last(opened_frame(key, nonce, position, true, frame)->0)
    } else {
        FrameView::Rejected
    }
}

/// Opens the frame read at `position`, trying it first as a frame in the
/// middle of the stream, where its size allows that, and then as the closing
/// frame.
pub fn open_frame(key: &[u8; 32], nonce: &[u8; 7], position: u32, frame: &[u8]) -> (r: Frame)
    ensures
        r@ == frame_outcome(key@, nonce@, position, frame@),
        r matches Frame::More(plaintext) ==> plaintext@.len() == CHUNK_SIZE,
        r matches Frame::Last(plaintext) ==> plaintext@.len() + TAG_SIZE == frame@.len(),
{
    if frame.len() == FRAME_SIZE && position < u32::MAX {
        match stream_decrypt(key, nonce, position, false, frame) {
            Ok(plaintext) => {
                return Frame::More(plaintext);
            },
            Err(_) => {},
        }
    }
    if frame.len() <= FRAME_SIZE {
        match stream_decrypt(key, nonce, position, true, frame) {
            Ok(plaintext) => {
                return Frame::Last(plaintext);
            },
            Err(_) => {},
        }
    }
    Frame::Rejected
}

} // verus!
