//! Reading the head of a sealed stream: no further than the header reaches.

use crate::error::{outcome, RstfError};
use crate::frame::{
    frame_outcome, open_frame, sealed_frame, Frame, FrameView, CHUNK_SIZE, FRAME_SIZE,
};
use crate::header::{prelude_complete, RstfHeader};
use crate::stream::{first_frame, sealed_stream_from, stream_opens};
use vstd::prelude::*;
use vstd::slice::slice_subrange;

verus! {

/// The plaintext of the leading frames of `sealed`, behind `have`, as far as
/// it takes to hold a whole header: frames are opened one by one, and none
/// after the header is complete. The closing frame must be the end of the
/// stream; a stream that closes before its header is complete is malformed.
pub open spec fn opened_head_from(
    key: Seq<u8>,
    nonce: Seq<u8>,
    position: nat,
    sealed: Seq<u8>,
    have: Seq<u8>,
) -> Result<Seq<u8>, RstfError>
    decreases sealed.len(),
{
    if prelude_complete(have) {
        Ok(have)
    } else if sealed.len() == 0 {
        Err(RstfError::Truncation)
    } else {
        let frame = first_frame(sealed);
        let rest = sealed.skip(frame.len() as int);
        match frame_outcome(key, nonce, position as u32, frame) {
            FrameView::More(plaintext) => opened_head_from(
                key,
                nonce,
                position + 1,
                rest,
                have + plaintext,
            ),
            FrameView::Last(plaintext) => if rest.len() > 0 {
                Err(RstfError::Auth)
            } else if prelude_complete(have + plaintext) {
                Ok(have + plaintext)
            } else {
                Err(RstfError::Format)
            },
            FrameView::Rejected => Err(RstfError::Auth),
        }
    }
}

/// The plaintext of the leading frames of `sealed`, as far as it takes to
/// hold a whole header.
pub open spec fn opened_head(key: Seq<u8>, nonce: Seq<u8>, sealed: Seq<u8>) -> Result<
    Seq<u8>,
    RstfError,
> {
    opened_head_from(key, nonce, 0, sealed, Seq::empty())
}

/// Of a sealed stream whose data begin with a whole header, the leading
/// frames open to a head of the data that holds the header.
pub proof fn lemma_head_of_sealed(
    key: Seq<u8>,
    nonce: Seq<u8>,
    position: nat,
    data: Seq<u8>,
    have: Seq<u8>,
)
    requires
        stream_opens(key, nonce, position, data),
        position + data.len() / (CHUNK_SIZE as nat) <= u32::MAX,
        prelude_complete(have + data),
    ensures
        opened_head_from(
            key,
            nonce,
            position,
            sealed_stream_from(key, nonce, position, data),
            have,
        ) matches Ok(head) && prelude_complete(head) && head.len() <= (have + data).len() && (have
            + data).take(head.len() as int) == head,
    decreases data.len(),
{
    let sealed = sealed_stream_from(key, nonce, position, data);
    if prelude_complete(have) {
        assert((have + data).take(have.len() as int) == have);
    } else if data.len() < CHUNK_SIZE {
        assert(first_frame(sealed) == sealed);
        assert(sealed.skip(sealed.len() as int).len() == 0);
        assert((have + data).take((have + data).len() as int) == have + data);
    } else {
        let chunk = data.take(CHUNK_SIZE as int);
        let later = data.skip(CHUNK_SIZE as int);
        let head = sealed_frame(key, nonce, position as u32, false, chunk);
        let tail = sealed_stream_from(key, nonce, position + 1, later);
        assert((have + chunk) + later == have + data);
        lemma_head_of_sealed(key, nonce, position + 1, later, have + chunk);
        assert(first_frame(sealed) == head);
        assert(sealed.skip(head.len() as int) == tail);
    }
}

/// Opens the leading frames of a sealed stream, as many as it takes to hold a
/// whole header, and hands out their plaintext. Frames behind the header are
/// neither opened nor looked at.
pub fn open_head(key: &[u8; 32], nonce: &[u8; 7], sealed: &[u8]) -> (r: Result<Vec<u8>, RstfError>)
    ensures
        outcome(r) == opened_head(key@, nonce@, sealed@),
{
    let mut head: Vec<u8> = Vec::new();
    let mut offset: usize = 0;
    let mut position: u32 = 0;
    assert(sealed@.skip(0) == sealed@);
    loop
        invariant
            offset <= sealed.len(),
            opened_head(key@, nonce@, sealed@) == opened_head_from(
                key@,
                nonce@,
                position as nat,
                sealed@.skip(offset as int),
                head@,
            ),
        decreases sealed.len() - offset,
    {
        if RstfHeader::is_complete(head.as_slice()) {
            return Ok(head);
        }
        if offset == sealed.len() {
            return Err(RstfError::Truncation);
        }
        let remaining: usize = sealed.len() - offset;
        let size: usize = if remaining < FRAME_SIZE {
            remaining
        } else {
            FRAME_SIZE
        };
        let frame = slice_subrange(sealed, offset, offset + size);
        let ghost here = sealed@.skip(offset as int);
        assert(frame@ == first_frame(here));
        assert(here.skip(size as int) == sealed@.skip(offset + size));
        match open_frame(key, nonce, position, frame) {
            Frame::More(chunk) => {
                let ghost before = head@;
                assert(opened_head_from(key@, nonce@, position as nat, here, before)
                    == opened_head_from(
                    key@,
                    nonce@,
                    position as nat + 1,
                    sealed@.skip(offset + size),
                    before + chunk@,
                ));
                head.extend_from_slice(chunk.as_slice());
                assert(head@ == before + chunk@);
                position = position + 1;
                offset = offset + size;
            },
            Frame::Last(chunk) => {
                if offset + size < sealed.len() {
                    return Err(RstfError::Auth);
                }
                let ghost before = head@;
                head.extend_from_slice(chunk.as_slice());
                assert(head@ == before + chunk@);
                if RstfHeader::is_complete(head.as_slice()) {
                    return Ok(head);
                } else {
                    return Err(RstfError::Format);
                }
            },
            Frame::Rejected => {
                return Err(RstfError::Auth);
            },
        }
    }
}

} // verus!
