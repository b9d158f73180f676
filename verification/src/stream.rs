//! The sealed stream as a whole: what sealing a byte string gives, what
//! opening one gives, and that the second undoes the first.

use crate::error::{fails, gives, outcome, RstfError};
use crate::frame::{
    frame_outcome, open_frame, opens_back, sealed_frame, Frame, FrameView, CHUNK_SIZE,
    FRAME_SIZE, TAG_SIZE,
};
use crate::writer::EncryptedWriter;
use vstd::prelude::*;
use vstd::slice::slice_subrange;

verus! {

/// The frames of all full chunks of `data`, numbered from `position`. What is
/// left over at the end, less than a chunk, is not sealed here.
pub open spec fn sealed_chunks(key: Seq<u8>, nonce: Seq<u8>, position: nat, data: Seq<u8>) -> Seq<
    u8,
>
    decreases data.len(),
{
    if data.len() < CHUNK_SIZE {
        Seq::empty()
    } else {
        sealed_frame(key, nonce, position as u32, false, data.take(CHUNK_SIZE as int))
            + sealed_chunks(key, nonce, position + 1, data.skip(CHUNK_SIZE as int))
    }
}

/// Every frame of `sealed_chunks` is one tag longer than a chunk and opens to
/// its chunk again.
pub open spec fn chunks_open(key: Seq<u8>, nonce: Seq<u8>, position: nat, data: Seq<u8>) -> bool
    decreases data.len(),
{
    data.len() >= CHUNK_SIZE ==> {
        &&& opens_back(key, nonce, position as u32, false, data.take(CHUNK_SIZE as int))
        &&& chunks_open(key, nonce, position + 1, data.skip(CHUNK_SIZE as int))
    }
}

/// The sealed stream of `data` from counter value `position` on: a frame
/// without the last-frame flag for every full chunk, then the closing frame
/// over what is left, which may be nothing.
pub open spec fn sealed_stream_from(
    key: Seq<u8>,
    nonce: Seq<u8>,
    position: nat,
    data: Seq<u8>,
) -> Seq<u8>
    decreases data.len(),
{
    if data.len() < CHUNK_SIZE {
        sealed_frame(key, nonce, position as u32, true, data)
    } else {
        sealed_frame(key, nonce, position as u32, false, data.take(CHUNK_SIZE as int))
            + sealed_stream_from(key, nonce, position + 1, data.skip(CHUNK_SIZE as int))
    }
}

/// The sealed stream of `data`: frames are numbered from zero.
pub open spec fn sealed_stream(key: Seq<u8>, nonce: Seq<u8>, data: Seq<u8>) -> Seq<u8> {
    sealed_stream_from(key, nonce, 0, data)
}

/// Every frame of `sealed_stream_from` opens to its chunk again.
pub open spec fn stream_opens(key: Seq<u8>, nonce: Seq<u8>, position: nat, data: Seq<u8>) -> bool
    decreases data.len(),
{
    if data.len() < CHUNK_SIZE {
        opens_back(key, nonce, position as u32, true, data)
    } else {
        &&& opens_back(key, nonce, position as u32, false, data.take(CHUNK_SIZE as int))
        &&& stream_opens(key, nonce, position + 1, data.skip(CHUNK_SIZE as int))
    }
}

/// Where the full chunks of `data` end: the largest multiple of the chunk size
/// within its length.
pub open spec fn chunked_len(data: Seq<u8>) -> int {
    data.len() - data.len() % (CHUNK_SIZE as nat)
}

/// A sealed stream is the frames of its full chunks, then the closing frame
/// over the rest.
pub proof fn lemma_stream_is_chunks_then_last(
    key: Seq<u8>,
    nonce: Seq<u8>,
    position: nat,
    data: Seq<u8>,
)
    ensures
        sealed_stream_from(key, nonce, position, data) == sealed_chunks(key, nonce, position, data)
            + sealed_frame(
            key,
            nonce,
            (position + data.len() / (CHUNK_SIZE as nat)) as u32,
            true,
            data.skip(chunked_len(data)),
        ),
        stream_opens(key, nonce, position, data) <==> chunks_open(key, nonce, position, data)
            && opens_back(
            key,
            nonce,
            (position + data.len() / (CHUNK_SIZE as nat)) as u32,
            true,
            data.skip(chunked_len(data)),
        ),
    decreases data.len(),
{
    if data.len() < CHUNK_SIZE {
        assert(data.skip(0) == data);
        assert(Seq::<u8>::empty() + sealed_frame(key, nonce, position as u32, true, data)
            == sealed_frame(key, nonce, position as u32, true, data));
    } else {
        let rest = data.skip(CHUNK_SIZE as int);
        lemma_stream_is_chunks_then_last(key, nonce, position + 1, rest);
        assert(rest.skip(chunked_len(rest)) == data.skip(chunked_len(data)));
        let head = sealed_frame(key, nonce, position as u32, false, data.take(CHUNK_SIZE as int));
        let last = sealed_frame(
            key,
            nonce,
            (position + data.len() / (CHUNK_SIZE as nat)) as u32,
            true,
            data.skip(chunked_len(data)),
        );
        assert(head + (sealed_chunks(key, nonce, position + 1, rest) + last) == (head
            + sealed_chunks(key, nonce, position + 1, rest)) + last);
    }
}

/// Sealing the full chunks of `front + back` is sealing those of `front`, and
/// then those of what `front` left over with `back` behind it.
pub proof fn lemma_chunks_of_concat(
    key: Seq<u8>,
    nonce: Seq<u8>,
    position: nat,
    front: Seq<u8>,
    back: Seq<u8>,
)
    ensures
        sealed_chunks(key, nonce, position, front + back) == sealed_chunks(
            key,
            nonce,
            position,
            front,
        ) + sealed_chunks(
            key,
            nonce,
            position + front.len() / (CHUNK_SIZE as nat),
            front.skip(chunked_len(front)) + back,
        ),
    decreases front.len(),
{
    if front.len() < CHUNK_SIZE {
        assert(front.skip(0) == front);
        assert(Seq::<u8>::empty() + sealed_chunks(key, nonce, position, front + back)
            == sealed_chunks(key, nonce, position, front + back));
    } else {
        let later = front.skip(CHUNK_SIZE as int);
        lemma_chunks_of_concat(key, nonce, position + 1, later, back);
        assert((front + back).take(CHUNK_SIZE as int) == front.take(CHUNK_SIZE as int));
        assert((front + back).skip(CHUNK_SIZE as int) == later + back);
        assert(later.skip(chunked_len(later)) == front.skip(chunked_len(front)));
        let head = sealed_frame(key, nonce, position as u32, false, front.take(CHUNK_SIZE as int));
        let mid = sealed_chunks(key, nonce, position + 1, later);
        let end = sealed_chunks(
            key,
            nonce,
            position + 1 + later.len() / (CHUNK_SIZE as nat),
            later.skip(chunked_len(later)) + back,
        );
        assert(head + (mid + end) == (head + mid) + end);
    }
}

/// `front` before the plaintext in `tail`, where there is one.
pub open spec fn after_prefix(front: Seq<u8>, tail: Result<Seq<u8>, RstfError>) -> Result<
    Seq<u8>,
    RstfError,
> {
    match tail {
        Ok(plaintext) => Ok(front + plaintext),
        Err(e) => Err(e),
    }
}

/// The first frame of `sealed`: a full frame's worth of bytes, or all of
/// them where there are fewer.
pub open spec fn first_frame(sealed: Seq<u8>) -> Seq<u8> {
    if sealed.len() < FRAME_SIZE {
        sealed
    } else {
        sealed.take(FRAME_SIZE as int)
    }
}

/// What opening `sealed` gives, its first frame being read at counter value
/// `position`. Every frame must authenticate; the stream must end with its
/// closing frame and hold nothing after it. A stream that ends before its
/// closing frame is truncated.
pub open spec fn opened_stream_from(
    key: Seq<u8>,
    nonce: Seq<u8>,
    position: nat,
    sealed: Seq<u8>,
) -> Result<Seq<u8>, RstfError>
    decreases sealed.len(),
{
    if sealed.len() == 0 {
        Err(RstfError::Truncation)
    } else {
        let frame = first_frame(sealed);
        let rest = sealed.skip(frame.len() as int);
        match frame_outcome(key, nonce, position as u32, frame) {
            FrameView::More(plaintext) => after_prefix(
                plaintext,
                opened_stream_from(key, nonce, position + 1, rest),
            ),
            FrameView::Last(plaintext) => if rest.len() == 0 {
                Ok(plaintext)
            } else {
                Err(RstfError::Auth)
            },
            FrameView::Rejected => Err(RstfError::Auth),
        }
    }
}

/// What opening `sealed` gives: frames are numbered from zero.
pub open spec fn opened_stream(key: Seq<u8>, nonce: Seq<u8>, sealed: Seq<u8>) -> Result<
    Seq<u8>,
    RstfError,
> {
    opened_stream_from(key, nonce, 0, sealed)
}

/// Opening undoes sealing: a sealed stream whose frames open to their chunks
/// opens to the data that was sealed, as long as the counter can number its
/// frames.
pub proof fn lemma_open_sealed(key: Seq<u8>, nonce: Seq<u8>, position: nat, data: Seq<u8>)
    requires
        stream_opens(key, nonce, position, data),
        position + data.len() / (CHUNK_SIZE as nat) <= u32::MAX,
    ensures
        gives(
            opened_stream_from(
                key,
                nonce,
                position,
                sealed_stream_from(key, nonce, position, data),
            ),
            data,
        ),
    decreases data.len(),
{
    let sealed = sealed_stream_from(key, nonce, position, data);
    if data.len() < CHUNK_SIZE {
        assert(first_frame(sealed) == sealed);
        assert(sealed.skip(sealed.len() as int).len() == 0);
    } else {
        let chunk = data.take(CHUNK_SIZE as int);
        let later = data.skip(CHUNK_SIZE as int);
        let head = sealed_frame(key, nonce, position as u32, false, chunk);
        let tail = sealed_stream_from(key, nonce, position + 1, later);
        lemma_open_sealed(key, nonce, position + 1, later);
        assert(first_frame(sealed) == head);
        assert(sealed.skip(head.len() as int) == tail);
        assert(chunk + later == data);
    }
}

/// A sealed stream cut off after any number of its full frames, the closing
/// frame gone, is found to be truncated.
pub proof fn lemma_cut_at_frame_is_truncation(
    key: Seq<u8>,
    nonce: Seq<u8>,
    position: nat,
    data: Seq<u8>,
    frames: nat,
)
    requires
        stream_opens(key, nonce, position, data),
        position + data.len() / (CHUNK_SIZE as nat) <= u32::MAX,
        frames <= data.len() / (CHUNK_SIZE as nat),
    ensures
        frames * FRAME_SIZE <= sealed_stream_from(key, nonce, position, data).len(),
        fails(
            opened_stream_from(
                key,
                nonce,
                position,
                sealed_stream_from(key, nonce, position, data).take(frames * FRAME_SIZE),
            ),
            RstfError::Truncation,
        ),
    decreases frames,
{
    let sealed = sealed_stream_from(key, nonce, position, data);
    if frames > 0 {
        let chunk = data.take(CHUNK_SIZE as int);
        let later = data.skip(CHUNK_SIZE as int);
        let head = sealed_frame(key, nonce, position as u32, false, chunk);
        let tail = sealed_stream_from(key, nonce, position + 1, later);
        lemma_cut_at_frame_is_truncation(key, nonce, position + 1, later, (frames - 1) as nat);
        let cut = sealed.take(frames * FRAME_SIZE);
        assert(frames * FRAME_SIZE == FRAME_SIZE + (frames - 1) * FRAME_SIZE) by (nonlinear_arith)
            requires
                frames > 0,
        ;
        assert(first_frame(cut) == head);
        assert(cut.skip(head.len() as int) == tail.take((frames - 1) * FRAME_SIZE));
    }
}

/// A sealed stream is one tag longer than its data for every frame: for each
/// full chunk, and for the closing frame.
pub proof fn lemma_sealed_len(key: Seq<u8>, nonce: Seq<u8>, position: nat, data: Seq<u8>)
    requires
        stream_opens(key, nonce, position, data),
    ensures
        sealed_stream_from(key, nonce, position, data).len() == data.len() + (data.len() / (
        CHUNK_SIZE as nat) + 1) * TAG_SIZE,
    decreases data.len(),
{
    if data.len() >= CHUNK_SIZE {
        lemma_sealed_len(key, nonce, position + 1, data.skip(CHUNK_SIZE as int));
    }
}

/// A sealed stream cut off where one of its frames begins is found to be
/// truncated.
pub proof fn lemma_cut_between_frames(key: Seq<u8>, nonce: Seq<u8>, data: Seq<u8>, cut: int)
    requires
        stream_opens(key, nonce, 0, data),
        data.len() / (CHUNK_SIZE as nat) <= u32::MAX,
        0 <= cut < sealed_stream(key, nonce, data).len(),
        cut % (FRAME_SIZE as int) == 0,
    ensures
        fails(
            opened_stream(key, nonce, sealed_stream(key, nonce, data).take(cut)),
            RstfError::Truncation,
        ),
{
    lemma_sealed_len(key, nonce, 0, data);
    let frames = (cut / (FRAME_SIZE as int)) as nat;
    lemma_cut_at_frame_is_truncation(key, nonce, 0, data, frames);
}

/// Seals `data` as one stream: a frame for every full chunk and the closing
/// frame over the rest. Fails only where the counter cannot number the
/// frames.
pub fn seal_stream(key: &[u8; 32], nonce: &[u8; 7], data: &[u8]) -> (r: Result<Vec<u8>, RstfError>)
    ensures
        match r {
            Ok(sealed) => {
                &&& data@.len() / (CHUNK_SIZE as nat) <= u32::MAX
                &&& sealed@ == sealed_stream(key@, nonce@, data@)
                &&& gives(opened_stream(key@, nonce@, sealed@), data@)
                &&& stream_opens(key@, nonce@, 0, data@)
                &&& forall|cut: int|
                    0 <= cut < sealed@.len() && cut % (FRAME_SIZE as int) == 0 ==> fails(
                        opened_stream(key@, nonce@, #[trigger] sealed@.take(cut)),
                        RstfError::Truncation,
                    )
            },
            Err(e) => e == RstfError::Seal && data@.len() / (CHUNK_SIZE as nat) > u32::MAX,
        },
{
    let mut writer = EncryptedWriter::new(key, nonce);
    assert(Seq::<u8>::empty() + data@ == data@);
    match writer.write(data) {
        Ok(mut sealed) => {
            let last = writer.close();
            sealed.extend_from_slice(last.as_slice());
            proof {
                lemma_stream_is_chunks_then_last(key@, nonce@, 0, data@);
                lemma_open_sealed(key@, nonce@, 0, data@);
                assert(sealed@ == sealed_stream(key@, nonce@, data@));
                assert forall|cut: int|
                    0 <= cut < sealed@.len() && cut % (FRAME_SIZE as int) == 0 implies fails(
                    opened_stream(key@, nonce@, #[trigger] sealed@.take(cut)),
                    RstfError::Truncation,
                ) by {
                    lemma_cut_between_frames(key@, nonce@, data@, cut);
                }
            }
            Ok(sealed)
        },
        Err(e) => Err(e),
    }
}

/// Opens a whole sealed stream. No plaintext is handed out unless every frame
/// authenticated and the stream ended with its closing frame.
pub fn open_stream(key: &[u8; 32], nonce: &[u8; 7], sealed: &[u8]) -> (r: Result<
    Vec<u8>,
    RstfError,
>)
    ensures
        outcome(r) == opened_stream(key@, nonce@, sealed@),
{
    let mut plaintext: Vec<u8> = Vec::new();
    let mut offset: usize = 0;
    let mut position: u32 = 0;
    assert(sealed@.skip(0) == sealed@);
    loop
        invariant
            offset <= sealed.len(),
            opened_stream(key@, nonce@, sealed@) == after_prefix(
                plaintext@,
                opened_stream_from(key@, nonce@, position as nat, sealed@.skip(offset as int)),
            ),
        decreases sealed.len() - offset,
    {
        if offset == sealed.len() {
            return Err(RstfError::Truncation);
        }
        let remaining: usize = sealed.len() - offset;
        let size: usize = if remaining < FRAME_SIZE {
            remaining
        } else {
            FRAME_SIZE
        };
        let frame = slice_subrange(sealed, offset, offset + size);
        let ghost here = sealed@.skip(offset as int);
        assert(frame@ == first_frame(here));
        assert(here.skip(size as int) == sealed@.skip(offset + size));
        match open_frame(key, nonce, position, frame) {
            Frame::More(chunk) => {
                let ghost before = plaintext@;
                let ghost tail = opened_stream_from(
                    key@,
                    nonce@,
                    position as nat + 1,
                    sealed@.skip(offset + size),
                );
                assert(opened_stream_from(key@, nonce@, position as nat, here) == after_prefix(
                    chunk@,
                    tail,
                ));
                assert(after_prefix(before, after_prefix(chunk@, tail)) == after_prefix(
                    before + chunk@,
                    tail,
                )) by {
                    if let Ok(later) = tail {
                        assert(before + (chunk@ + later) == (before + chunk@) + later);
                    }
                }
                plaintext.extend_from_slice(chunk.as_slice());
                assert(plaintext@ == before + chunk@);
                position = position + 1;
                offset = offset + size;
            },
            Frame::Last(chunk) => {
                if offset + size == sealed.len() {
                    assert(gives(opened_stream_from(key@, nonce@, position as nat, here), chunk@));
                    let ghost before = plaintext@;
                    plaintext.extend_from_slice(chunk.as_slice());
                    assert(plaintext@ == before + chunk@);
                    return Ok(plaintext);
                } else {
                    return Err(RstfError::Auth);
                }
            },
            Frame::Rejected => {
                return Err(RstfError::Auth);
            },
        }
    }
}

} // verus!
