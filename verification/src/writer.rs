//! The sealing side of the stream: bytes go in, whole frames come out.

use crate::error::RstfError;
use crate::frame::{seals_to, sealed_frame, stream_encrypt, CHUNK_SIZE};
use crate::stream::{
    chunked_len, chunks_open, lemma_chunks_of_concat, lemma_stream_is_chunks_then_last,
    sealed_chunks, sealed_stream,
};
use crate::wipe::{wipe_bytes, wipe_key, wiped_key};
use vstd::prelude::*;
use vstd::slice::slice_subrange;

verus! {

/// What a sealer is, as plain values.
#[verifier::ext_equal]
pub struct WriterState {
    /// Key of the stream; zeros once the sealer is closed.
    pub key: Seq<u8>,
    /// Base nonce of the stream.
    pub nonce: Seq<u8>,
    /// Counter value of the next frame.
    pub position: nat,
    /// Bytes taken in and not sealed yet.
    pub pending: Seq<u8>,
    /// Whether the closing frame has been made.
    pub closed: bool,
}

impl WriterState {
    /// How many frames taking in `buf` completes.
    pub open spec fn frames_for(self, buf: Seq<u8>) -> nat {
        (self.pending.len() + buf.len()) / (CHUNK_SIZE as nat)
    }

    /// Taking in `buf` is possible: the sealer is open, and the counter does
    /// not pass its last value, which is kept for the closing frame.
    pub open spec fn accepts(self, buf: Seq<u8>) -> bool {
        !self.closed && self.position + self.frames_for(buf) <= u32::MAX
    }

    /// The frames that come out when `buf` is taken in.
    pub open spec fn emitted(self, buf: Seq<u8>) -> Seq<u8> {
        sealed_chunks(self.key, self.nonce, self.position, self.pending + buf)
    }

    /// The sealer after `buf` has been taken in.
    pub open spec fn after_write(self, buf: Seq<u8>) -> WriterState {
        WriterState {
            position: self.position + self.frames_for(buf),
            pending: (self.pending + buf).skip(chunked_len(self.pending + buf)),
            ..self
        }
    }

    /// The closing frame: what is pending, sealed with the last-frame flag.
    pub open spec fn closing_frame(self) -> Seq<u8> {
        sealed_frame(self.key, self.nonce, self.position as u32, true, self.pending)
    }

    /// The sealer after it has been closed: nothing pending, the key wiped.
    pub open spec fn after_close(self) -> WriterState {
        WriterState { key: wiped_key(), pending: Seq::empty(), closed: true, ..self }
    }
}

/// It makes no difference in how many pieces bytes are handed to a sealer:
/// two pieces one after the other are taken where their concatenation is,
/// give the same frames, and leave the same sealer behind.
pub proof fn lemma_write_in_pieces(state: WriterState, first: Seq<u8>, second: Seq<u8>)
    ensures
        state.accepts(first + second) <==> state.accepts(first) && state.after_write(
            first,
        ).accepts(second),
        state.emitted(first + second) == state.emitted(first) + state.after_write(first).emitted(
            second,
        ),
        state.after_write(first + second) == state.after_write(first).after_write(second),
{
    let front = state.pending + first;
    assert(state.pending + (first + second) == front + second);
    lemma_chunks_of_concat(state.key, state.nonce, state.position, front, second);
    let left = front.skip(chunked_len(front));
    assert((front + second).skip(chunked_len(front + second)) == (left + second).skip(
        chunked_len(left + second),
    ));
}

/// All that a sealer gives out from its start to its close, put together, is
/// the sealed stream of all that was written.
pub proof fn lemma_written_then_closed(key: Seq<u8>, nonce: Seq<u8>, data: Seq<u8>)
    ensures
        ({
            let start = WriterState {
                key,
                nonce,
                position: 0,
                pending: Seq::empty(),
                closed: false,
            };
            start.emitted(data) + start.after_write(data).closing_frame() == sealed_stream(
                key,
                nonce,
                data,
            )
        }),
{
    assert(Seq::<u8>::empty() + data == data);
    lemma_stream_is_chunks_then_last(key, nonce, 0, data);
}

/// Seals a byte stream frame by frame. Bytes are gathered until a chunk is
/// full; each full chunk leaves as one frame. `close` seals what is left as
/// the closing frame, exactly once. Between calls less than a chunk is
/// pending.
pub struct EncryptedWriter {
    key: [u8; 32],
    nonce: [u8; 7],
    position: u32,
    buffer: Vec<u8>,
    closed: bool,
}

impl View for EncryptedWriter {
    type V = WriterState;

    closed spec fn view(&self) -> WriterState {
        WriterState {
            key: self.key@,
            nonce: self.nonce@,
            position: self.position as nat,
            pending: self.buffer@,
            closed: self.closed,
        }
    }
}

impl EncryptedWriter {
    /// Between calls less than a chunk is pending, and nothing once closed.
    #[verifier::type_invariant]
    spec fn settled(&self) -> bool {
        &&& self.buffer@.len() < CHUNK_SIZE
        &&& self.closed ==> self.buffer@.len() == 0
    }

    /// A sealer at the start of a stream.
    pub fn new(key: &[u8; 32], nonce: &[u8; 7]) -> (w: Self)
        ensures
            w@ == (WriterState {
                key: key@,
                nonce: nonce@,
                position: 0,
                pending: Seq::empty(),
                closed: false,
            }),
    {
        EncryptedWriter {
            key: *key,
            nonce: *nonce,
            position: 0,
            buffer: Vec::with_capacity(CHUNK_SIZE),
            closed: false,
        }
    }

    /// Seals `buffer` as the frame at `position` and returns it. With
    /// `final_chunk` the frame is the closing one, over whatever the buffer
    /// holds; without it a frame is made only of a full chunk, and only below
    /// the counter's last value, which is kept for the closing frame. The
    /// plaintext is wiped from the buffer once it is sealed.
    fn flush_chunk(
        key: &[u8; 32],
        nonce: &[u8; 7],
        position: u32,
        buffer: &mut Vec<u8>,
        final_chunk: bool,
    ) -> (r: Result<Vec<u8>, RstfError>)
        requires
            old(buffer)@.len() <= CHUNK_SIZE,
        ensures
            match r {
                Ok(frame) => if !final_chunk && old(buffer)@.len() < CHUNK_SIZE {
                    frame@.len() == 0 && final(buffer)@ == old(buffer)@
                } else {
                    &&& final_chunk || position < u32::MAX
                    &&& seals_to(key@, nonce@, position, final_chunk, old(buffer)@, frame@)
                    &&& final(buffer)@.len() == 0
                },
                Err(e) => {
                    &&& e == RstfError::Seal
                    &&& !final_chunk && old(buffer)@.len() == CHUNK_SIZE && position == u32::MAX
                    &&& final(buffer)@ == old(buffer)@
                },
            },
    {
        if !final_chunk && buffer.len() < CHUNK_SIZE {
            return Ok(Vec::new());
        }
        if !final_chunk && position == u32::MAX {
            return Err(RstfError::Seal);
        }
        match stream_encrypt(key, nonce, position, final_chunk, buffer.as_slice()) {
            Ok(frame) => {
                wipe_bytes(buffer);
                Ok(frame)
            },
            Err(_) => Err(RstfError::Seal),
        }
    }

    /// Takes in `buf` and returns the frames that it completes, in order: one
    /// for every chunk that filled up. Refused, with nothing changed, where
    /// the sealer is closed or the frames would use up the counter.
    pub fn write(&mut self, buf: &[u8]) -> (r: Result<Vec<u8>, RstfError>)
        ensures
            match r {
                Ok(out) => {
                    &&& old(self)@.accepts(buf@)
                    &&& out@ == old(self)@.emitted(buf@)
                    &&& final(self)@ == old(self)@.after_write(buf@)
                    &&& chunks_open(
                        old(self)@.key,
                        old(self)@.nonce,
                        old(self)@.position,
                        old(self)@.pending + buf@,
                    )
                },
                Err(e) => {
                    &&& e == RstfError::Seal
                    &&& !old(self)@.accepts(buf@)
                    &&& final(self)@ == old(self)@
                },
            },
    {
        proof {
            use_type_invariant(&*self);
        }
        if self.closed {
            return Err(RstfError::Seal);
        }
        let frames: u128 = (self.buffer.len() as u128 + buf.len() as u128) / (CHUNK_SIZE as u128);
        if self.position as u128 + frames > u32::MAX as u128 {
            return Err(RstfError::Seal);
        }
        let mut buffer: Vec<u8> = Vec::new();
        std::mem::swap(&mut buffer, &mut self.buffer);
        let mut position: u32 = self.position;
        let ghost all: Seq<u8> = buffer@ + buf@;
        let ghost start: nat = position as nat;
        let mut out: Vec<u8> = Vec::new();
        let mut total_written: usize = 0;
        assert(buf@.skip(0) == buf@);
        assert(all.skip(0) == all);
        assert(out@ + sealed_chunks(self.key@, self.nonce@, start, all) == sealed_chunks(
            self.key@,
            self.nonce@,
            start,
            all,
        ));
        while total_written < buf.len()
            invariant
                total_written <= buf.len(),
                buffer@.len() < CHUNK_SIZE,
                buffer@.len() + buf@.len() - total_written <= all.len(),
                start + all.len() / (CHUNK_SIZE as nat) <= u32::MAX,
                buffer@ + buf@.skip(total_written as int) == all.skip(
                    all.len() - (buffer@.len() + buf@.len() - total_written),
                ),
                (all.len() - (buffer@.len() + buf@.len() - total_written)) % (CHUNK_SIZE as int)
                    == 0,
                position == start + (all.len() - (buffer@.len() + buf@.len() - total_written)) / (
                CHUNK_SIZE as int),
                sealed_chunks(self.key@, self.nonce@, start, all) == out@ + sealed_chunks(
                    self.key@,
                    self.nonce@,
                    position as nat,
                    buffer@ + buf@.skip(total_written as int),
                ),
                chunks_open(self.key@, self.nonce@, start, all) <==> chunks_open(
                    self.key@,
                    self.nonce@,
                    position as nat,
                    buffer@ + buf@.skip(total_written as int),
                ),
            decreases buf.len() - total_written,
        {
            let ghost current = buffer@ + buf@.skip(total_written as int);
            let space_left: usize = CHUNK_SIZE - buffer.len();
            let remaining: usize = buf.len() - total_written;
            let to_copy: usize = if space_left < remaining {
                space_left
            } else {
                remaining
            };
            buffer.extend_from_slice(slice_subrange(buf, total_written, total_written + to_copy));
            total_written = total_written + to_copy;
            assert(buffer@ + buf@.skip(total_written as int) == current);
            if buffer.len() == CHUNK_SIZE {
                assert(buffer@ == current.take(CHUNK_SIZE as int));
                assert(buf@.skip(total_written as int) == current.skip(CHUNK_SIZE as int));
                let ghost before = out@;
                match Self::flush_chunk(&self.key, &self.nonce, position, &mut buffer, false) {
                    Ok(frame) => {
                        out.extend_from_slice(frame.as_slice());
                        position = position + 1;
                        assert(buffer@ + buf@.skip(total_written as int) == buf@.skip(
                            total_written as int,
                        ));
                        assert(before + (frame@ + sealed_chunks(
                            self.key@,
                            self.nonce@,
                            position as nat,
                            current.skip(CHUNK_SIZE as int),
                        )) == (before + frame@) + sealed_chunks(
                            self.key@,
                            self.nonce@,
                            position as nat,
                            current.skip(CHUNK_SIZE as int),
                        ));
                    },
                    Err(e) => {
                        return Err(e);
                    },
                }
            }
        }
        assert(buffer@ + buf@.skip(total_written as int) == buffer@);
        self.buffer = buffer;
        self.position = position;
        Ok(out)
    }

    /// Does nothing: frames end where chunks end, not where the caller
    /// flushes. Returns the bytes to send on, which are none.
    pub fn flush(&mut self) -> (out: Vec<u8>)
        ensures
            out@.len() == 0,
            final(self)@ == old(self)@,
    {
        Vec::new()
    }

    /// Closes the stream: seals what is pending, even if that is nothing, as
    /// the closing frame and returns it, and wipes the key. On a closed sealer
    /// nothing comes out and nothing changes.
    pub fn close(&mut self) -> (out: Vec<u8>)
        ensures
            final(self)@.closed,
            old(self)@.closed ==> out@.len() == 0 && final(self)@ == old(self)@,
            !old(self)@.closed ==> {
                &&& out@ == old(self)@.closing_frame()
                &&& seals_to(
                    old(self)@.key,
                    old(self)@.nonce,
                    old(self)@.position as u32,
                    true,
                    old(self)@.pending,
                    out@,
                )
                &&& final(self)@ == old(self)@.after_close()
            },
    {
        proof {
            use_type_invariant(&*self);
        }
        if self.closed {
            return Vec::new();
        }
        let mut buffer: Vec<u8> = Vec::new();
        std::mem::swap(&mut buffer, &mut self.buffer);
        self.closed = true;
        let sealed = Self::flush_chunk(&self.key, &self.nonce, self.position, &mut buffer, true);
        let mut key: [u8; 32] = self.key;
        wipe_key(&mut key);
        self.key = key;
        match sealed {
            Ok(frame) => frame,
            Err(_) => Vec::new(),
        }
    }
}

} // verus!
