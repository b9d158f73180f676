//! The opening side of the stream: whole frames go in, authenticated
//! plaintext comes out.

use crate::error::{fails, gives, RstfError};
use crate::frame::{frame_outcome, open_frame, Frame, FrameView};
use crate::stream::{after_prefix, first_frame, opened_stream_from};
use crate::wipe::{wipe_bytes, wipe_key, wiped_key};
use vstd::prelude::*;
use vstd::slice::slice_subrange;

verus! {

/// Where an opener stands in its stream.
#[derive(Clone, Copy, Debug, PartialEq, Eq, Structural)]
pub enum Phase {
    /// Frames are expected.
    Open,
    /// The closing frame has been opened; only the end of input may follow.
    Closing,
    /// The input ended after the closing frame.
    Finished,
    /// A frame was refused, or the input ended early.
    Failed,
}

/// What an opener is, as plain values.
#[verifier::ext_equal]
pub struct ReaderState {
    /// Key of the stream; zeros once no further frame will be opened.
    pub key: Seq<u8>,
    /// Base nonce of the stream.
    pub nonce: Seq<u8>,
    /// Counter value of the next frame.
    pub position: nat,
    /// Authenticated plaintext not handed out yet.
    pub available: Seq<u8>,
    /// Where the opener stands.
    pub phase: Phase,
}

impl ReaderState {
    /// The opener after a refusal: nothing left to hand out, the key wiped.
    pub open spec fn failed(self) -> ReaderState {
        ReaderState { key: wiped_key(), available: Seq::empty(), phase: Phase::Failed, ..self }
    }

    /// What taking in `frame` leads to, `frame` being what one read of up to a
    /// full frame's size gave, and empty at the end of input. The end of
    /// input is in order only after the closing frame, and after the closing
    /// frame only the end of input is. A failed opener stays failed.
    pub open spec fn accept(self, frame: Seq<u8>) -> Result<ReaderState, RstfError> {
        match self.phase {
            Phase::Failed => Err(RstfError::Auth),
            Phase::Closing | Phase::Finished => if frame.len() == 0 {
                Ok(ReaderState { phase: Phase::Finished, ..self })
            } else {
                Err(RstfError::Auth)
            },
            Phase::Open => if frame.len() == 0 {
                Err(RstfError::Truncation)
            } else {
                match frame_outcome(self.key, self.nonce, self.position as u32, frame) {
                    FrameView::More(plaintext) => Ok(
                        ReaderState {
                            position: self.position + 1,
                            available: self.available + plaintext,
                            ..self
                        },
                    ),
                    FrameView::Last(plaintext) => Ok(
                        ReaderState {
                            key: wiped_key(),
                            available: self.available + plaintext,
                            phase: Phase::Closing,
                            ..self
                        },
                    ),
                    FrameView::Rejected => Err(RstfError::Auth),
                }
            },
        }
    }

    /// The opener after it has been fed `sealed`, one read of up to a full
    /// frame's size at a time, and then the end of input.
    pub open spec fn fed(self, sealed: Seq<u8>) -> Result<ReaderState, RstfError>
        decreases sealed.len(),
    {
        match self.accept(first_frame(sealed)) {
            Ok(next) => if sealed.len() == 0 {
                Ok(next)
            } else {
                next.fed(sealed.skip(first_frame(sealed).len() as int))
            },
            Err(e) => Err(e),
        }
    }

    /// How many bytes a read of at most `max` hands out.
    pub open spec fn served(self, max: nat) -> nat {
        if max < self.available.len() {
            max
        } else {
            self.available.len()
        }
    }
}

/// An opener that is fed a stream read by read arrives where opening the
/// stream as a whole does: it fails with the same error, or it ends finished
/// and holds the stream's plaintext behind what it held before.
pub proof fn lemma_reader_follows_stream(state: ReaderState, sealed: Seq<u8>)
    requires
        state.phase == Phase::Open,
        state.position <= u32::MAX,
    ensures
        match state.fed(sealed) {
            Ok(end) => end.phase == Phase::Finished && gives(
                after_prefix(
                    state.available,
                    opened_stream_from(state.key, state.nonce, state.position, sealed),
                ),
                end.available,
            ),
            Err(e) => fails(opened_stream_from(state.key, state.nonce, state.position, sealed), e),
        },
    decreases sealed.len(),
{
    if sealed.len() > 0 {
        let frame = first_frame(sealed);
        let rest = sealed.skip(frame.len() as int);
        match frame_outcome(state.key, state.nonce, state.position as u32, frame) {
            FrameView::More(plaintext) => {
                let next = state.accept(frame)->Ok_0;
                lemma_reader_follows_stream(next, rest);
                if let Ok(later) = opened_stream_from(
                    state.key,
                    state.nonce,
                    state.position + 1,
                    rest,
                ) {
                    assert(state.available + (plaintext + later) == (state.available + plaintext)
                        + later);
                }
            },
            FrameView::Last(plaintext) => {
                let next = state.accept(frame)->Ok_0;
                if rest.len() > 0 {
                    assert(first_frame(rest).len() > 0);
                } else {
                    assert(first_frame(rest).len() == 0);
                }
            },
            FrameView::Rejected => {},
        }
    }
}

/// Opens a sealed stream frame by frame and hands out the plaintext of the
/// frames that authenticated, in order.
pub struct DecryptedReader {
    key: [u8; 32],
    nonce: [u8; 7],
    position: u32,
    buffer: Vec<u8>,
    offset: usize,
    phase: Phase,
}

impl View for DecryptedReader {
    type V = ReaderState;

    closed spec fn view(&self) -> ReaderState {
        ReaderState {
            key: self.key@,
            nonce: self.nonce@,
            position: self.position as nat,
            available: self.buffer@.skip(self.offset as int),
            phase: self.phase,
        }
    }
}

impl DecryptedReader {
    /// What has been handed out lies within the buffer.
    #[verifier::type_invariant]
    spec fn within(&self) -> bool {
        self.offset <= self.buffer@.len()
    }

    /// An opener at the start of a stream.
    pub fn new(key: &[u8; 32], nonce: &[u8; 7]) -> (r: Self)
        ensures
            r@ == (ReaderState {
                key: key@,
                nonce: nonce@,
                position: 0,
                available: Seq::empty(),
                phase: Phase::Open,
            }),
    {
        DecryptedReader {
            key: *key,
            nonce: *nonce,
            position: 0,
            buffer: Vec::new(),
            offset: 0,
            phase: Phase::Open,
        }
    }

    /// Whether the input ended where the stream did: after the closing frame.
    pub fn is_finished(&self) -> (b: bool)
        ensures
            b == (self@.phase == Phase::Finished),
    {
        match self.phase {
            Phase::Finished => true,
            _ => false,
        }
    }

    /// Whether the next step is to read from the input: nothing is left to
    /// hand out, and the stream has neither ended nor failed.
    pub fn wants_frame(&self) -> (b: bool)
        ensures
            b == (self@.available.len() == 0 && (self@.phase == Phase::Open || self@.phase
                == Phase::Closing)),
    {
        proof {
            use_type_invariant(self);
        }
        let open = match self.phase {
            Phase::Open => true,
            Phase::Closing => true,
            _ => false,
        };
        open && self.offset == self.buffer.len()
    }

    /// Wipes the key, which no further frame will need.
    fn forget_key(&mut self)
        ensures
            final(self)@ == (ReaderState { key: wiped_key(), ..old(self)@ }),
    {
        proof {
            use_type_invariant(&*self);
        }
        let mut key: [u8; 32] = self.key;
        wipe_key(&mut key);
        self.key = key;
    }

    /// Marks the opener as failed and wipes what it holds.
    fn fail(&mut self)
        ensures
            final(self)@ == old(self)@.failed(),
    {
        let mut buffer: Vec<u8> = Vec::new();
        self.offset = 0;
        std::mem::swap(&mut buffer, &mut self.buffer);
        wipe_bytes(&mut buffer);
        self.phase = Phase::Failed;
        assert(self.buffer@.skip(0) == Seq::<u8>::empty());
        self.forget_key();
    }

    /// Puts `plaintext` behind what is still to be handed out. Where all has
    /// been handed out, the old plaintext is wiped first.
    fn append(&mut self, plaintext: Vec<u8>)
        ensures
            final(self)@ == (ReaderState {
                available: old(self)@.available + plaintext@,
                ..old(self)@
            }),
    {
        proof {
            use_type_invariant(&*self);
        }
        let offset: usize = self.offset;
        let mut buffer: Vec<u8> = Vec::new();
        self.offset = 0;
        std::mem::swap(&mut buffer, &mut self.buffer);
        if offset == buffer.len() {
            assert(buffer@.skip(offset as int) == Seq::<u8>::empty());
            assert(plaintext@.skip(0) == plaintext@);
            assert(Seq::<u8>::empty() + plaintext@ == plaintext@);
            wipe_bytes(&mut buffer);
            self.buffer = plaintext;
        } else {
            let ghost before = buffer@;
            buffer.extend_from_slice(plaintext.as_slice());
            assert((before + plaintext@).skip(offset as int) == before.skip(offset as int)
                + plaintext@);
            self.buffer = buffer;
            self.offset = offset;
        }
    }

    /// Takes in what one read of up to a full frame's size gave; an empty
    /// `frame` stands for the end of input. Plaintext is kept for handing out
    /// only if the frame authenticated. On a refusal the opener fails for good
    /// and drops what it held.
    pub fn accept_frame(&mut self, frame: &[u8]) -> (r: Result<(), RstfError>)
        ensures
            match r {
                Ok(_) => gives(old(self)@.accept(frame@), final(self)@),
                Err(e) => fails(old(self)@.accept(frame@), e)
                    && final(self)@ == old(self)@.failed(),
            },
    {
        proof {
            use_type_invariant(&*self);
        }
        match self.phase {
            Phase::Failed => {
                self.fail();
                Err(RstfError::Auth)
            },
            Phase::Closing | Phase::Finished => {
                if frame.len() == 0 {
                    self.phase = Phase::Finished;
                    Ok(())
                } else {
                    self.fail();
                    Err(RstfError::Auth)
                }
            },
            Phase::Open => {
                if frame.len() == 0 {
                    self.fail();
                    return Err(RstfError::Truncation);
                }
                match open_frame(&self.key, &self.nonce, self.position, frame) {
                    Frame::More(plaintext) => {
                        self.append(plaintext);
                        proof {
                            use_type_invariant(&*self);
                        }
                        self.position = self.position + 1;
                        Ok(())
                    },
                    Frame::Last(plaintext) => {
                        self.append(plaintext);
                        proof {
                            use_type_invariant(&*self);
                        }
                        self.phase = Phase::Closing;
                        self.forget_key();
                        Ok(())
                    },
                    Frame::Rejected => {
                        self.fail();
                        Err(RstfError::Auth)
                    },
                }
            },
        }
    }

    /// Hands out the next plaintext bytes, at most `max` of them, and nothing
    /// where none are left.
    pub fn read(&mut self, max: usize) -> (out: Vec<u8>)
        ensures
            out@ == old(self)@.available.take(old(self)@.served(max as nat) as int),
            final(self)@ == (ReaderState {
                available: old(self)@.available.skip(old(self)@.served(max as nat) as int),
                ..old(self)@
            }),
    {
        proof {
            use_type_invariant(&*self);
        }
        let available: usize = self.buffer.len() - self.offset;
        let to_copy: usize = if max < available {
            max
        } else {
            available
        };
        let mut out: Vec<u8> = Vec::new();
        out.extend_from_slice(
            slice_subrange(self.buffer.as_slice(), self.offset, self.offset + to_copy),
        );
        assert(out@ == self.buffer@.skip(self.offset as int).take(to_copy as int));
        assert(self.buffer@.skip(self.offset as int).skip(to_copy as int) == self.buffer@.skip(
            self.offset + to_copy,
        ));
        self.offset = self.offset + to_copy;
        out
    }
}

} // verus!
