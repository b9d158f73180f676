//! The record at the head of the sealed plaintext that says what the payload
//! is.

use crate::error::RstfError;
use vstd::bytes::{
    lemma_auto_spec_u32_to_from_le_bytes, spec_u32_from_le_bytes, spec_u32_to_le_bytes,
    spec_u64_to_le_bytes, u32_from_le_bytes, u32_to_le_bytes,
};
use vstd::prelude::*;
use vstd::slice::slice_subrange;
use vstd::utf8::encode_utf8;

verus! {

/// Bytes of the length that stands before the header.
pub const LEN_PREFIX: usize = 4;

#[verifier::external_type_specification]
#[verifier::external_body]
pub struct ExBincodeErrorKind(bincode::ErrorKind);

/// The bytes of a header: one byte that is 1 for a directory and 0 for a
/// file; the number of bytes of the name in UTF-8, as eight bytes, least
/// significant first; those bytes; and the size, as eight bytes, least
/// significant first.
pub open spec fn header_encoding(is_dir: bool, name: Seq<char>, size: u64) -> Seq<u8> {
    seq![if is_dir { 1u8 } else { 0u8 }] + spec_u64_to_le_bytes(encode_utf8(name).len() as u64)
        + encode_utf8(name) + spec_u64_to_le_bytes(size)
}

/// The three fields that bincode, in the configuration of
/// `bincode::deserialize`, reads from `bytes`, or `None` where it rejects
/// them.
pub uninterp spec fn header_decoding(bytes: Seq<u8>) -> Option<(bool, Seq<char>, u64)>;

/// Calls `bincode::serialize` on the three fields as a tuple, which is
/// written as a struct of these fields is.
///
/// Trusted: the call cannot fail, since no size limit is set and the bytes go
/// to a vector. It writes the fields one after the other: the flag as one
/// byte, the name as the length of its UTF-8 bytes followed by them, and the
/// size, integers in eight bytes, least significant first. What it writes,
/// `bincode::deserialize` reads back as the same three values.
#[verifier::external_body]
fn bincode_serialize(is_dir: bool, name: &str, size: u64) -> (r: Result<
    Vec<u8>,
    Box<bincode::ErrorKind>,
>)
    ensures
        r is Ok,
        r matches Ok(bytes) ==> {
            &&& bytes@ == header_encoding(is_dir, name@, size)
            &&& header_decoding(bytes@) == Some((is_dir, name@, size))
        },
{
    bincode::serialize(&(is_dir, name, size))
}

/// Calls `bincode::deserialize` for a tuple of the three fields.
///
/// Trusted: the call fails exactly where the bytes are rejected.
#[verifier::external_body]
fn bincode_deserialize(bytes: &[u8]) -> (r: Result<(bool, String, u64), Box<bincode::ErrorKind>>)
    ensures
        match r {
            Ok(fields) => header_decoding(bytes@) == Some((fields.0, fields.1@, fields.2)),
            Err(_) => header_decoding(bytes@) is None,
        },
{
    bincode::deserialize::<(bool, String, u64)>(bytes)
}

/// What a container says of its payload.
#[derive(Clone, Debug, PartialEq, Eq)]
pub struct RstfHeader {
    /// Whether the payload is the archive of a directory tree.
    pub is_dir: bool,
    /// Name of the file or directory that was packed.
    pub original_name: String,
    /// Size of the file that was packed; zero for a directory.
    pub original_size: u64,
}

/// A header as plain values: whether the payload is a directory's archive,
/// the name, and the size.
pub type HeaderView = (bool, Seq<char>, u64);

impl View for RstfHeader {
    type V = HeaderView;

    open spec fn view(&self) -> HeaderView {
        (self.is_dir, self.original_name@, self.original_size)
    }
}

/// The length prefix and the header's bytes, as they stand at the head of the
/// sealed plaintext.
pub open spec fn prelude_of(header_bytes: Seq<u8>) -> Seq<u8> {
    spec_u32_to_le_bytes(header_bytes.len() as u32) + header_bytes
}

/// What the head of `plaintext` holds: the header, and the payload behind
/// it. `None` where the length prefix is cut short, where it announces more
/// than there is, and where the header's bytes are rejected.
pub open spec fn parsed_prelude(plaintext: Seq<u8>) -> Option<(HeaderView, Seq<u8>)> {
    if plaintext.len() < LEN_PREFIX {
        None
    } else {
        let announced = spec_u32_from_le_bytes(plaintext.take(LEN_PREFIX as int)) as int;
        if plaintext.len() < LEN_PREFIX + announced {
            None
        } else {
            match header_decoding(plaintext.subrange(LEN_PREFIX as int, LEN_PREFIX + announced)) {
                Some(header) => Some((header, plaintext.skip(LEN_PREFIX + announced))),
                None => None,
            }
        }
    }
}

/// Whether `plaintext` reaches to the end of the header that its head
/// announces.
pub open spec fn prelude_complete(plaintext: Seq<u8>) -> bool {
    &&& plaintext.len() >= LEN_PREFIX
    &&& plaintext.len() >= LEN_PREFIX + spec_u32_from_le_bytes(plaintext.take(LEN_PREFIX as int))
}

/// The header at the head of `plaintext`, where it holds one.
pub open spec fn parsed_header(plaintext: Seq<u8>) -> Option<HeaderView> {
    match parsed_prelude(plaintext) {
        Some((header, _)) => Some(header),
        None => None,
    }
}

/// The header is read from the head alone: what follows it makes no
/// difference.
pub proof fn lemma_header_of_head(head: Seq<u8>, whole: Seq<u8>)
    requires
        prelude_complete(head),
        head.len() <= whole.len(),
        whole.take(head.len() as int) == head,
    ensures
        parsed_header(head) == parsed_header(whole),
{
    let announced = spec_u32_from_le_bytes(head.take(LEN_PREFIX as int)) as int;
    assert(whole.take(LEN_PREFIX as int) == head.take(LEN_PREFIX as int));
    assert(whole.subrange(LEN_PREFIX as int, LEN_PREFIX + announced) == head.subrange(
        LEN_PREFIX as int,
        LEN_PREFIX + announced,
    ));
}

/// A header that is written with its length before it and a payload behind
/// it is read back as it was, and the payload begins where the header ends.
pub proof fn lemma_prelude_parses(
    header: HeaderView,
    header_bytes: Seq<u8>,
    payload: Seq<u8>,
)
    requires
        header_decoding(header_bytes) == Some(header),
        header_bytes.len() <= u32::MAX,
    ensures
        parsed_prelude(prelude_of(header_bytes) + payload) == Some((header, payload)),
{
    lemma_auto_spec_u32_to_from_le_bytes();
    let len_bytes = spec_u32_to_le_bytes(header_bytes.len() as u32);
    let plaintext = prelude_of(header_bytes) + payload;
    assert(plaintext.take(LEN_PREFIX as int) == len_bytes);
    assert(plaintext.subrange(LEN_PREFIX as int, LEN_PREFIX + header_bytes.len())
        == header_bytes);
    assert(plaintext.skip(LEN_PREFIX + header_bytes.len()) == payload);
}

impl RstfHeader {
    /// The header for a source of the given kind and name. The size is that
    /// of a file; for a directory it is zero.
    pub fn new(is_dir: bool, original_name: String, len: u64) -> (header: Self)
        ensures
            header@ == (is_dir, original_name@, if is_dir {
                0
            } else {
                len
            }),
    {
        RstfHeader {
            is_dir,
            original_name,
            original_size: if is_dir {
                0
            } else {
                len
            },
        }
    }

    /// The header's bytes.
    pub fn encode(&self) -> (bytes: Vec<u8>)
        ensures
            bytes@ == header_encoding(self.is_dir, self.original_name@, self.original_size),
            header_decoding(bytes@) == Some(self@),
    {
        match bincode_serialize(self.is_dir, self.original_name.as_str(), self.original_size) {
            Ok(bytes) => bytes,
            Err(_) => Vec::new(),
        }
    }

    /// The header that `bytes` hold, where they hold one.
    pub fn decode(bytes: &[u8]) -> (r: Result<Self, RstfError>)
        ensures
            match r {
                Ok(header) => header_decoding(bytes@) == Some(header@),
                Err(e) => e == RstfError::Format && header_decoding(bytes@) is None,
            },
    {
        match bincode_deserialize(bytes) {
            Ok(fields) => Ok(
                RstfHeader { is_dir: fields.0, original_name: fields.1, original_size: fields.2 },
            ),
            Err(_) => Err(RstfError::Format),
        }
    }

    /// The header as it stands at the head of the sealed plaintext: its
    /// length in four bytes, least significant first, then its bytes. Refused
    /// where the length does not fit in four bytes.
    pub fn prelude(&self) -> (r: Result<Vec<u8>, RstfError>)
        ensures
            match r {
                Ok(bytes) => {
                    &&& header_encoding(self.is_dir, self.original_name@, self.original_size).len()
                        <= u32::MAX
                    &&& bytes@ == prelude_of(
                        header_encoding(self.is_dir, self.original_name@, self.original_size),
                    )
                    &&& forall|payload: Seq<u8>|
                        #![trigger parsed_prelude(bytes@ + payload)]
                        parsed_prelude(bytes@ + payload) == Some((self@, payload))
                },
                Err(e) => {
                    &&& e == RstfError::Format
                    &&& header_encoding(self.is_dir, self.original_name@, self.original_size).len()
                        > u32::MAX
                },
            },
    {
        let header_bytes = self.encode();
        if header_bytes.len() > 0xffff_ffff {
            return Err(RstfError::Format);
        }
        let mut bytes = u32_to_le_bytes(header_bytes.len() as u32);
        bytes.extend_from_slice(header_bytes.as_slice());
        proof {
            assert(bytes@ == prelude_of(header_bytes@));
            assert(header_decoding(header_bytes@) == Some(self@));
            assert forall|payload: Seq<u8>|
                #![trigger parsed_prelude(bytes@ + payload)]
                parsed_prelude(bytes@ + payload) == Some((self@, payload)) by {
                lemma_prelude_parses(self@, header_bytes@, payload);
            }
        }
        Ok(bytes)
    }

    /// The length of the header that follows a length prefix.
    pub fn announced_len(prefix: &[u8; 4]) -> (len: usize)
        ensures
            len == spec_u32_from_le_bytes(prefix@),
    {
        u32_from_le_bytes(prefix.as_slice()) as usize
    }

    /// Whether `plaintext` reaches to the end of the header that its head
    /// announces, so that the header can be read.
    pub fn is_complete(plaintext: &[u8]) -> (b: bool)
        ensures
            b == prelude_complete(plaintext@),
    {
        if plaintext.len() < LEN_PREFIX {
            return false;
        }
        let announced: usize = u32_from_le_bytes(slice_subrange(plaintext, 0, LEN_PREFIX)) as usize;
        plaintext.len() - LEN_PREFIX >= announced
    }

    /// Reads the header from the head of `plaintext` and says where the
    /// payload begins.
    pub fn split_prelude(plaintext: &[u8]) -> (r: Result<(Self, usize), RstfError>)
        ensures
            match r {
                Ok((header, start)) => start <= plaintext@.len() && parsed_prelude(plaintext@)
                    == Some((header@, plaintext@.skip(start as int))),
                Err(e) => e == RstfError::Format && parsed_prelude(plaintext@) is None,
            },
    {
        if plaintext.len() < LEN_PREFIX {
            return Err(RstfError::Format);
        }
        let announced: usize = u32_from_le_bytes(slice_subrange(plaintext, 0, LEN_PREFIX)) as usize;
        if plaintext.len() - LEN_PREFIX < announced {
            return Err(RstfError::Format);
        }
        let start: usize = LEN_PREFIX + announced;
        match RstfHeader::decode(slice_subrange(plaintext, LEN_PREFIX, start)) {
            Ok(header) => Ok((header, start)),
            Err(e) => Err(e),
        }
    }
}

} // verus!
