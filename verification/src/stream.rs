//! The byte source that record decoding consumes, and the primitive readers
//! for big-endian 32-bit integers and sentinel-encoded optional references.

use vstd::prelude::*;

verus! {

/// Why a decode failed (or, for `UnexpectedEof`, why it stopped).
///
/// `UnexpectedEof` is raised only when the source runs out at the very start
/// of a record; the collection builder treats it as the clean end of a
/// well-formed file.  Every other variant aborts the whole decode.
#[derive(Clone, Copy, Debug, PartialEq, Eq, Structural)]
pub enum DecodeError {
    /// The source ran out at a record boundary.
    UnexpectedEof,
    /// The source ran out in the middle of a record.
    Truncated,
    /// A record's own identity word was negative.
    NegativeId,
    /// A container reference points outside the decoded collection.
    DanglingContainer,
}

/// An exclusively owned, sequentially consumed byte source: the raw bytes
/// together with a cursor.
pub struct ByteSource {
    data: Vec<u8>,
    pos: usize,
}

/// The unsigned value of four bytes read in big-endian order.
pub open spec fn be_u32(s: Seq<u8>) -> u32
    recommends
        s.len() == 4,
{
    ((s[0] as u32) << 24) | ((s[1] as u32) << 16) | ((s[2] as u32) << 8) | (s[3] as u32)
}

/// The signed (two's-complement) value of four bytes read in big-endian order.
pub open spec fn be_i32(s: Seq<u8>) -> i32
    recommends
        s.len() == 4,
{
    be_u32(s) as i32
}

/// The on-disk optional-reference convention: any negative word means
/// absent, a non-negative word is the referenced identity.
pub open spec fn opt_id(v: i32) -> Option<int> {
    if v < 0 {
        None
    } else {
        Some(v as int)
    }
}

/// The mathematical value a `Some` reference carries, as the exec code
/// stores it.
pub open spec fn opt_view(o: Option<usize>) -> Option<int> {
    match o {
        Some(v) => Some(v as int),
        None => None,
    }
}

impl ByteSource {
    /// The underlying bytes, from the very beginning of the source.
    pub closed spec fn bytes(&self) -> Seq<u8> {
        self.data@
    }

    /// The cursor: how many bytes have been consumed.
    pub closed spec fn pos(&self) -> int {
        self.pos as int
    }

    /// The cursor never runs past the end of the data.
    pub open spec fn wf(&self) -> bool {
        self.pos() <= self.bytes().len()
    }

    /// How many bytes are still unread.
    pub open spec fn remaining(&self) -> int {
        self.bytes().len() - self.pos()
    }

    /// Wraps a fully materialized byte vector as a source positioned at its
    /// start.
    pub fn new(data: Vec<u8>) -> (r: Self)
        ensures
            r.bytes() == data@,
            r.pos() == 0,
            r.wf(),
    {
        ByteSource { data, pos: 0 }
    }
}

/// Reads one big-endian unsigned 32-bit word, or reports end of stream
/// without consuming anything.
pub(crate) fn read_u32(r: &mut ByteSource) -> (res: Result<u32, DecodeError>)
    requires
        old(r).wf(),
    ensures
        final(r).wf(),
        final(r).bytes() == old(r).bytes(),
        old(r).remaining() >= 4 ==> {
            &&& res == Ok::<u32, DecodeError>(
                be_u32(old(r).bytes().subrange(old(r).pos(), old(r).pos() + 4)),
            )
            &&& final(r).pos() == old(r).pos() + 4
        },
        old(r).remaining() < 4 ==> {
            &&& res == Err::<u32, DecodeError>(DecodeError::UnexpectedEof)
            &&& *final(r) == *old(r)
        },
{
    if r.data.len() - r.pos >= 4 {
        let b0 = r.data[r.pos];
        let b1 = r.data[r.pos + 1];
        let b2 = r.data[r.pos + 2];
        let b3 = r.data[r.pos + 3];
        let v: u32 = ((b0 as u32) << 24) | ((b1 as u32) << 16) | ((b2 as u32) << 8) | (b3 as u32);
        proof {
            let sub = r.bytes().subrange(r.pos(), r.pos() + 4);
            assert(sub[0] == b0 && sub[1] == b1 && sub[2] == b2 && sub[3] == b3);
        }
        r.pos = r.pos + 4;
        Ok(v)
    } else {
        Err(DecodeError::UnexpectedEof)
    }
}

/// Reads one big-endian signed 32-bit word, or reports end of stream
/// without consuming anything.
pub(crate) fn read_i32(r: &mut ByteSource) -> (res: Result<i32, DecodeError>)
    requires
        old(r).wf(),
    ensures
        final(r).wf(),
        final(r).bytes() == old(r).bytes(),
        old(r).remaining() >= 4 ==> {
            &&& res == Ok::<i32, DecodeError>(
                be_i32(old(r).bytes().subrange(old(r).pos(), old(r).pos() + 4)),
            )
            &&& final(r).pos() == old(r).pos() + 4
        },
        old(r).remaining() < 4 ==> {
            &&& res == Err::<i32, DecodeError>(DecodeError::UnexpectedEof)
            &&& *final(r) == *old(r)
        },
{
    match read_u32(r) {
        Ok(v) => Ok(#[verifier::truncate] (v as i32)),
        Err(e) => Err(e),
    }
}

/// Reads one signed word and applies the sentinel convention: a negative
/// word decodes to `None`, a non-negative one to `Some` of its value.
pub(crate) fn read_id_option(r: &mut ByteSource) -> (res: Result<Option<usize>, DecodeError>)
    requires
        old(r).wf(),
    ensures
        final(r).wf(),
        final(r).bytes() == old(r).bytes(),
        old(r).remaining() >= 4 ==> {
            &&& res matches Ok(o) && opt_view(o) == opt_id(
                be_i32(old(r).bytes().subrange(old(r).pos(), old(r).pos() + 4)),
            )
            &&& final(r).pos() == old(r).pos() + 4
        },
        old(r).remaining() < 4 ==> {
            &&& res == Err::<Option<usize>, DecodeError>(DecodeError::UnexpectedEof)
            &&& *final(r) == *old(r)
        },
{
    match read_i32(r) {
        Ok(v) => {
            if v < 0 {
                Ok(None)
            } else {
                Ok(Some(v as usize))
            }
        },
        Err(e) => Err(e),
    }
}

} // verus!
