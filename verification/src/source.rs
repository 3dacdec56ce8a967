//! A byte source that can be read a second time from its first byte.
//!
//! The source holds the bytes of one file, plain or gzip-compressed, and hands
//! out what the file says: the bytes themselves, or what they decode to. The
//! decoding is done by `flate2`.

use vstd::prelude::*;
use crate::names::{ends_with, is_gzip_name};

verus! {

/// `std::io::Error`, the error that the decoder reports. It is carried through
/// as it is: nothing is claimed of what it holds.
#[verifier::external_type_specification]
#[verifier::external_body]
pub struct ExIoError(std::io::Error);

/// What `flate2::read::MultiGzDecoder` reads out of a gzip stream, all members
/// one after the other, or `None` where it reports an error before the end.
pub uninterp spec fn gz_decoded(data: Seq<u8>) -> Option<Seq<u8>>;

/// Decodes a gzip stream to its end with `flate2::read::MultiGzDecoder`.
///
/// Not proved: that the outcome is the one named by `gz_decoded`, which says
/// no more than that the same bytes always decode alike.
#[verifier::external_body]
fn gunzip(data: &Vec<u8>) -> (r: Result<Vec<u8>, std::io::Error>)
    ensures
        match r {
            Ok(bytes) => gz_decoded(data@) == Some(bytes@),
            Err(_) => gz_decoded(data@) is None,
        },
{
    let mut decoder = flate2::read::MultiGzDecoder::new(data.as_slice());
    let mut bytes = Vec::new();
    match std::io::Read::read_to_end(&mut decoder, &mut bytes) {
        Ok(_) => Ok(bytes),
        Err(e) => Err(e),
    }
}

/// Why a source could not be read.
#[derive(Debug)]
pub enum SourceError {
    /// The bytes are no gzip stream, or a damaged one.
    Decode(std::io::Error),
}

/// What a source is: the file's bytes, how they are read, and how many bytes
/// have been handed out since the start.
pub struct SourceView {
    pub compressed: bool,
    pub data: Seq<u8>,
    pub position: nat,
}

/// The bytes that a source hands out from its start to its end, or `None` where
/// it cannot be decoded.
pub open spec fn content_of(compressed: bool, data: Seq<u8>) -> Option<Seq<u8>> {
    if compressed {
        gz_decoded(data)
    } else {
        Some(data)
    }
}

/// A source that was just opened.
pub open spec fn fresh(compressed: bool, data: Seq<u8>) -> SourceView {
    SourceView { compressed, data, position: 0 }
}

/// The number of bytes that a read takes: as many as are asked for, or as many
/// as are left.
pub open spec fn chunk_len(content: Seq<u8>, position: nat, want: nat) -> nat {
    if position + want <= content.len() {
        want
    } else if position <= content.len() {
        (content.len() - position) as nat
    } else {
        0
    }
}

/// The bytes that a read of up to `want` bytes hands out, or `None` where the
/// source cannot be decoded.
pub open spec fn next_chunk(source: SourceView, want: nat) -> Option<Seq<u8>> {
    match content_of(source.compressed, source.data) {
        Some(content) => Some(
            content.subrange(
                source.position as int,
                (source.position + chunk_len(content, source.position, want)) as int,
            ),
        ),
        None => None,
    }
}

/// The source after a read that took `count` bytes.
pub open spec fn advanced(source: SourceView, count: nat) -> SourceView {
    SourceView { position: source.position + count, ..source }
}

/// The source after a rewind.
pub open spec fn rewound(source: SourceView) -> SourceView {
    SourceView { position: 0, ..source }
}

/// A readable source over the bytes of one file, plain or gzip-compressed.
#[derive(Debug)]
pub struct RewindableReader {
    compressed: bool,
    data: Vec<u8>,
    decoded: Option<Vec<u8>>,
    position: usize,
}

impl View for RewindableReader {
    type V = SourceView;

    closed spec fn view(&self) -> SourceView {
        SourceView { compressed: self.compressed, data: self.data@, position: self.position as nat }
    }
}

impl RewindableReader {
    /// Whether the source is sound: it has handed out no more than there is, and
    /// what it holds decoded is what its bytes decode to.
    pub closed spec fn wf(&self) -> bool {
        if self.compressed {
            match self.decoded {
                Some(bytes) => gz_decoded(self.data@) == Some(bytes@) && self.position
                    <= bytes@.len(),
                None => self.position == 0,
            }
        } else {
            self.decoded is None && self.position <= self.data@.len()
        }
    }

    /// A source over the bytes of the file `filename`, at its start. A file
    /// whose name ends in `.gz` is read through the decoder.
    pub fn open(filename: &str, data: Vec<u8>) -> (r: RewindableReader)
        ensures
            r.wf(),
            r@ == fresh(ends_with(filename@, ".gz"@), data@),
    {
        RewindableReader { compressed: is_gzip_name(filename), data, decoded: None, position: 0 }
    }

    /// Whether the bytes are read through the decoder.
    pub fn is_compressed(&self) -> (b: bool)
        ensures
            b == self@.compressed,
    {
        self.compressed
    }

    /// The source at its start again, over the same bytes. What was decoded is
    /// let go: a compressed source is decoded anew when it is next read.
    pub fn rewind(self) -> (r: RewindableReader)
        ensures
            r.wf(),
            r@ == rewound(self@),
    {
        RewindableReader {
            compressed: self.compressed,
            data: self.data,
            decoded: None,
            position: 0,
        }
    }

    /// Reads up to `buf.len()` bytes into the front of `buf` and returns their
    /// number, which is 0 only at the end of the source or for an empty `buf`.
    /// Fails exactly where the source is compressed and cannot be decoded.
    pub fn read(&mut self, buf: &mut [u8]) -> (r: Result<usize, SourceError>)
        requires
            old(self).wf(),
        ensures
            final(self).wf(),
            final(buf)@.len() == old(buf)@.len(),
            match r {
                Ok(count) => {
                    &&& next_chunk(old(self)@, old(buf)@.len()) is Some
                    &&& count == next_chunk(old(self)@, old(buf)@.len())->0.len()
                    &&& final(buf)@.subrange(0, count as int) == next_chunk(
                        old(self)@,
                        old(buf)@.len(),
                    )->0
                    &&& final(buf)@.subrange(count as int, old(buf)@.len() as int) == old(
                        buf,
                    )@.subrange(count as int, old(buf)@.len() as int)
                    &&& final(self)@ == advanced(old(self)@, count as nat)
                },
                Err(_) => next_chunk(old(self)@, old(buf)@.len()) is None && final(self)@ == old(
                    self,
                )@,
            },
    {
        if self.compressed && self.decoded.is_none() {
            match gunzip(&self.data) {
                Ok(bytes) => {
                    self.decoded = Some(bytes);
                },
                Err(e) => {
                    return Err(SourceError::Decode(e));
                },
            }
        }
        let position = self.position;
        let count = match &self.decoded {
            Some(bytes) => copy_from(bytes, position, buf),
            None => copy_from(&self.data, position, buf),
        };
        self.position = position + count;
        Ok(count)
    }
}

/// Copies into the front of `buf` as many bytes of `content` from `position` on
/// as `buf` takes, and returns their number.
fn copy_from(content: &Vec<u8>, position: usize, buf: &mut [u8]) -> (count: usize)
    requires
        position <= content@.len(),
    ensures
        count == chunk_len(content@, position as nat, old(buf)@.len()),
        position + count <= content@.len() <= usize::MAX,
        final(buf)@.len() == old(buf)@.len(),
        final(buf)@.subrange(0, count as int) == content@.subrange(
            position as int,
            position + count,
        ),
        final(buf)@.subrange(count as int, old(buf)@.len() as int) == old(buf)@.subrange(
            count as int,
            old(buf)@.len() as int,
        ),
{
    let left = content.len() - position;
    let count = if buf.len() <= left {
        buf.len()
    } else {
        left
    };
    let ghost before = buf@;
    let mut i: usize = 0;
    while i < count
        invariant
            i <= count,
            count <= buf@.len(),
            position + count <= content@.len() <= usize::MAX,
            buf@.len() == before.len(),
            forall|k: int| 0 <= k < i ==> buf@[k] == content@[position + k],
            forall|k: int| i <= k < before.len() ==> buf@[k] == before[k],
        decreases count - i,
    {
        buf[i] = content[position + i];
        i += 1;
    }
    assert(buf@.subrange(0, count as int) =~= content@.subrange(
        position as int,
        position + count,
    ));
    assert(buf@.subrange(count as int, before.len() as int) =~= before.subrange(
        count as int,
        before.len() as int,
    ));
    count
}

/// A rewound source is the source as it was opened, so that what is read after
/// a rewind is what is read after opening, whatever was read before.
pub proof fn lemma_rewind_restarts(source: SourceView, want: nat)
    ensures
        rewound(source) == fresh(source.compressed, source.data),
        next_chunk(rewound(source), want) == next_chunk(
            fresh(source.compressed, source.data),
            want,
        ),
{
}

} // verus!
