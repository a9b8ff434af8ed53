//! Compression engine adapters: raw DEFLATE with sync-flush framing.
//!
//! Each adapter owns one `flate2` stream and tracks, as ghost state, the
//! chunks fed since the last reset.  The engine's output is a function of
//! that history and of the current input, which the names `deflate_of` and
//! `inflate_of` stand for.

use vstd::prelude::*;

verus! {

/// The bytes the compressor emits for `input` under a sync flush, given the
/// chunks fed since its last reset.  Includes the 4-byte flush trailer.
pub uninterp spec fn deflate_of(hist: Seq<Seq<u8>>, input: Seq<u8>) -> Seq<u8>;

/// What the inflater yields for `input`, given the chunks fed since its last
/// reset; `None` when the input is not acceptable DEFLATE data.
pub uninterp spec fn inflate_of(hist: Seq<Seq<u8>>, input: Seq<u8>) -> Option<Seq<u8>>;

/// The empty stored block that ends every sync flush.
pub open spec fn sync_trailer() -> Seq<u8> {
    seq![0u8, 0u8, 255u8, 255u8]
}

/// The compressed payload as permessage-deflate frames it: the sync-flush
/// output with its four trailer bytes stripped.
pub open spec fn strip_trailer(s: Seq<u8>) -> Seq<u8> {
    if s.len() >= 4 {
        s.take(s.len() - 4)
    } else {
        s
    }
}

#[verifier::external_type_specification]
#[verifier::external_body]
pub struct ExCompress(flate2::Compress);

#[verifier::external_type_specification]
#[verifier::external_body]
pub struct ExDecompress(flate2::Decompress);

/// A raw-DEFLATE compressor with an explicit reset.  `hist` is the ghost
/// record of the chunks compressed since the last reset.
pub struct Compressor {
    inner: flate2::Compress,
    hist: Ghost<Seq<Seq<u8>>>,
}

/// Relies on flate2::Compress::new: a raw-DEFLATE compressor (no zlib
/// header) with an empty dictionary, matching an empty chunk history.
#[verifier::external_body]
fn new_raw_compressor() -> flate2::Compress {
    flate2::Compress::new(flate2::Compression::new(6), false)
}

/// Relies on flate2::Decompress::new: a raw-DEFLATE inflater with an empty
/// dictionary, matching an empty chunk history.
#[verifier::external_body]
fn new_raw_decompressor() -> flate2::Decompress {
    flate2::Decompress::new(false)
}

impl Compressor {
    /// The chunks compressed since the last reset.
    pub closed spec fn history(self) -> Seq<Seq<u8>> {
        self.hist@
    }

    /// A freshly initialized compressor: nothing fed yet.
    pub fn new() -> (r: Compressor)
        ensures
            r.history() == Seq::<Seq<u8>>::empty(),
    {
        Compressor { inner: new_raw_compressor(), hist: Ghost(Seq::empty()) }
    }

    /// Relies on flate2::Compress::compress_vec with a sync flush: it
    /// succeeds on every input in this configuration; the output is a
    /// function of the chunks fed since the last reset and of the input
    /// alone, and ends with the empty stored block `00 00 FF FF`.
    #[verifier::external_body]
    pub fn compress(&mut self, input: &[u8]) -> (r: Result<Vec<u8>, String>)
        ensures
            r is Ok,
            r is Ok ==> r->Ok_0@ == deflate_of(old(self).history(), input@) && final(self).history()
                == old(self).history().push(input@) && r->Ok_0@.len() >= 4 && r->Ok_0@.skip(
                r->Ok_0@.len() - 4,
            ) == sync_trailer(),
    {
        let mut out: Vec<u8> = Vec::new();
        let mut pos: usize = 0;
        loop {
            out.reserve(input.len() - pos + 64);
            let before = self.inner.total_in();
            let res = self.inner.compress_vec(&input[pos..], &mut out, flate2::FlushCompress::Sync);
            if let Err(e) = res {
                return Err(e.to_string());
            }
            pos += (self.inner.total_in() - before) as usize;
            if pos >= input.len() && out.len() < out.capacity() {
                return Ok(out);
            }
        }
    }

    /// Relies on flate2::Compress::reset: returns the stream to its freshly
    /// created state, clearing the dictionary.
    #[verifier::external_body]
    pub fn reset(&mut self)
        ensures
            final(self).history() == Seq::<Seq<u8>>::empty(),
    {
        self.inner.reset();
    }
}

/// A raw-DEFLATE inflater with an explicit reset.  `hist` is the ghost record
/// of the chunks inflated since the last reset.
pub struct Decompressor {
    inner: flate2::Decompress,
    hist: Ghost<Seq<Seq<u8>>>,
}

impl Decompressor {
    /// The chunks inflated since the last reset.
    pub closed spec fn history(self) -> Seq<Seq<u8>> {
        self.hist@
    }

    /// A freshly initialized inflater: nothing fed yet.
    pub fn new() -> (r: Decompressor)
        ensures
            r.history() == Seq::<Seq<u8>>::empty(),
    {
        Decompressor { inner: new_raw_decompressor(), hist: Ghost(Seq::empty()) }
    }

    /// Relies on flate2::Decompress::decompress_vec: the call returns on
    /// every input (a stream-ending or unusable block terminates inflation
    /// with what was produced so far); the result is a function of the chunks
    /// fed since the last reset and of the input alone; and DEFLATE is
    /// lossless, so inflating what a fresh compressor emitted for a payload
    /// under a sync flush, trailer restored, yields that payload.
    #[verifier::external_body]
    pub fn decompress(&mut self, input: &[u8]) -> (r: Result<Vec<u8>, String>)
        ensures
            r is Ok <==> inflate_of(old(self).history(), input@) is Some,
            r is Ok ==> Some(r->Ok_0@) == inflate_of(old(self).history(), input@) && final(self).history()
                == old(self).history().push(input@),
            forall|p: Seq<u8>|
                old(self).history().len() == 0 && input@ == strip_trailer(
                    deflate_of(Seq::<Seq<u8>>::empty(), p),
                ) + sync_trailer() ==> r is Ok && r->Ok_0@ == p,
    {
        let mut out: Vec<u8> = Vec::new();
        let mut pos: usize = 0;
        loop {
            out.reserve(2 * input.len() + 64);
            let before = self.inner.total_in();
            let status = match self.inner.decompress_vec(&input[pos..], &mut out, flate2::FlushDecompress::Sync) {
                Ok(s) => s,
                Err(e) => return Err(e.to_string()),
            };
            pos += (self.inner.total_in() - before) as usize;
            let done = matches!(status, flate2::Status::StreamEnd | flate2::Status::BufError);
            if done || (pos >= input.len() && out.len() < out.capacity()) {
                return Ok(out);
            }
        }
    }

    /// Relies on flate2::Decompress::reset: returns the stream to its freshly
    /// created state, clearing the dictionary.
    #[verifier::external_body]
    pub fn reset(&mut self)
        ensures
            final(self).history() == Seq::<Seq<u8>>::empty(),
    {
        self.inner.reset(false);
    }
}

} // verus!
