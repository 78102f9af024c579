//! The stream ingestor: consumes an upload chunk by chunk, holds the last
//! `TRAILER_WIDTH` bytes back as the claimed checksum, hands every confirmed
//! payload byte to the caller for storage (in original stream order), keeps
//! a running CRC-32 over those bytes, and sniffs the MIME type from the
//! first non-empty chunk.
//!
//! When the stream ends, the held-back trailer is compared, as lowercase
//! text, against the hex rendering of the computed checksum; a mismatch is
//! a partial or corrupted upload.
use vstd::prelude::*;

use crate::checksum::{
    crc32_of, crc_hex_bytes, crc_hex_string, hasher_fed, hasher_finalize, hasher_new,
    hasher_update, hex8_bytes, hex8_chars, lemma_hex8_ascii,
};
use crate::response_code::RestError;
use crate::text::{ascii_lower, bytes_eq, lower_bytes, opt_str_view};
use crate::trailer::{lemma_suffix_absorb, suffix_within, UploadBuffer};

verus! {

use vstd::utf8::valid_utf8;

/// How many trailing bytes of the stream carry the claimed checksum: the
/// length of a CRC-32 value in hex digits.
pub const TRAILER_WIDTH: usize = 8;

/// The MIME type sniffed from the leading bytes of a stream, if any; a
/// function of the bytes alone.
pub uninterp spec fn sniffed_mime(data: Seq<u8>) -> Option<Seq<char>>;

/// Relies on infer::get and infer::Type::mime_type: the MIME type matched
/// against the leading magic bytes, a pure function of the bytes.
#[verifier::external_body]
fn sniff_mime(data: &[u8]) -> (r: Option<String>)
    ensures
        match r {
            Some(s) => sniffed_mime(data@) == Some(s@),
            None => sniffed_mime(data@) is None,
        },
{
    infer::get(data).map(|i| i.mime_type().to_string())
}

/// Relies on std::str::from_utf8: whether the bytes are valid UTF-8.
#[verifier::external_body]
fn is_text(data: &[u8]) -> (r: bool)
    ensures
        r == valid_utf8(data@),
{
    core::str::from_utf8(data).is_ok()
}

/// The stream with its trailer still attached: everything but the last
/// `min(TRAILER_WIDTH, len)` bytes is payload.
pub open spec fn payload_of(fed: Seq<u8>) -> Seq<u8> {
    fed.take(fed.len() - suffix_within(fed, TRAILER_WIDTH as nat).len())
}

/// The claimed trailer: the last `min(TRAILER_WIDTH, len)` bytes.
pub open spec fn trailer_of(fed: Seq<u8>) -> Seq<u8> {
    suffix_within(fed, TRAILER_WIDTH as nat)
}

/// A finished stream passes verification exactly when its trailer, folded to
/// lowercase, spells the hex checksum of its payload.
pub open spec fn spec_trailer_ok(fed: Seq<u8>) -> bool {
    lower_bytes(trailer_of(fed)) == hex8_bytes(crc32_of(payload_of(fed)))
}

/// A suffix at least as long as the window fills it entirely.
pub proof fn lemma_suffix_long(x: Seq<u8>, t: Seq<u8>, cap: nat)
    requires
        t.len() >= cap,
    ensures
        suffix_within(x + t, cap) == suffix_within(t, cap),
{
    assert(suffix_within(x + t, cap) =~= suffix_within(t, cap));
}

/// The in-progress state of one upload.
pub struct Ingestor {
    buf: UploadBuffer,
    hasher: crc32fast::Hasher,
    size: i64,
    mime: Option<String>,
    sniffed: bool,
    contains_binary: bool,
    written: Ghost<Seq<u8>>,
    fed: Ghost<Seq<u8>>,
}

impl Ingestor {
    /// Every byte of the stream seen so far.
    pub closed spec fn fed(self) -> Seq<u8> {
        self.fed@
    }

    /// Every byte handed back for storage so far, in stream order.
    pub closed spec fn written(self) -> Seq<u8> {
        self.written@
    }

    /// The MIME type detected so far.
    pub closed spec fn mime_view(self) -> Option<Seq<char>> {
        opt_str_view(self.mime)
    }

    /// Whether a non-empty chunk has been seen (and sniffed) yet.
    pub closed spec fn sniffed(self) -> bool {
        self.sniffed
    }

    /// Whether some stored piece failed to decode as text.
    pub closed spec fn binary(self) -> bool {
        self.contains_binary
    }

    /// The bytes currently held back as the trailer candidate.
    pub closed spec fn trailer_held(self) -> Seq<u8> {
        self.buf.contents()
    }

    /// The ingestor's invariant: what was written plus what the trailer
    /// buffer holds is exactly the stream, the buffer holds exactly the
    /// newest `TRAILER_WIDTH` bytes, and the running checksum has absorbed
    /// exactly the written bytes.
    pub closed spec fn wf(self) -> bool {
        &&& self.buf.wf()
        &&& self.buf.cap() == TRAILER_WIDTH as nat
        &&& self.buf.all_fed().len() <= self.fed@.len()
        &&& self.written@ + self.buf.contents() == self.fed@
        &&& self.buf.contents() == suffix_within(self.fed@, TRAILER_WIDTH as nat)
        &&& hasher_fed(self.hasher) == self.written@
        &&& self.size == self.written@.len()
        &&& (self.mime is Some ==> self.sniffed)
    }

    /// Under the invariant, the written bytes are exactly the stream's
    /// payload: everything except the held-back trailer.
    pub proof fn lemma_written_is_payload(self)
        requires
            self.wf(),
        ensures
            self.written() == payload_of(self.fed()),
            self.trailer_held() == trailer_of(self.fed()),
    {
        assert(self.written@ =~= payload_of(self.fed@));
    }

    /// A fresh ingestor that has seen nothing.
    pub fn new() -> (r: Ingestor)
        ensures
            r.wf(),
            r.fed() == Seq::<u8>::empty(),
            r.written() == Seq::<u8>::empty(),
            r.mime_view() is None,
            !r.sniffed(),
            !r.binary(),
    {
        let r = Ingestor {
            buf: UploadBuffer::new(TRAILER_WIDTH),
            hasher: hasher_new(),
            size: 0,
            mime: None,
            sniffed: false,
            contains_binary: false,
            written: Ghost(Seq::empty()),
            fed: Ghost(Seq::empty()),
        };
        proof {
            assert(r.written@ + r.buf.contents() =~= r.fed@);
        }
        r
    }

    /// The payload size so far.
    pub fn size(&self) -> (r: i64)
        requires
            self.wf(),
        ensures
            r == self.written().len(),
    {
        self.size
    }

    /// Feed one chunk of the stream.  Returns the bytes that are confirmed
    /// payload and must now be written to storage: they extend the written
    /// prefix of the stream in original order.  On the first non-empty
    /// chunk the MIME type is sniffed from its leading bytes.
    pub fn process_chunk(&mut self, chunk: &[u8]) -> (out: Vec<u8>)
        requires
            old(self).wf(),
            old(self).fed().len() + chunk@.len() <= usize::MAX,
            old(self).fed().len() + chunk@.len() <= i64::MAX,
        ensures
            final(self).wf(),
            final(self).fed() == old(self).fed() + chunk@,
            final(self).written() == old(self).written() + out@,
            final(self).sniffed() == (old(self).sniffed() || chunk@.len() > 0),
            final(self).mime_view() == if !old(self).sniffed() && chunk@.len() > 0 {
                sniffed_mime(chunk@)
            } else {
                old(self).mime_view()
            },
            final(self).binary() == (old(self).binary() || (final(self).mime_view() is None
                && !valid_utf8(out@))),
    {
        let ghost fed0 = self.fed@;
        let ghost written0 = self.written@;
        let ghost contents0 = self.buf.contents();
        if chunk.len() == 0 {
            let out: Vec<u8> = Vec::new();
            proof {
                assert(self.fed@ =~= fed0 + chunk@);
                assert(self.written@ =~= written0 + out@);
                assert(valid_utf8(out@));
            }
            return out;
        }
        if !self.sniffed {
            self.mime = sniff_mime(chunk);
            self.sniffed = true;
        }
        let len = chunk.len();
        let amount = if len < TRAILER_WIDTH {
            len
        } else {
            TRAILER_WIDTH
        };
        let suffix = vstd::slice::slice_subrange(chunk, len - amount, len);
        let prefix = vstd::slice::slice_subrange(chunk, 0, len - amount);
        let mut out = self.buf.push(suffix);
        let ghost evicted0 = out@;
        let ghost contents1 = self.buf.contents();
        let mut i: usize = 0;
        while i < prefix.len()
            invariant
                i <= prefix@.len(),
                out@ == evicted0 + prefix@.take(i as int),
            decreases prefix@.len() - i,
        {
            out.push(*vstd::slice::slice_index_get(prefix, i));
            assert(evicted0 + prefix@.take(i + 1) == (evicted0 + prefix@.take(i as int)).push(
                prefix@[i as int]));
            i += 1;
        }
        assert(prefix@.take(prefix@.len() as int) == prefix@);
        proof {
            // The new buffer holds the newest TRAILER_WIDTH bytes of the
            // whole stream, and the emitted bytes extend the written prefix
            // in stream order.
            let cap = TRAILER_WIDTH as nat;
            assert(prefix@ + suffix@ =~= chunk@);
            if amount == TRAILER_WIDTH {
                lemma_suffix_long(contents0, suffix@, cap);
                assert(suffix_within(suffix@, cap) == suffix@);
                assert(contents1 == suffix@);
                lemma_suffix_long(fed0, chunk@, cap);
                assert(suffix_within(chunk@, cap) =~= suffix@);
                assert(contents1 =~= suffix_within(fed0 + chunk@, cap));
                assert(evicted0.len() == contents0.len());
                assert forall|k: int| 0 <= k < evicted0.len() implies evicted0[k] == contents0[k]
                by {
                    assert((evicted0 + contents1)[k] == (contents0 + suffix@)[k]);
                }
                assert(evicted0 =~= contents0);
                assert(out@ =~= contents0 + prefix@);
                assert(written0 + out@ + contents1 =~= fed0 + chunk@);
            } else {
                assert(suffix@ =~= chunk@);
                assert(prefix@.len() == 0);
                lemma_suffix_absorb(fed0, chunk@, cap);
                assert(contents1 =~= suffix_within(fed0 + chunk@, cap));
                assert(out@ =~= evicted0);
                assert(written0 + out@ + contents1 =~= written0 + (evicted0 + contents1));
                assert(written0 + (evicted0 + contents1) =~= written0 + (contents0 + suffix@));
                assert(written0 + out@ + contents1 =~= fed0 + chunk@);
            }
        }
        hasher_update(&mut self.hasher, out.as_slice());
        self.size = self.size + out.len() as i64;
        if self.mime.is_none() && !self.contains_binary {
            if !is_text(out.as_slice()) {
                self.contains_binary = true;
            }
        }
        proof {
            self.fed@ = fed0 + chunk@;
            self.written@ = written0 + out@;
        }
        out
    }

    /// Close the stream: verify the held-back trailer against the computed
    /// checksum and hand back `(checksum_hex, payload_size, mime_type)`.
    ///
    /// The trailer is compared as ASCII text, ignoring case.  A stream whose
    /// trailer does not spell the payload's checksum — corrupted, truncated,
    /// or not text at all — is refused as partial content.  The MIME type
    /// falls back to `text/plain` when nothing was sniffed and every stored
    /// piece decoded as text, and is empty otherwise.
    pub fn finish(self) -> (r: Result<(String, i64, String), RestError>)
        requires
            self.wf(),
        ensures
            match r {
                Ok(t) => {
                    &&& spec_trailer_ok(self.fed())
                    &&& t.0@ == hex8_chars(crc32_of(payload_of(self.fed())))
                    &&& t.1 == payload_of(self.fed()).len()
                    &&& t.2@ == match self.mime_view() {
                        Some(m) => m,
                        None => if !self.binary() {
                            "text/plain"@
                        } else {
                            Seq::<char>::empty()
                        },
                    }
                },
                Err(e) => {
                    &&& e == RestError::PartialContent
                    &&& !spec_trailer_ok(self.fed())
                },
            },
    {
        proof {
            self.lemma_written_is_payload();
        }
        let Ingestor { buf, hasher, size, mime, sniffed: _, contains_binary, written: _, fed: _ } =
            self;
        let crc = hasher_finalize(hasher);
        let hex = crc_hex_bytes(crc);
        let trailer = buf.get();
        let lowered = ascii_lower(&trailer);
        if !bytes_eq(lowered.as_slice(), hex.as_slice()) {
            return Err(RestError::PartialContent);
        }
        let crc_string = crc_hex_string(crc);
        let mime_type = match mime {
            Some(m) => m,
            None => if !contains_binary {
                "text/plain".to_owned()
            } else {
                String::new()
            },
        };
        Ok((crc_string, size, mime_type))
    }
}

/// Chunking invariance: however a stream was cut into chunks, two ingestors
/// that have seen the same bytes hold the same written payload, the same
/// trailer candidate, and the same running checksum.
pub proof fn lemma_chunking_invariance(a: Ingestor, b: Ingestor)
    requires
        a.wf(),
        b.wf(),
        a.fed() == b.fed(),
    ensures
        a.written() == b.written(),
        crc32_of(a.written()) == crc32_of(b.written()),
{
    a.lemma_written_is_payload();
    b.lemma_written_is_payload();
}

/// Round trip: appending the hex checksum of a payload as its trailer gives
/// a stream that verifies, with exactly that payload and that checksum.
pub proof fn lemma_round_trip(payload: Seq<u8>)
    ensures
        spec_trailer_ok(payload + hex8_bytes(crc32_of(payload))),
        payload_of(payload + hex8_bytes(crc32_of(payload))) == payload,
{
    let hex = hex8_bytes(crc32_of(payload));
    lemma_suffix_long(payload, hex, TRAILER_WIDTH as nat);
    assert(trailer_of(payload + hex) =~= hex);
    assert(payload_of(payload + hex) =~= payload);
    lemma_hex8_ascii(crc32_of(payload));
}

/// A corrupted trailer is refused: if the claimed trailer does not fold to
/// the payload's checksum, the stream fails verification as partial
/// content.
pub proof fn lemma_corrupt_trailer_fails(payload: Seq<u8>, trailer: Seq<u8>)
    requires
        trailer.len() == TRAILER_WIDTH,
        lower_bytes(trailer) != hex8_bytes(crc32_of(payload)),
    ensures
        !spec_trailer_ok(payload + trailer),
        payload_of(payload + trailer) == payload,
{
    lemma_suffix_long(payload, trailer, TRAILER_WIDTH as nat);
    assert(trailer_of(payload + trailer) =~= trailer);
    assert(payload_of(payload + trailer) =~= payload);
}

/// Mutating one byte of a correct trailer corrupts the claim: unless the
/// new byte still folds to the digit it replaced (its own upper-case
/// form), the stream is refused as partial content.
pub proof fn lemma_one_byte_corruption_fails(payload: Seq<u8>, i: int, b: u8)
    requires
        0 <= i < TRAILER_WIDTH,
        crate::text::lower_byte(b) != hex8_bytes(crc32_of(payload))[i],
    ensures
        !spec_trailer_ok(payload + hex8_bytes(crc32_of(payload)).update(i, b)),
        payload_of(payload + hex8_bytes(crc32_of(payload)).update(i, b)) == payload,
{
    let correct = hex8_bytes(crc32_of(payload));
    let mutated = correct.update(i, b);
    assert(lower_bytes(mutated)[i] == crate::text::lower_byte(b));
    assert(lower_bytes(mutated) != correct);
    lemma_corrupt_trailer_fails(payload, mutated);
}

} // verus!
