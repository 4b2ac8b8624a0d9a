//! The streaming decoder: header first, then page records until the
//! sentinel, then the trailer, whose file checksum is recomputed over every
//! byte that was read and compared against the stored value.

use vstd::prelude::*;

use crate::ltx::{
    crc64, crc64_of, lemma_parse_header_prefix, lemma_parse_header_valid, lz4_frame_of,
    spec_header_valid, spec_is_compressed, spec_parse_header, spec_parse_trailer, Header,
    HeaderDecodeError, HeaderFlags, HeaderV, PageHeaderDecodeError, Trailer, TrailerDecodeError,
    HEADER_SIZE,
};
use crate::types::{Checksum, PageNum, PageSize, CHECKSUM_FLAG};
use crate::wire::{be32_of, be64, push_be64, read_be32};

verus! {

/// An error that can be returned by [`Decoder`]. Sizes are carried as their
/// raw integer values.
#[derive(Clone, Copy, Debug, PartialEq, Eq)]
pub enum Error {
    /// The header failed to decode.
    Header(HeaderDecodeError),
    /// A page header failed to decode.
    PageHeader(PageHeaderDecodeError),
    /// The trailer failed to decode.
    Trailer(TrailerDecodeError),
    /// The page buffer does not match the page size; holds the buffer length
    /// and the expected page size.
    InvalidBufferSize(usize, u32),
    /// The whole-file checksum does not match the trailer's file checksum.
    FileChecksumMismatch,
    /// The input ended in the middle of a page record.
    UnexpectedEnd,
    /// The LZ4 frame holding the page stream is malformed, or did not end
    /// where the page stream ended.
    Lz4Frame,
}

/// The content of one LZ4 frame read from the front of a byte string: the
/// decompressed bytes, and how many input bytes the frame took.
struct FrameContent {
    bytes: Vec<u8>,
    consumed: usize,
}

/// The content of one LZ4 frame at specification level.
pub struct FrameContentV {
    /// The bytes the frame decompresses to.
    pub bytes: Seq<u8>,
    /// How many input bytes the frame takes.
    pub consumed: int,
}

/// What reading one LZ4 frame from the front of a byte string yields: its
/// content, or nothing when no well-formed frame starts the string. The
/// frame decoder is deterministic, so this is a function of the bytes alone.
pub uninterp spec fn lz4_decode_prefix_of(data: Seq<u8>) -> Option<FrameContentV>;

/// Relies on `lz4_flex::frame::FrameDecoder` over an in-memory cursor:
/// reading to the end of one frame consumes exactly that frame's bytes from
/// the input and yields the bytes that were compressed into it; a malformed
/// frame is an error. The decoder stops at the frame's end marker and never
/// reads past it, and in particular it inverts the frames this crate's
/// encoder produces.
#[verifier::external_body]
fn lz4_decompress_prefix(data: &[u8]) -> (r: Option<FrameContent>)
    ensures
        r is Some <==> lz4_decode_prefix_of(data@) is Some,
        r matches Some(p) ==> (lz4_decode_prefix_of(data@) matches Some(v) && v.bytes == p.bytes@
            && v.consumed == p.consumed as int),
        r matches Some(p) ==> p.consumed <= data@.len(),
        r is None ==> (forall|s: Seq<u8>|
            #![trigger lz4_frame_of(s)]
            forall|rest: Seq<u8>| data@ != #[trigger] (lz4_frame_of(s) + rest)),
        r matches Some(p) ==> (forall|s: Seq<u8>|
            #![trigger lz4_frame_of(s)]
            forall|rest: Seq<u8>|
                data@ == #[trigger] (lz4_frame_of(s) + rest) ==> p.bytes@ == s && p.consumed
                    == lz4_frame_of(s).len()),
{
    let mut dec = lz4_flex::frame::FrameDecoder::new(std::io::Cursor::new(data));
    let mut out: Vec<u8> = Vec::new();
    match std::io::Read::read_to_end(&mut dec, &mut out) {
        Ok(_) => {
            let consumed = dec.into_inner().position() as usize;
            Some(FrameContent { bytes: out, consumed })
        },
        Err(_) => None,
    }
}

/// An LTX file decoder over in-memory file bytes.
pub struct Decoder {
    head: Vec<u8>,
    body: Vec<u8>,
    tail: Vec<u8>,
    pos: usize,
    page_size: PageSize,
    compressed: bool,
    frame_ok: bool,
    pages_done: bool,
    header: Ghost<HeaderV>,
    region: Ghost<Seq<u8>>,
}

impl Decoder {
    /// The header that was decoded from the input.
    pub closed spec fn header(self) -> HeaderV {
        self.header@
    }

    /// The raw 100 header bytes of the input.
    pub closed spec fn head(self) -> Seq<u8> {
        self.head@
    }

    /// The uncompressed page-stream bytes the decoder walks: for a compressed
    /// file the decompressed frame, otherwise everything after the header.
    pub closed spec fn body(self) -> Seq<u8> {
        self.body@
    }

    /// The bytes that follow the compressed frame; empty for an uncompressed
    /// file, whose trailer sits inside `body`.
    pub closed spec fn tail(self) -> Seq<u8> {
        self.tail@
    }

    /// The cursor into `body`: every byte before it has been read.
    pub closed spec fn pos(self) -> int {
        self.pos as int
    }

    /// Whether the end-of-pages sentinel has been read.
    pub closed spec fn pages_done(self) -> bool {
        self.pages_done
    }

    /// Whether the page stream is readable: always true for an uncompressed
    /// file, and true for a compressed file exactly when the bytes after the
    /// header start with a well-formed LZ4 frame. When it is false, reading a
    /// page and finishing both report the framing error.
    pub closed spec fn frame_ok(self) -> bool {
        self.frame_ok
    }

    /// The decoder's internal consistency: the stored header bytes decode to
    /// the stored header, the page stream and tail are what the bytes after
    /// the header decompress to, and the cursor stays inside the page stream.
    pub closed spec fn wf(self) -> bool {
        &&& spec_header_valid(self.header@)
        &&& spec_parse_header(self.head@) == Ok::<HeaderV, HeaderDecodeError>(self.header@)
        &&& self.head@.len() == 100
        &&& self.page_size@ == self.header@.page_size
        &&& self.compressed == spec_is_compressed(self.header@)
        &&& self.pos <= self.body@.len()
        &&& (!self.compressed ==> self.frame_ok && self.body@ == self.region@ && self.tail@.len()
            == 0)
        &&& (self.compressed ==> (self.frame_ok <==> lz4_decode_prefix_of(self.region@) is Some))
        &&& (self.compressed && self.frame_ok ==> (lz4_decode_prefix_of(self.region@)
            matches Some(v) && self.body@ == v.bytes && self.tail@ == self.region@.skip(
            v.consumed,
        )))
        &&& (!self.frame_ok ==> self.body@.len() == 0 && self.tail@.len() == 0
            && !self.pages_done)
    }

    /// Create a new [`Decoder`], reading and validating the header from the
    /// start of `data`; it succeeds exactly when the first 100 bytes decode
    /// to a valid header. For a compressed file the page stream is the
    /// content of the LZ4 frame that follows the header; a malformed frame is
    /// noticed here but reported only when a page is read or the decoder is
    /// finished.
    pub fn new(data: &[u8]) -> (r: Result<(Decoder, Header), Error>)
        ensures
            spec_parse_header(data@) matches Err(e) ==> r == Err::<(Decoder, Header), Error>(
                Error::Header(e),
            ),
            spec_parse_header(data@) matches Ok(hv) ==> (r matches Ok(p) && {
                &&& p.1@ == hv
                &&& p.0.wf()
                &&& p.0.header() == hv
                &&& p.0.head() == data@.take(100)
                &&& p.0.pos() == 0
                &&& !p.0.pages_done()
                &&& (!spec_is_compressed(hv) ==> p.0.frame_ok() && p.0.body() == data@.skip(100)
                    && p.0.tail() == Seq::<u8>::empty())
                &&& (spec_is_compressed(hv) ==> {
                    &&& (p.0.frame_ok() <==> lz4_decode_prefix_of(data@.skip(100)) is Some)
                    &&& (lz4_decode_prefix_of(data@.skip(100)) matches Some(v) ==> p.0.body()
                        == v.bytes && p.0.tail() == data@.skip(100).skip(v.consumed))
                    &&& (forall|s: Seq<u8>, rest: Seq<u8>|
                        data@.skip(100) == #[trigger] (lz4_frame_of(s) + rest)
                            ==> p.0.frame_ok() && p.0.body() == s && p.0.tail() == rest)
                })
            }),
    {
        if data.len() < HEADER_SIZE {
            return Err(Error::Header(HeaderDecodeError::UnexpectedEnd));
        }
        let hdr = match Header::decode_from(data) {
            Ok(h) => h,
            Err(e) => {
                return Err(Error::Header(e));
            },
        };
        proof {
            lemma_parse_header_prefix(data@);
            lemma_parse_header_valid(data@);
        }
        let mut head: Vec<u8> = Vec::new();
        head.extend_from_slice(&data[0..HEADER_SIZE]);
        proof {
            assert(head@ =~= data@.take(100));
        }
        let compressed = hdr.flags.contains(HeaderFlags::compress_lz4());
        if compressed {
            let region = &data[HEADER_SIZE..data.len()];
            proof {
                assert(region@ =~= data@.skip(100));
            }
            match lz4_decompress_prefix(region) {
                Some(content) => {
                    let ghost gbytes = content.bytes@;
                    let consumed = content.consumed;
                    let body = content.bytes;
                    let mut tail: Vec<u8> = Vec::new();
                    tail.extend_from_slice(&data[HEADER_SIZE + consumed..data.len()]);
                    let dec = Decoder {
                        head,
                        body,
                        tail,
                        pos: 0,
                        page_size: hdr.page_size,
                        compressed,
                        frame_ok: true,
                        pages_done: false,
                        header: Ghost(hdr@),
                        region: Ghost(data@.skip(100)),
                    };
                    proof {
                        assert(dec.tail@ =~= data@.skip(100).skip(consumed as int));
                        assert forall|s: Seq<u8>, rest: Seq<u8>|
                            data@.skip(100) == #[trigger] (lz4_frame_of(s) + rest) implies dec.body()
                            == s && dec.tail() == rest by {
                            assert(region@ == lz4_frame_of(s) + rest);
                            assert(gbytes == s && consumed == lz4_frame_of(s).len());
                            assert(rest =~= region@.subrange(
                                consumed as int,
                                region@.len() as int,
                            ));
                            assert(dec.tail@ =~= rest);
                        }
                    }
                    Ok((dec, hdr))
                },
                None => {
                    let dec = Decoder {
                        head,
                        body: Vec::new(),
                        tail: Vec::new(),
                        pos: 0,
                        page_size: hdr.page_size,
                        compressed,
                        frame_ok: false,
                        pages_done: false,
                        header: Ghost(hdr@),
                        region: Ghost(data@.skip(100)),
                    };
                    Ok((dec, hdr))
                },
            }
        } else {
            let mut body: Vec<u8> = Vec::new();
            body.extend_from_slice(&data[HEADER_SIZE..data.len()]);
            proof {
                assert(body@ =~= data@.skip(100));
            }
            let dec = Decoder {
                head,
                body,
                tail: Vec::new(),
                pos: 0,
                page_size: hdr.page_size,
                compressed,
                frame_ok: true,
                pages_done: false,
                header: Ghost(hdr@),
                region: Ghost(data@.skip(100)),
            };
            Ok((dec, hdr))
        }
    }

    /// Decode the next page into `data`, which must be exactly one page long;
    /// a wrong-sized buffer is rejected before anything else is looked at.
    /// A compressed page stream whose LZ4 frame is malformed is a framing
    /// error here. Returns the page's number, or `None` once the end-of-pages
    /// sentinel has been read; after that, further calls return `None`
    /// without reading. A failed call leaves the decoder and the buffer
    /// unchanged.
    pub fn decode_page(&mut self, data: &mut Vec<u8>) -> (r: Result<Option<PageNum>, Error>)
        requires
            old(self).wf(),
        ensures
            final(self).wf(),
            final(self).header() == old(self).header(),
            final(self).head() == old(self).head(),
            final(self).body() == old(self).body(),
            final(self).tail() == old(self).tail(),
            final(self).frame_ok() == old(self).frame_ok(),
            ({
                let b = old(self).body();
                let p = old(self).pos();
                let ps = old(self).header().page_size as int;
                if old(data)@.len() != ps {
                    r == Err::<Option<PageNum>, Error>(
                        Error::InvalidBufferSize(
                            old(data)@.len() as usize,
                            old(self).header().page_size,
                        ),
                    ) && *final(self) == *old(self) && final(data)@ == old(data)@
                } else if old(self).pages_done() {
                    r == Ok::<Option<PageNum>, Error>(None) && *final(self) == *old(self)
                        && final(data)@ == old(data)@
                } else if !old(self).frame_ok() {
                    r == Err::<Option<PageNum>, Error>(Error::Lz4Frame) && *final(self) == *old(
                        self,
                    ) && final(data)@ == old(data)@
                } else if p + 4 > b.len() {
                    r == Err::<Option<PageNum>, Error>(
                        Error::PageHeader(PageHeaderDecodeError::UnexpectedEnd),
                    ) && *final(self) == *old(self) && final(data)@ == old(data)@
                } else if be32_of(b.subrange(p, p + 4)) == 0 {
                    r == Ok::<Option<PageNum>, Error>(None) && final(self).pos() == p + 4
                        && final(self).pages_done() && final(data)@ == old(data)@
                } else if p + 4 + ps > b.len() {
                    r == Err::<Option<PageNum>, Error>(Error::UnexpectedEnd) && *final(self)
                        == *old(self) && final(data)@ == old(data)@
                } else {
                    &&& (r matches Ok(o) && o matches Some(pn) && pn@ == be32_of(
                        b.subrange(p, p + 4),
                    ))
                    &&& final(data)@ == b.subrange(p + 4, p + 4 + ps)
                    &&& final(self).pos() == p + 4 + ps
                    &&& !final(self).pages_done()
                }
            }),
    {
        if data.len() != self.page_size.into_inner() as usize {
            return Err(Error::InvalidBufferSize(data.len(), self.page_size.into_inner()));
        }
        if self.pages_done {
            return Ok(None);
        }
        if !self.frame_ok {
            return Err(Error::Lz4Frame);
        }
        if self.body.len() - self.pos < 4 {
            return Err(Error::PageHeader(PageHeaderDecodeError::UnexpectedEnd));
        }
        let pgno = read_be32(self.body.as_slice(), self.pos);
        if pgno == 0 {
            self.pos = self.pos + 4;
            self.pages_done = true;
            return Ok(None);
        }
        let ps = self.page_size.into_inner() as usize;
        if self.body.len() - (self.pos + 4) < ps {
            return Err(Error::UnexpectedEnd);
        }
        data.clear();
        data.extend_from_slice(&self.body.as_slice()[self.pos + 4..self.pos + 4 + ps]);
        let pn = match PageNum::new(pgno) {
            Ok(p) => p,
            Err(_) => {
                proof {
                    assert(false);
                }
                return Err(Error::UnexpectedEnd);
            },
        };
        self.pos = self.pos + 4 + ps;
        Ok(Some(pn))
    }

    /// Consume the decoder: check that a compressed page stream had a
    /// well-formed LZ4 frame and was read to the exact end of it, decode the
    /// trailer, recompute the whole-file checksum over every byte that was
    /// read plus the trailer's post-apply checksum, and compare it against
    /// the stored file checksum.
    pub fn finish(self) -> (r: Result<Trailer, Error>)
        requires
            self.wf(),
        ensures
            ({
                let region = if spec_is_compressed(self.header()) {
                    self.tail()
                } else {
                    self.body().skip(self.pos())
                };
                if spec_is_compressed(self.header()) && !self.frame_ok() {
                    r == Err::<Trailer, Error>(Error::Lz4Frame)
                } else if spec_is_compressed(self.header()) && self.pos() != self.body().len() {
                    r == Err::<Trailer, Error>(Error::Lz4Frame)
                } else {
                    match spec_parse_trailer(region) {
                        Err(e) => r == Err::<Trailer, Error>(Error::Trailer(e)),
                        Ok(tv) => {
                            let expect = crc64_of(
                                self.head() + self.body().take(self.pos()) + be64(
                                    tv.post_apply_checksum,
                                ),
                            ) | CHECKSUM_FLAG;
                            if tv.file_checksum != expect {
                                r == Err::<Trailer, Error>(Error::FileChecksumMismatch)
                            } else {
                                r matches Ok(t) && t@ == tv
                            }
                        },
                    }
                }
            }),
    {
        if self.compressed && !self.frame_ok {
            return Err(Error::Lz4Frame);
        }
        if self.compressed && self.pos != self.body.len() {
            return Err(Error::Lz4Frame);
        }
        let region: &[u8] = if self.compressed {
            self.tail.as_slice()
        } else {
            &self.body.as_slice()[self.pos..self.body.len()]
        };
        proof {
            if !self.compressed {
                assert(region@ =~= self.body().skip(self.pos()));
            }
        }
        let trailer = match Trailer::decode_from(region) {
            Ok(t) => t,
            Err(e) => {
                return Err(Error::Trailer(e));
            },
        };
        let mut dom: Vec<u8> = Vec::new();
        dom.extend_from_slice(self.head.as_slice());
        dom.extend_from_slice(&self.body.as_slice()[0..self.pos]);
        push_be64(&mut dom, trailer.post_apply_checksum.into_inner());
        proof {
            assert(dom@ =~= self.head() + self.body().take(self.pos()) + be64(
                trailer@.post_apply_checksum,
            ));
        }
        let expected = Checksum::new(crc64(dom.as_slice()));
        if expected.into_inner() != trailer.file_checksum.into_inner() {
            return Err(Error::FileChecksumMismatch);
        }
        Ok(trailer)
    }
}

} // verus!
