//! The streaming encoder: header first, then validated page records, then
//! the sentinel and the trailer, with the whole-file checksum threaded over
//! every byte that precedes the trailer.

use vstd::prelude::*;

use crate::ltx::{
    crc64, lz4_frame_of, spec_body_bytes, spec_checksum_domain, spec_file_bytes,
    spec_file_checksum, spec_header_bytes, spec_header_valid, spec_is_compressed,
    spec_is_snapshot, spec_page_record_bytes, spec_records_bytes, spec_validate, Header,
    HeaderEncodeError, HeaderFlags, Trailer, TrailerV,
};
use crate::types::{spec_lock_page, Checksum, PageNum, PageSize};
use crate::wire::push_be32;

verus! {

/// An error that can be returned by [`Encoder`]. Page numbers and sizes are
/// carried as their raw integer values.
#[derive(Clone, Copy, Debug, PartialEq, Eq)]
pub enum Error {
    /// The header failed validation.
    Header(HeaderEncodeError),
    /// The page is the lock page, which must never be encoded; holds the
    /// offending page number.
    LockPage(u32),
    /// A snapshot file must start with page number 1.
    FirstSnapshotPage,
    /// Nonsequential page numbers in a snapshot file; holds the last and the
    /// offending page number.
    NonsequentialPages(u32, u32),
    /// Out-of-order page numbers in a non-snapshot file; holds the last and
    /// the offending page number.
    OutOfOrderPage(u32, u32),
    /// The page buffer does not match the page size; holds the buffer length
    /// and the expected page size.
    InvalidBufferSize(usize, u32),
}

/// The snapshot ordering rule for one step: the next page follows the last
/// one directly, except that the lock page is skipped.
pub open spec fn spec_snapshot_step(last: u32, next: u32, lock: u32) -> bool {
    if last + 1 == lock {
        next == last + 2
    } else {
        next == last + 1
    }
}

/// The ordering rule for one page: snapshots walk every page from 1 upward
/// (skipping the lock page), incremental files only need strictly increasing
/// page numbers.
pub open spec fn spec_page_order_ok(
    snapshot: bool,
    lock: u32,
    last: Option<u32>,
    next: u32,
) -> bool {
    if snapshot {
        match last {
            None => next == 1,
            Some(l) => spec_snapshot_step(l, next, lock),
        }
    } else {
        match last {
            None => true,
            Some(l) => l < next,
        }
    }
}

/// The exact outcome of checking one page number against the encoder's
/// rules, in the order the checks are made: the lock page first, then the
/// mode's ordering rule.
pub open spec fn spec_validate_page_num(
    snapshot: bool,
    lock: u32,
    last: Option<u32>,
    next: u32,
) -> Result<(), Error> {
    if next == lock {
        Err(Error::LockPage(next))
    } else if snapshot && last is None && next != 1 {
        Err(Error::FirstSnapshotPage)
    } else if snapshot && (last matches Some(l) && !spec_snapshot_step(l, next, lock)) {
        Err(Error::NonsequentialPages(last->Some_0, next))
    } else if !snapshot && (last matches Some(l) && l >= next) {
        Err(Error::OutOfOrderPage(last->Some_0, next))
    } else {
        Ok(())
    }
}

/// The exact outcome of offering one page to the encoder: the page number
/// checks first, then the buffer size.
pub open spec fn spec_page_check(
    snapshot: bool,
    lock: u32,
    last: Option<u32>,
    next: u32,
    len: int,
    page_size: u32,
) -> Result<(), Error> {
    match spec_validate_page_num(snapshot, lock, last, next) {
        Err(e) => Err(e),
        Ok(_) => if len != page_size {
            Err(Error::InvalidBufferSize(len as usize, page_size))
        } else {
            Ok(())
        },
    }
}

/// Whether a page sequence obeys all of the encoder's rules for the given
/// header: page data of exactly the page size, no zero or lock page numbers,
/// and the mode's ordering rule at every step.
pub open spec fn spec_pages_valid(h: crate::ltx::HeaderV, pages: Seq<(u32, Seq<u8>)>) -> bool {
    let lock = spec_lock_page(h.page_size);
    &&& (forall|i: int| 0 <= i < pages.len() ==> (#[trigger] pages[i]).1.len() == h.page_size)
    &&& (forall|i: int|
        0 <= i < pages.len() ==> (#[trigger] pages[i]).0 != 0 && pages[i].0 != lock)
    &&& (forall|i: int|
        0 <= i < pages.len() ==> spec_page_order_ok(
            spec_is_snapshot(h),
            lock,
            if i == 0 {
                None
            } else {
                Some(pages[i - 1].0)
            },
            (#[trigger] pages[i]).0,
        ))
}

/// Appending a page that obeys the rules keeps the whole sequence valid.
proof fn lemma_pages_valid_push(
    h: crate::ltx::HeaderV,
    pages: Seq<(u32, Seq<u8>)>,
    pgno: u32,
    data: Seq<u8>,
)
    requires
        spec_pages_valid(h, pages),
        data.len() == h.page_size,
        pgno != 0,
        pgno != spec_lock_page(h.page_size),
        spec_page_order_ok(
            spec_is_snapshot(h),
            spec_lock_page(h.page_size),
            if pages.len() == 0 {
                None
            } else {
                Some(pages.last().0)
            },
            pgno,
        ),
    ensures
        spec_pages_valid(h, pages.push((pgno, data))),
{
    let lock = spec_lock_page(h.page_size);
    let whole = pages.push((pgno, data));
    assert forall|i: int| 0 <= i < whole.len() implies (#[trigger] whole[i]).1.len()
        == h.page_size by {
        if i < pages.len() {
            assert(whole[i] == pages[i]);
        }
    }
    assert forall|i: int| 0 <= i < whole.len() implies (#[trigger] whole[i]).0 != 0 && whole[i].0
        != lock by {
        if i < pages.len() {
            assert(whole[i] == pages[i]);
        }
    }
    assert forall|i: int| 0 <= i < whole.len() implies spec_page_order_ok(
        spec_is_snapshot(h),
        lock,
        if i == 0 {
            None
        } else {
            Some(whole[i - 1].0)
        },
        (#[trigger] whole[i]).0,
    ) by {
        if i < pages.len() {
            assert(whole[i] == pages[i]);
            if i > 0 {
                assert(whole[i - 1] == pages[i - 1]);
            }
        } else {
            if i > 0 {
                assert(whole[i - 1] == pages[i - 1]);
                assert(pages[i - 1] == pages.last());
            }
        }
    }
}

/// Relies on `lz4_flex::frame::FrameEncoder` with a 64 KB block size and
/// otherwise default frame settings: the compressed frame is a function of
/// the input bytes alone, and compressing into a `Vec` cannot fail.
#[verifier::external_body]
pub(crate) fn lz4_compress(data: &[u8]) -> (r: Vec<u8>)
    ensures
        r@ == lz4_frame_of(data@),
{
    let info = lz4_flex::frame::FrameInfo::new().block_size(lz4_flex::frame::BlockSize::Max64KB);
    let mut enc = lz4_flex::frame::FrameEncoder::with_frame_info(info, Vec::new());
    std::io::Write::write_all(&mut enc, data).expect("writing to a Vec cannot fail");
    enc.finish().expect("writing to a Vec cannot fail")
}

/// An LTX file encoder. It accumulates the encoded file in memory and hands
/// the finished bytes back from [`Encoder::finish`].
pub struct Encoder {
    head: Vec<u8>,
    body: Vec<u8>,
    page_size: PageSize,
    is_snapshot: bool,
    compress: bool,
    last_page_num: Option<PageNum>,
    header: Ghost<crate::ltx::HeaderV>,
    pages: Ghost<Seq<(u32, Seq<u8>)>>,
}

impl Encoder {
    /// The header this encoder was created with.
    pub closed spec fn header(self) -> crate::ltx::HeaderV {
        self.header@
    }

    /// The pages encoded so far, each a page number with its data.
    pub closed spec fn pages(self) -> Seq<(u32, Seq<u8>)> {
        self.pages@
    }

    /// The page number of the page encoded last, if any.
    pub closed spec fn last_page(self) -> Option<u32> {
        match self.last_page_num {
            Some(p) => Some(p@),
            None => None,
        }
    }

    /// The encoder's internal consistency: the accumulated bytes are exactly
    /// the encoding of the header and of the pages accepted so far, and those
    /// pages obey the mode's ordering rule.
    pub closed spec fn wf(self) -> bool {
        &&& spec_header_valid(self.header@)
        &&& self.head@ == spec_header_bytes(self.header@)
        &&& self.body@ == spec_records_bytes(self.pages@)
        &&& self.page_size@ == self.header@.page_size
        &&& self.is_snapshot == spec_is_snapshot(self.header@)
        &&& self.compress == spec_is_compressed(self.header@)
        &&& match self.last_page_num {
            None => self.pages@.len() == 0,
            Some(p) => self.pages@.len() > 0 && self.pages@.last().0 == p@,
        }
        &&& spec_pages_valid(self.header@, self.pages@)
    }

    /// Create a new [`Encoder`] for the given header. The header is validated
    /// and its 100 bytes become the start of the file. Depending on the
    /// header's flags the page stream will be LZ4-compressed.
    pub fn new(hdr: &Header) -> (r: Result<Encoder, Error>)
        ensures
            spec_validate(hdr@) matches Err(e) ==> r == Err::<Encoder, Error>(
                Error::Header(HeaderEncodeError::Validation(e)),
            ),
            spec_validate(hdr@) is Ok ==> (r matches Ok(enc) && enc.wf() && enc.header() == hdr@
                && enc.pages() =~= Seq::<(u32, Seq<u8>)>::empty() && enc.last_page() is None
                && spec_header_valid(hdr@)),
    {
        let mut head: Vec<u8> = Vec::new();
        if let Err(HeaderEncodeError::Validation(e)) = hdr.encode_into(&mut head) {
            return Err(Error::Header(HeaderEncodeError::Validation(e)));
        }
        let compress = hdr.flags.contains(HeaderFlags::compress_lz4());
        let enc = Encoder {
            head,
            body: Vec::new(),
            page_size: hdr.page_size,
            is_snapshot: hdr.is_snapshot(),
            compress,
            last_page_num: None,
            header: Ghost(hdr@),
            pages: Ghost(Seq::empty()),
        };
        proof {
            assert(enc.body@ =~= spec_records_bytes(enc.pages@));
        }
        Ok(enc)
    }

    /// Check one page number against the lock-page rule and the mode's
    /// ordering rule.
    fn validate_page_num(&self, page_num: PageNum) -> (r: Result<(), Error>)
        requires
            self.wf(),
        ensures
            r == spec_validate_page_num(
                spec_is_snapshot(self.header()),
                spec_lock_page(self.header().page_size),
                self.last_page(),
                page_num@,
            ),
    {
        let lock = PageNum::lock_page(self.page_size);
        let n = page_num.into_inner();
        if n == lock.into_inner() {
            return Err(Error::LockPage(n));
        }
        if self.is_snapshot {
            match self.last_page_num {
                None => {
                    if n != 1 {
                        return Err(Error::FirstSnapshotPage);
                    }
                },
                Some(last) => {
                    let l = last.into_inner();
                    let ok = if l as u64 + 1 == lock.into_inner() as u64 {
                        n as u64 == l as u64 + 2
                    } else {
                        n as u64 == l as u64 + 1
                    };
                    if !ok {
                        return Err(Error::NonsequentialPages(l, n));
                    }
                },
            }
        } else {
            if let Some(last) = self.last_page_num {
                let l = last.into_inner();
                if l >= n {
                    return Err(Error::OutOfOrderPage(l, n));
                }
            }
        }
        Ok(())
    }

    /// Encode a page with the given `page_num` and `data`.
    ///
    /// The page is rejected when it is the lock page, when it breaks the
    /// mode's ordering rule (snapshots walk every page from 1 upward and skip
    /// the lock page; incremental files need strictly increasing numbers), or
    /// when `data` is not exactly one page long. A rejected page leaves the
    /// encoder unchanged, but the session should be discarded: already
    /// written bytes cannot be retracted.
    pub fn encode_page(&mut self, page_num: PageNum, data: &[u8]) -> (r: Result<(), Error>)
        requires
            old(self).wf(),
        ensures
            final(self).wf(),
            r == spec_page_check(
                spec_is_snapshot(old(self).header()),
                spec_lock_page(old(self).header().page_size),
                old(self).last_page(),
                page_num@,
                data@.len() as int,
                old(self).header().page_size,
            ),
            final(self).header() == old(self).header(),
            r is Ok ==> final(self).pages() == old(self).pages().push((page_num@, data@))
                && final(self).last_page() == Some(page_num@),
            r is Err ==> *final(self) == *old(self),
    {
        proof {
            use_type_invariant(&page_num);
        }
        if let Err(e) = self.validate_page_num(page_num) {
            return Err(e);
        }
        if data.len() != self.page_size.into_inner() as usize {
            return Err(Error::InvalidBufferSize(data.len(), self.page_size.into_inner()));
        }
        let n = page_num.into_inner();
        push_be32(&mut self.body, n);
        self.body.extend_from_slice(data);
        self.last_page_num = Some(page_num);
        proof {
            crate::ltx::lemma_records_push(self.pages@, page_num@, data@);
            lemma_pages_valid_push(self.header@, self.pages@, page_num@, data@);
        }
        self.pages = Ghost(self.pages@.push((page_num@, data@)));
        proof {
            assert(self.body@ =~= spec_records_bytes(self.pages@));
        }
        Ok(())
    }

    /// Consume the encoder: write the sentinel page header, compress the page
    /// stream when compression is on, compute the whole-file checksum, and
    /// append the trailer. Returns the finished file bytes and the trailer.
    pub fn finish(self, post_apply_checksum: Checksum) -> (r: (Vec<u8>, Trailer))
        requires
            self.wf(),
        ensures
            r.0@ == spec_file_bytes(self.header(), self.pages(), post_apply_checksum@),
            r.1@ == (TrailerV {
                post_apply_checksum: post_apply_checksum@,
                file_checksum: spec_file_checksum(
                    self.header(),
                    self.pages(),
                    post_apply_checksum@,
                ),
            }),
    {
        let ghost h = self.header@;
        let ghost pages = self.pages@;
        let ghost post = post_apply_checksum@;
        let mut body = self.body;
        push_be32(&mut body, 0);
        proof {
            assert(body@ =~= spec_body_bytes(pages));
        }
        let mut dom: Vec<u8> = Vec::new();
        dom.extend_from_slice(self.head.as_slice());
        dom.extend_from_slice(body.as_slice());
        crate::wire::push_be64(&mut dom, post_apply_checksum.into_inner());
        proof {
            assert(dom@ =~= spec_checksum_domain(h, pages, post));
        }
        let file_checksum = Checksum::new(crc64(dom.as_slice()));
        let trailer = Trailer { post_apply_checksum, file_checksum };
        let mut out = self.head;
        if self.compress {
            let compressed = lz4_compress(body.as_slice());
            out.extend_from_slice(compressed.as_slice());
        } else {
            out.extend_from_slice(body.as_slice());
        }
        trailer.encode_into(&mut out);
        proof {
            assert(out@ =~= spec_file_bytes(h, pages, post));
        }
        (out, trailer)
    }
}

} // verus!
