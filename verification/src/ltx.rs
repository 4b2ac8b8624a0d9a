//! The fixed-layout records of an LTX file: header, per-page record marker,
//! and trailer, together with the checksum the whole file is protected by.

use vstd::prelude::*;

use crate::types::{
    page_size_valid, Checksum, PageNum, PageNumError, PageSize, PageSizeError, TXIDError, TXID,
    CHECKSUM_FLAG,
};
use crate::wire::{be32, be32_of, be64, be64_of, push_be32, push_be64, read_be32, read_be64};

verus! {

/// The size of an encoded header in bytes.
pub const HEADER_SIZE: usize = 100;

/// The size of an encoded trailer in bytes.
pub const TRAILER_SIZE: usize = 16;

/// The size of an encoded page header in bytes.
pub const PAGE_HEADER_SIZE: usize = 4;

/// The flag bit that enables whole-stream LZ4 compression.
pub const FLAG_COMPRESS_LZ4: u32 = 1;

/// Every flag bit that is not assigned a meaning; such bits must be zero.
pub const FLAG_UNKNOWN_MASK: u32 = 0xffff_fffe;

/// The checksum of a byte string under the 64-bit GO-ISO CRC.
pub uninterp spec fn crc64_of(bytes: Seq<u8>) -> u64;

/// Relies on `crc::Crc::<u64>::checksum` with the `CRC_64_GO_ISO` algorithm:
/// a table-driven computation whose result depends on the input bytes alone,
/// and which cannot fail or panic.
#[verifier::external_body]
pub(crate) fn crc64(data: &[u8]) -> (r: u64)
    ensures
        r == crc64_of(data@),
{
    crc::Crc::<u64>::new(&crc::CRC_64_GO_ISO).checksum(data)
}

/// Flags changing the behavior of the LTX encoder/decoder. Only the LZ4
/// compression bit is assigned; all other bits are invalid.
#[derive(Clone, Copy, Debug, PartialEq, Eq)]
pub struct HeaderFlags {
    bits: u32,
}

impl View for HeaderFlags {
    type V = u32;

    closed spec fn view(&self) -> u32 {
        self.bits
    }
}

impl HeaderFlags {
    #[verifier::type_invariant]
    pub open spec fn inv(self) -> bool {
        self@ & FLAG_UNKNOWN_MASK == 0
    }

    /// The empty flag set.
    pub fn empty() -> (r: HeaderFlags)
        ensures
            r@ == 0,
    {
        proof {
            assert(0u32 & FLAG_UNKNOWN_MASK == 0) by (bit_vector);
        }
        HeaderFlags { bits: 0 }
    }

    /// The flag set holding only the LZ4 compression bit.
    pub fn compress_lz4() -> (r: HeaderFlags)
        ensures
            r@ == FLAG_COMPRESS_LZ4,
    {
        proof {
            assert(1u32 & 0xffff_fffeu32 == 0) by (bit_vector);
        }
        HeaderFlags { bits: FLAG_COMPRESS_LZ4 }
    }

    /// The flag set for a raw bit pattern; `None` when an unassigned bit is
    /// set.
    pub fn from_bits(bits: u32) -> (r: Option<HeaderFlags>)
        ensures
            bits & FLAG_UNKNOWN_MASK == 0 ==> (r matches Some(f) && f@ == bits),
            bits & FLAG_UNKNOWN_MASK != 0 ==> r is None,
    {
        if bits & FLAG_UNKNOWN_MASK == 0 {
            Some(HeaderFlags { bits })
        } else {
            None
        }
    }

    /// The raw bit pattern of the flag set.
    pub fn bits(&self) -> (r: u32)
        ensures
            r == self@,
            r & FLAG_UNKNOWN_MASK == 0,
    {
        proof {
            use_type_invariant(self);
        }
        self.bits
    }

    /// Whether every bit of `other` is set in `self`.
    pub fn contains(&self, other: HeaderFlags) -> (r: bool)
        ensures
            r == (self@ & other@ == other@),
    {
        (self.bits & other.bits) == other.bits
    }
}

/// A header validation error. The two transaction IDs of `TXIDOrder` are the
/// offending `min_txid` and `max_txid` values.
#[derive(Clone, Copy, Debug, PartialEq, Eq)]
pub enum HeaderValidateError {
    /// `min_txid` is greater than `max_txid`.
    TXIDOrder(u64, u64),
    /// A snapshot file carries a pre-apply checksum.
    PreApplyChecksumOnSnapshot,
    /// A non-snapshot file is missing its pre-apply checksum.
    NoPreApplyChecksum,
}

/// A header encoding error.
#[derive(Clone, Copy, Debug, PartialEq, Eq)]
pub enum HeaderEncodeError {
    /// The header's fields are inconsistent.
    Validation(HeaderValidateError),
}

/// A header decoding error, naming the offending field.
#[derive(Clone, Copy, Debug, PartialEq, Eq)]
pub enum HeaderDecodeError {
    /// Fewer bytes than a header needs.
    UnexpectedEnd,
    /// The magic bytes are wrong; holds the four bytes read, big-endian.
    Magic(u32),
    /// An unassigned flag bit is set; holds the flags read.
    Flags(u32),
    /// The page size field is invalid.
    PageSize(PageSizeError),
    /// The commit (page count) field is zero.
    Commit(PageNumError),
    /// The minimum transaction ID field is invalid.
    MinTXID(TXIDError),
    /// The maximum transaction ID field is invalid.
    MaxTXID(TXIDError),
    /// The fields decode but are inconsistent with each other.
    Validation(HeaderValidateError),
}

/// The mathematical content of a header: its fields as plain integers, with
/// an absent pre-apply checksum as `None`.
pub struct HeaderV {
    pub flags: u32,
    pub page_size: u32,
    pub commit: u32,
    pub min_txid: u64,
    pub max_txid: u64,
    pub timestamp: u64,
    pub pre_apply_checksum: Option<u64>,
}

/// Whether the header describes a snapshot: a full database image rather
/// than an incremental delta.
pub open spec fn spec_is_snapshot(h: HeaderV) -> bool {
    h.min_txid == 1
}

/// Whether the header enables LZ4 compression of the page stream.
pub open spec fn spec_is_compressed(h: HeaderV) -> bool {
    h.flags & FLAG_COMPRESS_LZ4 == FLAG_COMPRESS_LZ4
}

/// The outcome of validating a header's cross-field invariants, in the order
/// the checks are made.
pub open spec fn spec_validate(h: HeaderV) -> Result<(), HeaderValidateError> {
    if h.min_txid > h.max_txid {
        Err(HeaderValidateError::TXIDOrder(h.min_txid, h.max_txid))
    } else if spec_is_snapshot(h) && h.pre_apply_checksum is Some {
        Err(HeaderValidateError::PreApplyChecksumOnSnapshot)
    } else if !spec_is_snapshot(h) && h.pre_apply_checksum is None {
        Err(HeaderValidateError::NoPreApplyChecksum)
    } else {
        Ok(())
    }
}

/// Whether every field of the header is individually and jointly valid, so
/// that the header survives an encode/decode round trip unchanged.
pub open spec fn spec_header_valid(h: HeaderV) -> bool {
    &&& h.flags & FLAG_UNKNOWN_MASK == 0
    &&& page_size_valid(h.page_size)
    &&& h.commit != 0
    &&& h.min_txid != 0
    &&& h.max_txid != 0
    &&& spec_validate(h) is Ok
    &&& (h.pre_apply_checksum matches Some(c) ==> c & CHECKSUM_FLAG == CHECKSUM_FLAG)
}

/// The four magic bytes `"LTX1"`.
pub open spec fn spec_magic() -> Seq<u8> {
    seq![0x4cu8, 0x54u8, 0x58u8, 0x31u8]
}

/// The wire value of an optional checksum: zero means absent.
pub open spec fn spec_pre_apply_wire(h: HeaderV) -> u64 {
    match h.pre_apply_checksum {
        Some(c) => c,
        None => 0,
    }
}

/// The 100 bytes of an encoded header: magic, five big-endian fields, the
/// optional pre-apply checksum, and zero padding.
pub open spec fn spec_header_bytes(h: HeaderV) -> Seq<u8> {
    spec_magic() + be32(h.flags) + be32(h.page_size) + be32(h.commit) + be64(h.min_txid) + be64(
    h.max_txid) + be64(h.timestamp) + be64(spec_pre_apply_wire(h)) + Seq::new(52, |i: int| 0u8)
}

/// What decoding a header from the first 100 bytes of `b` yields, checking
/// the fields in wire order and then the cross-field invariants.
pub open spec fn spec_parse_header(b: Seq<u8>) -> Result<HeaderV, HeaderDecodeError> {
    if b.len() < 100 {
        Err(HeaderDecodeError::UnexpectedEnd)
    } else if b.subrange(0, 4) != spec_magic() {
        Err(HeaderDecodeError::Magic(be32_of(b.subrange(0, 4))))
    } else {
        let flags = be32_of(b.subrange(4, 8));
        if flags & FLAG_UNKNOWN_MASK != 0 {
            Err(HeaderDecodeError::Flags(flags))
        } else {
            let page_size = be32_of(b.subrange(8, 12));
            if !page_size_valid(page_size) {
                Err(HeaderDecodeError::PageSize(PageSizeError(page_size)))
            } else {
                let commit = be32_of(b.subrange(12, 16));
                if commit == 0 {
                    Err(HeaderDecodeError::Commit(PageNumError))
                } else {
                    let min_txid = be64_of(b.subrange(16, 24));
                    if min_txid == 0 {
                        Err(HeaderDecodeError::MinTXID(TXIDError::Zero))
                    } else {
                        let max_txid = be64_of(b.subrange(24, 32));
                        if max_txid == 0 {
                            Err(HeaderDecodeError::MaxTXID(TXIDError::Zero))
                        } else {
                            let timestamp = be64_of(b.subrange(32, 40));
                            let pre = be64_of(b.subrange(40, 48));
                            let h = HeaderV {
                                flags,
                                page_size,
                                commit,
                                min_txid,
                                max_txid,
                                timestamp,
                                pre_apply_checksum: if pre != 0 {
                                    Some(pre | CHECKSUM_FLAG)
                                } else {
                                    None
                                },
                            };
                            match spec_validate(h) {
                                Err(e) => Err(HeaderDecodeError::Validation(e)),
                                Ok(_) => Ok(h),
                            }
                        }
                    }
                }
            }
        }
    }
}

/// A decoded header is always fully valid: every field check was made on the
/// way in, and the stored pre-apply checksum keeps its forced top bit.
pub proof fn lemma_parse_header_valid(b: Seq<u8>)
    requires
        spec_parse_header(b) is Ok,
    ensures
        spec_header_valid(spec_parse_header(b)->Ok_0),
{
    let pre = be64_of(b.subrange(40, 48));
    assert((pre | CHECKSUM_FLAG) & CHECKSUM_FLAG == CHECKSUM_FLAG) by (bit_vector);
}

/// The header bytes are always exactly 100 bytes long.
pub proof fn lemma_header_bytes_len(h: HeaderV)
    ensures
        spec_header_bytes(h).len() == 100,
{
}

/// Round trip: decoding an encoded valid header yields that header back,
/// whatever follows it in the byte stream.
pub proof fn lemma_header_round_trip(h: HeaderV, rest: Seq<u8>)
    requires
        spec_header_valid(h),
    ensures
        spec_parse_header(spec_header_bytes(h) + rest) == Ok::<HeaderV, HeaderDecodeError>(h),
{
    let b = spec_header_bytes(h) + rest;
    crate::wire::lemma_be32_round_trip(h.flags);
    crate::wire::lemma_be32_round_trip(h.page_size);
    crate::wire::lemma_be32_round_trip(h.commit);
    crate::wire::lemma_be64_round_trip(h.min_txid);
    crate::wire::lemma_be64_round_trip(h.max_txid);
    crate::wire::lemma_be64_round_trip(h.timestamp);
    crate::wire::lemma_be64_round_trip(spec_pre_apply_wire(h));
    assert(b.subrange(0, 4) =~= spec_magic());
    assert(b.subrange(4, 8) =~= be32(h.flags));
    assert(b.subrange(8, 12) =~= be32(h.page_size));
    assert(b.subrange(12, 16) =~= be32(h.commit));
    assert(b.subrange(16, 24) =~= be64(h.min_txid));
    assert(b.subrange(24, 32) =~= be64(h.max_txid));
    assert(b.subrange(32, 40) =~= be64(h.timestamp));
    assert(b.subrange(40, 48) =~= be64(spec_pre_apply_wire(h)));
    match h.pre_apply_checksum {
        Some(c) => {
            assert(c & 0x8000_0000_0000_0000u64 == 0x8000_0000_0000_0000u64 ==> c != 0 && (c
                | 0x8000_0000_0000_0000u64) == c) by (bit_vector);
            assert(spec_parse_header(b)->Ok_0 =~= h);
        },
        None => {
            assert(spec_parse_header(b)->Ok_0 =~= h);
        },
    }
}

/// Round trip: decoding an encoded trailer yields that trailer back,
/// whatever follows it in the byte stream.
pub proof fn lemma_trailer_round_trip(t: TrailerV, rest: Seq<u8>)
    requires
        t.post_apply_checksum & CHECKSUM_FLAG == CHECKSUM_FLAG,
        t.file_checksum & CHECKSUM_FLAG == CHECKSUM_FLAG,
    ensures
        spec_parse_trailer(spec_trailer_bytes(t) + rest) == Ok::<TrailerV, TrailerDecodeError>(t),
{
    let b = spec_trailer_bytes(t) + rest;
    crate::wire::lemma_be64_round_trip(t.post_apply_checksum);
    crate::wire::lemma_be64_round_trip(t.file_checksum);
    assert(b.subrange(0, 8) =~= be64(t.post_apply_checksum));
    assert(b.subrange(8, 16) =~= be64(t.file_checksum));
    assert(spec_parse_trailer(b)->Ok_0 =~= t);
}

/// Round trip: decoding an encoded page header yields the page number back
/// (or the sentinel), whatever follows it in the byte stream.
pub proof fn lemma_page_header_round_trip(p: Option<u32>, rest: Seq<u8>)
    requires
        p matches Some(n) ==> n != 0,
    ensures
        spec_parse_page_header(spec_page_header_bytes(p) + rest) == Ok::<
            Option<u32>,
            PageHeaderDecodeError,
        >(p),
{
    let n = match p {
        Some(n) => n,
        None => 0,
    };
    let b = spec_page_header_bytes(p) + rest;
    crate::wire::lemma_be32_round_trip(n);
    assert(b.subrange(0, 4) =~= be32(n));
}

/// Parsing a header reads only the first 100 bytes.
pub proof fn lemma_parse_header_prefix(b: Seq<u8>)
    requires
        b.len() >= 100,
    ensures
        spec_parse_header(b.take(100)) == spec_parse_header(b),
{
    let t = b.take(100);
    assert(t.subrange(0, 4) =~= b.subrange(0, 4));
    assert(t.subrange(4, 8) =~= b.subrange(4, 8));
    assert(t.subrange(8, 12) =~= b.subrange(8, 12));
    assert(t.subrange(12, 16) =~= b.subrange(12, 16));
    assert(t.subrange(16, 24) =~= b.subrange(16, 24));
    assert(t.subrange(24, 32) =~= b.subrange(24, 32));
    assert(t.subrange(32, 40) =~= b.subrange(32, 40));
    assert(t.subrange(40, 48) =~= b.subrange(40, 48));
}

/// An LTX file header.
#[derive(Clone, Copy, Debug, PartialEq, Eq)]
pub struct Header {
    /// Flags changing the behavior of the LTX encoder/decoder.
    pub flags: HeaderFlags,
    /// The size of the database pages encoded in the file.
    pub page_size: PageSize,
    /// The size of the database in pages.
    pub commit: PageNum,
    /// Minimum transaction ID in the file.
    pub min_txid: TXID,
    /// Maximum transaction ID in the file. May be equal to `min_txid` if the
    /// file contains only one transaction.
    pub max_txid: TXID,
    /// The time when the LTX file was created, in milliseconds since the Unix
    /// epoch.
    pub timestamp: u64,
    /// Running database checksum before this LTX file is applied. `None` if
    /// the LTX file contains the full snapshot of a database.
    pub pre_apply_checksum: Option<Checksum>,
}

impl View for Header {
    type V = HeaderV;

    open spec fn view(&self) -> HeaderV {
        HeaderV {
            flags: self.flags@,
            page_size: self.page_size@,
            commit: self.commit@,
            min_txid: self.min_txid@,
            max_txid: self.max_txid@,
            timestamp: self.timestamp,
            pre_apply_checksum: match self.pre_apply_checksum {
                Some(c) => Some(c@),
                None => None,
            },
        }
    }
}

impl Header {
    /// Whether this header describes a snapshot.
    pub fn is_snapshot(&self) -> (r: bool)
        ensures
            r == spec_is_snapshot(self@),
    {
        self.min_txid.into_inner() == 1
    }

    /// Check the cross-field invariants: ordered transaction IDs, and a
    /// pre-apply checksum exactly when the file is not a snapshot.
    pub fn validate(&self) -> (r: Result<(), HeaderValidateError>)
        ensures
            r == spec_validate(self@),
            r is Ok ==> spec_header_valid(self@),
    {
        proof {
            use_type_invariant(&self.flags);
            use_type_invariant(&self.page_size);
            use_type_invariant(&self.commit);
            use_type_invariant(&self.min_txid);
            use_type_invariant(&self.max_txid);
            if let Some(c) = self.pre_apply_checksum {
                use_type_invariant(&c);
            }
        }
        if self.min_txid.into_inner() > self.max_txid.into_inner() {
            return Err(HeaderValidateError::TXIDOrder(
                self.min_txid.into_inner(),
                self.max_txid.into_inner(),
            ));
        }
        let snapshot = self.is_snapshot();
        if snapshot && self.pre_apply_checksum.is_some() {
            return Err(HeaderValidateError::PreApplyChecksumOnSnapshot);
        }
        if !snapshot && self.pre_apply_checksum.is_none() {
            return Err(HeaderValidateError::NoPreApplyChecksum);
        }
        Ok(())
    }

    /// Append the 100 header bytes to `out` after validating the header; an
    /// invalid header leaves `out` untouched.
    pub fn encode_into(&self, out: &mut Vec<u8>) -> (r: Result<(), HeaderEncodeError>)
        ensures
            spec_validate(self@) matches Err(e) ==> r == Err::<(), HeaderEncodeError>(
                HeaderEncodeError::Validation(e),
            ) && final(out)@ == old(out)@,
            spec_validate(self@) is Ok ==> r is Ok && final(out)@ == old(out)@
                + spec_header_bytes(self@) && spec_header_valid(self@),
    {
        if let Err(e) = self.validate() {
            return Err(HeaderEncodeError::Validation(e));
        }
        let ghost base = out@;
        out.push(0x4c);
        out.push(0x54);
        out.push(0x58);
        out.push(0x31);
        push_be32(out, self.flags.bits());
        push_be32(out, self.page_size.into_inner());
        push_be32(out, self.commit.into_inner());
        push_be64(out, self.min_txid.into_inner());
        push_be64(out, self.max_txid.into_inner());
        push_be64(out, self.timestamp);
        let pre: u64 = match &self.pre_apply_checksum {
            Some(c) => c.into_inner(),
            None => 0,
        };
        push_be64(out, pre);
        let ghost before_pad = out@;
        let mut k: usize = 0;
        while k < 52
            invariant
                k <= 52,
                out@ == before_pad + Seq::new(k as nat, |i: int| 0u8),
            decreases 52 - k,
        {
            out.push(0);
            proof {
                assert(out@ =~= before_pad + Seq::new(k as nat + 1, |i: int| 0u8));
            }
            k = k + 1;
        }
        proof {
            assert(out@ =~= base + spec_header_bytes(self@));
        }
        Ok(())
    }

    /// Decode a header from the first 100 bytes of `data`, re-checking every
    /// field and the cross-field invariants.
    pub fn decode_from(data: &[u8]) -> (r: Result<Header, HeaderDecodeError>)
        ensures
            spec_parse_header(data@) matches Err(e) ==> r == Err::<Header, HeaderDecodeError>(e),
            spec_parse_header(data@) matches Ok(hv) ==> (r matches Ok(h) && h@ == hv),
    {
        if data.len() < HEADER_SIZE {
            return Err(HeaderDecodeError::UnexpectedEnd);
        }
        if data[0] != 0x4c || data[1] != 0x54 || data[2] != 0x58 || data[3] != 0x31 {
            proof {
                assert(data@.subrange(0, 4) != spec_magic());
            }
            return Err(HeaderDecodeError::Magic(read_be32(data, 0)));
        }
        proof {
            assert(data@.subrange(0, 4) =~= spec_magic());
        }
        let raw_flags = read_be32(data, 4);
        let flags = match HeaderFlags::from_bits(raw_flags) {
            Some(f) => f,
            None => {
                return Err(HeaderDecodeError::Flags(raw_flags));
            },
        };
        let page_size = match PageSize::new(read_be32(data, 8)) {
            Ok(s) => s,
            Err(e) => {
                return Err(HeaderDecodeError::PageSize(e));
            },
        };
        let commit = match PageNum::new(read_be32(data, 12)) {
            Ok(n) => n,
            Err(e) => {
                return Err(HeaderDecodeError::Commit(e));
            },
        };
        let min_txid = match TXID::new(read_be64(data, 16)) {
            Ok(t) => t,
            Err(e) => {
                return Err(HeaderDecodeError::MinTXID(e));
            },
        };
        let max_txid = match TXID::new(read_be64(data, 24)) {
            Ok(t) => t,
            Err(e) => {
                return Err(HeaderDecodeError::MaxTXID(e));
            },
        };
        let timestamp = read_be64(data, 32);
        let pre = read_be64(data, 40);
        let pre_apply_checksum = if pre != 0 {
            Some(Checksum::new(pre))
        } else {
            None
        };
        let h = Header { flags, page_size, commit, min_txid, max_txid, timestamp, pre_apply_checksum };
        if let Err(e) = h.validate() {
            return Err(HeaderDecodeError::Validation(e));
        }
        Ok(h)
    }
}

/// A trailer decoding error.
#[derive(Clone, Copy, Debug, PartialEq, Eq)]
pub enum TrailerDecodeError {
    /// Fewer bytes than a trailer needs.
    UnexpectedEnd,
    /// The post-apply checksum field does not carry the forced top bit; holds
    /// the value read.
    PostApplyChecksum(u64),
    /// The file checksum field does not carry the forced top bit; holds the
    /// value read.
    FileChecksum(u64),
}

/// The mathematical content of a trailer: its two checksums as plain
/// integers.
pub struct TrailerV {
    pub post_apply_checksum: u64,
    pub file_checksum: u64,
}

/// The 16 bytes of an encoded trailer.
pub open spec fn spec_trailer_bytes(t: TrailerV) -> Seq<u8> {
    be64(t.post_apply_checksum) + be64(t.file_checksum)
}

/// What decoding a trailer from the first 16 bytes of `b` yields. Both
/// checksum fields must carry the forced top bit.
pub open spec fn spec_parse_trailer(b: Seq<u8>) -> Result<TrailerV, TrailerDecodeError> {
    if b.len() < 16 {
        Err(TrailerDecodeError::UnexpectedEnd)
    } else {
        let post = be64_of(b.subrange(0, 8));
        let file = be64_of(b.subrange(8, 16));
        if post & CHECKSUM_FLAG != CHECKSUM_FLAG {
            Err(TrailerDecodeError::PostApplyChecksum(post))
        } else if file & CHECKSUM_FLAG != CHECKSUM_FLAG {
            Err(TrailerDecodeError::FileChecksum(file))
        } else {
            Ok(TrailerV { post_apply_checksum: post, file_checksum: file })
        }
    }
}

/// An LTX file trailer.
#[derive(Clone, Copy, Debug, PartialEq, Eq)]
pub struct Trailer {
    /// Running database checksum after this LTX file has been applied.
    pub post_apply_checksum: Checksum,
    /// LTX file checksum.
    pub file_checksum: Checksum,
}

impl View for Trailer {
    type V = TrailerV;

    open spec fn view(&self) -> TrailerV {
        TrailerV {
            post_apply_checksum: self.post_apply_checksum@,
            file_checksum: self.file_checksum@,
        }
    }
}

impl Trailer {
    /// Append the 16 trailer bytes to `out`.
    pub fn encode_into(&self, out: &mut Vec<u8>)
        ensures
            final(out)@ == old(out)@ + spec_trailer_bytes(self@),
    {
        push_be64(out, self.post_apply_checksum.into_inner());
        push_be64(out, self.file_checksum.into_inner());
        proof {
            assert(out@ =~= old(out)@ + spec_trailer_bytes(self@));
        }
    }

    /// Decode a trailer from the first 16 bytes of `data`.
    pub fn decode_from(data: &[u8]) -> (r: Result<Trailer, TrailerDecodeError>)
        ensures
            spec_parse_trailer(data@) matches Err(e) ==> r == Err::<Trailer, TrailerDecodeError>(
                e,
            ),
            spec_parse_trailer(data@) matches Ok(tv) ==> (r matches Ok(t) && t@ == tv),
    {
        if data.len() < TRAILER_SIZE {
            return Err(TrailerDecodeError::UnexpectedEnd);
        }
        let post = read_be64(data, 0);
        let file = read_be64(data, 8);
        if post & CHECKSUM_FLAG != CHECKSUM_FLAG {
            return Err(TrailerDecodeError::PostApplyChecksum(post));
        }
        if file & CHECKSUM_FLAG != CHECKSUM_FLAG {
            return Err(TrailerDecodeError::FileChecksum(file));
        }
        proof {
            assert(post & 0x8000_0000_0000_0000u64 == 0x8000_0000_0000_0000u64 ==> post
                | 0x8000_0000_0000_0000u64 == post) by (bit_vector);
            assert(file & 0x8000_0000_0000_0000u64 == 0x8000_0000_0000_0000u64 ==> file
                | 0x8000_0000_0000_0000u64 == file) by (bit_vector);
        }
        Ok(Trailer { post_apply_checksum: Checksum::new(post), file_checksum: Checksum::new(file) })
    }
}

/// A page header decoding error.
#[derive(Clone, Copy, Debug, PartialEq, Eq)]
pub enum PageHeaderDecodeError {
    /// Fewer bytes than a page header needs.
    UnexpectedEnd,
}

/// The four bytes of an encoded page header: the page number, with zero for
/// the end-of-pages sentinel.
pub open spec fn spec_page_header_bytes(p: Option<u32>) -> Seq<u8> {
    be32(
        match p {
            Some(n) => n,
            None => 0,
        },
    )
}

/// What decoding a page header from the first 4 bytes of `b` yields: a page
/// number, or `None` for the sentinel.
pub open spec fn spec_parse_page_header(b: Seq<u8>) -> Result<
    Option<u32>,
    PageHeaderDecodeError,
> {
    if b.len() < 4 {
        Err(PageHeaderDecodeError::UnexpectedEnd)
    } else {
        let n = be32_of(b.subrange(0, 4));
        if n != 0 {
            Ok(Some(n))
        } else {
            Ok(None)
        }
    }
}

/// A per-page record marker: a page number, or the end-of-pages sentinel.
#[derive(Clone, Copy, Debug, PartialEq, Eq)]
pub struct PageHeader(pub Option<PageNum>);

impl View for PageHeader {
    type V = Option<u32>;

    open spec fn view(&self) -> Option<u32> {
        match self.0 {
            Some(n) => Some(n@),
            None => None,
        }
    }
}

impl PageHeader {
    /// Append the 4 page-header bytes to `out`.
    pub fn encode_into(&self, out: &mut Vec<u8>)
        ensures
            final(out)@ == old(out)@ + spec_page_header_bytes(self@),
    {
        let n: u32 = match &self.0 {
            Some(p) => p.into_inner(),
            None => 0,
        };
        push_be32(out, n);
    }

    /// Decode a page header from the first 4 bytes of `data`.
    pub fn decode_from(data: &[u8]) -> (r: Result<PageHeader, PageHeaderDecodeError>)
        ensures
            spec_parse_page_header(data@) matches Err(e) ==> r == Err::<
                PageHeader,
                PageHeaderDecodeError,
            >(e),
            spec_parse_page_header(data@) matches Ok(p) ==> (r matches Ok(h) && h@ == p),
    {
        if data.len() < PAGE_HEADER_SIZE {
            return Err(PageHeaderDecodeError::UnexpectedEnd);
        }
        let n = read_be32(data, 0);
        if n != 0 {
            let p = match PageNum::new(n) {
                Ok(p) => p,
                Err(_) => {
                    return Err(PageHeaderDecodeError::UnexpectedEnd);
                },
            };
            Ok(PageHeader(Some(p)))
        } else {
            Ok(PageHeader(None))
        }
    }
}

/// The LZ4 frame holding a byte string, as the frame encoder with a 64 KB
/// block size produces it. The decoder consumes exactly such a frame and
/// yields the bytes that were compressed into it.
pub uninterp spec fn lz4_frame_of(bytes: Seq<u8>) -> Seq<u8>;

/// The bytes of one page record: the page number followed by the page data.
pub open spec fn spec_page_record_bytes(pgno: u32, data: Seq<u8>) -> Seq<u8> {
    be32(pgno) + data
}

/// The bytes of a run of page records, in order.
pub open spec fn spec_records_bytes(pages: Seq<(u32, Seq<u8>)>) -> Seq<u8>
    decreases pages.len(),
{
    if pages.len() == 0 {
        Seq::empty()
    } else {
        spec_page_record_bytes(pages[0].0, pages[0].1) + spec_records_bytes(pages.drop_first())
    }
}

/// Appending one page appends its record bytes.
pub proof fn lemma_records_push(pages: Seq<(u32, Seq<u8>)>, pgno: u32, data: Seq<u8>)
    ensures
        spec_records_bytes(pages.push((pgno, data))) == spec_records_bytes(pages)
            + spec_page_record_bytes(pgno, data),
    decreases pages.len(),
{
    let whole = pages.push((pgno, data));
    assert(whole.len() == pages.len() + 1);
    if pages.len() == 0 {
        assert(whole[0] == (pgno, data));
        assert(whole.drop_first() =~= Seq::<(u32, Seq<u8>)>::empty());
        assert(spec_records_bytes(whole.drop_first()) =~= Seq::<u8>::empty());
        assert(spec_records_bytes(whole) =~= spec_records_bytes(pages) + spec_page_record_bytes(
            pgno,
            data,
        ));
    } else {
        assert(whole[0] == pages[0]);
        assert(whole.drop_first() =~= pages.drop_first().push((pgno, data)));
        lemma_records_push(pages.drop_first(), pgno, data);
        assert(spec_records_bytes(whole) == spec_page_record_bytes(pages[0].0, pages[0].1)
            + (spec_records_bytes(pages.drop_first()) + spec_page_record_bytes(pgno, data)));
        assert(spec_records_bytes(whole) =~= spec_records_bytes(pages) + spec_page_record_bytes(
            pgno,
            data,
        ));
    }
}

/// The records of two runs laid side by side are the records of the two runs
/// joined.
pub proof fn lemma_records_concat(a: Seq<(u32, Seq<u8>)>, b: Seq<(u32, Seq<u8>)>)
    ensures
        spec_records_bytes(a + b) == spec_records_bytes(a) + spec_records_bytes(b),
    decreases a.len(),
{
    if a.len() == 0 {
        assert(a + b =~= b);
        assert(spec_records_bytes(a) =~= Seq::<u8>::empty());
        assert(spec_records_bytes(a + b) =~= spec_records_bytes(a) + spec_records_bytes(b));
    } else {
        assert((a + b)[0] == a[0]);
        assert((a + b).drop_first() =~= a.drop_first() + b);
        lemma_records_concat(a.drop_first(), b);
        assert(spec_records_bytes(a + b) =~= spec_records_bytes(a) + spec_records_bytes(b));
    }
}

/// The record bytes of page `j` sit between the records before it and the
/// records after it.
pub proof fn lemma_records_decompose(pages: Seq<(u32, Seq<u8>)>, j: int)
    requires
        0 <= j < pages.len(),
    ensures
        spec_records_bytes(pages.take(j + 1)) == spec_records_bytes(pages.take(j))
            + spec_page_record_bytes(pages[j].0, pages[j].1),
        spec_records_bytes(pages) == spec_records_bytes(pages.take(j)) + spec_page_record_bytes(
            pages[j].0,
            pages[j].1,
        ) + spec_records_bytes(pages.skip(j + 1)),
{
    assert(pages.take(j + 1) =~= pages.take(j).push(pages[j]));
    lemma_records_push(pages.take(j), pages[j].0, pages[j].1);
    assert(pages =~= pages.take(j + 1) + pages.skip(j + 1));
    lemma_records_concat(pages.take(j + 1), pages.skip(j + 1));
}

/// The page stream of a file: every page record followed by the sentinel.
pub open spec fn spec_body_bytes(pages: Seq<(u32, Seq<u8>)>) -> Seq<u8> {
    spec_records_bytes(pages) + be32(0)
}

/// Every byte the whole-file checksum is computed over: the header, the
/// (uncompressed) page stream with its sentinel, and the post-apply checksum
/// of the trailer. The trailer's own file-checksum field is the one part of
/// the file the checksum cannot cover.
pub open spec fn spec_checksum_domain(h: HeaderV, pages: Seq<(u32, Seq<u8>)>, post: u64) -> Seq<
    u8,
> {
    spec_header_bytes(h) + spec_body_bytes(pages) + be64(post)
}

/// The whole-file checksum: the CRC of the checksum domain with the top bit
/// forced to one.
pub open spec fn spec_file_checksum(h: HeaderV, pages: Seq<(u32, Seq<u8>)>, post: u64) -> u64 {
    crc64_of(spec_checksum_domain(h, pages, post)) | CHECKSUM_FLAG
}

/// The complete encoded file: header, page stream (LZ4-framed when the
/// header's compression flag is set), and trailer.
pub open spec fn spec_file_bytes(h: HeaderV, pages: Seq<(u32, Seq<u8>)>, post: u64) -> Seq<u8> {
    let payload = spec_body_bytes(pages);
    let trailer = be64(post) + be64(spec_file_checksum(h, pages, post));
    if spec_is_compressed(h) {
        spec_header_bytes(h) + lz4_frame_of(payload) + trailer
    } else {
        spec_header_bytes(h) + payload + trailer
    }
}

/// A trait for page checksum calculation over any value that exposes its
/// bytes.
pub trait PageChecksum {
    /// The bytes the page checksum is computed over.
    spec fn bytes(&self) -> Seq<u8>;

    /// Calculate the database page checksum for the given page number: the
    /// 64-bit GO-ISO CRC of the big-endian page number followed by the page
    /// bytes, with the checksum's top bit forced to one.
    fn page_checksum(&self, pgno: PageNum) -> (r: Checksum)
        ensures
            r@ == crc64_of(be32(pgno@) + self.bytes()) | CHECKSUM_FLAG,
    ;
}

impl PageChecksum for Vec<u8> {
    open spec fn bytes(&self) -> Seq<u8> {
        self@
    }

    fn page_checksum(&self, pgno: PageNum) -> (r: Checksum) {
        let mut buf: Vec<u8> = Vec::new();
        push_be32(&mut buf, pgno.into_inner());
        buf.extend_from_slice(self.as_slice());
        proof {
            assert(buf@ =~= be32(pgno@) + self.bytes());
        }
        Checksum::new(crc64(buf.as_slice()))
    }
}

impl PageChecksum for [u8] {
    open spec fn bytes(&self) -> Seq<u8> {
        self@
    }

    fn page_checksum(&self, pgno: PageNum) -> (r: Checksum) {
        let mut buf: Vec<u8> = Vec::new();
        push_be32(&mut buf, pgno.into_inner());
        buf.extend_from_slice(self);
        proof {
            assert(buf@ =~= be32(pgno@) + self.bytes());
        }
        Checksum::new(crc64(buf.as_slice()))
    }
}

} // verus!
