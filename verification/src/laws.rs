//! The laws the codec obeys, stated over the same specifications the
//! encoder's and decoder's contracts use and checked by the verifier.

use vstd::prelude::*;
use vstd::pervasive::unreached;

use crate::decoder::Decoder;
use crate::encoder::{spec_page_check, spec_pages_valid, Encoder, Error as EncodeError};
use crate::ltx::{
    lemma_header_bytes_len, lemma_header_round_trip, lemma_records_decompose,
    lemma_trailer_round_trip, spec_body_bytes, spec_checksum_domain, spec_file_bytes,
    spec_file_checksum, spec_header_bytes, spec_header_valid, spec_is_compressed,
    spec_parse_header, spec_records_bytes, spec_validate, Header, Trailer, TrailerV,
};
use crate::types::{spec_lock_page, Checksum, PageNum, CHECKSUM_FLAG};
use crate::wire::{be32, be64, lemma_be32_round_trip};

verus! {

/// The page sequence a vector of pages stands for: each page number with its
/// data.
pub open spec fn spec_page_views(pages: Seq<(PageNum, Vec<u8>)>) -> Seq<(u32, Seq<u8>)> {
    pages.map_values(|pr: (PageNum, Vec<u8>)| (pr.0@, pr.1@))
}

/// Lock page rejection: offering the lock page itself to the encoder fails
/// with a lock-page error whatever the mode, the history, and the buffer.
pub proof fn lemma_lock_page_rejected(
    snapshot: bool,
    lock: u32,
    last: Option<u32>,
    len: int,
    page_size: u32,
)
    ensures
        spec_page_check(snapshot, lock, last, lock, len, page_size) == Err::<(), EncodeError>(
            EncodeError::LockPage(lock),
        ),
{
}

/// Snapshot lock-page skip: when the page directly after the last written
/// one is the lock page, the encoder accepts exactly the page after it.
pub proof fn lemma_snapshot_lock_page_skip(lock: u32, last: u32, next: u32, page_size: u32)
    requires
        last + 1 == lock,
    ensures
        spec_page_check(true, lock, Some(last), next, page_size as int, page_size) is Ok <==> next
            == last + 2,
{
}

proof fn lemma_or_flag(x: u64)
    ensures
        (x | CHECKSUM_FLAG) & CHECKSUM_FLAG == CHECKSUM_FLAG,
{
    assert((x | 0x8000_0000_0000_0000u64) & 0x8000_0000_0000_0000u64
        == 0x8000_0000_0000_0000u64) by (bit_vector);
}

/// The layout of an encoded file around its header: the first 100 bytes are
/// the header and parse back to it, and what follows is the (possibly
/// framed) page stream and the trailer.
proof fn lemma_file_layout(h: crate::ltx::HeaderV, pv: Seq<(u32, Seq<u8>)>, post: u64)
    requires
        spec_header_valid(h),
    ensures
        spec_file_bytes(h, pv, post).len() >= 100,
        spec_file_bytes(h, pv, post).take(100) == spec_header_bytes(h),
        spec_file_bytes(h, pv, post).skip(100) == (if spec_is_compressed(h) {
            crate::ltx::lz4_frame_of(spec_body_bytes(pv)) + (be64(post) + be64(
                spec_file_checksum(h, pv, post),
            ))
        } else {
            spec_body_bytes(pv) + (be64(post) + be64(spec_file_checksum(h, pv, post)))
        }),
        spec_parse_header(spec_file_bytes(h, pv, post)) == Ok::<
            crate::ltx::HeaderV,
            crate::ltx::HeaderDecodeError,
        >(h),
{
    let file = spec_file_bytes(h, pv, post);
    lemma_header_bytes_len(h);
    assert(file.take(100) =~= spec_header_bytes(h));
    assert(file.skip(100) =~= if spec_is_compressed(h) {
        crate::ltx::lz4_frame_of(spec_body_bytes(pv)) + (be64(post) + be64(
            spec_file_checksum(h, pv, post),
        ))
    } else {
        spec_body_bytes(pv) + (be64(post) + be64(spec_file_checksum(h, pv, post)))
    });
    lemma_header_round_trip(h, file.skip(100));
    assert(spec_header_bytes(h) + file.skip(100) =~= file);
}

/// One step of walking the page stream: at the offset where the records
/// before page `j` end, the next bytes are page `j`'s number and data.
proof fn lemma_decode_step(pv: Seq<(u32, Seq<u8>)>, j: int, extra: Seq<u8>, ps: int)
    requires
        0 <= j < pv.len(),
        pv[j].1.len() == ps,
    ensures
        ({
            let b = spec_records_bytes(pv) + be32(0u32) + extra;
            let p = spec_records_bytes(pv.take(j)).len() as int;
            &&& p + 4 + ps <= b.len()
            &&& b.subrange(p, p + 4) == be32(pv[j].0)
            &&& b.subrange(p + 4, p + 4 + ps) == pv[j].1
            &&& spec_records_bytes(pv.take(j + 1)).len() == p + 4 + ps
        }),
{
    let b = spec_records_bytes(pv) + be32(0u32) + extra;
    let p = spec_records_bytes(pv.take(j)).len() as int;
    lemma_records_decompose(pv, j);
    assert(b.subrange(p, p + 4) =~= be32(pv[j].0));
    assert(b.subrange(p + 4, p + 4 + ps) =~= pv[j].1);
}

/// The end of the page stream: at the offset where all records end, the next
/// four bytes are the sentinel, and after it only `extra` remains.
proof fn lemma_decode_sentinel(pv: Seq<(u32, Seq<u8>)>, extra: Seq<u8>)
    ensures
        ({
            let b = spec_records_bytes(pv) + be32(0u32) + extra;
            let p = spec_records_bytes(pv).len() as int;
            &&& p + 4 <= b.len()
            &&& b.len() == p + 4 + extra.len()
            &&& b.subrange(p, p + 4) == be32(0u32)
            &&& b.skip(p + 4) == extra
            &&& b.take(p + 4) == spec_body_bytes(pv)
        }),
{
    let b = spec_records_bytes(pv) + be32(0u32) + extra;
    let p = spec_records_bytes(pv).len() as int;
    assert(b.subrange(p, p + 4) =~= be32(0u32));
    assert(b.skip(p + 4) =~= extra);
    assert(b.take(p + 4) =~= spec_body_bytes(pv));
}

/// The trailer region of an encoded file parses to the trailer the encoder
/// wrote, and the checksum domain recomputed from the walked bytes is the
/// one the file checksum was computed over.
proof fn lemma_trailer_region(h: crate::ltx::HeaderV, pv: Seq<(u32, Seq<u8>)>, post: u64)
    requires
        post & CHECKSUM_FLAG == CHECKSUM_FLAG,
    ensures
        ({
            let fcv = spec_file_checksum(h, pv, post);
            let tv = TrailerV { post_apply_checksum: post, file_checksum: fcv };
            &&& crate::ltx::spec_parse_trailer(be64(post) + be64(fcv)) == Ok::<
                TrailerV,
                crate::ltx::TrailerDecodeError,
            >(tv)
            &&& fcv & CHECKSUM_FLAG == CHECKSUM_FLAG
            &&& spec_header_bytes(h) + spec_body_bytes(pv) + be64(post) == spec_checksum_domain(
                h,
                pv,
                post,
            )
        }),
{
    let fcv = spec_file_checksum(h, pv, post);
    let tv = TrailerV { post_apply_checksum: post, file_checksum: fcv };
    lemma_or_flag(crate::ltx::crc64_of(spec_checksum_domain(h, pv, post)));
    lemma_trailer_round_trip(tv, Seq::<u8>::empty());
    assert(crate::ltx::spec_trailer_bytes(tv) + Seq::<u8>::empty() =~= be64(post) + be64(fcv));
}

/// Round trip: encoding any valid header with any page sequence that obeys
/// the mode's ordering rule, and decoding the bytes that come out, yields the
/// same header, the same pages in the same order, and the same trailer the
/// encoder returned — with and without compression. The function runs the
/// encoder and the decoder and returns the decoded header, the decoded
/// pages, the encoder's trailer and the decoder's trailer; its contract is
/// proved for every input allowed by its preconditions.
pub fn encode_decode_round_trip(
    hdr: &Header,
    pages: &Vec<(PageNum, Vec<u8>)>,
    post_apply_checksum: Checksum,
) -> (r: (Header, Vec<(PageNum, Vec<u8>)>, Trailer, Trailer))
    requires
        spec_validate(hdr@) is Ok,
        spec_pages_valid(hdr@, spec_page_views(pages@)),
    ensures
        r.0@ == hdr@,
        r.1@.len() == pages@.len(),
        forall|k: int|
            0 <= k < pages@.len() ==> (#[trigger] r.1@[k]).0@ == pages@[k].0@ && r.1@[k].1@
                == pages@[k].1@,
        r.2@ == (TrailerV {
            post_apply_checksum: post_apply_checksum@,
            file_checksum: spec_file_checksum(
                hdr@,
                spec_page_views(pages@),
                post_apply_checksum@,
            ),
        }),
        r.3@ == r.2@,
{
    let ghost pv = spec_page_views(pages@);
    let ghost post = post_apply_checksum@;
    let mut enc = match Encoder::new(hdr) {
        Ok(e) => e,
        Err(_) => {
            proof {
                assert(false);
            }
            return unreached();
        },
    };

    let mut i: usize = 0;
    while i < pages.len()
        invariant
            0 <= i <= pages@.len(),
            pv == spec_page_views(pages@),
            spec_validate(hdr@) is Ok,
            spec_header_valid(hdr@),
            spec_pages_valid(hdr@, pv),
            enc.wf(),
            enc.header() == hdr@,
            enc.pages() == pv.take(i as int),
            enc.last_page() == (if i == 0 {
                None
            } else {
                Some(pv[i as int - 1].0)
            }),
        decreases pages@.len() - i,
    {
        let ghost k = i as int;
        proof {
            assert(pv[k] == (pages@[k].0@, pages@[k].1@));
            assert(pv[k].1.len() == hdr@.page_size);
            assert(pv[k].0 != 0 && pv[k].0 != spec_lock_page(hdr@.page_size));
        }
        let pr = &pages[i];
        let res = enc.encode_page(pr.0, pr.1.as_slice());
        match res {
            Ok(_) => {},
            Err(_) => {
                proof {
                    assert(false);
                }
                return unreached();
            },
        }
        proof {
            assert(enc.pages() =~= pv.take(k + 1));
        }
        i = i + 1;
    }
    proof {
        assert(pv.take(pages@.len() as int) =~= pv);
    }

    let (file, enc_trailer) = enc.finish(post_apply_checksum);
    let (hdr_out, out, dec_trailer) = round_trip_decode(
        &file,
        pages.len(),
        post_apply_checksum,
        Ghost(hdr@),
        Ghost(pv),
    );
    (hdr_out, out, enc_trailer, dec_trailer)
}

/// The decoding half of the round trip: walk a file known to be the encoding
/// of `h`, `pv` and the post-apply checksum, and return the header, pages and
/// trailer it decodes to.
fn round_trip_decode(
    file: &Vec<u8>,
    count: usize,
    post_apply_checksum: Checksum,
    Ghost(h): Ghost<crate::ltx::HeaderV>,
    Ghost(pv): Ghost<Seq<(u32, Seq<u8>)>>,
) -> (r: (Header, Vec<(PageNum, Vec<u8>)>, Trailer))
    requires
        file@ == spec_file_bytes(h, pv, post_apply_checksum@),
        spec_header_valid(h),
        spec_pages_valid(h, pv),
        count == pv.len(),
    ensures
        r.0@ == h,
        r.1@.len() == pv.len(),
        forall|k: int|
            0 <= k < pv.len() ==> (#[trigger] r.1@[k]).0@ == pv[k].0 && r.1@[k].1@ == pv[k].1,
        r.2@ == (TrailerV {
            post_apply_checksum: post_apply_checksum@,
            file_checksum: spec_file_checksum(h, pv, post_apply_checksum@),
        }),
{
    let ghost post = post_apply_checksum@;
    let ghost fcv = spec_file_checksum(h, pv, post);
    let ghost trailer_bytes = be64(post) + be64(fcv);

    proof {
        lemma_file_layout(h, pv, post);
    }

    let (mut dec, hdr_out) = match Decoder::new(file.as_slice()) {
        Ok(p) => p,
        Err(_) => {
            proof {
                assert(false);
            }
            return unreached();
        },
    };
    proof {
        assert(dec.head() == spec_header_bytes(h));
        assert(dec.frame_ok());
        if spec_is_compressed(h) {
            assert(dec.body() == spec_body_bytes(pv) && dec.tail() == trailer_bytes);
            assert(dec.body() =~= spec_records_bytes(pv) + be32(0u32) + Seq::<u8>::empty());
        } else {
            assert(dec.body() =~= spec_records_bytes(pv) + be32(0u32) + trailer_bytes);
        }
    }

    let ps = {
        let p = hdr_out.page_size.into_inner();
        p as usize
    };
    let mut buf: Vec<u8> = Vec::new();
    let mut f: usize = 0;
    while f < ps
        invariant
            buf@.len() == f,
            f <= ps,
        decreases ps - f,
    {
        buf.push(0);
        f = f + 1;
    }

    let mut out: Vec<(PageNum, Vec<u8>)> = Vec::new();
    let mut j: usize = 0;
    while j < count
        invariant
            0 <= j <= pv.len(),
            count == pv.len(),
            spec_header_valid(h),
            spec_pages_valid(h, pv),
            ps == h.page_size,
            buf@.len() == ps,
            dec.wf(),
            dec.header() == h,
            !dec.pages_done(),
            dec.frame_ok(),
            dec.head() == spec_header_bytes(h),
            dec.body() == spec_records_bytes(pv) + be32(0u32) + (if spec_is_compressed(h) {
                Seq::<u8>::empty()
            } else {
                be64(post_apply_checksum@) + be64(
                    spec_file_checksum(h, pv, post_apply_checksum@),
                )
            }),
            dec.tail() == (if spec_is_compressed(h) {
                be64(post_apply_checksum@) + be64(
                    spec_file_checksum(h, pv, post_apply_checksum@),
                )
            } else {
                Seq::<u8>::empty()
            }),
            dec.pos() == spec_records_bytes(pv.take(j as int)).len(),
            out@.len() == j,
            forall|k: int|
                0 <= k < j ==> (#[trigger] out@[k]).0@ == pv[k].0 && out@[k].1@ == pv[k].1,
        decreases count - j,
    {
        let ghost k = j as int;
        proof {
            assert(pv[k].1.len() == h.page_size);
            assert(pv[k].0 != 0);
            lemma_decode_step(
                pv,
                k,
                if spec_is_compressed(h) {
                    Seq::<u8>::empty()
                } else {
                    be64(post_apply_checksum@) + be64(
                        spec_file_checksum(h, pv, post_apply_checksum@),
                    )
                },
                ps as int,
            );
            lemma_be32_round_trip(pv[k].0);
        }
        let res = dec.decode_page(&mut buf);
        let pn = match res {
            Ok(Some(pn)) => pn,
            _ => {
                proof {
                    assert(false);
                }
                return unreached();
            },
        };
        let mut page: Vec<u8> = Vec::new();
        page.extend_from_slice(buf.as_slice());
        out.push((pn, page));
        j = j + 1;
    }

    // Read the end-of-pages sentinel.
    proof {
        assert(pv.take(pv.len() as int) =~= pv);
        lemma_decode_sentinel(
            pv,
            if spec_is_compressed(h) {
                Seq::<u8>::empty()
            } else {
                trailer_bytes
            },
        );
        lemma_be32_round_trip(0u32);
    }
    match dec.decode_page(&mut buf) {
        Ok(None) => {},
        _ => {
            proof {
                assert(false);
            }
            return unreached();
        },
    }

    // Read and verify the trailer.
    proof {
        use_type_invariant(&post_apply_checksum);
        lemma_decode_sentinel(
            pv,
            if spec_is_compressed(h) {
                Seq::<u8>::empty()
            } else {
                trailer_bytes
            },
        );
        lemma_trailer_region(h, pv, post);
        if spec_is_compressed(h) {
            assert(dec.pos() == dec.body().len());
        }
        assert(dec.body().take(dec.pos()) == spec_body_bytes(pv));
    }
    let dec_trailer = match dec.finish() {
        Ok(t) => t,
        Err(_) => {
            proof {
                assert(false);
            }
            return unreached();
        },
    };

    (hdr_out, out, dec_trailer)
}

} // verus!
