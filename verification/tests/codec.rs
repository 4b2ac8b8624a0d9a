use litetx::{
    encode_decode_round_trip, Checksum, DecodeError, Decoder, EncodeError, Encoder, Header,
    HeaderFlags, PageNum, PageSize, Trailer, HEADER_SIZE, TRAILER_SIZE, TXID,
};

/// A deterministic byte filler standing in for arbitrary page contents.
fn fill(len: usize, seed: u8) -> Vec<u8> {
    (0..len)
        .map(|i| (i as u8).wrapping_mul(31).wrapping_add(seed))
        .collect()
}

fn incremental_header(flags: HeaderFlags) -> Header {
    Header {
        flags,
        page_size: PageSize::new(4096).unwrap(),
        commit: PageNum::new(3).unwrap(),
        min_txid: TXID::new(5).unwrap(),
        max_txid: TXID::new(6).unwrap(),
        timestamp: 1_700_000_000_000,
        pre_apply_checksum: Some(Checksum::new(5)),
    }
}

fn snapshot_header() -> Header {
    Header {
        flags: HeaderFlags::empty(),
        page_size: PageSize::new(4096).unwrap(),
        commit: PageNum::new(3).unwrap(),
        min_txid: TXID::new(1).unwrap(),
        max_txid: TXID::new(1).unwrap(),
        timestamp: 1_700_000_000_000,
        pre_apply_checksum: None,
    }
}

#[test]
fn encoder() {
    let mut enc = Encoder::new(&incremental_header(HeaderFlags::empty()))
        .expect("failed to create encoder");

    let page1 = fill(4096, 1);
    let page2 = fill(4096, 2);

    enc.encode_page(PageNum::new(1).unwrap(), page1.as_slice())
        .expect("failed to encode page1");
    enc.encode_page(PageNum::new(2).unwrap(), page2.as_slice())
        .expect("failed to encode page2");

    let (buf, trailer) = enc.finish(Checksum::new(6));

    assert_eq!(Checksum::new(6), trailer.post_apply_checksum);
    assert_eq!(HEADER_SIZE + (4096 + 4) * 2 + 4 + TRAILER_SIZE, buf.len());
}

#[test]
fn encoder_compressed() {
    let mut enc = Encoder::new(&incremental_header(HeaderFlags::compress_lz4()))
        .expect("failed to create encoder");

    let page1 = vec![1u8; 4096];
    let page2 = vec![2u8; 4096];

    enc.encode_page(PageNum::new(1).unwrap(), page1.as_slice())
        .expect("failed to encode page1");
    enc.encode_page(PageNum::new(2).unwrap(), page2.as_slice())
        .expect("failed to encode page2");

    let (buf, trailer) = enc.finish(Checksum::new(6));
    assert_eq!(Checksum::new(6), trailer.post_apply_checksum);
    assert!(HEADER_SIZE + (4096 + 4) * 2 + 4 + TRAILER_SIZE > buf.len());
}

#[test]
fn encoder_lock_page() {
    let mut enc = Encoder::new(&snapshot_header()).expect("failed to create encoder");

    let page1_num = PageNum::lock_page(PageSize::new(4096).unwrap());
    let page1 = vec![0u8; 4096];

    assert!(matches!(
        enc.encode_page(page1_num, page1.as_slice()),
        Err(EncodeError::LockPage(p)) if p == page1_num.into_inner()
    ));
}

#[test]
fn encoder_lock_page_incremental() {
    // The lock page is rejected in non-snapshot mode as well.
    let mut enc = Encoder::new(&incremental_header(HeaderFlags::empty()))
        .expect("failed to create encoder");

    let lock = PageNum::lock_page(PageSize::new(4096).unwrap());
    assert!(matches!(
        enc.encode_page(lock, vec![0u8; 4096].as_slice()),
        Err(EncodeError::LockPage(p)) if p == lock.into_inner()
    ));
}

#[test]
fn encoder_non_sequential() {
    let mut enc = Encoder::new(&snapshot_header()).expect("failed to create encoder");

    let page1 = vec![0u8; 4096];
    let page3 = vec![0u8; 4096];

    enc.encode_page(PageNum::new(1).unwrap(), page1.as_slice())
        .expect("failed to encode page1");
    assert!(matches!(
        enc.encode_page(PageNum::new(3).unwrap(), page3.as_slice()),
        Err(EncodeError::NonsequentialPages(1, 3))
    ));
}

#[test]
fn encoder_out_of_order() {
    let mut enc = Encoder::new(&Header {
        flags: HeaderFlags::empty(),
        page_size: PageSize::new(4096).unwrap(),
        commit: PageNum::new(3).unwrap(),
        min_txid: TXID::new(2).unwrap(),
        max_txid: TXID::new(5).unwrap(),
        timestamp: 1_700_000_000_000,
        pre_apply_checksum: Some(Checksum::new(1)),
    })
    .expect("failed to create encoder");

    let page1 = vec![0u8; 4096];
    let page3 = vec![0u8; 4096];

    enc.encode_page(PageNum::new(3).unwrap(), page3.as_slice())
        .expect("failed to encode page3");
    assert!(matches!(
        enc.encode_page(PageNum::new(1).unwrap(), page1.as_slice()),
        Err(EncodeError::OutOfOrderPage(3, 1))
    ));
}

#[test]
fn encoder_snapshot() {
    let mut enc = Encoder::new(&snapshot_header()).expect("failed to create encoder");

    let page1 = vec![0u8; 4096];

    assert!(matches!(
        enc.encode_page(PageNum::new(2).unwrap(), page1.as_slice()),
        Err(EncodeError::FirstSnapshotPage)
    ));
}

#[test]
fn encoder_snapshot_sequence() {
    // A snapshot walking pages 1, 2, 3 succeeds.
    let mut enc = Encoder::new(&snapshot_header()).expect("failed to create encoder");
    for n in 1..=3u32 {
        enc.encode_page(PageNum::new(n).unwrap(), fill(4096, n as u8).as_slice())
            .expect("failed to encode page");
    }
    enc.finish(Checksum::new(9));
}

#[test]
fn encoder_incremental_gaps() {
    // Gaps are allowed in a non-snapshot file: 1, 5, 100.
    let mut enc = Encoder::new(&Header {
        flags: HeaderFlags::empty(),
        page_size: PageSize::new(4096).unwrap(),
        commit: PageNum::new(200).unwrap(),
        min_txid: TXID::new(2).unwrap(),
        max_txid: TXID::new(5).unwrap(),
        timestamp: 1_700_000_000_000,
        pre_apply_checksum: Some(Checksum::new(1)),
    })
    .expect("failed to create encoder");

    for n in [1u32, 5, 100] {
        enc.encode_page(PageNum::new(n).unwrap(), fill(4096, n as u8).as_slice())
            .expect("failed to encode page");
    }
}

#[test]
fn encoder_invalid_buffer_size() {
    let mut enc = Encoder::new(&incremental_header(HeaderFlags::empty()))
        .expect("failed to create encoder");
    assert!(matches!(
        enc.encode_page(PageNum::new(1).unwrap(), vec![0u8; 100].as_slice()),
        Err(EncodeError::InvalidBufferSize(100, 4096))
    ));
}

#[test]
fn encoder_invalid_header() {
    // The header is validated before anything is written.
    let hdr = Header {
        flags: HeaderFlags::empty(),
        page_size: PageSize::new(4096).unwrap(),
        commit: PageNum::new(3).unwrap(),
        min_txid: TXID::new(1).unwrap(),
        max_txid: TXID::new(1).unwrap(),
        timestamp: 1_700_000_000_000,
        pre_apply_checksum: Some(Checksum::new(5)),
    };
    assert!(matches!(Encoder::new(&hdr), Err(EncodeError::Header(_))));
}

fn decoder_test(flags: HeaderFlags) {
    let header = incremental_header(flags);

    let mut enc = Encoder::new(&header).expect("failed to create encoder");
    let mut pages: Vec<(PageNum, Vec<u8>)> = Vec::new();
    pages.push((PageNum::new(4).unwrap(), fill(4096, 17)));
    pages.push((PageNum::new(6).unwrap(), fill(4096, 99)));

    for (page_num, page) in &pages {
        enc.encode_page(*page_num, page.as_slice())
            .expect("failed to encode page");
    }

    let (buf, trailer) = enc.finish(Checksum::new(6));

    let (mut dec, header_out) = Decoder::new(buf.as_slice()).expect("failed to create decoder");
    assert_eq!(header, header_out);

    let mut page_out = vec![0u8; 4096];
    for (page_num, page) in pages {
        assert!(matches!(
            dec.decode_page(&mut page_out),
            Ok(Some(num)) if num == page_num
        ));
        assert_eq!(page, page_out);
    }

    assert!(matches!(dec.decode_page(&mut page_out), Ok(None)));
    // Once the sentinel is seen, further calls keep returning "no more pages".
    assert!(matches!(dec.decode_page(&mut page_out), Ok(None)));

    let trailer_out = dec.finish().expect("failed to finish decoder");
    assert_eq!(trailer, trailer_out);
}

#[test]
fn decoder() {
    decoder_test(HeaderFlags::empty());
}

#[test]
fn decoder_compressed() {
    decoder_test(HeaderFlags::compress_lz4());
}

#[test]
fn decoder_no_pages() {
    // A file with no pages at all: header, sentinel, trailer.
    let header = incremental_header(HeaderFlags::empty());
    let enc = Encoder::new(&header).expect("failed to create encoder");
    let (buf, trailer) = enc.finish(Checksum::new(6));
    assert_eq!(HEADER_SIZE + 4 + TRAILER_SIZE, buf.len());

    let (mut dec, header_out) = Decoder::new(buf.as_slice()).expect("failed to create decoder");
    assert_eq!(header, header_out);
    let mut page_out = vec![0u8; 4096];
    assert!(matches!(dec.decode_page(&mut page_out), Ok(None)));
    assert_eq!(trailer, dec.finish().expect("failed to finish decoder"));
}

#[test]
fn decoder_largest_page_size() {
    let header = Header {
        flags: HeaderFlags::empty(),
        page_size: PageSize::new(65536).unwrap(),
        commit: PageNum::new(1).unwrap(),
        min_txid: TXID::new(1).unwrap(),
        max_txid: TXID::new(1).unwrap(),
        timestamp: 0,
        pre_apply_checksum: None,
    };
    let mut enc = Encoder::new(&header).expect("failed to create encoder");
    let page = fill(65536, 3);
    enc.encode_page(PageNum::new(1).unwrap(), page.as_slice())
        .expect("failed to encode page");
    let (buf, _) = enc.finish(Checksum::new(1));

    let (mut dec, _) = Decoder::new(buf.as_slice()).expect("failed to create decoder");
    let mut page_out = vec![0u8; 65536];
    assert!(matches!(dec.decode_page(&mut page_out), Ok(Some(_))));
    assert_eq!(page, page_out);
    assert!(matches!(dec.decode_page(&mut page_out), Ok(None)));
    dec.finish().expect("failed to finish decoder");
}

#[test]
fn decoder_invalid_buffer_size() {
    let (buf, _) = Encoder::new(&incremental_header(HeaderFlags::empty()))
        .unwrap()
        .finish(Checksum::new(6));
    let (mut dec, _) = Decoder::new(buf.as_slice()).expect("failed to create decoder");
    let mut small = vec![0u8; 100];
    assert!(matches!(
        dec.decode_page(&mut small),
        Err(DecodeError::InvalidBufferSize(100, 4096))
    ));

    // The buffer is rejected before the exhausted state is looked at: even
    // after the sentinel, a wrong-sized buffer is an error.
    let mut page_out = vec![0u8; 4096];
    assert!(matches!(dec.decode_page(&mut page_out), Ok(None)));
    assert!(matches!(
        dec.decode_page(&mut small),
        Err(DecodeError::InvalidBufferSize(100, 4096))
    ));
}

#[test]
fn decoder_truncated_input() {
    assert!(matches!(
        Decoder::new(&[0u8; 10]),
        Err(DecodeError::Header(_))
    ));

    // Cut the file off in the middle of a page record.
    let mut enc = Encoder::new(&incremental_header(HeaderFlags::empty())).unwrap();
    enc.encode_page(PageNum::new(4).unwrap(), fill(4096, 1).as_slice())
        .unwrap();
    let (buf, _) = enc.finish(Checksum::new(6));
    let cut = &buf[..HEADER_SIZE + 4 + 100];
    let (mut dec, _) = Decoder::new(cut).expect("failed to create decoder");
    let mut page_out = vec![0u8; 4096];
    assert!(matches!(
        dec.decode_page(&mut page_out),
        Err(DecodeError::UnexpectedEnd)
    ));
}

#[test]
fn decoder_checksum_mismatch_page_flip() {
    // Flipping one bit of a page payload is caught at finish.
    let mut enc = Encoder::new(&incremental_header(HeaderFlags::empty())).unwrap();
    enc.encode_page(PageNum::new(4).unwrap(), fill(4096, 1).as_slice())
        .unwrap();
    let (mut buf, _) = enc.finish(Checksum::new(6));
    buf[HEADER_SIZE + 4 + 1000] ^= 0x10;

    let (mut dec, _) = Decoder::new(buf.as_slice()).expect("failed to create decoder");
    let mut page_out = vec![0u8; 4096];
    while let Ok(Some(_)) = dec.decode_page(&mut page_out) {}
    assert!(matches!(dec.finish(), Err(DecodeError::FileChecksumMismatch)));
}

#[test]
fn decoder_checksum_mismatch_header_flip() {
    // Flipping a bit inside the header's timestamp field decodes fine but is
    // caught by the whole-file checksum at finish.
    let mut enc = Encoder::new(&incremental_header(HeaderFlags::empty())).unwrap();
    enc.encode_page(PageNum::new(4).unwrap(), fill(4096, 1).as_slice())
        .unwrap();
    let (mut buf, _) = enc.finish(Checksum::new(6));
    buf[35] ^= 0x01;

    let (mut dec, _) = Decoder::new(buf.as_slice()).expect("failed to create decoder");
    let mut page_out = vec![0u8; 4096];
    while let Ok(Some(_)) = dec.decode_page(&mut page_out) {}
    assert!(matches!(dec.finish(), Err(DecodeError::FileChecksumMismatch)));
}

#[test]
fn decoder_checksum_mismatch_trailer_flip() {
    // Flipping a low bit of the stored file checksum is caught at finish.
    let enc = Encoder::new(&incremental_header(HeaderFlags::empty())).unwrap();
    let (mut buf, _) = enc.finish(Checksum::new(6));
    let last = buf.len() - 1;
    buf[last] ^= 0x01;

    let (mut dec, _) = Decoder::new(buf.as_slice()).expect("failed to create decoder");
    let mut page_out = vec![0u8; 4096];
    assert!(matches!(dec.decode_page(&mut page_out), Ok(None)));
    assert!(matches!(dec.finish(), Err(DecodeError::FileChecksumMismatch)));
}

#[test]
fn decoder_corrupt_lz4_frame() {
    let mut enc = Encoder::new(&incremental_header(HeaderFlags::compress_lz4())).unwrap();
    enc.encode_page(PageNum::new(4).unwrap(), vec![7u8; 4096].as_slice())
        .unwrap();
    let (mut buf, _) = enc.finish(Checksum::new(6));
    // Destroy the LZ4 frame magic. The header still parses, so construction
    // succeeds; the framing error comes when the stream is read or finished.
    buf[HEADER_SIZE] ^= 0xff;
    let (mut dec, _) = Decoder::new(buf.as_slice()).expect("failed to create decoder");
    let mut page_out = vec![0u8; 4096];
    assert!(matches!(
        dec.decode_page(&mut page_out),
        Err(DecodeError::Lz4Frame)
    ));
    assert!(matches!(dec.finish(), Err(DecodeError::Lz4Frame)));
}

#[test]
fn round_trip_law_uncompressed() {
    let header = incremental_header(HeaderFlags::empty());
    let pages = vec![
        (PageNum::new(4).unwrap(), fill(4096, 8)),
        (PageNum::new(6).unwrap(), fill(4096, 9)),
    ];
    let (hdr_out, pages_out, enc_trailer, dec_trailer) =
        encode_decode_round_trip(&header, &pages, Checksum::new(6));
    assert_eq!(header, hdr_out);
    assert_eq!(pages, pages_out);
    assert_eq!(enc_trailer, dec_trailer);
    assert_eq!(Checksum::new(6), enc_trailer.post_apply_checksum);
}

#[test]
fn round_trip_law_compressed() {
    let header = incremental_header(HeaderFlags::compress_lz4());
    let pages = vec![
        (PageNum::new(4).unwrap(), fill(4096, 8)),
        (PageNum::new(6).unwrap(), fill(4096, 9)),
    ];
    let (hdr_out, pages_out, enc_trailer, dec_trailer) =
        encode_decode_round_trip(&header, &pages, Checksum::new(6));
    assert_eq!(header, hdr_out);
    assert_eq!(pages, pages_out);
    assert_eq!(enc_trailer, dec_trailer);
}

#[test]
fn trailer_survives_round_trip_bitwise() {
    // The decoder returns the byte-identical trailer the encoder produced.
    let header = incremental_header(HeaderFlags::empty());
    let mut enc = Encoder::new(&header).unwrap();
    enc.encode_page(PageNum::new(4).unwrap(), fill(4096, 1).as_slice())
        .unwrap();
    let (buf, trailer) = enc.finish(Checksum::new(6));

    let trailer_bytes = &buf[buf.len() - TRAILER_SIZE..];
    let reparsed = Trailer::decode_from(trailer_bytes).expect("failed to decode trailer");
    assert_eq!(trailer, reparsed);
}
