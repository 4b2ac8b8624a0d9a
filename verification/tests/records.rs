use litetx::{
    Checksum, Header, HeaderDecodeError, HeaderFlags, HeaderValidateError, PageChecksum,
    PageHeader, PageNum, PageSize, Trailer, TrailerDecodeError, CHECKSUM_FLAG, HEADER_SIZE, TXID,
};

fn encode_decode_header(hdr: Header) {
    let mut buf = Vec::new();

    hdr.encode_into(&mut buf).expect("failed to encode header");
    let hdr_out = Header::decode_from(buf.as_slice()).expect("failed to decode header");

    assert_eq!(hdr_out, hdr);
}

#[test]
fn snapshot_header() {
    encode_decode_header(Header {
        flags: HeaderFlags::compress_lz4(),
        page_size: PageSize::new(4096).unwrap(),
        commit: PageNum::new(10).unwrap(),
        min_txid: TXID::new(1).unwrap(),
        max_txid: TXID::new(5).unwrap(),
        timestamp: 1_700_000_000_000,
        pre_apply_checksum: None,
    });
}

#[test]
fn non_snapshot_header() {
    encode_decode_header(Header {
        flags: HeaderFlags::compress_lz4(),
        page_size: PageSize::new(4096).unwrap(),
        commit: PageNum::new(10).unwrap(),
        min_txid: TXID::new(3).unwrap(),
        max_txid: TXID::new(5).unwrap(),
        timestamp: 1_700_000_000_000,
        pre_apply_checksum: Some(Checksum::new(123)),
    });
}

#[test]
fn validate_header() {
    let hdr = Header {
        flags: HeaderFlags::compress_lz4(),
        page_size: PageSize::new(4096).unwrap(),
        commit: PageNum::new(10).unwrap(),
        min_txid: TXID::new(5).unwrap(),
        max_txid: TXID::new(3).unwrap(),
        timestamp: 1_700_000_000_000,
        pre_apply_checksum: Some(Checksum::new(123)),
    };
    assert!(matches!(
        hdr.validate(),
        Err(HeaderValidateError::TXIDOrder(min, max))
            if min == hdr.min_txid.into_inner() && max == hdr.max_txid.into_inner()));

    let hdr = Header {
        flags: HeaderFlags::compress_lz4(),
        page_size: PageSize::new(4096).unwrap(),
        commit: PageNum::new(10).unwrap(),
        min_txid: TXID::new(1).unwrap(),
        max_txid: TXID::new(3).unwrap(),
        timestamp: 1_700_000_000_000,
        pre_apply_checksum: Some(Checksum::new(123)),
    };
    assert!(matches!(
        hdr.validate(),
        Err(HeaderValidateError::PreApplyChecksumOnSnapshot)
    ));

    let hdr = Header {
        flags: HeaderFlags::compress_lz4(),
        page_size: PageSize::new(4096).unwrap(),
        commit: PageNum::new(10).unwrap(),
        min_txid: TXID::new(3).unwrap(),
        max_txid: TXID::new(5).unwrap(),
        timestamp: 1_700_000_000_000,
        pre_apply_checksum: None,
    };
    assert!(matches!(
        hdr.validate(),
        Err(HeaderValidateError::NoPreApplyChecksum)
    ));
}

fn valid_header_bytes() -> Vec<u8> {
    let hdr = Header {
        flags: HeaderFlags::empty(),
        page_size: PageSize::new(4096).unwrap(),
        commit: PageNum::new(10).unwrap(),
        min_txid: TXID::new(3).unwrap(),
        max_txid: TXID::new(5).unwrap(),
        timestamp: 1_700_000_000_000,
        pre_apply_checksum: Some(Checksum::new(123)),
    };
    let mut buf = Vec::new();
    hdr.encode_into(&mut buf).unwrap();
    buf
}

#[test]
fn header_decode_errors() {
    // Truncated input.
    assert!(matches!(
        Header::decode_from(&[0u8; 50]),
        Err(HeaderDecodeError::UnexpectedEnd)
    ));

    // Wrong magic.
    let mut buf = valid_header_bytes();
    buf[0] = b'M';
    assert!(matches!(
        Header::decode_from(buf.as_slice()),
        Err(HeaderDecodeError::Magic(_))
    ));

    // Unknown flag bit.
    let mut buf = valid_header_bytes();
    buf[4] = 0x80;
    assert!(matches!(
        Header::decode_from(buf.as_slice()),
        Err(HeaderDecodeError::Flags(f)) if f == 0x8000_0001 || f == 0x8000_0000
    ));

    // Bad page size (not a power of two).
    let mut buf = valid_header_bytes();
    buf[11] = 0x01;
    assert!(matches!(
        Header::decode_from(buf.as_slice()),
        Err(HeaderDecodeError::PageSize(_))
    ));

    // Zero commit page count.
    let mut buf = valid_header_bytes();
    for b in &mut buf[12..16] {
        *b = 0;
    }
    assert!(matches!(
        Header::decode_from(buf.as_slice()),
        Err(HeaderDecodeError::Commit(_))
    ));

    // Zero minimum transaction ID.
    let mut buf = valid_header_bytes();
    for b in &mut buf[16..24] {
        *b = 0;
    }
    assert!(matches!(
        Header::decode_from(buf.as_slice()),
        Err(HeaderDecodeError::MinTXID(_))
    ));

    // Zero maximum transaction ID.
    let mut buf = valid_header_bytes();
    for b in &mut buf[24..32] {
        *b = 0;
    }
    assert!(matches!(
        Header::decode_from(buf.as_slice()),
        Err(HeaderDecodeError::MaxTXID(_))
    ));

    // Pre-apply checksum missing on a non-snapshot file.
    let mut buf = valid_header_bytes();
    for b in &mut buf[40..48] {
        *b = 0;
    }
    assert!(matches!(
        Header::decode_from(buf.as_slice()),
        Err(HeaderDecodeError::Validation(HeaderValidateError::NoPreApplyChecksum))
    ));
}

#[test]
fn header_is_exactly_100_bytes() {
    assert_eq!(HEADER_SIZE, valid_header_bytes().len());
}

#[test]
fn trailer() {
    let mut buf = Vec::new();

    let trailer = Trailer {
        post_apply_checksum: Checksum::new(123),
        file_checksum: Checksum::new(123),
    };
    trailer.encode_into(&mut buf);
    let trailer_out = Trailer::decode_from(buf.as_slice()).expect("failed to decode trailer");

    assert_eq!(trailer_out, trailer);
}

#[test]
fn trailer_decode_errors() {
    assert!(matches!(
        Trailer::decode_from(&[0u8; 10]),
        Err(TrailerDecodeError::UnexpectedEnd)
    ));

    // Post-apply checksum without the forced top bit.
    let mut buf = vec![0u8; 16];
    buf[15] = 1;
    assert!(matches!(
        Trailer::decode_from(buf.as_slice()),
        Err(TrailerDecodeError::PostApplyChecksum(0))
    ));

    // File checksum without the forced top bit.
    let mut buf = Vec::new();
    Trailer {
        post_apply_checksum: Checksum::new(1),
        file_checksum: Checksum::new(2),
    }
    .encode_into(&mut buf);
    buf[8] = 0;
    assert!(matches!(
        Trailer::decode_from(buf.as_slice()),
        Err(TrailerDecodeError::FileChecksum(2))
    ));
}

#[test]
fn page_header() {
    let mut buf = Vec::new();

    let page_header = PageHeader(Some(PageNum::new(10).unwrap()));
    page_header.encode_into(&mut buf);
    let page_header_out =
        PageHeader::decode_from(buf.as_slice()).expect("failed to decode page header");

    assert_eq!(page_header_out, page_header);
}

#[test]
fn empty_page_header() {
    let mut buf = Vec::new();

    let page_header = PageHeader(None);
    page_header.encode_into(&mut buf);
    let page_header_out =
        PageHeader::decode_from(buf.as_slice()).expect("failed to decode page header");

    assert_eq!(page_header_out, page_header);
}

#[test]
fn page_checksum_known_value() {
    // The CRC-64/GO-ISO digest of the bytes 1..=10 is 6672316476627126589.
    // Feed the same ten bytes through the page checksum: four from the page
    // number, six from the page data.
    let pgno = PageNum::new(0x01020304).unwrap();
    let data: Vec<u8> = vec![5, 6, 7, 8, 9, 10];
    assert_eq!(
        Checksum::new(6672316476627126589).into_inner(),
        data.page_checksum(pgno).into_inner()
    );
    assert_eq!(6672316476627126589 | CHECKSUM_FLAG, data.page_checksum(pgno).into_inner());
    // The slice implementation computes the same checksum.
    assert_eq!(data.page_checksum(pgno), data.as_slice().page_checksum(pgno));
}

#[test]
fn header_flags() {
    assert_eq!(0, HeaderFlags::empty().bits());
    assert_eq!(1, HeaderFlags::compress_lz4().bits());
    assert!(HeaderFlags::compress_lz4().contains(HeaderFlags::compress_lz4()));
    assert!(HeaderFlags::compress_lz4().contains(HeaderFlags::empty()));
    assert!(!HeaderFlags::empty().contains(HeaderFlags::compress_lz4()));
    assert_eq!(Some(HeaderFlags::compress_lz4()), HeaderFlags::from_bits(1));
    assert_eq!(None, HeaderFlags::from_bits(2));
}
