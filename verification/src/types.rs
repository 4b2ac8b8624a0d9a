//! Validated numeric wrappers: once a value is constructed, its invariant
//! holds everywhere, so the rest of the codec never re-checks it.

use vstd::prelude::*;
use vstd::string::StringSliceAdditionalSpecFns;

verus! {

/// The bit that every computed checksum carries, so that the wire value `0`
/// can mean "absent" in optional checksum fields.
pub const CHECKSUM_FLAG: u64 = 0x8000_0000_0000_0000;

/// The smallest accepted page size in bytes.
pub const MIN_PAGE_SIZE: u32 = 512;

/// The largest accepted page size in bytes.
pub const MAX_PAGE_SIZE: u32 = 65536;

/// The hexadecimal digit for a value below sixteen.
pub open spec fn hex_digit(d: u8) -> char {
    if d == 0 {
        '0'
    } else if d == 1 {
        '1'
    } else if d == 2 {
        '2'
    } else if d == 3 {
        '3'
    } else if d == 4 {
        '4'
    } else if d == 5 {
        '5'
    } else if d == 6 {
        '6'
    } else if d == 7 {
        '7'
    } else if d == 8 {
        '8'
    } else if d == 9 {
        '9'
    } else if d == 10 {
        'a'
    } else if d == 11 {
        'b'
    } else if d == 12 {
        'c'
    } else if d == 13 {
        'd'
    } else if d == 14 {
        'e'
    } else {
        'f'
    }
}

/// Digit `i` of `x` written with sixteen hexadecimal digits, counted from the
/// most significant digit.
pub open spec fn nibble64(x: u64, i: int) -> u8 {
    ((x >> ((60 - 4 * i) as u64)) & 0xfu64) as u8
}

/// Digit `i` of `x` written with eight hexadecimal digits, counted from the
/// most significant digit.
pub open spec fn nibble32(x: u32, i: int) -> u8 {
    ((x >> ((28 - 4 * i) as u32)) & 0xfu32) as u8
}

/// `x` written with exactly sixteen lower-case hexadecimal digits.
pub open spec fn hex16(x: u64) -> Seq<char> {
    Seq::new(16, |i: int| hex_digit(nibble64(x, i)))
}

/// `x` written with exactly eight lower-case hexadecimal digits.
pub open spec fn hex8(x: u32) -> Seq<char> {
    Seq::new(8, |i: int| hex_digit(nibble32(x, i)))
}

/// The one-character string for a hexadecimal digit.
fn hex_digit_str(d: u8) -> (r: &'static str)
    requires
        d < 16,
    ensures
        r@ == seq![hex_digit(d)],
{
    proof {
        reveal_strlit("0");
        reveal_strlit("1");
        reveal_strlit("2");
        reveal_strlit("3");
        reveal_strlit("4");
        reveal_strlit("5");
        reveal_strlit("6");
        reveal_strlit("7");
        reveal_strlit("8");
        reveal_strlit("9");
        reveal_strlit("a");
        reveal_strlit("b");
        reveal_strlit("c");
        reveal_strlit("d");
        reveal_strlit("e");
        reveal_strlit("f");
    }
    match d {
        0 => "0",
        1 => "1",
        2 => "2",
        3 => "3",
        4 => "4",
        5 => "5",
        6 => "6",
        7 => "7",
        8 => "8",
        9 => "9",
        10 => "a",
        11 => "b",
        12 => "c",
        13 => "d",
        14 => "e",
        _ => "f",
    }
}

/// `x` as a string of exactly sixteen lower-case hexadecimal digits.
fn hex_string_u64(x: u64) -> (r: String)
    ensures
        r@ == hex16(x),
{
    let mut s = String::new();
    let mut i: usize = 0;
    while i < 16
        invariant
            i <= 16,
            s@ == hex16(x).take(i as int),
        decreases 16 - i,
    {
        let sh: u64 = 60 - 4 * (i as u64);
        let d: u8 = ((x >> sh) & 0xf) as u8;
        proof {
            assert((x >> sh) & 0xf < 16) by (bit_vector);
            assert(d == nibble64(x, i as int));
        }
        s.append(hex_digit_str(d));
        proof {
            assert(s@ =~= hex16(x).take(i as int + 1));
        }
        i = i + 1;
    }
    proof {
        assert(hex16(x).take(16) =~= hex16(x));
    }
    s
}

/// `x` as a string of exactly eight lower-case hexadecimal digits.
fn hex_string_u32(x: u32) -> (r: String)
    ensures
        r@ == hex8(x),
{
    let mut s = String::new();
    let mut i: usize = 0;
    while i < 8
        invariant
            i <= 8,
            s@ == hex8(x).take(i as int),
        decreases 8 - i,
    {
        let sh: u32 = 28 - 4 * (i as u32);
        let d: u8 = ((x >> sh) & 0xf) as u8;
        proof {
            assert((x >> sh) & 0xf < 16) by (bit_vector);
            assert(d == nibble32(x, i as int));
        }
        s.append(hex_digit_str(d));
        proof {
            assert(s@ =~= hex8(x).take(i as int + 1));
        }
        i = i + 1;
    }
    proof {
        assert(hex8(x).take(8) =~= hex8(x));
    }
    s
}

/// An error returned for an invalid transaction ID.
#[derive(Clone, Copy, Debug, PartialEq, Eq)]
pub enum TXIDError {
    /// The transaction ID would be zero.
    Zero,
}

/// An ID of a database transaction: a 64-bit integer that is never zero.
#[derive(Clone, Copy, Debug, PartialEq, Eq, PartialOrd, Ord, Hash)]
pub struct TXID {
    id: u64,
}

impl View for TXID {
    type V = u64;

    closed spec fn view(&self) -> u64 {
        self.id
    }
}

impl TXID {
    #[verifier::type_invariant]
    pub open spec fn inv(self) -> bool {
        self@ != 0
    }

    /// Construct a new database transaction ID; zero is rejected.
    pub fn new(id: u64) -> (r: Result<TXID, TXIDError>)
        ensures
            id != 0 ==> (r matches Ok(t) && t@ == id),
            id == 0 ==> r == Err::<TXID, TXIDError>(TXIDError::Zero),
    {
        if id == 0 {
            Err(TXIDError::Zero)
        } else {
            Ok(TXID { id })
        }
    }

    /// Return the underlying integer representation of the transaction ID.
    pub fn into_inner(&self) -> (r: u64)
        ensures
            r == self@,
            r != 0,
    {
        proof {
            use_type_invariant(self);
        }
        self.id
    }

    /// Add an unsigned delta to the transaction ID; `None` when the sum does
    /// not fit in 64 bits, so that a zero ID can never appear silently.
    pub fn checked_add(self, rhs: u64) -> (r: Option<TXID>)
        ensures
            self@ + rhs <= u64::MAX ==> (r matches Some(t) && t@ == self@ + rhs),
            self@ + rhs > u64::MAX ==> r is None,
    {
        proof {
            use_type_invariant(&self);
        }
        match self.id.checked_add(rhs) {
            Some(sum) => Some(TXID { id: sum }),
            None => None,
        }
    }

    /// The transaction ID written with sixteen hexadecimal digits.
    pub fn to_hex(&self) -> (r: String)
        ensures
            r@ == hex16(self@),
    {
        hex_string_u64(self.id)
    }
}

/// A database checksum: a 64-bit value whose most significant bit is always
/// set, so it can never collide with the wire value `0` meaning "absent".
#[derive(Clone, Copy, Debug, PartialEq, Eq)]
pub struct Checksum {
    sum: u64,
}

impl View for Checksum {
    type V = u64;

    closed spec fn view(&self) -> u64 {
        self.sum
    }
}

impl Checksum {
    #[verifier::type_invariant]
    pub open spec fn inv(self) -> bool {
        self@ & CHECKSUM_FLAG == CHECKSUM_FLAG
    }

    /// Construct a new database checksum; the most significant bit is forced
    /// to one.
    pub fn new(s: u64) -> (r: Checksum)
        ensures
            r@ == s | CHECKSUM_FLAG,
    {
        let sum = s | CHECKSUM_FLAG;
        proof {
            assert((s | 0x8000_0000_0000_0000u64) & 0x8000_0000_0000_0000u64
                == 0x8000_0000_0000_0000u64) by (bit_vector);
        }
        Checksum { sum }
    }

    /// Return the underlying integer representation of the database checksum.
    pub fn into_inner(&self) -> (r: u64)
        ensures
            r == self@,
            r & CHECKSUM_FLAG == CHECKSUM_FLAG,
    {
        proof {
            use_type_invariant(self);
        }
        self.sum
    }

    /// Combine two checksums; the combination is order-independent, so callers
    /// can accumulate per-page checksums in any order.
    pub fn xor(self, rhs: Checksum) -> (r: Checksum)
        ensures
            r@ == (self@ ^ rhs@) | CHECKSUM_FLAG,
    {
        Checksum::new(self.into_inner() ^ rhs.into_inner())
    }

    /// The checksum written with sixteen hexadecimal digits.
    pub fn to_hex(&self) -> (r: String)
        ensures
            r@ == hex16(self@),
    {
        hex_string_u64(self.sum)
    }
}

/// An error returned for an invalid database page size, holding the rejected
/// value.
#[derive(Clone, Copy, Debug, PartialEq, Eq)]
pub struct PageSizeError(pub u32);

/// Whether `s` is an accepted page size: a power of two between 512 and 65536
/// bytes inclusive.
pub open spec fn page_size_valid(s: u32) -> bool {
    MIN_PAGE_SIZE <= s <= MAX_PAGE_SIZE && s & ((s - 1) as u32) == 0
}

/// A database page size in bytes: a power of two in `[512, 65536]`.
#[derive(Clone, Copy, Debug, PartialEq, Eq)]
pub struct PageSize {
    size: u32,
}

impl View for PageSize {
    type V = u32;

    closed spec fn view(&self) -> u32 {
        self.size
    }
}

impl PageSize {
    #[verifier::type_invariant]
    pub open spec fn inv(self) -> bool {
        page_size_valid(self@)
    }

    /// Construct a new database page size; values outside `[512, 65536]` or
    /// not a power of two are rejected.
    pub fn new(s: u32) -> (r: Result<PageSize, PageSizeError>)
        ensures
            page_size_valid(s) ==> (r matches Ok(p) && p@ == s),
            !page_size_valid(s) ==> r == Err::<PageSize, PageSizeError>(PageSizeError(s)),
    {
        if s < MIN_PAGE_SIZE || s > MAX_PAGE_SIZE || (s & (s - 1)) != 0 {
            Err(PageSizeError(s))
        } else {
            Ok(PageSize { size: s })
        }
    }

    /// Return the underlying integer representation of the database page size.
    pub fn into_inner(&self) -> (r: u32)
        ensures
            r == self@,
            page_size_valid(r),
    {
        proof {
            use_type_invariant(self);
        }
        self.size
    }
}

/// An error returned for an invalid (zero) database page number.
#[derive(Clone, Copy, Debug, PartialEq, Eq)]
pub struct PageNumError;

/// The lock page number for a page size: the page holding SQLite's lock byte,
/// which never stores data and must not appear in an encoded file.
pub open spec fn spec_lock_page(page_size: u32) -> u32
    recommends
        page_size > 0,
{
    (0x4000_0000int / page_size as int + 1) as u32
}

/// The numeric value of an ASCII hexadecimal digit, or `-1` for any other
/// byte.
pub open spec fn hex_byte_val(b: u8) -> int {
    if 48 <= b <= 57 {
        b - 48
    } else if 97 <= b <= 102 {
        b - 87
    } else if 65 <= b <= 70 {
        b - 55
    } else {
        -1
    }
}

/// Whether every byte is an ASCII hexadecimal digit.
pub open spec fn hex_seq_valid(b: Seq<u8>) -> bool {
    forall|i: int| 0 <= i < b.len() ==> hex_byte_val(b[i]) >= 0
}

/// The value of a sequence of hexadecimal digits, most significant first.
pub open spec fn hex_seq_val(b: Seq<u8>) -> int
    decreases b.len(),
{
    if b.len() == 0 {
        0
    } else {
        hex_seq_val(b.drop_last()) * 16 + hex_byte_val(b.last())
    }
}

/// What parsing a byte string as a hexadecimal `u32` yields: the digits'
/// value when the string is nonempty, all digits, and the value fits.
pub open spec fn spec_parse_hex_u32(b: Seq<u8>) -> Option<u32> {
    if b.len() >= 1 && hex_seq_valid(b) && hex_seq_val(b) <= u32::MAX {
        Some(hex_seq_val(b) as u32)
    } else {
        None
    }
}

proof fn lemma_hex_seq_val_nonneg(b: Seq<u8>)
    requires
        hex_seq_valid(b),
    ensures
        hex_seq_val(b) >= 0,
    decreases b.len(),
{
    if b.len() > 0 {
        assert(hex_seq_valid(b.drop_last()));
        lemma_hex_seq_val_nonneg(b.drop_last());
    }
}

proof fn lemma_hex_seq_val_grows(b: Seq<u8>)
    requires
        hex_seq_valid(b),
        b.len() > 0,
    ensures
        hex_seq_val(b) >= hex_seq_val(b.drop_last()),
    decreases b.len(),
{
    assert(hex_seq_valid(b.drop_last()));
    lemma_hex_seq_val_nonneg(b.drop_last());
}

/// The value of each prefix of a valid digit string is at most the value of
/// the whole string.
proof fn lemma_hex_seq_val_prefix(b: Seq<u8>, i: int)
    requires
        hex_seq_valid(b),
        0 <= i <= b.len(),
    ensures
        hex_seq_val(b.take(i)) <= hex_seq_val(b),
    decreases b.len() - i,
{
    if i < b.len() {
        lemma_hex_seq_val_prefix(b, i + 1);
        assert(b.take(i + 1).drop_last() =~= b.take(i));
        assert(hex_seq_valid(b.take(i + 1)));
        lemma_hex_seq_val_grows(b.take(i + 1));
    } else {
        assert(b.take(i) =~= b);
    }
}

/// A database page number: a 32-bit integer that is never zero. The wire
/// value zero is reserved for the end-of-pages sentinel.
#[derive(Clone, Copy, Debug, PartialEq, Eq, PartialOrd, Ord, Hash)]
pub struct PageNum {
    num: u32,
}

impl View for PageNum {
    type V = u32;

    closed spec fn view(&self) -> u32 {
        self.num
    }
}

impl PageNum {
    #[verifier::type_invariant]
    pub open spec fn inv(self) -> bool {
        self@ != 0
    }

    /// Construct a new database page number; zero is rejected.
    pub fn new(n: u32) -> (r: Result<PageNum, PageNumError>)
        ensures
            n != 0 ==> (r matches Ok(p) && p@ == n),
            n == 0 ==> r == Err::<PageNum, PageNumError>(PageNumError),
    {
        if n == 0 {
            Err(PageNumError)
        } else {
            Ok(PageNum { num: n })
        }
    }

    /// Return the underlying integer representation of the database page
    /// number.
    pub fn into_inner(&self) -> (r: u32)
        ensures
            r == self@,
            r != 0,
    {
        proof {
            use_type_invariant(self);
        }
        self.num
    }

    /// The lock page number for the given page size.
    pub fn lock_page(page_size: PageSize) -> (r: PageNum)
        ensures
            r@ == spec_lock_page(page_size@),
    {
        let s = page_size.into_inner();
        let n: u32 = 0x4000_0000u32 / s + 1;
        PageNum { num: n }
    }

    /// Add an unsigned delta to the page number; `None` when the sum does not
    /// fit in 32 bits, so that a zero page number can never appear silently.
    pub fn checked_add(self, rhs: u32) -> (r: Option<PageNum>)
        ensures
            self@ + rhs <= u32::MAX ==> (r matches Some(p) && p@ == self@ + rhs),
            self@ + rhs > u32::MAX ==> r is None,
    {
        proof {
            use_type_invariant(&self);
        }
        match self.num.checked_add(rhs) {
            Some(sum) => Some(PageNum { num: sum }),
            None => None,
        }
    }

    /// The page number written with eight hexadecimal digits, as it is used
    /// to name page files on disk.
    pub fn to_hex(&self) -> (r: String)
        ensures
            r@ == hex8(self@),
    {
        hex_string_u32(self.num)
    }

    /// Parse a page number from a string of hexadecimal digits, accepting
    /// exactly the nonzero values that fit in 32 bits.
    pub fn from_hex(s: &str) -> (r: Result<PageNum, PageNumError>)
        ensures
            match spec_parse_hex_u32(s.spec_bytes()) {
                Some(v) => if v != 0 {
                    (r matches Ok(p) && p@ == v)
                } else {
                    r == Err::<PageNum, PageNumError>(PageNumError)
                },
                None => r == Err::<PageNum, PageNumError>(PageNumError),
            },
    {
        let bytes = s.as_bytes();
        let ghost bs = s.spec_bytes();
        if bytes.len() == 0 {
            return Err(PageNumError);
        }
        let mut v: u64 = 0;
        let mut i: usize = 0;
        while i < bytes.len()
            invariant
                bs == s.spec_bytes(),
                bytes@ == bs,
                0 < bytes@.len(),
                0 <= i <= bytes@.len(),
                hex_seq_valid(bs.take(i as int)),
                v == hex_seq_val(bs.take(i as int)),
                v <= u32::MAX,
            decreases bytes@.len() - i,
        {
            let b = bytes[i];
            let d: u64 = if 48 <= b && b <= 57 {
                (b - 48) as u64
            } else if 97 <= b && b <= 102 {
                (b - 87) as u64
            } else if 65 <= b && b <= 70 {
                (b - 55) as u64
            } else {
                proof {
                    assert(!hex_seq_valid(bs)) by {
                        assert(hex_byte_val(bs[i as int]) == -1);
                    }
                }
                return Err(PageNumError);
            };
            let next: u64 = v * 16 + d;
            proof {
                assert(bs.take(i as int + 1).drop_last() =~= bs.take(i as int));
                assert(hex_byte_val(bs[i as int]) == d);
                assert(hex_seq_valid(bs.take(i as int + 1)));
                assert(hex_seq_val(bs.take(i as int + 1)) == next);
            }
            if next > u32::MAX as u64 {
                // Whatever follows, the value cannot come back down, so the
                // whole string is rejected: either a later byte is not a
                // digit, or the value stays above the 32-bit range.
                proof {
                    if hex_seq_valid(bs) {
                        lemma_hex_seq_val_prefix(bs, i as int + 1);
                        assert(hex_seq_val(bs) > u32::MAX);
                    }
                }
                return Err(PageNumError);
            }
            v = next;
            i = i + 1;
        }
        proof {
            assert(bs.take(i as int) =~= bs);
        }
        PageNum::new(v as u32)
    }
}

/// A position uniquely identifying a state of a database.
#[derive(Clone, Copy, Debug, PartialEq, Eq)]
pub struct Pos {
    /// Last transaction ID.
    pub txid: TXID,
    /// Running database checksum at the given `txid`.
    pub post_apply_checksum: Checksum,
}

} // verus!
