//! Reading little-endian numbers and framed data from a byte slice.

use vstd::prelude::*;
use vstd::slice::slice_subrange;

verus! {

/// Why a project or score cannot be read.
#[derive(Clone, Copy, Debug, PartialEq, Eq, Structural)]
pub enum FlpError {
    /// The file does not start with `FLhd`.
    MissingMagic,
    /// The header has a length other than six.
    HeaderLength(u32),
    /// The file ends too early.
    Truncated,
    /// An offset does not fit in the address space.
    OffsetOverflow,
    /// The end of the event data does not fit in the address space.
    DataLengthOverflow,
    /// A variable-length number goes on for too long.
    InvalidVarint,
    /// A block of notes is not a whole number of records.
    NotesLength(usize),
    /// The selected pattern does not occur.
    PatternMissing(u16),
}

/// Why `count` bytes cannot be read at `at` of `len` bytes, if they cannot.
pub open spec fn shortage(len: nat, at: int, count: int) -> Option<FlpError> {
    if at + count > usize::MAX {
        Some(FlpError::OffsetOverflow)
    } else if at + count > len {
        Some(FlpError::Truncated)
    } else {
        None
    }
}

/// The 16-bit little-endian number at `at`.
pub open spec fn le16(data: Seq<u8>, at: int) -> u16 {
    (data[at] + 256 * data[at + 1]) as u16
}

/// The 32-bit little-endian number at `at`.
pub open spec fn le32(data: Seq<u8>, at: int) -> u32 {
    (data[at] + 0x100 * data[at + 1] + 0x1_0000 * data[at + 2] + 0x100_0000 * data[at + 3]) as u32
}

/// Takes `count` bytes at `*at` and moves `*at` behind them.
pub fn take<'a>(data: &'a [u8], at: &mut usize, count: usize) -> (r: Result<&'a [u8], FlpError>)
    ensures
        match shortage(data@.len(), *old(at) as int, count as int) {
            Some(e) => r == Err::<&'a [u8], FlpError>(e) && *final(at) == *old(at),
            None => {
                &&& r matches Ok(s)
                &&& s@ == data@.subrange(*old(at) as int, *old(at) + count)
                &&& *final(at) == *old(at) + count
            },
        },
{
    match at.checked_add(count) {
        None => Err(FlpError::OffsetOverflow),
        Some(end) => {
            if end > data.len() {
                return Err(FlpError::Truncated);
            }
            let start: usize = *at;
            *at = end;
            Ok(slice_subrange(data, start, end))
        },
    }
}

/// Takes a 16-bit little-endian number.
pub fn take_u16(data: &[u8], at: &mut usize) -> (r: Result<u16, FlpError>)
    ensures
        match shortage(data@.len(), *old(at) as int, 2) {
            Some(e) => r == Err::<u16, FlpError>(e) && *final(at) == *old(at),
            None => r == Ok::<u16, FlpError>(le16(data@, *old(at) as int)) && *final(at) == *old(at)
                + 2,
        },
{
    let s: &[u8] = take(data, at, 2)?;
    Ok(s[0] as u16 + 256 * s[1] as u16)
}

/// Takes a 32-bit little-endian number.
pub fn take_u32(data: &[u8], at: &mut usize) -> (r: Result<u32, FlpError>)
    ensures
        match shortage(data@.len(), *old(at) as int, 4) {
            Some(e) => r == Err::<u32, FlpError>(e) && *final(at) == *old(at),
            None => r == Ok::<u32, FlpError>(le32(data@, *old(at) as int)) && *final(at) == *old(at)
                + 4,
        },
{
    let s: &[u8] = take(data, at, 4)?;
    Ok(s[0] as u32 + 0x100 * s[1] as u32 + 0x1_0000 * s[2] as u32 + 0x100_0000 * s[3] as u32)
}

/// The most bytes that a variable-length number may have: seven bits each,
/// enough for an address.
pub open spec fn varint_limit() -> nat {
    ((usize::BITS + 6) / 7) as nat
}

/// Reads a variable-length number of at most `left` bytes: seven bits per byte,
/// lowest first, the top bit set on all bytes but the last. Gives the number and
/// the position behind the bytes that were read.
pub open spec fn varint(data: Seq<u8>, at: int, left: nat) -> (Result<nat, FlpError>, int)
    decreases left,
{
    if left == 0 {
        (Err(FlpError::InvalidVarint), at)
    } else {
        match shortage(data.len(), at, 1) {
            Some(e) => (Err(e), at),
            None => if data[at] < 128 {
                (Ok(data[at] as nat), at + 1)
            } else {
                let (rest, end) = varint(data, at + 1, (left - 1) as nat);
                match rest {
                    Ok(v) => (Ok((data[at] % 128) as nat + 128 * v), end),
                    Err(e) => (Err(e), end),
                }
            },
        }
    }
}

/// The length that a variable-length number at `at` denotes; bits beyond the
/// width of an address are dropped.
pub open spec fn varint_length(data: Seq<u8>, at: int) -> (Result<usize, FlpError>, int) {
    let (value, end) = varint(data, at, varint_limit());
    match value {
        Ok(v) => (Ok((v % (usize::MAX as nat + 1)) as usize), end),
        Err(e) => (Err(e), end),
    }
}

/// The powers of 128.
spec fn pow128(i: nat) -> nat
    decreases i,
{
    if i == 0 {
        1
    } else {
        128 * pow128((i - 1) as nat)
    }
}

proof fn lemma_pow128_bound(i: nat)
    requires
        i <= 10,
    ensures
        1 <= pow128(i) <= 0x40_0000_0000_0000_0000,
{
    reveal_with_fuel(pow128, 11);
}

/// Takes a variable-length number.
pub fn take_varint(data: &[u8], at: &mut usize) -> (r: Result<usize, FlpError>)
    ensures
        (r, *final(at) as int) == varint_length(data@, *old(at) as int),
{
    let limit: u32 = (usize::BITS + 6) / 7;
    let mut value: u128 = 0;
    let mut scale: u128 = 1;
    let mut i: u32 = 0;
    let ghost start = *at as int;
    let ghost whole = varint(data@, start, varint_limit());
    while i < limit
        invariant
            i <= limit <= 10,
            limit == varint_limit(),
            scale == pow128(i as nat),
            value < scale,
            whole == varint(data@, start, varint_limit()),
            start == *old(at),
            ({
                let (rest, end) = varint(data@, *at as int, (limit - i) as nat);
                match rest {
                    Ok(v) => whole == (Ok::<nat, FlpError>((value + scale * v) as nat), end),
                    Err(e) => whole == (Err::<nat, FlpError>(e), end),
                }
            }),
        decreases limit - i,
    {
        let ghost here = *at as int;
        let s: &[u8] = take(data, at, 1)?;
        let byte: u8 = s[0];
        let digit: u128 = (byte % 128) as u128;
        proof {
            lemma_pow128_bound(i as nat);
            lemma_pow128_bound((i + 1) as nat);
            assert(byte == data@[here]);
            let (rest, end) = varint(data@, here + 1, (limit - i - 1) as nat);
            if byte >= 128 {
                if let Ok(v) = rest {
                    assert(value + scale * (digit + 128 * v) == (value + digit * scale) + (128 * scale) * v)
                        by (nonlinear_arith);
                }
            } else {
                assert(scale * digit == digit * scale) by (nonlinear_arith);
            }
            assert(digit * scale <= 127 * scale) by (nonlinear_arith)
                requires
                    digit <= 127,
            ;
        }
        value = value + digit * scale;
        if byte < 128 {
            let modulus: u128 = usize::MAX as u128 + 1;
            return Ok((value % modulus) as usize);
        }
        scale = 128 * scale;
        i += 1;
    }
    Err(FlpError::InvalidVarint)
}

/// Bytes are short exactly when their end lies behind that of the data; an end that is
/// no address is told apart.
pub proof fn bytes_are_short_behind_the_end(len: nat, at: int, count: int)
    ensures
        shortage(len, at, count) is None <==> at + count <= len && at + count <= usize::MAX,
        shortage(len, at, count) == Some(FlpError::OffsetOverflow) <==> at + count > usize::MAX,
        shortage(len, at, count) == Some(FlpError::Truncated) <==> len < at + count <= usize::MAX,
{
}

/// Numbers are read with their lowest byte first, and every byte counts.
pub proof fn numbers_are_little_endian(data: Seq<u8>, at: int)
    ensures
        le16(data, at) as int == data[at] + 256 * data[at + 1],
        le32(data, at) as int == data[at] + 256 * data[at + 1] + 65536 * data[at + 2] + 16777216
            * data[at + 3],
{
}

/// A number as variable-length bytes: seven bits each, lowest first, the top bit set on
/// all but the last.
pub open spec fn varint_bytes(v: nat) -> Seq<u8>
    decreases v,
{
    if v < 128 {
        seq![v as u8]
    } else {
        seq![(128 + v % 128) as u8] + varint_bytes(v / 128)
    }
}

proof fn lemma_varint_read_back(data: Seq<u8>, at: int, v: nat, left: nat)
    requires
        0 <= at,
        at + varint_bytes(v).len() <= data.len() <= usize::MAX,
        data.subrange(at, at + varint_bytes(v).len()) == varint_bytes(v),
        varint_bytes(v).len() <= left,
    ensures
        varint(data, at, left) == (Ok::<nat, FlpError>(v), at + varint_bytes(v).len()),
    decreases v,
{
    let bytes = varint_bytes(v);
    assert(data.subrange(at, at + bytes.len())[0] == data[at]);
    if v >= 128 {
        let rest = varint_bytes(v / 128);
        assert(bytes.skip(1) =~= rest);
        assert(data.subrange(at + 1, at + 1 + rest.len()) =~= data.subrange(
            at,
            at + bytes.len(),
        ).skip(1));
        lemma_varint_read_back(data, at + 1, v / 128, (left - 1) as nat);
        assert(data[at] % 128 == v % 128);
    }
}

proof fn lemma_varint_bytes_length(v: nat, n: nat)
    requires
        n > 0,
        v < pow128(n),
    ensures
        0 < varint_bytes(v).len() <= n,
    decreases n,
{
    if v >= 128 {
        reveal_with_fuel(pow128, 2);
        assert(n > 1);
        lemma_varint_bytes_length(v / 128, (n - 1) as nat);
    }
}

/// Every length that an address can hold is read back from its variable-length bytes.
pub proof fn varint_is_read_back(before: Seq<u8>, v: usize, after: Seq<u8>)
    requires
        (before + varint_bytes(v as nat) + after).len() <= usize::MAX,
    ensures
        varint_length(before + varint_bytes(v as nat) + after, before.len() as int) == (
            Ok::<usize, FlpError>(v),
            (before.len() + varint_bytes(v as nat).len()) as int,
        ),
{
    let data = before + varint_bytes(v as nat) + after;
    let at = before.len() as int;
    reveal_with_fuel(pow128, 11);
    assert(usize::BITS == 32 || usize::BITS == 64);
    assert(varint_limit() == 5 || varint_limit() == 10);
    assert(v < pow128(varint_limit()));
    lemma_varint_bytes_length(v as nat, varint_limit());
    assert(data.subrange(at, at + varint_bytes(v as nat).len()) =~= varint_bytes(v as nat));
    lemma_varint_read_back(data, at, v as nat, varint_limit());
    vstd::arithmetic::div_mod::lemma_small_mod(v as nat, usize::MAX as nat + 1);
}

/// A number that goes on for more bytes than an address needs is refused.
pub proof fn endless_varint_is_refused(data: Seq<u8>, at: int, left: nat)
    requires
        0 <= at,
        at + left <= data.len() <= usize::MAX,
        forall|i: int| at <= i < at + left ==> #[trigger] data[i] >= 128,
    ensures
        varint(data, at, left) == (Err::<nat, FlpError>(FlpError::InvalidVarint), at + left),
    decreases left,
{
    if left > 0 {
        assert(data[at] >= 128);
        endless_varint_is_refused(data, at + 1, (left - 1) as nat);
    }
}

/// A number that breaks off with the data is refused.
pub proof fn cut_varint_is_refused(data: Seq<u8>, at: int, left: nat)
    requires
        0 <= at <= data.len() < at + left,
        data.len() < usize::MAX,
        forall|i: int| at <= i < data.len() ==> #[trigger] data[i] >= 128,
    ensures
        varint(data, at, left).0 == Err::<nat, FlpError>(FlpError::Truncated),
    decreases left,
{
    if at < data.len() {
        assert(data[at] >= 128);
        cut_varint_is_refused(data, at + 1, (left - 1) as nat);
    }
}

/// As many bytes are read as an address needs at seven bits each.
pub proof fn varint_limit_fits_an_address()
    ensures
        usize::BITS <= 7 * varint_limit() < usize::BITS + 7,
{
}

/// A length keeps as many bits of its number as an address has.
pub proof fn long_varints_wrap(data: Seq<u8>, at: int)
    ensures
        match varint(data, at, varint_limit()) {
            (Ok(v), end) => varint_length(data, at).1 == end && (varint_length(data, at).0 matches Ok(n)
                && n as int == v as int % (usize::MAX + 1)),
            (Err(e), end) => varint_length(data, at) == (Err::<usize, FlpError>(e), end),
        },
{
}

} // verus!
