//! The on-disk record format.
//!
//! A record is `<8-byte big-endian length><bytes><4-byte big-endian CRC32>`.
//! The deletion marker is the lone 8-byte length field `1 << 63`.
use crate::error::ReadError;
use std::io;
use std::string::FromUtf8Error;
use vstd::prelude::*;
use vstd::utf8::*;

verus! {

/// The length-field value that marks a key as deleted.
pub const TOMBSTONE: u64 = 0x8000_0000_0000_0000;

/// Width of a length field.
pub const ENCODED_LEN_SIZE: usize = 8;

/// Width of a checksum field.
pub const CRC32_SIZE: usize = 4;

/// The largest length of a segment log: file offsets are signed 64-bit.
pub const MAX_LOG_LEN: u64 = 0x7fff_ffff_ffff_ffff;

/// The CRC32 (IEEE) checksum of a byte string.
pub uninterp spec fn crc32_of(b: Seq<u8>) -> u32;

/// Relies on `crc32fast::hash`: the CRC32 of the bytes, a function of them alone.
#[verifier::external_body]
fn crc32(b: &[u8]) -> (r: u32)
    ensures
        r == crc32_of(b@),
{
    crc32fast::hash(b)
}

/// Relies on `String::from_utf8`: it succeeds exactly on valid UTF-8 and then
/// holds the characters that the bytes encode.
#[verifier::external_body]
fn string_from_utf8(b: Vec<u8>) -> (r: Result<String, FromUtf8Error>)
    ensures
        r is Ok <==> valid_utf8(b@),
        r is Ok ==> r->Ok_0@ == decode_utf8(b@),
{
    String::from_utf8(b)
}

/// Relies on `io::Error::from`: an error of kind `UnexpectedEof`, as a read
/// past the end of a file gives.
#[verifier::external_body]
pub(crate) fn unexpected_eof() -> io::Error {
    io::Error::from(io::ErrorKind::UnexpectedEof)
}

/// Relies on `io::Error::new`: an error of kind `FileTooLarge`, as a write
/// past the largest file size gives.
#[verifier::external_body]
pub(crate) fn file_too_large() -> io::Error {
    io::Error::new(io::ErrorKind::FileTooLarge, "a segment cannot grow past the largest file size")
}

/// The big-endian bytes of a 64-bit integer.
pub open spec fn be_u64_bytes(n: u64) -> Seq<u8> {
    seq![
        (n >> 56u64) as u8,
        (n >> 48u64) as u8,
        (n >> 40u64) as u8,
        (n >> 32u64) as u8,
        (n >> 24u64) as u8,
        (n >> 16u64) as u8,
        (n >> 8u64) as u8,
        n as u8,
    ]
}

/// The 64-bit integer that eight big-endian bytes stand for.
pub open spec fn be_u64_of(b: Seq<u8>) -> u64 {
    ((b[0] as u64) << 56u64) | ((b[1] as u64) << 48u64) | ((b[2] as u64) << 40u64) | ((
    b[3] as u64) << 32u64) | ((b[4] as u64) << 24u64) | ((b[5] as u64) << 16u64) | ((
    b[6] as u64) << 8u64) | (b[7] as u64)
}

/// The big-endian bytes of a 32-bit integer.
pub open spec fn be_u32_bytes(n: u32) -> Seq<u8> {
    seq![(n >> 24u32) as u8, (n >> 16u32) as u8, (n >> 8u32) as u8, n as u8]
}

/// The 32-bit integer that four big-endian bytes stand for.
pub open spec fn be_u32_of(b: Seq<u8>) -> u32 {
    ((b[0] as u32) << 24u32) | ((b[1] as u32) << 16u32) | ((b[2] as u32) << 8u32) | (b[3] as u32)
}

/// Decoding the big-endian bytes of a 64-bit integer gives it back.
pub proof fn lemma_be_u64_round_trip(n: u64)
    ensures
        be_u64_of(be_u64_bytes(n)) == n,
{
    let b = be_u64_bytes(n);
    let (b0, b1, b2, b3, b4, b5, b6, b7) = (b[0], b[1], b[2], b[3], b[4], b[5], b[6], b[7]);
    assert(b0 == (n >> 56u64) as u8 && b1 == (n >> 48u64) as u8 && b2 == (n >> 40u64) as u8
        && b3 == (n >> 32u64) as u8 && b4 == (n >> 24u64) as u8 && b5 == (n >> 16u64) as u8
        && b6 == (n >> 8u64) as u8 && b7 == n as u8);
    assert(((b0 as u64) << 56u64) | ((b1 as u64) << 48u64) | ((b2 as u64) << 40u64) | ((
    b3 as u64) << 32u64) | ((b4 as u64) << 24u64) | ((b5 as u64) << 16u64) | ((b6 as u64)
        << 8u64) | (b7 as u64) == n) by (bit_vector)
        requires
            b0 == (n >> 56u64) as u8 && b1 == (n >> 48u64) as u8 && b2 == (n >> 40u64) as u8
                && b3 == (n >> 32u64) as u8 && b4 == (n >> 24u64) as u8 && b5 == (n
                >> 16u64) as u8 && b6 == (n >> 8u64) as u8 && b7 == n as u8,
    ;
}

/// Decoding the big-endian bytes of a 32-bit integer gives it back.
pub proof fn lemma_be_u32_round_trip(n: u32)
    ensures
        be_u32_of(be_u32_bytes(n)) == n,
{
    let b = be_u32_bytes(n);
    let (b0, b1, b2, b3) = (b[0], b[1], b[2], b[3]);
    assert(b0 == (n >> 24u32) as u8 && b1 == (n >> 16u32) as u8 && b2 == (n >> 8u32) as u8
        && b3 == n as u8);
    assert(((b0 as u32) << 24u32) | ((b1 as u32) << 16u32) | ((b2 as u32) << 8u32) | (
    b3 as u32) == n) by (bit_vector)
        requires
            b0 == (n >> 24u32) as u8 && b1 == (n >> 16u32) as u8 && b2 == (n >> 8u32) as u8
                && b3 == n as u8,
    ;
}

/// Decodes eight big-endian bytes as an unsigned 64-bit integer.
pub fn parse_u64_bytes(bytes: [u8; 8]) -> (r: Result<u64, ReadError>)
    ensures
        r matches Ok(n) && n == be_u64_of(bytes@),
{
    Ok(((bytes[0] as u64) << 56u64) | ((bytes[1] as u64) << 48u64) | ((bytes[2] as u64)
        << 40u64) | ((bytes[3] as u64) << 32u64) | ((bytes[4] as u64) << 24u64) | ((
    bytes[5] as u64) << 16u64) | ((bytes[6] as u64) << 8u64) | (bytes[7] as u64))
}

/// What reading one record at a position can fail with.
pub enum ReadFailure {
    /// The log ends inside the record.
    Truncated,
    /// The length field does not fit a `usize`.
    TooLong,
    /// The stored checksum is `found`; the bytes read have checksum `expected`.
    Corrupt { expected: u32, found: u32 },
    /// The bytes are not UTF-8.
    NotText,
}

/// The raw reading of one record.
pub enum RawRecord {
    Deleted,
    Bytes(Seq<u8>),
    Failed(ReadFailure),
}

/// The reading of one record as text.
pub enum Decoded {
    Deleted,
    Text(Seq<char>),
    Failed(ReadFailure),
}

/// The encoding of a byte string as a record.
pub open spec fn record(b: Seq<u8>) -> Seq<u8> {
    be_u64_bytes(b.len() as u64) + b + be_u32_bytes(crc32_of(b))
}

/// The deletion marker.
pub open spec fn tombstone() -> Seq<u8> {
    be_u64_bytes(TOMBSTONE)
}

/// The record that starts at position `p` of `log`.
pub open spec fn record_at(log: Seq<u8>, p: int) -> RawRecord {
    if p < 0 || p + 8 > log.len() {
        RawRecord::Failed(ReadFailure::Truncated)
    } else {
        let n = be_u64_of(log.subrange(p, p + 8));
        if n == TOMBSTONE {
            RawRecord::Deleted
        } else if n > usize::MAX {
            RawRecord::Failed(ReadFailure::TooLong)
        } else if p + 8 + n + 4 > log.len() {
            RawRecord::Failed(ReadFailure::Truncated)
        } else {
            let b = log.subrange(p + 8, p + 8 + n);
            let found = be_u32_of(log.subrange(p + 8 + n, p + 12 + n));
            if found == crc32_of(b) {
                RawRecord::Bytes(b)
            } else {
                RawRecord::Failed(ReadFailure::Corrupt { expected: crc32_of(b), found })
            }
        }
    }
}

/// The record that starts at position `p` of `log`, read as text.
pub open spec fn string_at(log: Seq<u8>, p: int) -> Decoded {
    match record_at(log, p) {
        RawRecord::Deleted => Decoded::Deleted,
        RawRecord::Failed(f) => Decoded::Failed(f),
        RawRecord::Bytes(b) => if valid_utf8(b) {
            Decoded::Text(decode_utf8(b))
        } else {
            Decoded::Failed(ReadFailure::NotText)
        },
    }
}

/// `e` is the error that reports failure `f`.
pub open spec fn read_error_is(e: ReadError, f: ReadFailure) -> bool {
    match f {
        ReadFailure::Truncated => e is IOError,
        ReadFailure::TooLong => e is InvalidInt,
        ReadFailure::Corrupt { expected, found } => e matches ReadError::InvalidChecksum {
            expected: x,
            found: y,
        } && x == expected && y == found,
        ReadFailure::NotText => e is InvalidString,
    }
}

/// `r` is what reading the record `d` returns.
pub open spec fn read_result_is(r: Result<Option<String>, ReadError>, d: Decoded) -> bool {
    match d {
        Decoded::Deleted => r matches Ok(None),
        Decoded::Text(s) => r matches Ok(Some(t)) && t@ == s,
        Decoded::Failed(f) => r matches Err(e) && read_error_is(e, f),
    }
}

/// Appends the bytes of `b` to `out`.
fn push_bytes(out: &mut Vec<u8>, b: &[u8])
    ensures
        final(out)@ == old(out)@ + b@,
{
    let mut i: usize = 0;
    while i < b.len()
        invariant
            i <= b@.len(),
            out@ == old(out)@ + b@.subrange(0, i as int),
        decreases b@.len() - i,
    {
        out.push(b[i]);
        i = i + 1;
        assert(b@.subrange(0, i as int) == b@.subrange(0, i - 1) + seq![b@[i - 1]]);
    }
    assert(b@.subrange(0, b@.len() as int) == b@);
}

/// Appends the big-endian bytes of `n` to `out`.
fn push_u64_be(out: &mut Vec<u8>, n: u64)
    ensures
        final(out)@ == old(out)@ + be_u64_bytes(n),
{
    out.push((n >> 56u64) as u8);
    out.push((n >> 48u64) as u8);
    out.push((n >> 40u64) as u8);
    out.push((n >> 32u64) as u8);
    out.push((n >> 24u64) as u8);
    out.push((n >> 16u64) as u8);
    out.push((n >> 8u64) as u8);
    out.push(n as u8);
    assert(out@ =~= old(out)@ + be_u64_bytes(n));
}

/// Appends the big-endian bytes of `n` to `out`.
fn push_u32_be(out: &mut Vec<u8>, n: u32)
    ensures
        final(out)@ == old(out)@ + be_u32_bytes(n),
{
    out.push((n >> 24u32) as u8);
    out.push((n >> 16u32) as u8);
    out.push((n >> 8u32) as u8);
    out.push(n as u8);
    assert(out@ =~= old(out)@ + be_u32_bytes(n));
}

/// Appends the deletion marker to the log.
pub fn append_deletion(log: &mut Vec<u8>)
    ensures
        final(log)@ == old(log)@ + tombstone(),
{
    push_u64_be(log, TOMBSTONE);
}

/// Appends `b` to the log as a record: its length, its bytes, their checksum.
pub fn append_string(log: &mut Vec<u8>, b: &str)
    ensures
        final(log)@ == old(log)@ + record(encode_utf8(b@)),
{
    let bytes = b.as_bytes();
    push_u64_be(log, bytes.len() as u64);
    push_bytes(log, bytes);
    let checksum = crc32(bytes);
    push_u32_be(log, checksum);
    assert(log@ =~= old(log)@ + record(encode_utf8(b@)));
}

/// Reads the 8-byte field at position `pos` of the log.
pub fn read_u64_bytes(log: &[u8], pos: usize) -> (r: Result<[u8; 8], ReadError>)
    requires
        pos <= log@.len(),
    ensures
        pos + 8 <= log@.len() ==> (r matches Ok(b) && b@ == log@.subrange(pos as int, pos + 8)),
        pos + 8 > log@.len() ==> (r matches Err(e) && e is IOError),
{
    if log.len() - pos < ENCODED_LEN_SIZE {
        return Err(ReadError::IOError(unexpected_eof()));
    }
    let b: [u8; 8] = [
        log[pos],
        log[pos + 1],
        log[pos + 2],
        log[pos + 3],
        log[pos + 4],
        log[pos + 5],
        log[pos + 6],
        log[pos + 7],
    ];
    assert(b@ =~= log@.subrange(pos as int, pos + 8));
    Ok(b)
}

/// Reads and checks the record at position `pos` of the log: `None` for the
/// deletion marker, else its bytes as text once their checksum matches.
pub fn read_check_string(log: &[u8], pos: usize) -> (r: Result<Option<String>, ReadError>)
    requires
        pos <= log@.len(),
    ensures
        read_result_is(r, string_at(log@, pos as int)),
{
    let encoded_len = read_u64_bytes(log, pos)?;
    let total: usize = log.len();
    assert(pos + 8 <= total);
    let n = parse_u64_bytes(encoded_len)?;
    if n == TOMBSTONE {
        return Ok(None);
    }
    let len = match usize::try_from(n) {
        Ok(len) => len,
        Err(e) => {
            return Err(ReadError::InvalidInt(e));
        },
    };
    let start = pos + ENCODED_LEN_SIZE;
    if total - start < len || total - start - len < CRC32_SIZE {
        return Err(ReadError::IOError(unexpected_eof()));
    }
    let mut bytes: Vec<u8> = Vec::new();
    push_bytes(&mut bytes, &log[start..start + len]);
    let c = start + len;
    let found = ((log[c] as u32) << 24u32) | ((log[c + 1] as u32) << 16u32) | ((log[c + 2] as u32)
        << 8u32) | (log[c + 3] as u32);
    let expected = crc32(bytes.as_slice());
    proof {
        assert(bytes@ =~= log@.subrange(start as int, start + len));
        assert(log@.subrange(c as int, c + 4)[0] == log@[c as int]);
    }
    if found != expected {
        return Err(ReadError::InvalidChecksum { expected, found });
    }
    match string_from_utf8(bytes) {
        Ok(s) => Ok(Some(s)),
        Err(e) => Err(ReadError::InvalidString { source: e }),
    }
}

/// Reads and checks the record at byte `offset` of the log.
pub fn read_string_at_offset(log: &[u8], offset: u64) -> (r: Result<Option<String>, ReadError>)
    ensures
        read_result_is(r, string_at(log@, offset as int)),
{
    if offset > log.len() as u64 {
        return Err(ReadError::IOError(unexpected_eof()));
    }
    read_check_string(log, offset as usize)
}

/// Reading back a record just written.
pub proof fn lemma_record_at_written(pre: Seq<u8>, b: Seq<u8>, post: Seq<u8>)
    requires
        b.len() < TOMBSTONE,
        b.len() <= usize::MAX,
    ensures
        record_at(pre + record(b) + post, pre.len() as int) == RawRecord::Bytes(b),
{
    let log = pre + record(b) + post;
    let p = pre.len() as int;
    let n = b.len() as int;
    lemma_be_u64_round_trip(b.len() as u64);
    lemma_be_u32_round_trip(crc32_of(b));
    assert(log.subrange(p, p + 8) =~= be_u64_bytes(b.len() as u64));
    assert(log.subrange(p + 8, p + 8 + n) =~= b);
    assert(log.subrange(p + 8 + n, p + 12 + n) =~= be_u32_bytes(crc32_of(b)));
}

proof fn lemma_be_u32_of_bytes(s: Seq<u8>)
    requires
        s.len() == 4,
    ensures
        be_u32_bytes(be_u32_of(s)) == s,
{
    let (b0, b1, b2, b3) = (s[0], s[1], s[2], s[3]);
    let n = be_u32_of(s);
    assert(n == ((b0 as u32) << 24u32) | ((b1 as u32) << 16u32) | ((b2 as u32) << 8u32) | (
    b3 as u32));
    assert((n >> 24u32) as u8 == b0 && (n >> 16u32) as u8 == b1 && (n >> 8u32) as u8 == b2
        && n as u8 == b3) by (bit_vector)
        requires
            n == ((b0 as u32) << 24u32) | ((b1 as u32) << 16u32) | ((b2 as u32) << 8u32) | (
            b3 as u32),
    ;
    assert(be_u32_bytes(n) =~= s);
}

proof fn lemma_be_u32_of_injective(s: Seq<u8>, t: Seq<u8>)
    requires
        s.len() == 4,
        t.len() == 4,
        s != t,
    ensures
        be_u32_of(s) != be_u32_of(t),
{
    if be_u32_of(s) == be_u32_of(t) {
        lemma_be_u32_of_bytes(s);
        lemma_be_u32_of_bytes(t);
    }
}

/// Damaging byte `j` of a record's checksum makes reading the record report
/// a checksum mismatch, with the checksum of its bytes as `expected`.
pub proof fn lemma_corrupt_checksum(pre: Seq<u8>, b: Seq<u8>, post: Seq<u8>, j: int, x: u8)
    requires
        b.len() < TOMBSTONE,
        b.len() <= usize::MAX,
        0 <= j < 4,
        x != be_u32_bytes(crc32_of(b))[j],
    ensures
        record_at(pre + record(b).update(8 + b.len() + j, x) + post, pre.len() as int) matches RawRecord::Failed(
            ReadFailure::Corrupt { expected, found },
        ) && expected == crc32_of(b) && found != crc32_of(b),
{
    let n = b.len() as int;
    let stored = be_u32_bytes(crc32_of(b));
    let damaged = stored.update(j, x);
    assert(record(b).update(8 + n + j, x) =~= be_u64_bytes(n as u64) + b + damaged);
    let bad = pre + record(b).update(8 + n + j, x) + post;
    let p = pre.len() as int;
    lemma_be_u64_round_trip(n as u64);
    assert(bad.subrange(p, p + 8) =~= be_u64_bytes(n as u64));
    assert(bad.subrange(p + 8, p + 8 + n) =~= b);
    assert(bad.subrange(p + 8 + n, p + 12 + n) =~= damaged);
    assert(damaged[j] != stored[j]);
    lemma_be_u32_round_trip(crc32_of(b));
    lemma_be_u32_of_injective(damaged, stored);
}

/// Damaging byte `j` of a record's payload makes reading the record report a
/// checksum mismatch, with the stored checksum as `found`, unless the damaged
/// bytes have the same CRC32 as the bytes written.
pub proof fn lemma_corrupt_payload(pre: Seq<u8>, b: Seq<u8>, post: Seq<u8>, j: int, x: u8)
    requires
        b.len() < TOMBSTONE,
        b.len() <= usize::MAX,
        0 <= j < b.len(),
    ensures
        ({
            let damaged = b.update(j, x);
            record_at(pre + record(b).update(8 + j, x) + post, pre.len() as int) == if crc32_of(
                damaged,
            ) == crc32_of(b) {
                RawRecord::Bytes(damaged)
            } else {
                RawRecord::Failed(
                    ReadFailure::Corrupt { expected: crc32_of(damaged), found: crc32_of(b) },
                )
            }
        }),
{
    let n = b.len() as int;
    let damaged = b.update(j, x);
    assert(record(b).update(8 + j, x) =~= be_u64_bytes(n as u64) + damaged + be_u32_bytes(
        crc32_of(b),
    ));
    let bad = pre + record(b).update(8 + j, x) + post;
    let p = pre.len() as int;
    lemma_be_u64_round_trip(n as u64);
    lemma_be_u32_round_trip(crc32_of(b));
    assert(bad.subrange(p, p + 8) =~= be_u64_bytes(n as u64));
    assert(bad.subrange(p + 8, p + 8 + n) =~= damaged);
    assert(bad.subrange(p + 8 + n, p + 12 + n) =~= be_u32_bytes(crc32_of(b)));
}

} // verus!
