use std::io;
use std::path::PathBuf;
use std::string::FromUtf8Error;
use vstd::prelude::*;

verus! {

/// `std::io::Error`, carried opaquely in the error types below.
#[verifier::external_type_specification]
#[verifier::external_body]
pub struct ExIoError(io::Error);

/// `std::path::PathBuf`, carried opaquely in the error types below.
#[verifier::external_type_specification]
#[verifier::external_body]
pub struct ExPathBuf(PathBuf);

/// `std::string::FromUtf8Error`, carried opaquely by `ReadError::InvalidString`.
#[verifier::external_type_specification]
#[verifier::external_body]
pub struct ExFromUtf8Error(FromUtf8Error);

/// Errors of the store as a whole.
#[derive(Debug)]
pub enum SunsetDBError {
    /// The store holds no segment (it always holds one once opened).
    NoSegments,
    SegmentError(SegmentError),
    IOError(io::Error),
}

/// Errors of an insertion.
#[derive(Debug)]
pub enum InsertError {
    NoSegments,
    KeyExceedsMaxSize,
    /// The value's length would read as the deletion marker.
    ValueExceedsMaxSize,
    IOError(io::Error),
}

/// Errors of a deletion.
#[derive(Debug)]
pub enum DeleteError {
    NoSegments,
    KeyNotFound,
    IOError(io::Error),
}

/// Errors of a lookup.
#[derive(Debug)]
pub enum GetError {
    KeyNotFound,
    InvalidChecksum { expected: u32, found: u32 },
    ReadError(ReadError),
}

/// Errors of opening a segment and rebuilding its index.
#[derive(Debug)]
pub enum SegmentError {
    InvalidPath(PathBuf),
    InvalidIndexFormat(String),
    SeekError,
    ReadError(ReadError),
    IOErrorAtPath { path: PathBuf, source: io::Error },
    IOError(io::Error),
}

/// Errors of reading a segment's name as its numeric identifier.
#[derive(Debug, PartialEq, Eq)]
pub enum SegmentIDError {
    NotAnInt,
    IDFromEmtpyPath,
    IDFromInvalidPath(PathBuf),
}

/// Errors of decoding one record.
#[derive(Debug)]
pub enum ReadError {
    /// The stored checksum differs from the one computed over the bytes read.
    InvalidChecksum { expected: u32, found: u32 },
    IOError(io::Error),
    InvalidString { source: FromUtf8Error },
    InvalidInt(std::num::TryFromIntError),
}

} // verus!
