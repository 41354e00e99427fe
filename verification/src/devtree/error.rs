//! Errors of reading a devicetree blob.
use core::ops::Range;

use vstd::prelude::*;

verus! {

use crate::devicetree::text::{alt_hex_text, dec_text, push_alt_hex, push_dec};

/// The kinds of errors that can occur when reading a devicetree blob.
#[derive(Debug)]
#[non_exhaustive]
pub enum ReadDevicetreeErrorKind {
    /// The blob does not start at a multiple of `expected_alignment`.
    UnalignedPointer { address: usize, expected_alignment: usize },
    /// The blob starts at address zero.
    NullPointer,
    /// Fewer bytes were given than the blob needs.
    InsufficientBytes { needed: usize, actual: usize },
    /// The header does not start with the devicetree magic number.
    InvalidMagic { magic: u32 },
    /// The total size is smaller than the header or runs past the end of the
    /// address space.
    InvalidTotalSize { total_size: usize },
    /// The blob cannot be read by a reader of version 16.
    IncompatibleVersion { version: u32, last_compatible_version: u32 },
    /// A block's offset or size is not a multiple of its alignment.
    UnalignedBlock {
        block_name: &'static str,
        block_alignment: usize,
        block_offset: u32,
        block_size: u32,
    },
    /// A block starts before the previous one ends or ends after the blob.
    BlockOutOfBounds {
        block_name: &'static str,
        block_offset: u32,
        block_size: u32,
        valid_range: Range<u32>,
    },
    /// The memory reservation block has no terminating entry.
    UnterminatedMemRsvmap,
}

impl ReadDevicetreeErrorKind {
    /// The text that describes the error.
    pub open spec fn spec_message(&self) -> Seq<char> {
        match *self {
            ReadDevicetreeErrorKind::UnalignedPointer { address, expected_alignment } =>
                "unaligned devicetree pointer given: address="@ + alt_hex_text(address as nat)
                + ", expected_alignment="@ + dec_text(expected_alignment as nat),
            ReadDevicetreeErrorKind::NullPointer => "null devicetree pointer given"@,
            ReadDevicetreeErrorKind::InsufficientBytes { needed, actual } =>
                "insufficient length of devicetree blob bytes, needed="@ + dec_text(needed as nat)
                + ", actual="@ + dec_text(actual as nat),
            ReadDevicetreeErrorKind::InvalidMagic { magic } => "invalid magic number: magic="@
                + alt_hex_text(magic as nat),
            ReadDevicetreeErrorKind::InvalidTotalSize { total_size } =>
                "invalid total size: total_size="@ + dec_text(total_size as nat),
            ReadDevicetreeErrorKind::IncompatibleVersion { version, last_compatible_version } =>
                "incompatible version: version="@ + dec_text(version as nat)
                + ", last_compatible_version="@ + dec_text(last_compatible_version as nat),
            ReadDevicetreeErrorKind::UnalignedBlock {
                block_name,
                block_alignment,
                block_offset,
                block_size,
            } => "unaligned block: block_name="@ + block_name@ + ", expected_alignment="@
                + dec_text(block_alignment as nat) + ", block_offset="@ + dec_text(
                block_offset as nat,
            ) + ", block_size="@ + dec_text(block_size as nat),
            ReadDevicetreeErrorKind::BlockOutOfBounds {
                block_name,
                block_offset,
                block_size,
                valid_range,
            } => "block out of bounds: block_name="@ + block_name@ + ", block_offset="@
                + dec_text(block_offset as nat) + ", block_size="@ + dec_text(block_size as nat)
                + ", valid_range="@ + dec_text(valid_range.start as nat) + ".."@ + dec_text(
                valid_range.end as nat,
            ),
            ReadDevicetreeErrorKind::UnterminatedMemRsvmap =>
                "unterminated memory reservation block"@,
        }
    }

    /// The text that describes the error.
    pub fn message(&self) -> (r: String)
        ensures
            r@ == self.spec_message(),
    {
        let mut s = String::new();
        match self {
            ReadDevicetreeErrorKind::UnalignedPointer { address, expected_alignment } => {
                s.append("unaligned devicetree pointer given: address=");
                push_alt_hex(&mut s, *address as u64);
                s.append(", expected_alignment=");
                push_dec(&mut s, *expected_alignment as u64);
            },
            ReadDevicetreeErrorKind::NullPointer => {
                s.append("null devicetree pointer given");
            },
            ReadDevicetreeErrorKind::InsufficientBytes { needed, actual } => {
                s.append("insufficient length of devicetree blob bytes, needed=");
                push_dec(&mut s, *needed as u64);
                s.append(", actual=");
                push_dec(&mut s, *actual as u64);
            },
            ReadDevicetreeErrorKind::InvalidMagic { magic } => {
                s.append("invalid magic number: magic=");
                push_alt_hex(&mut s, *magic as u64);
            },
            ReadDevicetreeErrorKind::InvalidTotalSize { total_size } => {
                s.append("invalid total size: total_size=");
                push_dec(&mut s, *total_size as u64);
            },
            ReadDevicetreeErrorKind::IncompatibleVersion { version, last_compatible_version } => {
                s.append("incompatible version: version=");
                push_dec(&mut s, *version as u64);
                s.append(", last_compatible_version=");
                push_dec(&mut s, *last_compatible_version as u64);
            },
            ReadDevicetreeErrorKind::UnalignedBlock {
                block_name,
                block_alignment,
                block_offset,
                block_size,
            } => {
                s.append("unaligned block: block_name=");
                s.append(block_name);
                s.append(", expected_alignment=");
                push_dec(&mut s, *block_alignment as u64);
                s.append(", block_offset=");
                push_dec(&mut s, *block_offset as u64);
                s.append(", block_size=");
                push_dec(&mut s, *block_size as u64);
            },
            ReadDevicetreeErrorKind::BlockOutOfBounds {
                block_name,
                block_offset,
                block_size,
                valid_range,
            } => {
                s.append("block out of bounds: block_name=");
                s.append(block_name);
                s.append(", block_offset=");
                push_dec(&mut s, *block_offset as u64);
                s.append(", block_size=");
                push_dec(&mut s, *block_size as u64);
                s.append(", valid_range=");
                push_dec(&mut s, valid_range.start as u64);
                s.append("..");
                push_dec(&mut s, valid_range.end as u64);
            },
            ReadDevicetreeErrorKind::UnterminatedMemRsvmap => {
                s.append("unterminated memory reservation block");
            },
        }
        s
    }
}

/// The error returned when reading a devicetree blob.
#[derive(Debug)]
pub struct ReadDevicetreeError {
    kind: ReadDevicetreeErrorKind,
}

impl ReadDevicetreeError {
    /// The kind of the error.
    pub closed spec fn spec_kind(&self) -> ReadDevicetreeErrorKind {
        self.kind
    }

    /// Creates an error of the given kind.
    pub fn new(kind: ReadDevicetreeErrorKind) -> (r: Self)
        ensures
            r.spec_kind() == kind,
    {
        ReadDevicetreeError { kind }
    }

    /// The kind of the error.
    pub fn kind(&self) -> (r: &ReadDevicetreeErrorKind)
        ensures
            *r == self.spec_kind(),
    {
        &self.kind
    }
}

} // verus!
