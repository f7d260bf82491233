//! Errors raised by the block manager and its collaborators.

use vstd::prelude::*;
use vstd::string::*;

use crate::text;

verus! {

/// Result alias used throughout the crate.
pub type Result<T> = std::result::Result<T, TesseraError>;

/// Why a device backend, or a transport in front of one, turned a request down.
#[derive(Debug)]
pub enum BackendError {
    /// The handle names a region that was never allocated.
    UnknownRegion {
        /// Region index carried by the handle.
        region: u32,
        /// Regions allocated so far.
        regions: usize,
    },
    /// The handle starts past the end of its region.
    OffsetBeyondRegion {
        /// Region index carried by the handle.
        region: u32,
        /// Byte offset carried by the handle.
        offset: u64,
        /// Size of the region in bytes.
        size: usize,
    },
    /// The request runs past the end of a region.
    OutOfRange {
        /// Bytes asked for.
        bytes: u64,
    },
    /// A byte count does not fit the address space.
    SizeOverflow {
        /// Bytes asked for.
        bytes: u64,
    },
    /// No region index is left.
    TooManyRegions,
    /// Any other failure, in the words of the component that failed.
    Other(String),
}

impl BackendError {
    /// The text that describes this error.
    pub open spec fn message(self) -> Seq<char> {
        match self {
            BackendError::UnknownRegion { region, regions } => "DevicePtr targets region "@
                + text::decimal(region as nat) + " but only "@ + text::decimal(regions as nat)
                + " regions exist"@,
            BackendError::OffsetBeyondRegion { region, offset, size } => "offset "@ + text::decimal(
                offset as nat,
            ) + " beyond region size "@ + text::decimal(size as nat) + " (region "@ + text::decimal(
                region as nat,
            ) + ")"@,
            BackendError::OutOfRange { bytes } => "out-of-range access of "@ + text::decimal(
                bytes as nat,
            ) + " bytes"@,
            BackendError::SizeOverflow { bytes } => "size "@ + text::decimal(bytes as nat)
                + " doesn't fit in usize"@,
            BackendError::TooManyRegions => "region count exceeds u32::MAX"@,
            BackendError::Other(text) => text@,
        }
    }

    /// Render the error.
    pub fn to_string(&self) -> (text: String)
        ensures
            text@ == self.message(),
    {
        match self {
            BackendError::UnknownRegion { region, regions } => {
                let mut s = String::from_str("DevicePtr targets region ");
                text::push_decimal(&mut s, *region as u64);
                s.append(" but only ");
                text::push_decimal(&mut s, *regions as u64);
                s.append(" regions exist");
                s
            },
            BackendError::OffsetBeyondRegion { region, offset, size } => {
                let mut s = String::from_str("offset ");
                text::push_decimal(&mut s, *offset);
                s.append(" beyond region size ");
                text::push_decimal(&mut s, *size as u64);
                s.append(" (region ");
                text::push_decimal(&mut s, *region as u64);
                s.append(")");
                s
            },
            BackendError::OutOfRange { bytes } => {
                let mut s = String::from_str("out-of-range access of ");
                text::push_decimal(&mut s, *bytes);
                s.append(" bytes");
                s
            },
            BackendError::SizeOverflow { bytes } => {
                let mut s = String::from_str("size ");
                text::push_decimal(&mut s, *bytes);
                s.append(" doesn't fit in usize");
                s
            },
            BackendError::TooManyRegions => String::from_str("region count exceeds u32::MAX"),
            BackendError::Other(text) => text.clone(),
        }
    }
}

/// Errors produced by the block manager and its collaborators. Callers match on the variants.
#[derive(Debug)]
pub enum TesseraError {
    /// The free pool was exhausted at allocation time.
    OutOfBlocks {
        /// Blocks held by requests at the time of the failure.
        used: u32,
        /// Total blocks the manager was configured to own.
        total: u32,
    },
    /// A configuration failed validation. The message names the field and the constraint.
    InvalidConfig(String),
    /// A block id was referenced that the manager has no record of.
    UnknownBlock(u32),
    /// The device backend failed an allocation, copy or readback.
    Backend(BackendError),
}

impl TesseraError {
    /// Whether this is `InvalidConfig` with the message `text`.
    pub open spec fn is_invalid_config(self, text: Seq<char>) -> bool {
        self matches TesseraError::InvalidConfig(s) && s@ == text
    }

    /// The text that describes this error.
    pub open spec fn message(self) -> Seq<char> {
        match self {
            TesseraError::OutOfBlocks { used, total } => "out of MLA blocks (used="@ + text::decimal(
                used as nat,
            ) + ", total="@ + text::decimal(total as nat) + ")"@,
            TesseraError::InvalidConfig(text) => "invalid configuration: "@ + text@,
            TesseraError::UnknownBlock(id) => "unknown block id: "@ + text::decimal(id as nat),
            TesseraError::Backend(cause) => "device backend error: "@ + cause.message(),
        }
    }

    /// Render the error.
    pub fn to_string(&self) -> (text: String)
        ensures
            text@ == self.message(),
    {
        match self {
            TesseraError::OutOfBlocks { used, total } => {
                let mut s = String::from_str("out of MLA blocks (used=");
                text::push_decimal(&mut s, *used as u64);
                s.append(", total=");
                text::push_decimal(&mut s, *total as u64);
                s.append(")");
                s
            },
            TesseraError::InvalidConfig(text) => {
                let mut s = String::from_str("invalid configuration: ");
                s.append(text.as_str());
                s
            },
            TesseraError::UnknownBlock(id) => {
                let mut s = String::from_str("unknown block id: ");
                text::push_decimal(&mut s, *id as u64);
                s
            },
            TesseraError::Backend(cause) => {
                let mut s = String::from_str("device backend error: ");
                let inner = cause.to_string();
                s.append(inner.as_str());
                s
            },
        }
    }

    /// `InvalidConfig` with a fixed message.
    pub(crate) fn invalid_config(text: &str) -> (e: TesseraError)
        ensures
            e.is_invalid_config(text@),
    {
        TesseraError::InvalidConfig(String::from_str(text))
    }
}

} // verus!
