//! File-format selection by magic bytes.
//!
//! The caller reads the first four bytes of a file; this classifies them.
//! A zip container holds the event-record log; the `Devi` text marker
//! opens the paginated log; the `MD` marker names a third format that is
//! recognized but not decoded.

use vstd::prelude::*;

verus! {

/// The device-log container formats the magic bytes can name.
#[derive(Clone, Copy, Debug, PartialEq, Eq, Structural)]
pub enum FileFormat {
    /// A zip container holding the binary event-record log.
    ActigraphGt3x,
    /// The paginated text/binary hybrid log.
    GeneactivBin,
    /// Recognized by its marker, not decoded.
    AxivityCwa,
}

/// The format the first four bytes declare, if any: the zip magic, the
/// `Devi` text, or the `MD` marker.
pub open spec fn format_of_magic(m: Seq<u8>) -> Option<FileFormat>
    recommends
        m.len() >= 4,
{
    if m[0] == 0x50 && m[1] == 0x4B && m[2] == 0x03 && m[3] == 0x04 {
        Some(FileFormat::ActigraphGt3x)
    } else if m[0] == 0x44 && m[1] == 0x65 && m[2] == 0x76 && m[3] == 0x69 {
        Some(FileFormat::GeneactivBin)
    } else if m[0] == 0x4D && m[1] == 0x44 {
        Some(FileFormat::AxivityCwa)
    } else {
        None
    }
}

/// Classify a file's first four bytes.
pub fn classify_magic(m: &[u8]) -> (r: Option<FileFormat>)
    requires
        m@.len() >= 4,
    ensures
        r == format_of_magic(m@),
{
    let b0 = *vstd::slice::slice_index_get(m, 0);
    let b1 = *vstd::slice::slice_index_get(m, 1);
    let b2 = *vstd::slice::slice_index_get(m, 2);
    let b3 = *vstd::slice::slice_index_get(m, 3);
    if b0 == 0x50 && b1 == 0x4B && b2 == 0x03 && b3 == 0x04 {
        Some(FileFormat::ActigraphGt3x)
    } else if b0 == 0x44 && b1 == 0x65 && b2 == 0x76 && b3 == 0x69 {
        Some(FileFormat::GeneactivBin)
    } else if b0 == 0x4D && b1 == 0x44 {
        Some(FileFormat::AxivityCwa)
    } else {
        None
    }
}

} // verus!
