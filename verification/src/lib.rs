//! Screen color sampling: pointer-driven pixel and region capture over an
//! abstract graphics device, and a palette document codec.
//!
//! The engine acquires a device context on the desktop surface, reads either
//! one pixel or a fixed 21-by-21 neighborhood, decodes the platform's native
//! blue-green-red packing into red-green-blue colors, and releases every
//! graphics handle on every exit path. The palette codec renders and reads
//! the on-disk named-color document.

pub mod color;
pub mod fake_gdi;
pub mod gdi;
pub mod palette;

use vstd::prelude::*;

verus! {

/// Errors surfaced by the sampling engine and the palette codec, each
/// carrying the diagnostic text of whatever refused the operation, where one
/// exists.
#[derive(Clone, Debug, PartialEq, Eq)]
pub enum ApiError {
    /// The operating environment refused the pointer-position query.
    PlatformQuery(String),
    /// The single-pixel read returned the invalid-pixel sentinel, which
    /// carries no further platform detail.
    Sample,
    /// The bulk region copy could not be completed.
    Blit(String),
    /// The raw pixel-buffer extraction reported failure.
    Extract(String),
    /// The palette document was missing, unreadable or malformed.
    Document(String),
}

} // verus!
