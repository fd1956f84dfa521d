//! The payload an exporter hands back: bytes with their media type and
//! file extension.

use vstd::prelude::*;

verus! {

/// An exported payload, consumed once by the caller.
#[derive(Debug)]
pub struct Exported {
    /// The payload bytes.
    pub data: Vec<u8>,
    /// The payload's media type.
    pub mime: &'static str,
    /// The payload's file extension.
    pub extension: &'static str,
}

} // verus!
