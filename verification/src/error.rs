use vstd::prelude::*;

verus! {

/// Why a decode was abandoned. Every failure carries the position or id at
/// which the conflict was found, and aborts the whole parse: there is no
/// partial output.
#[derive(Clone, Copy, Debug, PartialEq, Eq, Structural)]
pub enum DemoError {
    /// The input broke a format invariant: a bad magic or version, an
    /// unrecognized outer record type, an unsupported encoding mode, or a
    /// decoded index outside its declared bounds.
    Format { bit_offset: usize },
    /// The input ran out in the middle of a bit-level or byte-level read.
    Truncated { bit_offset: usize },
    /// A game event carried neither a known descriptor id nor a literal name,
    /// or a recognized event lacked a field its shape requires.
    SchemaMismatch { event_id: i32 },
}

} // verus!
