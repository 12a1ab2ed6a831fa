//! Layout modes of the small-string type: each fixes how many bytes fit inline.
use vstd::prelude::*;

verus! {

/// Inline capacity of the compact layout: a `String`'s three words less one tag byte.
pub const COMPACT_MAX_INLINE: usize = 23;

/// Inline capacity of the prefixed layout: one more byte goes to the length prefix.
pub const PREFIXED_MAX_INLINE: usize = 22;

/// A layout of the small-string type.
pub trait SmartStringMode {
    /// The largest byte length stored inline.
    spec fn spec_max_inline() -> nat;

    fn max_inline() -> (r: usize)
        ensures
            r as nat == Self::spec_max_inline(),
    ;
}

/// The compact layout.
pub struct Compact;

/// The prefixed layout.
pub struct Prefixed;

impl SmartStringMode for Compact {
    open spec fn spec_max_inline() -> nat {
        COMPACT_MAX_INLINE as nat
    }

    fn max_inline() -> (r: usize) {
        COMPACT_MAX_INLINE
    }
}

impl SmartStringMode for Prefixed {
    open spec fn spec_max_inline() -> nat {
        PREFIXED_MAX_INLINE as nat
    }

    fn max_inline() -> (r: usize) {
        PREFIXED_MAX_INLINE
    }
}

} // verus!
