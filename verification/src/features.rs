//! Protocol version pairs and the predicates that gate on-wire layout choices.
use vstd::prelude::*;

verus! {

/// A protocol version: a (major, minor) pair of unsigned 16-bit integers,
/// ordered lexicographically.
#[derive(Clone, Copy, Debug, PartialEq, Eq, Structural)]
pub struct ProtocolVersion {
    pub major_ver: u16,
    pub minor_ver: u16,
}

impl ProtocolVersion {
    /// Lexicographic "at least" over (major, minor).
    pub open spec fn spec_is_at_least(self, major_ver: u16, minor_ver: u16) -> bool {
        self.major_ver > major_ver
            || (self.major_ver == major_ver && self.minor_ver >= minor_ver)
    }

    /// Lexicographic "at most" over (major, minor).
    pub open spec fn spec_is_at_most(self, major_ver: u16, minor_ver: u16) -> bool {
        self.major_ver < major_ver
            || (self.major_ver == major_ver && self.minor_ver <= minor_ver)
    }

    pub fn current() -> (r: ProtocolVersion)
        ensures
            r == (ProtocolVersion { major_ver: 1, minor_ver: 0 }),
    {
        ProtocolVersion { major_ver: 1, minor_ver: 0 }
    }

    pub fn new(major_ver: u16, minor_ver: u16) -> (r: ProtocolVersion)
        ensures
            r == (ProtocolVersion { major_ver, minor_ver }),
    {
        ProtocolVersion { major_ver, minor_ver }
    }

    pub fn version_tuple(&self) -> (r: (u16, u16))
        ensures
            r == (self.major_ver, self.minor_ver),
    {
        (self.major_ver, self.minor_ver)
    }

    pub fn is_1(&self) -> (r: bool)
        ensures
            r == (self.major_ver >= 1),
    {
        self.major_ver >= 1
    }

    /// Inline type names are available from protocol (0, 9) on.
    pub fn supports_inline_typenames(&self) -> (r: bool)
        ensures
            r == self.spec_is_at_least(0, 9),
    {
        self.is_at_least(0, 9)
    }

    /// Object values carry an implicit type id up to protocol (0, 8).
    pub fn has_implicit_tid(&self) -> (r: bool)
        ensures
            r == self.spec_is_at_most(0, 8),
    {
        self.is_at_most(0, 8)
    }

    pub fn is_at_least(&self, major_ver: u16, minor_ver: u16) -> (r: bool)
        ensures
            r == self.spec_is_at_least(major_ver, minor_ver),
    {
        self.major_ver > major_ver
            || (self.major_ver == major_ver && self.minor_ver >= minor_ver)
    }

    pub fn is_at_most(&self, major_ver: u16, minor_ver: u16) -> (r: bool)
        ensures
            r == self.spec_is_at_most(major_ver, minor_ver),
    {
        self.major_ver < major_ver
            || (self.major_ver == major_ver && self.minor_ver <= minor_ver)
    }
}

} // verus!
