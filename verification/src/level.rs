//! The compression level.

use vstd::prelude::*;

verus! {

/// How hard the compressor tries: 0 (store only) to 9 (smallest output).
#[derive(Clone, Copy, Debug, PartialEq, Eq, Structural)]
pub struct Compression {
    level: u32,
}

impl Compression {
    #[verifier::type_invariant]
    spec fn in_range(self) -> bool {
        self.level <= 9
    }

    /// The level as a number.
    pub closed spec fn spec_level(self) -> u32 {
        self.level
    }

    /// The level `level`, where there is one.
    pub fn new(level: u32) -> (lvl: Option<Compression>)
        ensures
            lvl is Some <==> level <= 9,
            lvl is Some ==> lvl->Some_0.spec_level() == level,
    {
        if level <= 9 {
            Some(Compression { level })
        } else {
            None
        }
    }

    /// No compression at all: level 0.
    pub fn none() -> (lvl: Compression)
        ensures
            lvl.spec_level() == 0,
    {
        Compression { level: 0 }
    }

    /// The fastest compression: level 1.
    pub fn fast() -> (lvl: Compression)
        ensures
            lvl.spec_level() == 1,
    {
        Compression { level: 1 }
    }

    /// The smallest output: level 9.
    pub fn best() -> (lvl: Compression)
        ensures
            lvl.spec_level() == 9,
    {
        Compression { level: 9 }
    }

    #[verifier::when_used_as_spec(spec_level)]
    pub fn level(self) -> (level: u32)
        ensures
            level == self.spec_level(),
            level <= 9,
    {
        proof {
            use_type_invariant(&self);
        }
        self.level
    }
}

impl Default for Compression {
    /// The usual middle: level 6.
    fn default() -> (lvl: Compression)
        ensures
            lvl.spec_level() == 6,
    {
        Compression { level: 6 }
    }
}

} // verus!
