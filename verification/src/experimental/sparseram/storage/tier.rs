//! Memory tiers in which blocks reside.

use vstd::prelude::*;

verus! {

/// Physical memory tier where blocks reside, fastest first.
#[derive(Debug, Clone, Copy, PartialEq, Eq, Hash, Structural)]
pub enum Tier {
    /// GPU memory
    GPU,
    /// System memory
    RAM,
    /// Disk storage
    Disk,
    /// Deleted: only metadata remains
    Deleted,
}

/// The text that names a tier.
pub open spec fn tier_name(t: Tier) -> Seq<char> {
    match t {
        Tier::GPU => "GPU"@,
        Tier::RAM => "RAM"@,
        Tier::Disk => "Disk"@,
        Tier::Deleted => "None"@,
    }
}

impl Tier {
    /// Whether the tier holds data.
    pub fn has_storage(self) -> (r: bool)
        ensures
            r == (self != Tier::Deleted),
    {
        !matches!(self, Tier::Deleted)
    }

    /// Whether the tier is GPU memory.
    pub fn is_gpu(self) -> (r: bool)
        ensures
            r == (self == Tier::GPU),
    {
        matches!(self, Tier::GPU)
    }

    /// Whether the tier is host memory (RAM or disk).
    pub fn is_host(self) -> (r: bool)
        ensures
            r == (self == Tier::RAM || self == Tier::Disk),
    {
        matches!(self, Tier::RAM | Tier::Disk)
    }

    /// The tier's name.
    pub fn name(self) -> (s: &'static str)
        ensures
            s@ == tier_name(self),
    {
        match self {
            Tier::GPU => "GPU",
            Tier::RAM => "RAM",
            Tier::Disk => "Disk",
            Tier::Deleted => "None",
        }
    }

    /// The tier rendered as text (its name).
    pub fn to_string(self) -> (s: String)
        ensures
            s@ == tier_name(self),
    {
        String::from_str(self.name())
    }
}

} // verus!
