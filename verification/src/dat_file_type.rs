use vstd::prelude::*;

verus! {

/// The classes an archive entry falls into, derived purely from its
/// object identifier range.
#[derive(Clone, Copy, Debug, PartialEq, Eq, Structural)]
pub enum DatFileType {
    Texture,
    Unknown,
}

/// Finer classes within a type, for consumers that compose entries.
#[derive(Clone, Copy, Debug, PartialEq, Eq, Structural)]
pub enum DatFileSubtype {
    Icon,
    Unknown,
}

} // verus!
