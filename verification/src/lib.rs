//! Reading a game's packed asset store and the typed object graphs
//! inside it. The archive addresses its members only by a hash of
//! their path; embedded RSZ blocks serialize class instances tagged by
//! a 64-bit type hash that a compiled-in schema registry resolves; the
//! collision format shows how a consumer claims each decoded root
//! exactly once; and the dependency scan recovers a name forest over
//! the otherwise anonymous store. Every parser here works on plain
//! bytes, with its contract stating exactly what those bytes dictate.
#![verifier::loop_isolation(false)]
use vstd::prelude::*;

pub mod bytes;
pub mod classify;
pub mod depgraph;
pub mod grep;
pub mod hash;
pub mod msg;
pub mod pak;
pub mod registry;
pub mod rcol;
pub mod rsz;
pub mod search;
pub mod shape;
pub mod skeleton;
pub mod typed;
pub mod user;

verus! {

/// Errors raised by the archive, deserializer and graph passes.
#[derive(Debug, Clone, Copy, PartialEq, Eq, Structural)]
pub enum Error {
    /// The container or block header is not what the format requires.
    FormatError,
    /// An entry index at or past the file count.
    IndexOutOfRange,
    /// No archive entry carries the hash of the looked-up path.
    NotFound,
    /// Sizes, bounds, enumerated values or flag bits violate the format.
    CorruptData,
    /// A type tag that the registry has not been taught about.
    UnknownType(u64),
    /// A root instance was claimed a second time.
    AlreadyClaimed,
    /// A root instance was never claimed by any consumer.
    OrphanedRoot,
    /// The dependency structure is not a forest.
    CycleDetected,
    /// A regular expression that does not compile.
    BadPattern,
    /// A bone name that the supplied skeleton does not know.
    UnknownBone,
    /// A distance was asked of a shape whose tag the parser kept as
    /// unsupported.
    UnknownShape,
}

} // verus!
