//! Stores of named objects.

use vstd::prelude::*;

verus! {

/// A store of objects under names: what a backend for remote storage
/// offers. Nothing is promised of an implementation.
pub trait ObjectStore {
    /// What an object is read from.
    type Reader;

    /// What an object is written to.
    type Writer;

    /// The names that `list` hands out.
    type ObjectIterator;

    /// Opens the object called `name` for reading.
    fn open(&self, name: &str) -> Result<Self::Reader, std::io::Error>;

    /// Creates the object called `name` and opens it for writing.
    fn create(&self, name: &str) -> Result<Self::Writer, std::io::Error>;

    /// Removes the object called `name`.
    fn remove(&self, name: &str) -> Result<(), std::io::Error>;

    /// The names of the objects that begin with `prefix`.
    fn list(&self, prefix: &str) -> Result<Self::ObjectIterator, std::io::Error>;
}

} // verus!
