//! The storage seam: where the serialized state document lives. Injected so
//! that callers can supply file-backed storage, and tests an in-memory fake.

use vstd::prelude::*;

verus! {

/// Abstract persistence for the state document.
pub trait Storage {
    /// Whether a state document exists at all.
    fn state_exists(&self) -> bool;

    /// Stores the document, replacing any previous one.
    fn save(&self, state_toml: String);

    /// Hands back the stored document.
    fn read(&self) -> String;
}

} // verus!
