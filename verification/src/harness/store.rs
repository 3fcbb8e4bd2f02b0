//! Where a session keeps its history between runs.

use vstd::prelude::*;

use super::model::ChatMessage;

verus! {

/// Why a history could not be loaded or saved.
#[derive(Debug)]
pub struct StoreError(pub String);

impl StoreError {
    /// The text that describes the error.
    pub fn message(&self) -> (res: &str)
        ensures
            res@ == self.0@,
    {
        self.0.as_str()
    }
}

/// Keeps histories by key. `load` gives nothing for a key that was never saved.
pub trait SessionStore {
    fn load(&self, key: &str) -> Result<Option<Vec<ChatMessage>>, StoreError>;

    fn save(&self, key: &str, history: &Vec<ChatMessage>) -> Result<(), StoreError>;
}

} // verus!
