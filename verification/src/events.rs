//! Requests to save a project, and their completion notices.
use vstd::prelude::*;

verus! {

/// Asks for a project to be fetched and saved to `output`.
///
/// The project is the entity whose bits are `project`; the sender is
/// responsible for naming a valid project entity.
#[derive(Debug)]
pub struct SaveProjectEvent {
    /// The bits of the entity of the project to save.
    pub project: u64,
    /// The output path of the savefile that will be created (the bytes of the OS path).
    pub output: Vec<u8>,
}

/// Tells that the work of a [`SaveProjectEvent`] has completed.
#[derive(Debug)]
pub struct SaveProjectCompleteEvent {
    /// The bits of the entity of the project that was saved.
    pub project: u64,
    /// The output path of the savefile that was created (the bytes of the OS path).
    pub output: Vec<u8>,
}

impl SaveProjectEvent {
    /// A new request to save `project` to `output`; it does nothing until dispatched.
    pub fn new(project: u64, output: Vec<u8>) -> (event: Self)
        ensures
            event.project == project,
            event.output == output,
    {
        SaveProjectEvent { project, output }
    }
}

} // verus!
