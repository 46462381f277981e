//! Deciding, one requested rename at a time, whether to move a file, and
//! recording what became of each request of a batch.
use vstd::prelude::*;

verus! {

/// What the file system says about one requested rename, read just before it.
pub struct RenameFacts {
    /// Something exists at the source path.
    pub source_exists: bool,
    /// The destination's parent directory exists (true when the destination
    /// path has no parent).
    pub destination_parent_exists: bool,
    /// Something exists at the destination path.
    pub destination_exists: bool,
}

/// Why a rename did not happen.
#[derive(Debug, PartialEq, Eq, Structural)]
pub enum RenameError {
    SourceMissing,
    DestinationDirMissing,
    DestinationExists,
    /// The move itself was refused by the file system.
    MoveFailed,
}

/// What to do about one requested rename.
#[derive(Debug, PartialEq, Eq, Structural)]
pub enum RenameStep {
    /// Source and destination are the same path: nothing to move.
    AlreadyInPlace,
    /// Move the source to the destination.
    Move,
    /// Leave the source where it is.
    Reject(RenameError),
}

/// The step for a rename whose paths are (`identical`) or are not the same. The
/// checks come in this order: the source exists, the destination's directory
/// exists, the paths differ, nothing is at the destination.
pub open spec fn rename_step(identical: bool, facts: RenameFacts) -> RenameStep {
    if !facts.source_exists {
        RenameStep::Reject(RenameError::SourceMissing)
    } else if !facts.destination_parent_exists {
        RenameStep::Reject(RenameError::DestinationDirMissing)
    } else if identical {
        RenameStep::AlreadyInPlace
    } else if facts.destination_exists {
        RenameStep::Reject(RenameError::DestinationExists)
    } else {
        RenameStep::Move
    }
}

/// The step for a rename, given whether its two paths are the same.
pub fn decide_rename(identical: bool, facts: &RenameFacts) -> (r: RenameStep)
    ensures
        r == rename_step(identical, *facts),
{
    if !facts.source_exists {
        RenameStep::Reject(RenameError::SourceMissing)
    } else if !facts.destination_parent_exists {
        RenameStep::Reject(RenameError::DestinationDirMissing)
    } else if identical {
        RenameStep::AlreadyInPlace
    } else if facts.destination_exists {
        RenameStep::Reject(RenameError::DestinationExists)
    } else {
        RenameStep::Move
    }
}

/// Relies on `==` of `std::path::Path`, which compares two paths component by
/// component, so that a text is always the same path as itself.
#[verifier::external_body]
fn same_path(a: &str, b: &str) -> (r: bool)
    ensures
        a@ == b@ ==> r,
{
    std::path::Path::new(a) == std::path::Path::new(b)
}

/// The step for renaming `old_path` to `new_path`. Whether two different texts
/// name the same path is the platform's to say: the step is the one for one of
/// the two answers, and equal texts are always the same path.
pub fn plan_rename(old_path: &str, new_path: &str, facts: &RenameFacts) -> (r: RenameStep)
    ensures
        r == rename_step(true, *facts) || r == rename_step(false, *facts),
        old_path@ == new_path@ ==> r == rename_step(true, *facts),
{
    let identical = same_path(old_path, new_path);
    decide_rename(identical, facts)
}

/// The result of a rename that took `step`, where `moved` says whether the file
/// system performed the move (it is asked only for `Move`).
pub open spec fn rename_outcome(step: RenameStep, moved: bool) -> Result<(), RenameError> {
    match step {
        RenameStep::AlreadyInPlace => Ok(()),
        RenameStep::Move => if moved {
            Ok(())
        } else {
            Err(RenameError::MoveFailed)
        },
        RenameStep::Reject(e) => Err(e),
    }
}

/// See `rename_outcome`.
pub fn finish_rename(step: RenameStep, moved: bool) -> (r: Result<(), RenameError>)
    ensures
        r == rename_outcome(step, moved),
{
    match step {
        RenameStep::AlreadyInPlace => Ok(()),
        RenameStep::Move => if moved {
            Ok(())
        } else {
            Err(RenameError::MoveFailed)
        },
        RenameStep::Reject(e) => Err(e),
    }
}

/// The text that describes a rename error.
pub open spec fn error_text(e: RenameError) -> Seq<char> {
    match e {
        RenameError::SourceMissing => "Source file does not exist"@,
        RenameError::DestinationDirMissing => "Destination directory does not exist"@,
        RenameError::DestinationExists => "Destination already exists"@,
        RenameError::MoveFailed => "Failed to rename file"@,
    }
}

impl RenameError {
    /// See `error_text`.
    pub fn text(&self) -> (r: String)
        ensures
            r@ == error_text(*self),
    {
        match self {
            RenameError::SourceMissing => "Source file does not exist".to_owned(),
            RenameError::DestinationDirMissing => "Destination directory does not exist".to_owned(),
            RenameError::DestinationExists => "Destination already exists".to_owned(),
            RenameError::MoveFailed => "Failed to rename file".to_owned(),
        }
    }
}

/// The source paths of a batch of renames, split by whether each rename
/// succeeded, each list in the order the renames were made.
pub struct RenameBatch {
    pub succeeded: Vec<String>,
    pub failed: Vec<String>,
}

impl RenameBatch {
    /// A batch in which nothing has been renamed yet.
    pub fn new() -> (r: RenameBatch)
        ensures
            r.succeeded@.len() == 0,
            r.failed@.len() == 0,
    {
        RenameBatch { succeeded: Vec::new(), failed: Vec::new() }
    }

    /// Records that the rename of `old_path` ended in `outcome`.
    pub fn record(&mut self, old_path: String, outcome: &Result<(), RenameError>)
        ensures
            outcome is Ok ==> final(self).succeeded@ == old(self).succeeded@.push(old_path),
            outcome is Ok ==> final(self).failed@ == old(self).failed@,
            outcome is Err ==> final(self).failed@ == old(self).failed@.push(old_path),
            outcome is Err ==> final(self).succeeded@ == old(self).succeeded@,
    {
        match outcome {
            Ok(()) => self.succeeded.push(old_path),
            Err(_) => self.failed.push(old_path),
        }
    }
}

/// The report of one rename: whether it succeeded and, if not, why.
pub struct RenameResult {
    pub success: bool,
    pub message: Option<String>,
    pub file_id: String,
    pub original_path: String,
    pub new_path: String,
}

impl RenameResult {
    /// The report of the rename of the file `file_id` from `original_path` to
    /// `new_path`, which ended in `outcome`.
    pub fn new(
        file_id: String,
        original_path: String,
        new_path: String,
        outcome: &Result<(), RenameError>,
    ) -> (r: RenameResult)
        ensures
            r.success == outcome is Ok,
            r.message is None <==> outcome is Ok,
            outcome is Err ==> (r.message matches Some(m) && m@ == error_text(outcome->Err_0)),
            r.file_id@ == file_id@,
            r.original_path@ == original_path@,
            r.new_path@ == new_path@,
    {
        let message = match outcome {
            Ok(()) => None,
            Err(e) => Some(e.text()),
        };
        RenameResult { success: outcome.is_ok(), message, file_id, original_path, new_path }
    }
}

} // verus!
