//! Atomic replacement of single files, and bounded reads: which step follows which, and
//! what each outcome means. Transactions over several files are left to the caller.
use vstd::prelude::*;

use crate::text::{decimal, decimal_text, optional_text, push_text};

verus! {

/// How a file is replaced.
#[derive(Debug, Clone, Copy, PartialEq, Eq, Structural)]
pub struct AtomicFilePolicy {
    /// The mode of the parent directory and of directories that are created. Without
    /// one, permissions are left as they are.
    pub directory_mode: Option<u32>,
    pub file_mode: Option<u32>,
    pub sync_parent: bool,
    pub sync_new_ancestors: bool,
    pub reject_symlink_destination: bool,
}

/// Files and directories are for their owner only.
pub open spec fn private_policy() -> AtomicFilePolicy {
    AtomicFilePolicy {
        directory_mode: Some(0o700),
        file_mode: Some(0o600),
        sync_parent: true,
        sync_new_ancestors: true,
        reject_symlink_destination: true,
    }
}

/// Permissions are left as they are.
pub open spec fn durable_policy() -> AtomicFilePolicy {
    AtomicFilePolicy {
        directory_mode: None,
        file_mode: None,
        sync_parent: true,
        sync_new_ancestors: true,
        reject_symlink_destination: true,
    }
}

impl AtomicFilePolicy {
    /// Files and directories are for their owner only.
    pub fn private() -> (policy: Self)
        ensures
            policy == private_policy(),
    {
        AtomicFilePolicy {
            directory_mode: Some(0o700),
            file_mode: Some(0o600),
            sync_parent: true,
            sync_new_ancestors: true,
            reject_symlink_destination: true,
        }
    }

    /// Permissions are left as they are.
    pub fn durable() -> (policy: Self)
        ensures
            policy == durable_policy(),
    {
        AtomicFilePolicy {
            directory_mode: None,
            file_mode: None,
            sync_parent: true,
            sync_new_ancestors: true,
            reject_symlink_destination: true,
        }
    }
}

/// Why a file is not replaced.
#[derive(Debug, Clone, Copy, PartialEq, Eq, Structural)]
pub enum FileError {
    /// The path has no parent or no name, or there is nothing to commit.
    InvalidInput,
    /// The path is a symbolic link.
    Symlink,
    /// The file system failed.
    Io,
}

impl FileError {
    /// What the error says, where it does not come from the file system.
    pub open spec fn text(&self) -> Option<Seq<char>> {
        match *self {
            FileError::Symlink => Some("refusing symlinked state path"@),
            _ => None,
        }
    }

    /// What the error says, where it does not come from the file system.
    pub fn message(&self) -> (r: Option<&'static str>)
        ensures
            crate::text::optional_str(r) == self.text(),
    {
        match self {
            FileError::Symlink => Some("refusing symlinked state path"),
            _ => None,
        }
    }
}

/// The path without its last component.
pub uninterp spec fn path_parent(path: Seq<char>) -> Option<Seq<char>>;

/// `std::path::Path::parent` gives the path without its last component, which is empty
/// for a relative path of one component. There is none for a root or an empty path. Paths
/// are read as on Linux, whose clocks and buses the crate relies on.
#[verifier::external_body]
fn parent_of(path: &str) -> (r: Option<String>)
    ensures
        optional_text(r) == path_parent(path@),
{
    std::path::Path::new(path).parent().and_then(|parent| parent.to_str()).map(str::to_owned)
}

/// Which directory holds a file.
#[derive(Debug, Clone, Copy, PartialEq, Eq, Structural)]
pub enum ParentChoice {
    /// The parent of its path.
    Given,
    /// The current directory, because that parent is empty.
    Current,
}

/// Which directory holds a file, by whether its path has a parent and whether that is
/// empty.
pub open spec fn parent_choice(parent_is_empty: Option<bool>) -> Result<ParentChoice, FileError> {
    match parent_is_empty {
        None => Err(FileError::InvalidInput),
        Some(true) => Ok(ParentChoice::Current),
        Some(false) => Ok(ParentChoice::Given),
    }
}

/// Chooses the directory that holds a file, by whether its path has a parent and whether
/// that is empty.
pub fn choose_parent(parent_is_empty: Option<bool>) -> (r: Result<ParentChoice, FileError>)
    ensures
        r == parent_choice(parent_is_empty),
{
    match parent_is_empty {
        None => Err(FileError::InvalidInput),
        Some(is_empty) => if is_empty {
            Ok(ParentChoice::Current)
        } else {
            Ok(ParentChoice::Given)
        },
    }
}

/// The directory that holds a file, by the parent of its path.
pub open spec fn directory_for(parent: Option<Seq<char>>) -> Result<Seq<char>, FileError> {
    match parent {
        None => Err(FileError::InvalidInput),
        Some(parent) => Ok(
            if parent.len() == 0 {
                "."@
            } else {
                parent
            },
        ),
    }
}

/// The directory that holds a file, by the parent of its path.
pub fn directory_of(parent: Option<String>) -> (r: Result<String, FileError>)
    ensures
        match r {
            Ok(directory) => directory_for(optional_text(parent)) == Ok::<_, FileError>(
                directory@,
            ),
            Err(error) => directory_for(optional_text(parent)) == Err::<Seq<char>, _>(error),
        },
{
    match parent {
        None => Err(FileError::InvalidInput),
        Some(parent) => match choose_parent(Some(parent.as_str().is_empty())) {
            Ok(ParentChoice::Current) => Ok(".".to_owned()),
            Ok(ParentChoice::Given) => Ok(parent),
            Err(error) => Err(error),
        },
    }
}

/// The directory that holds a file.
pub fn parent_directory(path: &str) -> (r: Result<String, FileError>)
    ensures
        match r {
            Ok(directory) => directory_for(path_parent(path@)) == Ok::<_, FileError>(directory@),
            Err(error) => directory_for(path_parent(path@)) == Err::<Seq<char>, _>(error),
        },
{
    directory_of(parent_of(path))
}

/// The suffix of a temporary file, by the process and a running number.
pub open spec fn temporary_ending(process: u32, sequence: u64) -> Seq<char> {
    "."@ + decimal(process as nat) + "-"@ + decimal(sequence as nat) + ".tmp"@
}

/// The suffix of a temporary file, by the process and a running number.
pub fn temporary_suffix(process: u32, sequence: u64) -> (r: String)
    ensures
        r@ == temporary_ending(process, sequence),
{
    let mut r = ".".to_owned();
    push_text(&mut r, decimal_text(process as u64).as_str());
    push_text(&mut r, "-");
    push_text(&mut r, decimal_text(sequence).as_str());
    push_text(&mut r, ".tmp");
    r
}

/// What a path turned out to be.
#[derive(Debug, Clone, Copy, PartialEq, Eq, Structural)]
pub enum Inspection {
    Symlink,
    /// It is something else, or does not exist.
    Other,
    Failed,
}

/// Whether an inspected path may be used.
pub open spec fn usable(inspection: Inspection) -> Result<(), FileError> {
    match inspection {
        Inspection::Symlink => Err(FileError::Symlink),
        Inspection::Other => Ok(()),
        Inspection::Failed => Err(FileError::Io),
    }
}

/// Whether an inspected path may be used.
pub fn reject_symlink(inspection: Inspection) -> (r: Result<(), FileError>)
    ensures
        r == usable(inspection),
{
    match inspection {
        Inspection::Symlink => Err(FileError::Symlink),
        Inspection::Other => Ok(()),
        Inspection::Failed => Err(FileError::Io),
    }
}

/// A step towards a complete temporary file beside the destination.
#[derive(Debug, Clone, Copy, PartialEq, Eq, Structural)]
pub enum StageStep {
    /// Count the ancestors of the destination that are missing.
    FindMissing,
    /// Inspect the parent directory; so many ancestors are missing.
    InspectDirectory(usize),
    /// Create the parent directory and what is missing above it.
    CreateDirectory(usize),
    SetDirectoryMode(u32, usize),
    /// Sync the last of the missing ancestors that are left, and then its parent.
    SyncAncestor(usize),
    SyncAncestorParent(usize),
    InspectDestination,
    CreateTemporary,
    WriteContents,
    SetFileMode(u32),
    SyncFile,
    /// The temporary file is complete.
    Staged,
    Failed(FileError),
}

/// A step towards the replacement of the destination.
#[derive(Debug, Clone, Copy, PartialEq, Eq, Structural)]
pub enum CommitStep {
    InspectDestination,
    Rename,
    SyncParent,
    Committed,
    Failed(FileError),
}

/// What came of a step.
#[derive(Debug, Clone, Copy, PartialEq, Eq, Structural)]
pub enum FileEvent {
    /// So many ancestors are missing.
    Missing(usize),
    Inspected(Inspection),
    Done,
    /// The name of the temporary file is taken.
    NameTaken,
    Failed,
}

/// The step after the directories are there.
pub open spec fn directories_ready(policy: AtomicFilePolicy) -> StageStep {
    if policy.reject_symlink_destination {
        StageStep::InspectDestination
    } else {
        StageStep::CreateTemporary
    }
}

/// The step after the parent directory was created.
pub open spec fn directory_created(policy: AtomicFilePolicy, missing: usize) -> StageStep {
    if policy.sync_new_ancestors && missing > 0 {
        StageStep::SyncAncestor(missing)
    } else {
        directories_ready(policy)
    }
}

/// Whether an event can come of a step.
pub open spec fn stage_expects(step: StageStep, event: FileEvent) -> bool {
    match step {
        StageStep::FindMissing => event is Missing,
        StageStep::InspectDirectory(_) => event is Inspected,
        StageStep::InspectDestination => event is Inspected,
        StageStep::CreateTemporary => event is Done || event is NameTaken || event is Failed,
        StageStep::Staged => false,
        StageStep::Failed(_) => false,
        _ => event is Done || event is Failed,
    }
}

/// The next step towards a complete temporary file.
pub open spec fn stage_after(
    policy: AtomicFilePolicy,
    step: StageStep,
    event: FileEvent,
) -> StageStep {
    match (step, event) {
        (_, FileEvent::Failed) => StageStep::Failed(FileError::Io),
        (StageStep::FindMissing, FileEvent::Missing(missing)) => if policy.directory_mode is Some {
            StageStep::InspectDirectory(missing)
        } else {
            StageStep::CreateDirectory(missing)
        },
        (StageStep::InspectDirectory(missing), FileEvent::Inspected(inspection)) => match usable(
            inspection,
        ) {
            Ok(()) => StageStep::CreateDirectory(missing),
            Err(error) => StageStep::Failed(error),
        },
        (StageStep::CreateDirectory(missing), _) => match policy.directory_mode {
            Some(mode) => StageStep::SetDirectoryMode(mode, missing),
            None => directory_created(policy, missing),
        },
        (StageStep::SetDirectoryMode(_, missing), _) => directory_created(policy, missing),
        (StageStep::SyncAncestor(left), _) => StageStep::SyncAncestorParent(left),
        (StageStep::SyncAncestorParent(left), _) => if left > 1 {
            StageStep::SyncAncestor((left - 1) as usize)
        } else {
            directories_ready(policy)
        },
        (StageStep::InspectDestination, FileEvent::Inspected(inspection)) => match usable(
            inspection,
        ) {
            Ok(()) => StageStep::CreateTemporary,
            Err(error) => StageStep::Failed(error),
        },
        (StageStep::CreateTemporary, FileEvent::NameTaken) => StageStep::CreateTemporary,
        (StageStep::CreateTemporary, _) => StageStep::WriteContents,
        (StageStep::WriteContents, _) => match policy.file_mode {
            Some(mode) => StageStep::SetFileMode(mode),
            None => StageStep::SyncFile,
        },
        (StageStep::SetFileMode(_), _) => StageStep::SyncFile,
        (StageStep::SyncFile, _) => StageStep::Staged,
        _ => step,
    }
}

/// Whether a temporary file exists at a step.
pub open spec fn temporary_exists(step: StageStep) -> bool {
    step is WriteContents || step is SetFileMode || step is SyncFile || step is Staged
}

/// Whether an event can come of a step.
pub open spec fn commit_expects(step: CommitStep, event: FileEvent) -> bool {
    match step {
        CommitStep::InspectDestination => event is Inspected,
        CommitStep::Rename => event is Done || event is Failed,
        CommitStep::SyncParent => event is Done || event is Failed,
        _ => false,
    }
}

/// The first step towards the replacement of the destination.
pub open spec fn commit_first(policy: AtomicFilePolicy) -> CommitStep {
    if policy.reject_symlink_destination {
        CommitStep::InspectDestination
    } else {
        CommitStep::Rename
    }
}

/// The start of a replacement of the destination, which takes a temporary file.
pub open spec fn commit_start(policy: AtomicFilePolicy, temporary: bool) -> Result<
    CommitStep,
    FileError,
> {
    if temporary {
        Ok(commit_first(policy))
    } else {
        Err(FileError::InvalidInput)
    }
}

/// The next step towards the replacement of the destination.
pub open spec fn commit_after(
    policy: AtomicFilePolicy,
    step: CommitStep,
    event: FileEvent,
) -> CommitStep {
    match (step, event) {
        (_, FileEvent::Failed) => CommitStep::Failed(FileError::Io),
        (CommitStep::InspectDestination, FileEvent::Inspected(inspection)) => match usable(
            inspection,
        ) {
            Ok(()) => CommitStep::Rename,
            Err(error) => CommitStep::Failed(error),
        },
        (CommitStep::Rename, _) => if policy.sync_parent {
            CommitStep::SyncParent
        } else {
            CommitStep::Committed
        },
        (CommitStep::SyncParent, _) => CommitStep::Committed,
        _ => step,
    }
}

/// The replacement of a file. It owns the temporary file as long as that exists, and
/// whoever drops it removes just that.
#[derive(Debug)]
pub struct StagedFile {
    policy: AtomicFilePolicy,
    temporary: bool,
}

impl StagedFile {
    /// How the file is replaced.
    pub closed spec fn spec_policy(&self) -> AtomicFilePolicy {
        self.policy
    }

    /// Whether the temporary file exists.
    pub closed spec fn spec_temporary(&self) -> bool {
        self.temporary
    }

    /// Starts with a path that has a parent and a name.
    pub fn new(has_parent: bool, has_name: bool, policy: AtomicFilePolicy) -> (r: Result<
        Self,
        FileError,
    >)
        ensures
            match r {
                Ok(file) => has_parent && has_name && file.spec_policy() == policy
                    && !file.spec_temporary(),
                Err(error) => !(has_parent && has_name) && error == FileError::InvalidInput,
            },
    {
        if has_parent && has_name {
            Ok(StagedFile { policy, temporary: false })
        } else {
            Err(FileError::InvalidInput)
        }
    }

    /// Decides what follows a step towards a complete temporary file.
    pub fn stage(&mut self, step: StageStep, event: FileEvent) -> (next: StageStep)
        requires
            stage_expects(step, event),
        ensures
            next == stage_after(old(self).spec_policy(), step, event),
            final(self).spec_policy() == old(self).spec_policy(),
            final(self).spec_temporary() == (old(self).spec_temporary() || (step is CreateTemporary
                && event is Done)),
    {
        match (step, event) {
            (_, FileEvent::Failed) => StageStep::Failed(FileError::Io),
            (StageStep::FindMissing, FileEvent::Missing(missing)) => match self.policy.directory_mode {
                Some(_) => StageStep::InspectDirectory(missing),
                None => StageStep::CreateDirectory(missing),
            },
            (StageStep::InspectDirectory(missing), FileEvent::Inspected(inspection)) =>
                match reject_symlink(inspection) {
                Ok(()) => StageStep::CreateDirectory(missing),
                Err(error) => StageStep::Failed(error),
            },
            (StageStep::CreateDirectory(missing), _) => match self.policy.directory_mode {
                Some(mode) => StageStep::SetDirectoryMode(mode, missing),
                None => self.after_creation(missing),
            },
            (StageStep::SetDirectoryMode(_, missing), _) => self.after_creation(missing),
            (StageStep::SyncAncestor(left), _) => StageStep::SyncAncestorParent(left),
            (StageStep::SyncAncestorParent(left), _) => if left > 1 {
                StageStep::SyncAncestor(left - 1)
            } else {
                self.after_directories()
            },
            (StageStep::InspectDestination, FileEvent::Inspected(inspection)) =>
                match reject_symlink(inspection) {
                Ok(()) => StageStep::CreateTemporary,
                Err(error) => StageStep::Failed(error),
            },
            (StageStep::CreateTemporary, FileEvent::NameTaken) => StageStep::CreateTemporary,
            (StageStep::CreateTemporary, _) => {
                self.temporary = true;
                StageStep::WriteContents
            },
            (StageStep::WriteContents, _) => match self.policy.file_mode {
                Some(mode) => StageStep::SetFileMode(mode),
                None => StageStep::SyncFile,
            },
            (StageStep::SetFileMode(_), _) => StageStep::SyncFile,
            (StageStep::SyncFile, _) => StageStep::Staged,
            (step, _) => step,
        }
    }

    fn after_creation(&self, missing: usize) -> (next: StageStep)
        ensures
            next == directory_created(self.spec_policy(), missing),
    {
        if self.policy.sync_new_ancestors && missing > 0 {
            StageStep::SyncAncestor(missing)
        } else {
            self.after_directories()
        }
    }

    fn after_directories(&self) -> (next: StageStep)
        ensures
            next == directories_ready(self.spec_policy()),
    {
        if self.policy.reject_symlink_destination {
            StageStep::InspectDestination
        } else {
            StageStep::CreateTemporary
        }
    }

    /// Starts the replacement of the destination, which takes a temporary file.
    pub fn commit(&self) -> (r: Result<CommitStep, FileError>)
        ensures
            r == commit_start(self.spec_policy(), self.spec_temporary()),
    {
        if !self.temporary {
            Err(FileError::InvalidInput)
        } else if self.policy.reject_symlink_destination {
            Ok(CommitStep::InspectDestination)
        } else {
            Ok(CommitStep::Rename)
        }
    }

    /// Decides what follows a step towards the replacement of the destination.
    pub fn commit_step(&mut self, step: CommitStep, event: FileEvent) -> (next: CommitStep)
        requires
            commit_expects(step, event),
        ensures
            next == commit_after(old(self).spec_policy(), step, event),
            final(self).spec_policy() == old(self).spec_policy(),
            final(self).spec_temporary() == (old(self).spec_temporary() && !(step is Rename
                && event is Done)),
    {
        match (step, event) {
            (_, FileEvent::Failed) => CommitStep::Failed(FileError::Io),
            (CommitStep::InspectDestination, FileEvent::Inspected(inspection)) =>
                match reject_symlink(inspection) {
                Ok(()) => CommitStep::Rename,
                Err(error) => CommitStep::Failed(error),
            },
            (CommitStep::Rename, _) => {
                self.temporary = false;
                if self.policy.sync_parent {
                    CommitStep::SyncParent
                } else {
                    CommitStep::Committed
                }
            },
            (CommitStep::SyncParent, _) => CommitStep::Committed,
            (step, _) => step,
        }
    }

    /// Whether there is a temporary file to remove.
    pub fn leaves_temporary(&self) -> (r: bool)
        ensures
            r == self.spec_temporary(),
    {
        self.temporary
    }
}

/// A step of a whole replacement.
#[derive(Debug, Clone, Copy, PartialEq, Eq, Structural)]
pub enum WriteStep {
    Stage(StageStep),
    Commit(CommitStep),
}

/// Whether an event can come of a step.
pub open spec fn write_expects(step: WriteStep, event: FileEvent) -> bool {
    match step {
        WriteStep::Stage(step) => stage_expects(step, event),
        WriteStep::Commit(step) => commit_expects(step, event),
    }
}

/// The next step of a whole replacement, which commits as soon as the temporary file is
/// complete.
pub open spec fn write_after(policy: AtomicFilePolicy, step: WriteStep, event: FileEvent) -> WriteStep {
    match step {
        WriteStep::Stage(step) => {
            let next = stage_after(policy, step, event);
            if next is Staged {
                WriteStep::Commit(commit_first(policy))
            } else {
                WriteStep::Stage(next)
            }
        },
        WriteStep::Commit(step) => WriteStep::Commit(commit_after(policy, step, event)),
    }
}

/// Whether the temporary file exists after a step: it does once it was created, until it
/// is renamed.
pub open spec fn temporary_after(before: bool, step: WriteStep, event: FileEvent) -> bool {
    match step {
        WriteStep::Stage(step) => before || (step is CreateTemporary && event is Done),
        WriteStep::Commit(step) => before && !(step is Rename && event is Done),
    }
}

/// Decides what follows a step of a whole replacement.
pub fn write_bytes_atomic(file: &mut StagedFile, step: WriteStep, event: FileEvent) -> (next:
    WriteStep)
    requires
        write_expects(step, event),
        step matches WriteStep::Stage(staging) ==> old(file).spec_temporary()
            == temporary_exists(staging),
    ensures
        next == write_after(old(file).spec_policy(), step, event),
        final(file).spec_policy() == old(file).spec_policy(),
        final(file).spec_temporary() == temporary_after(old(file).spec_temporary(), step, event),
{
    match step {
        WriteStep::Stage(step) => {
            let next = file.stage(step, event);
            match next {
                StageStep::Staged => match file.commit() {
                    Ok(first) => WriteStep::Commit(first),
                    Err(error) => WriteStep::Commit(CommitStep::Failed(error)),
                },
                next => WriteStep::Stage(next),
            }
        },
        WriteStep::Commit(step) => WriteStep::Commit(file.commit_step(step, event)),
    }
}

/// What the files of a directory hold, by their names.
pub type Files = Map<Seq<char>, Seq<u8>>;

/// What a file holds, if there is one of that name.
pub open spec fn held(files: Files, name: Seq<char>) -> Option<Seq<u8>> {
    if files.contains_key(name) {
        Some(files[name])
    } else {
        None
    }
}

/// A file to be replaced: its name, its new contents, and how and by which process.
#[verifier::ext_equal]
pub struct Replacement {
    pub name: Seq<char>,
    pub contents: Seq<u8>,
    pub policy: AtomicFilePolicy,
    pub process: u32,
}

/// What happens at a step: its event, the running number that a temporary file is named
/// by, and what a write that fails has written.
#[verifier::ext_equal]
pub struct Happening {
    pub event: FileEvent,
    pub sequence: u64,
    pub partial: Seq<u8>,
}

/// Where a replacement stands: its step, the name of its temporary file if there is one,
/// and the files of the directory.
#[verifier::ext_equal]
pub struct Moment {
    pub step: WriteStep,
    pub temporary: Option<Seq<char>>,
    pub files: Files,
}

impl Replacement {
    /// The name of a temporary file.
    pub open spec fn temporary_name(self, sequence: u64) -> Seq<char> {
        self.name + temporary_ending(self.process, sequence)
    }

    /// The files after a step. A temporary file is created, written, and renamed to the
    /// destination; nothing else changes what files hold.
    pub open spec fn files_after(self, moment: Moment, happening: Happening) -> Files {
        match (moment.step, happening.event, moment.temporary) {
            (WriteStep::Stage(StageStep::CreateTemporary), FileEvent::Done, _) =>
                moment.files.insert(self.temporary_name(happening.sequence), Seq::empty()),
            (WriteStep::Stage(StageStep::WriteContents), FileEvent::Done, Some(own)) =>
                moment.files.insert(own, self.contents),
            (WriteStep::Stage(StageStep::WriteContents), _, Some(own)) => moment.files.insert(
                own,
                happening.partial,
            ),
            (WriteStep::Commit(CommitStep::Rename), FileEvent::Done, Some(own)) =>
                moment.files.remove(own).insert(self.name, moment.files[own]),
            _ => moment.files,
        }
    }

    /// The temporary file after a step.
    pub open spec fn own_after(self, moment: Moment, happening: Happening) -> Option<Seq<char>> {
        if !temporary_after(moment.temporary is Some, moment.step, happening.event) {
            None
        } else if moment.step is Stage && moment.step->Stage_0 is CreateTemporary
            && happening.event is Done {
            Some(self.temporary_name(happening.sequence))
        } else {
            moment.temporary
        }
    }

    /// Where the replacement stands after a step. Once the temporary file is complete,
    /// the next step is the start of the commit.
    pub open spec fn after(self, moment: Moment, happening: Happening) -> Moment {
        if moment.step == WriteStep::Stage(StageStep::Staged) {
            Moment { step: WriteStep::Commit(commit_first(self.policy)), ..moment }
        } else {
            Moment {
                step: match moment.step {
                    WriteStep::Stage(step) => WriteStep::Stage(
                        stage_after(self.policy, step, happening.event),
                    ),
                    WriteStep::Commit(step) => WriteStep::Commit(
                        commit_after(self.policy, step, happening.event),
                    ),
                },
                temporary: self.own_after(moment, happening),
                files: self.files_after(moment, happening),
            }
        }
    }

    /// Whether something can happen at a moment. A temporary file is created only under
    /// a name that is free.
    pub open spec fn possible(self, moment: Moment, happening: Happening) -> bool {
        moment.step == WriteStep::Stage(StageStep::Staged) || {
            &&& write_expects(moment.step, happening.event)
            &&& moment.step == WriteStep::Stage(StageStep::CreateTemporary)
                && happening.event is Done ==> !moment.files.contains_key(
                self.temporary_name(happening.sequence),
            )
        }
    }

    /// Where the replacement stands once things have happened, one after another, and
    /// nobody else wrote to the directory.
    pub open spec fn run(self, old: Files, happenings: Seq<Happening>) -> Moment
        decreases happenings.len(),
    {
        if happenings.len() == 0 {
            Moment {
                step: WriteStep::Stage(StageStep::FindMissing),
                temporary: None,
                files: old,
            }
        } else {
            self.after(self.run(old, happenings.drop_last()), happenings.last())
        }
    }

    /// Whether things can happen one after another.
    pub open spec fn possible_run(self, old: Files, happenings: Seq<Happening>) -> bool
        decreases happenings.len(),
    {
        happenings.len() == 0 || (self.possible_run(old, happenings.drop_last())
            && self.possible(self.run(old, happenings.drop_last()), happenings.last()))
    }
}

/// The files once a replacement was dropped: its temporary file, if there is one, is
/// removed.
pub open spec fn dropped(moment: Moment) -> Files {
    match moment.temporary {
        Some(own) => moment.files.remove(own),
        None => moment.files,
    }
}

/// Whether the destination was replaced: a commit was started, and the temporary file
/// has gone.
pub open spec fn replaced(moment: Moment) -> bool {
    moment.step is Commit && moment.temporary is None
}

/// Whether a step comes after the contents were written.
pub open spec fn written(step: WriteStep) -> bool {
    match step {
        WriteStep::Stage(step) => step is SetFileMode || step is SyncFile || step is Staged,
        WriteStep::Commit(_) => true,
    }
}

/// The destination holds what it held until it is replaced, and the new contents from
/// then on; it never holds anything else. Whenever a replacement is dropped, all files
/// are as they were but for a destination that was replaced: only a temporary file of
/// its own is removed. A commit that succeeds has replaced the destination and left no
/// temporary file, and a second one is refused before anything is done.
pub proof fn replacements_are_atomic(
    replacement: Replacement,
    old: Files,
    happenings: Seq<Happening>,
)
    requires
        replacement.possible_run(old, happenings),
    ensures
        ({
            let now = replacement.run(old, happenings);
            &&& held(now.files, replacement.name) == if replaced(now) {
                Some(replacement.contents)
            } else {
                held(old, replacement.name)
            }
            &&& dropped(now) == if replaced(now) {
                old.insert(replacement.name, replacement.contents)
            } else {
                old
            }
            &&& now.temporary matches Some(own) ==> own != replacement.name && !old.contains_key(
                own,
            )
            &&& now.step == WriteStep::Stage(StageStep::Staged) ==> (now.temporary matches Some(
                own,
            ) && held(now.files, own) == Some(replacement.contents))
            &&& now.step == WriteStep::Commit(CommitStep::Committed) ==> replaced(now) && now.files
                == old.insert(replacement.name, replacement.contents) && commit_start(
                replacement.policy,
                now.temporary is Some,
            ) == Err::<CommitStep, _>(FileError::InvalidInput)
        }),
{
    lemma_replacement(replacement, old, happenings);
}

proof fn lemma_temporary_name(replacement: Replacement, sequence: u64)
    ensures
        replacement.temporary_name(sequence) != replacement.name,
{
    reveal_strlit(".");
    reveal_strlit("-");
    reveal_strlit(".tmp");
    assert(replacement.temporary_name(sequence).len() > replacement.name.len());
}

/// Whether a replacement stands as its steps say.
spec fn stands(replacement: Replacement, old: Files, now: Moment) -> bool {
    &&& match now.temporary {
        Some(own) => {
            &&& own != replacement.name
            &&& !old.contains_key(own)
            &&& now.files.contains_key(own)
            &&& now.files.remove(own) == old
            &&& written(now.step) ==> now.files[own] == replacement.contents
        },
        None => now.files == if now.step is Commit {
            old.insert(replacement.name, replacement.contents)
        } else {
            old
        },
    }
    &&& match now.step {
        WriteStep::Stage(StageStep::Failed(_)) => true,
        WriteStep::Stage(step) => now.temporary is Some == temporary_exists(step),
        WriteStep::Commit(CommitStep::InspectDestination) => now.temporary is Some,
        WriteStep::Commit(CommitStep::Rename) => now.temporary is Some,
        WriteStep::Commit(CommitStep::SyncParent) => now.temporary is None,
        WriteStep::Commit(CommitStep::Committed) => now.temporary is None,
        WriteStep::Commit(CommitStep::Failed(_)) => true,
    }
}

proof fn lemma_replacement(replacement: Replacement, old: Files, happenings: Seq<Happening>)
    requires
        replacement.possible_run(old, happenings),
    ensures
        stands(replacement, old, replacement.run(old, happenings)),
    decreases happenings.len(),
{
    if happenings.len() > 0 {
        let before = replacement.run(old, happenings.drop_last());
        let happening = happenings.last();
        let now = replacement.run(old, happenings);
        lemma_replacement(replacement, old, happenings.drop_last());
        lemma_temporary_name(replacement, happening.sequence);
        match (before.temporary, now.temporary) {
            (None, Some(own)) => {
                assert(now.files.remove(own) =~= old);
            },
            (Some(own), Some(_)) => {
                assert(now.files.remove(own) =~= before.files.remove(own));
            },
            _ => {},
        }
    }
}

/// The directory to sync after a file in it was replaced.
pub fn sync_parent(path: &str) -> (r: Result<String, FileError>)
    ensures
        match r {
            Ok(directory) => directory_for(path_parent(path@)) == Ok::<_, FileError>(directory@),
            Err(error) => directory_for(path_parent(path@)) == Err::<Seq<char>, _>(error),
        },
{
    parent_directory(path)
}

/// A file counts as staged only once it was written and synced without an error.
pub proof fn staged_files_are_complete(policy: AtomicFilePolicy, step: StageStep, event: FileEvent)
    requires
        stage_expects(step, event),
    ensures
        stage_after(policy, step, event) is Staged ==> step is SyncFile && event is Done,
        stage_after(policy, step, event) is SyncFile ==> event is Done && (step is SetFileMode
            || step is WriteContents),
        stage_after(policy, step, event) is SetFileMode ==> step is WriteContents && event is Done,
        stage_after(policy, step, event) is WriteContents ==> step is CreateTemporary
            && event is Done,
{
}

/// A temporary file exists from its creation until it is staged or something fails; a
/// name that is taken is left alone, and another one is tried.
pub proof fn only_own_temporaries_are_removed(
    policy: AtomicFilePolicy,
    step: StageStep,
    event: FileEvent,
)
    requires
        stage_expects(step, event),
        !(stage_after(policy, step, event) is Failed),
    ensures
        temporary_exists(stage_after(policy, step, event)) == (temporary_exists(step) || (
        step is CreateTemporary && event is Done)),
        step is CreateTemporary && event is NameTaken ==> stage_after(policy, step, event) == step,
{
}

/// How far a temporary file is from being complete, by the kind of the step.
pub open spec fn steps_ahead(step: StageStep) -> nat {
    match step {
        StageStep::FindMissing => 10,
        StageStep::InspectDirectory(_) => 9,
        StageStep::CreateDirectory(_) => 8,
        StageStep::SetDirectoryMode(..) => 7,
        StageStep::SyncAncestor(_) => 6,
        StageStep::SyncAncestorParent(_) => 6,
        StageStep::InspectDestination => 5,
        StageStep::CreateTemporary => 4,
        StageStep::WriteContents => 3,
        StageStep::SetFileMode(_) => 2,
        StageStep::SyncFile => 1,
        StageStep::Staged => 0,
        StageStep::Failed(_) => 0,
    }
}

/// How many directories are left to sync.
pub open spec fn syncs_ahead(step: StageStep) -> nat {
    match step {
        StageStep::SyncAncestor(left) => 2 * left as nat + 1,
        StageStep::SyncAncestorParent(left) => 2 * left as nat,
        _ => 0,
    }
}

/// Every step but another try for a free name brings a temporary file nearer to being
/// complete, or to failing.
pub proof fn staging_makes_progress(policy: AtomicFilePolicy, step: StageStep, event: FileEvent)
    requires
        stage_expects(step, event),
        !(step is CreateTemporary && event is NameTaken),
    ensures
        ({
            let next = stage_after(policy, step, event);
            steps_ahead(next) < steps_ahead(step) || (steps_ahead(next) == steps_ahead(step)
                && syncs_ahead(next) < syncs_ahead(step))
        }),
{
}

/// Where symbolic links are rejected, a destination that is one is not replaced: the
/// rename follows an inspection that found none.
pub proof fn symlinks_are_not_replaced(policy: AtomicFilePolicy, step: CommitStep, event: FileEvent)
    requires
        policy.reject_symlink_destination,
        commit_expects(step, event),
    ensures
        commit_first(policy) is InspectDestination,
        commit_after(policy, step, event) is Rename ==> step is InspectDestination && event
            == FileEvent::Inspected(Inspection::Other),
{
}

/// A commit that succeeds has replaced the destination and passed the configured barrier;
/// one that fails to sync the parent has replaced it all the same.
pub proof fn commits_are_durable(policy: AtomicFilePolicy, step: CommitStep, event: FileEvent)
    requires
        commit_expects(step, event),
        commit_after(policy, step, event) is Committed,
    ensures
        event is Done,
        step is SyncParent || (step is Rename && !policy.sync_parent),
{
}

/// Why a file is not read.
#[derive(Debug, Clone, Copy, PartialEq, Eq, Structural)]
pub enum ReadError {
    NotRegular,
    TooLarge,
    Grew,
}

impl ReadError {
    /// What the error says.
    pub open spec fn text(&self) -> Seq<char> {
        match *self {
            ReadError::NotRegular => "state is not a regular file"@,
            ReadError::TooLarge => "state exceeds read limit"@,
            ReadError::Grew => "state grew beyond read limit"@,
        }
    }

    /// What the error says.
    pub fn message(&self) -> (r: &'static str)
        ensures
            r@ == self.text(),
    {
        match self {
            ReadError::NotRegular => "state is not a regular file",
            ReadError::TooLarge => "state exceeds read limit",
            ReadError::Grew => "state grew beyond read limit",
        }
    }
}

/// A step of a bounded read.
#[derive(Debug, PartialEq, Eq)]
pub enum ReadStep {
    /// Open without following a symbolic link and without blocking.
    Open,
    Inspect,
    /// Read so many bytes at most.
    Read(u64),
    /// There is no such file.
    Missing,
    Loaded(Vec<u8>),
    Refused(ReadError),
    /// The file system failed.
    Failed,
}

/// What came of a step of a bounded read.
#[derive(Debug, PartialEq, Eq)]
pub enum ReadEvent {
    Opened,
    NotFound,
    Metadata { regular: bool, length: u64 },
    Bytes(Vec<u8>),
    Failed,
}

/// Whether an event can come of a step.
pub open spec fn read_expects(step: ReadStep, event: ReadEvent) -> bool {
    match step {
        ReadStep::Open => event is Opened || event is NotFound || event is Failed,
        ReadStep::Inspect => event is Metadata || event is Failed,
        ReadStep::Read(_) => event is Bytes || event is Failed,
        _ => false,
    }
}

/// The next step of a read of at most so many bytes. One more byte is asked for, to
/// notice a file that has grown.
pub open spec fn read_after(max_bytes: u64, step: ReadStep, event: ReadEvent) -> ReadStep {
    match event {
        ReadEvent::Failed => ReadStep::Failed,
        ReadEvent::NotFound => ReadStep::Missing,
        ReadEvent::Opened => ReadStep::Inspect,
        ReadEvent::Metadata { regular, length } => if !regular {
            ReadStep::Refused(ReadError::NotRegular)
        } else if length > max_bytes {
            ReadStep::Refused(ReadError::TooLarge)
        } else {
            ReadStep::Read(
                if max_bytes == u64::MAX {
                    max_bytes
                } else {
                    (max_bytes + 1) as u64
                },
            )
        },
        ReadEvent::Bytes(bytes) => if bytes@.len() > max_bytes {
            ReadStep::Refused(ReadError::Grew)
        } else {
            ReadStep::Loaded(bytes)
        },
    }
}

/// Decides what follows a step of a bounded read.
pub fn read_bytes_bounded(max_bytes: u64, step: ReadStep, event: ReadEvent) -> (next: ReadStep)
    requires
        read_expects(step, event),
    ensures
        next == read_after(max_bytes, step, event),
{
    match event {
        ReadEvent::Failed => ReadStep::Failed,
        ReadEvent::NotFound => ReadStep::Missing,
        ReadEvent::Opened => ReadStep::Inspect,
        ReadEvent::Metadata { regular, length } => if !regular {
            ReadStep::Refused(ReadError::NotRegular)
        } else if length > max_bytes {
            ReadStep::Refused(ReadError::TooLarge)
        } else {
            ReadStep::Read(max_bytes.saturating_add(1))
        },
        ReadEvent::Bytes(bytes) => if bytes.len() as u64 > max_bytes {
            ReadStep::Refused(ReadError::Grew)
        } else {
            ReadStep::Loaded(bytes)
        },
    }
}

/// What a bounded read hands out is no longer than the bound, and no more than one byte
/// past the bound is read from a file, which is a regular one within the bound.
pub proof fn reads_are_bounded(max_bytes: u64, step: ReadStep, event: ReadEvent)
    requires
        read_expects(step, event),
    ensures
        read_after(max_bytes, step, event) matches ReadStep::Loaded(bytes) ==> bytes@.len()
            <= max_bytes && event == ReadEvent::Bytes(bytes),
        read_after(max_bytes, step, event) matches ReadStep::Read(limit) ==> limit <= max_bytes + 1
            && (event matches ReadEvent::Metadata { regular, length } && regular && length
            <= max_bytes),
{
}

/// A file is held by the parent of its path, or by the current directory where that is
/// empty; a path without a parent is refused.
pub proof fn files_are_held_by_their_parent(parent: Seq<char>)
    ensures
        directory_for(None) == Err::<Seq<char>, _>(FileError::InvalidInput),
        parent.len() > 0 ==> directory_for(Some(parent)) == Ok::<_, FileError>(parent),
        directory_for(Some(Seq::empty())) == Ok::<_, FileError>("."@),
        directory_for(None) is Err <==> parent_choice(None) is Err,
        parent_choice(Some(parent.len() == 0)) == Ok::<_, FileError>(
            if parent == Seq::<char>::empty() {
                ParentChoice::Current
            } else {
                ParentChoice::Given
            },
        ),
{
    if parent.len() == 0 {
        assert(parent =~= Seq::empty());
    }
}

/// A temporary file is named after its process and a running number.
pub proof fn temporaries_are_named_by_process_and_number(process: u32, sequence: u64)
    ensures
        temporary_ending(process, sequence) == "."@ + decimal(process as nat) + "-"@ + decimal(
            sequence as nat,
        ) + ".tmp"@,
{
}

/// A path that is a symbolic link, or that cannot be inspected, is not used; any other is.
pub proof fn only_links_are_rejected(
    policy: AtomicFilePolicy,
    missing: usize,
    inspection: Inspection,
)
    ensures
        usable(inspection) == match inspection {
            Inspection::Symlink => Err::<(), _>(FileError::Symlink),
            Inspection::Failed => Err(FileError::Io),
            Inspection::Other => Ok(()),
        },
        ({
            let event = FileEvent::Inspected(inspection);
            let directory = stage_after(policy, StageStep::InspectDirectory(missing), event);
            let destination = stage_after(policy, StageStep::InspectDestination, event);
            let target = commit_after(policy, CommitStep::InspectDestination, event);
            match inspection {
                Inspection::Symlink => {
                    &&& directory == StageStep::Failed(FileError::Symlink)
                    &&& destination == StageStep::Failed(FileError::Symlink)
                    &&& target == CommitStep::Failed(FileError::Symlink)
                },
                Inspection::Failed => {
                    &&& directory == StageStep::Failed(FileError::Io)
                    &&& destination == StageStep::Failed(FileError::Io)
                    &&& target == CommitStep::Failed(FileError::Io)
                },
                Inspection::Other => {
                    &&& directory == StageStep::CreateDirectory(missing)
                    &&& destination == StageStep::CreateTemporary
                    &&& target == CommitStep::Rename
                },
            }
        }),
{
}

/// A step that fails ends the replacement.
pub proof fn failures_end_replacements(
    policy: AtomicFilePolicy,
    stage: StageStep,
    commit: CommitStep,
)
    ensures
        stage_after(policy, stage, FileEvent::Failed) == StageStep::Failed(FileError::Io),
        commit_after(policy, commit, FileEvent::Failed) == CommitStep::Failed(FileError::Io),
        write_after(policy, WriteStep::Stage(stage), FileEvent::Failed) == WriteStep::Stage(
            StageStep::Failed(FileError::Io),
        ),
        write_after(policy, WriteStep::Commit(commit), FileEvent::Failed) == WriteStep::Commit(
            CommitStep::Failed(FileError::Io),
        ),
{
}

/// The mode of a policy is given to the directory once it was created, and to the file once
/// it was written; a policy without one leaves both as they are.
pub proof fn modes_are_set_as_the_policy_says(policy: AtomicFilePolicy, missing: usize, mode: u32)
    ensures
        policy.directory_mode == Some(mode) ==> {
            &&& stage_after(policy, StageStep::FindMissing, FileEvent::Missing(missing))
                == StageStep::InspectDirectory(missing)
            &&& stage_after(policy, StageStep::CreateDirectory(missing), FileEvent::Done)
                == StageStep::SetDirectoryMode(mode, missing)
        },
        policy.directory_mode is None ==> {
            &&& stage_after(policy, StageStep::FindMissing, FileEvent::Missing(missing))
                == StageStep::CreateDirectory(missing)
            &&& !(stage_after(policy, StageStep::CreateDirectory(missing), FileEvent::Done)
                is SetDirectoryMode)
        },
        policy.file_mode == Some(mode) ==> stage_after(
            policy,
            StageStep::WriteContents,
            FileEvent::Done,
        ) == StageStep::SetFileMode(mode),
        policy.file_mode is None ==> stage_after(policy, StageStep::WriteContents, FileEvent::Done)
            is SyncFile,
        stage_after(policy, StageStep::SetFileMode(mode), FileEvent::Done) is SyncFile,
        stage_after(policy, StageStep::SyncFile, FileEvent::Done) is Staged,
{
}

/// Private files and their directories are for their owner only, and a durable policy
/// changes no mode; both sync what they create, and reject links.
pub proof fn policies_are_private_or_durable(missing: usize, step: StageStep, event: FileEvent)
    requires
        stage_expects(step, event),
    ensures
        stage_after(private_policy(), StageStep::CreateDirectory(missing), FileEvent::Done)
            == StageStep::SetDirectoryMode(0o700, missing),
        stage_after(private_policy(), StageStep::WriteContents, FileEvent::Done)
            == StageStep::SetFileMode(0o600),
        !(stage_after(durable_policy(), step, event) is SetDirectoryMode),
        !(stage_after(durable_policy(), step, event) is SetFileMode),
        stage_after(private_policy(), step, event) is CreateTemporary ==> step is CreateTemporary
            || step is InspectDestination,
        stage_after(durable_policy(), step, event) is CreateTemporary ==> step is CreateTemporary
            || step is InspectDestination,
        missing > 0 ==> stage_after(
            private_policy(),
            StageStep::SetDirectoryMode(0o700, missing),
            FileEvent::Done,
        ) == StageStep::SyncAncestor(missing),
        missing > 0 ==> stage_after(
            durable_policy(),
            StageStep::CreateDirectory(missing),
            FileEvent::Done,
        ) == StageStep::SyncAncestor(missing),
        commit_first(private_policy()) is InspectDestination,
        commit_first(durable_policy()) is InspectDestination,
        commit_after(private_policy(), CommitStep::Rename, FileEvent::Done) is SyncParent,
        commit_after(durable_policy(), CommitStep::Rename, FileEvent::Done) is SyncParent,
{
}

/// Where new ancestors are to be synced, each that was missing is synced, and its parent
/// after it, from the last to the first; elsewhere none is. Then the destination is
/// inspected, where links are rejected, before a temporary file is created.
pub proof fn new_ancestors_are_synced(
    policy: AtomicFilePolicy,
    mode: u32,
    missing: usize,
    left: usize,
)
    ensures
        ({
            let ready = if policy.reject_symlink_destination {
                StageStep::InspectDestination
            } else {
                StageStep::CreateTemporary
            };
            let created = if policy.sync_new_ancestors && missing > 0 {
                StageStep::SyncAncestor(missing)
            } else {
                ready
            };
            &&& policy.directory_mode is None ==> stage_after(
                policy,
                StageStep::CreateDirectory(missing),
                FileEvent::Done,
            ) == created
            &&& stage_after(policy, StageStep::SetDirectoryMode(mode, missing), FileEvent::Done)
                == created
            &&& stage_after(policy, StageStep::SyncAncestor(left), FileEvent::Done)
                == StageStep::SyncAncestorParent(left)
            &&& left > 1 ==> stage_after(
                policy,
                StageStep::SyncAncestorParent(left),
                FileEvent::Done,
            ) == StageStep::SyncAncestor((left - 1) as usize)
            &&& left <= 1 ==> stage_after(
                policy,
                StageStep::SyncAncestorParent(left),
                FileEvent::Done,
            ) == ready
        }),
        stage_after(policy, StageStep::CreateTemporary, FileEvent::Done) is WriteContents,
        stage_after(policy, StageStep::CreateTemporary, FileEvent::NameTaken) is CreateTemporary,
{
}

/// A commit takes a complete temporary file, renames it, and syncs the parent where that is
/// asked for.
pub proof fn commits_rename_and_sync(policy: AtomicFilePolicy)
    ensures
        commit_start(policy, false) == Err::<CommitStep, _>(FileError::InvalidInput),
        commit_start(policy, true) == Ok::<_, FileError>(
            if policy.reject_symlink_destination {
                CommitStep::InspectDestination
            } else {
                CommitStep::Rename
            },
        ),
        commit_after(policy, CommitStep::Rename, FileEvent::Done) == if policy.sync_parent {
            CommitStep::SyncParent
        } else {
            CommitStep::Committed
        },
        commit_after(policy, CommitStep::SyncParent, FileEvent::Done) is Committed,
        write_after(policy, WriteStep::Stage(StageStep::SyncFile), FileEvent::Done)
            == WriteStep::Commit(commit_start(policy, true)->Ok_0),
{
}

/// A whole replacement takes the steps of staging until the file is complete, and then
/// those of the commit.
pub proof fn replacements_stage_and_then_commit(
    policy: AtomicFilePolicy,
    stage: StageStep,
    commit: CommitStep,
    event: FileEvent,
)
    ensures
        !(stage_after(policy, stage, event) is Staged) ==> write_after(
            policy,
            WriteStep::Stage(stage),
            event,
        ) == WriteStep::Stage(stage_after(policy, stage, event)),
        write_after(policy, WriteStep::Commit(commit), event) == WriteStep::Commit(
            commit_after(policy, commit, event),
        ),
{
}

/// A read opens the file, looks at it, and hands out what it holds, byte for byte, where
/// that is within the bound. It tells a missing file from one that is not regular, one that
/// is too large, and one that has grown since.
pub proof fn reads_hand_out_what_the_file_holds(
    max_bytes: u64,
    step: ReadStep,
    bytes: Vec<u8>,
    length: u64,
    limit: u64,
)
    ensures
        bytes@.len() <= max_bytes ==> read_after(
            max_bytes,
            ReadStep::Read(limit),
            ReadEvent::Bytes(bytes),
        ) == ReadStep::Loaded(bytes),
        bytes@.len() > max_bytes ==> read_after(
            max_bytes,
            ReadStep::Read(limit),
            ReadEvent::Bytes(bytes),
        ) == ReadStep::Refused(ReadError::Grew),
        read_after(
            max_bytes,
            ReadStep::Inspect,
            ReadEvent::Metadata { regular: false, length },
        ) == ReadStep::Refused(ReadError::NotRegular),
        length > max_bytes ==> read_after(
            max_bytes,
            ReadStep::Inspect,
            ReadEvent::Metadata { regular: true, length },
        ) == ReadStep::Refused(ReadError::TooLarge),
        length <= max_bytes ==> (read_after(
            max_bytes,
            ReadStep::Inspect,
            ReadEvent::Metadata { regular: true, length },
        ) matches ReadStep::Read(limit) && limit >= max_bytes && (max_bytes < u64::MAX ==> limit
            == max_bytes + 1)),
        read_after(max_bytes, ReadStep::Open, ReadEvent::NotFound) is Missing,
        read_after(max_bytes, ReadStep::Open, ReadEvent::Opened) is Inspect,
        read_after(max_bytes, step, ReadEvent::Failed) is Failed,
{
}

/// The errors say why a file was not replaced or read.
pub proof fn file_errors_are_told()
    ensures
        FileError::Symlink.text() == Some("refusing symlinked state path"@),
        FileError::InvalidInput.text() is None,
        FileError::Io.text() is None,
        ReadError::NotRegular.text() == "state is not a regular file"@,
        ReadError::TooLarge.text() == "state exceeds read limit"@,
        ReadError::Grew.text() == "state grew beyond read limit"@,
{
}

/// The temporary file is there from the moment it was created until it was renamed, and no
/// other step makes or takes it, whether it succeeds or fails.
pub proof fn temporaries_last_until_renamed(
    before: bool,
    stage: StageStep,
    commit: CommitStep,
    event: FileEvent,
)
    ensures
        temporary_after(before, WriteStep::Stage(StageStep::CreateTemporary), FileEvent::Done),
        !(stage is CreateTemporary) || !(event is Done) ==> temporary_after(
            before,
            WriteStep::Stage(stage),
            event,
        ) == before,
        !temporary_after(before, WriteStep::Commit(CommitStep::Rename), FileEvent::Done),
        !(commit is Rename) || !(event is Done) ==> temporary_after(
            before,
            WriteStep::Commit(commit),
            event,
        ) == before,
{
}

} // verus!
