//! The classification-and-relocation engine.
//!
//! `FileWatcher` plans, for each candidate path, the move of that file
//! into the per-extension subdirectory of the target directory. The plan
//! is computed here and proved exact; the filesystem actions themselves
//! (existence checks, directory creation, the rename) are performed by
//! the caller, which feeds each result back into the [`HandleState`]
//! machine so that every decision along the way is verified.

use vstd::prelude::*;

use crate::path_text::{
    extension, extension_of, file_name, file_name_of, has_extension, has_file_name, is_absolute,
    is_absolute_path, join, joined,
};

verus! {

/// A recoverable failure while handling one candidate file. Every such
/// failure is local to the file: the caller logs it and goes on.
#[derive(Clone, Copy, Debug, PartialEq, Eq, Structural)]
pub enum HandleError {
    /// The candidate path has no file name or no extension; the file is
    /// left untouched where it is.
    UnclassifiableFile,
    /// The per-extension subdirectory was absent and could not be
    /// created.
    DirectoryCreateError,
    /// The rename of the source into its destination failed.
    MoveError,
}

/// The planned relocation of one candidate file: its source path, the
/// per-extension subdirectory it belongs in, and its final destination
/// under its own file name.
#[derive(Clone, Debug)]
pub struct MovePlan {
    pub source: String,
    pub bucket_dir: String,
    pub destination: String,
}

/// A candidate path can be classified when it has a file name and that
/// name has an extension.
pub open spec fn classifiable(path: Seq<char>) -> bool {
    has_file_name(path) && has_extension(file_name_of(path))
}

/// What the move plan for `path` under the target directory `target`
/// must say: the source is `path` itself, the bucket is
/// `target/<extension>`, and the destination keeps the file name.
pub open spec fn plan_for(target: Seq<char>, path: Seq<char>, plan: MovePlan) -> bool {
    &&& plan.source@ == path
    &&& plan.bucket_dir@ == joined(target, extension_of(file_name_of(path)))
    &&& plan.destination@ == joined(plan.bucket_dir@, file_name_of(path))
}

/// The destination a classifiable `path` is moved to:
/// `target/<extension>/<file name>`.
pub open spec fn destination_of(target: Seq<char>, path: Seq<char>) -> Seq<char> {
    joined(joined(target, extension_of(file_name_of(path))), file_name_of(path))
}

/// What classifying `path` must return: the exact plan when the path is
/// classifiable, and `UnclassifiableFile` otherwise.
pub open spec fn classification_of(
    target: Seq<char>,
    path: Seq<char>,
    r: Result<MovePlan, HandleError>,
) -> bool {
    &&& classifiable(path) ==> r is Ok && plan_for(target, path, r.unwrap())
    &&& !classifiable(path) ==> r == Result::<MovePlan, HandleError>::Err(
        HandleError::UnclassifiableFile,
    )
}

/// How handling one candidate file ended.
#[derive(Clone, Copy, Debug, PartialEq, Eq, Structural)]
pub enum HandleOutcome {
    /// The file was renamed into its bucket.
    Moved,
    /// The source was no longer a regular file when re-confirmed, so the
    /// move was skipped silently: a benign race, not a fault.
    SkippedNotFile,
    /// A local failure; the file stays where it is.
    Failed(HandleError),
}

/// The per-file handling protocol, one filesystem question at a time.
/// Each non-final state names the one action the caller must perform;
/// the caller reports what happened through [`FsReply`] and the machine
/// decides the next step.
#[derive(Clone, Debug)]
pub enum HandleState {
    /// Ask whether the bucket directory already exists.
    CheckDir(MovePlan),
    /// Create the bucket directory (it was absent).
    CreateDir(MovePlan),
    /// Re-confirm, immediately before moving, that the source still is a
    /// regular file.
    CheckSource(MovePlan),
    /// Rename the source to the destination.
    Rename(MovePlan),
    /// Handling is over.
    Done(HandleOutcome),
}

/// The caller's answer to the action a [`HandleState`] asked for. A
/// creation attempt that finds the directory already present counts as
/// success: concurrent creations of the same bucket are tolerated.
#[derive(Clone, Copy, Debug, PartialEq, Eq, Structural)]
pub enum FsReply {
    /// Whether the bucket directory exists.
    DirExists(bool),
    /// Whether creating the bucket directory succeeded (or it already
    /// existed).
    Created(bool),
    /// Whether the source currently is a regular file.
    SourceIsFile(bool),
    /// Whether the rename succeeded.
    Renamed(bool),
}

/// A reply answers the question the current state asked.
pub open spec fn reply_matches(state: HandleState, reply: FsReply) -> bool {
    match state {
        HandleState::CheckDir(_) => reply is DirExists,
        HandleState::CreateDir(_) => reply is Created,
        HandleState::CheckSource(_) => reply is SourceIsFile,
        HandleState::Rename(_) => reply is Renamed,
        HandleState::Done(_) => false,
    }
}

/// The transition relation of the per-file handling protocol.
pub open spec fn step_spec(state: HandleState, reply: FsReply) -> HandleState {
    match (state, reply) {
        (HandleState::CheckDir(plan), FsReply::DirExists(true)) => HandleState::CheckSource(plan),
        (HandleState::CheckDir(plan), FsReply::DirExists(false)) => HandleState::CreateDir(plan),
        (HandleState::CreateDir(plan), FsReply::Created(true)) => HandleState::CheckSource(plan),
        (HandleState::CreateDir(plan), FsReply::Created(false)) => HandleState::Done(
            HandleOutcome::Failed(HandleError::DirectoryCreateError),
        ),
        (HandleState::CheckSource(plan), FsReply::SourceIsFile(true)) => HandleState::Rename(plan),
        (HandleState::CheckSource(plan), FsReply::SourceIsFile(false)) => HandleState::Done(
            HandleOutcome::SkippedNotFile,
        ),
        (HandleState::Rename(plan), FsReply::Renamed(true)) => HandleState::Done(
            HandleOutcome::Moved,
        ),
        (HandleState::Rename(plan), FsReply::Renamed(false)) => HandleState::Done(
            HandleOutcome::Failed(HandleError::MoveError),
        ),
        _ => state,
    }
}

/// Advance the per-file handling protocol by one reply.
pub fn handle_step(state: HandleState, reply: FsReply) -> (r: HandleState)
    requires
        reply_matches(state, reply),
    ensures
        r == step_spec(state, reply),
{
    match (state, reply) {
        (HandleState::CheckDir(plan), FsReply::DirExists(true)) => HandleState::CheckSource(plan),
        (HandleState::CheckDir(plan), FsReply::DirExists(false)) => HandleState::CreateDir(plan),
        (HandleState::CreateDir(plan), FsReply::Created(true)) => HandleState::CheckSource(plan),
        (HandleState::CreateDir(plan), FsReply::Created(false)) => HandleState::Done(
            HandleOutcome::Failed(HandleError::DirectoryCreateError),
        ),
        (HandleState::CheckSource(plan), FsReply::SourceIsFile(true)) => HandleState::Rename(plan),
        (HandleState::CheckSource(plan), FsReply::SourceIsFile(false)) => HandleState::Done(
            HandleOutcome::SkippedNotFile,
        ),
        (HandleState::Rename(plan), FsReply::Renamed(true)) => HandleState::Done(
            HandleOutcome::Moved,
        ),
        (HandleState::Rename(plan), FsReply::Renamed(false)) => HandleState::Done(
            HandleOutcome::Failed(HandleError::MoveError),
        ),
        (s, _) => s,
    }
}

impl HandleOutcome {
    /// The outcome as the per-file result the caller reports: a skipped
    /// move is success (`Ok(false)`), only a [`HandleError`] is an error.
    pub fn as_result(&self) -> (r: Result<bool, HandleError>)
        ensures
            *self is Moved ==> r == Result::<bool, HandleError>::Ok(true),
            *self is SkippedNotFile ==> r == Result::<bool, HandleError>::Ok(false),
            forall|e: HandleError| *self == HandleOutcome::Failed(e) ==> r == Result::<
                bool,
                HandleError,
            >::Err(e),
    {
        match self {
            HandleOutcome::Moved => Ok(true),
            HandleOutcome::SkippedNotFile => Ok(false),
            HandleOutcome::Failed(e) => Err(*e),
        }
    }
}

/// When the bucket directory already exists, handling proceeds without
/// any creation: re-asking for `target/<ext>` never errors and never
/// creates anything anew.
pub proof fn lemma_existing_dir_is_kept(plan: MovePlan)
    ensures
        step_spec(HandleState::CheckDir(plan), FsReply::DirExists(true)) == HandleState::CheckSource(
            plan,
        ),
{
}

/// A candidate that is not a regular file at re-confirmation time is
/// skipped silently: the protocol ends at once, asks for no rename, and
/// reports no error.
pub proof fn lemma_vanished_source_is_skipped(plan: MovePlan)
    ensures
        step_spec(HandleState::CheckSource(plan), FsReply::SourceIsFile(false)) == HandleState::Done(
            HandleOutcome::SkippedNotFile,
        ),
        !(HandleOutcome::SkippedNotFile is Failed),
{
}

/// The kind of a filesystem event, as far as this engine cares: a new
/// regular file appeared, or anything else.
#[derive(Clone, Copy, Debug, PartialEq, Eq, Structural)]
pub enum WatchEventKind {
    /// A "file created" notification.
    FileCreated,
    /// Any other notification: modify, remove, rename, a directory
    /// created, metadata only. All are ignored.
    Other,
}

/// One notification from the external watch mechanism, reduced to its
/// kind and the paths it carries. One event may report several paths.
#[derive(Clone, Debug)]
pub struct WatchEvent {
    pub kind: WatchEventKind,
    pub paths: Vec<String>,
}

/// One immediate entry of the target directory, as reported by a
/// directory listing: its full path and whether it is a regular file.
#[derive(Clone, Debug)]
pub struct ScanEntry {
    pub path: String,
    pub is_regular_file: bool,
}

/// The paths of the regular files among `entries`, in listing order:
/// the candidates a backload pass must handle. Directories — the
/// extension buckets among them — are left alone.
pub open spec fn candidate_paths(entries: Seq<ScanEntry>) -> Seq<Seq<char>>
    decreases entries.len(),
{
    if entries.len() == 0 {
        Seq::empty()
    } else if entries.last().is_regular_file {
        candidate_paths(entries.drop_last()).push(entries.last().path@)
    } else {
        candidate_paths(entries.drop_last())
    }
}

proof fn lemma_candidate_paths_take_step(entries: Seq<ScanEntry>, i: int)
    requires
        0 <= i < entries.len(),
    ensures
        candidate_paths(entries.take(i + 1)) == if entries[i].is_regular_file {
            candidate_paths(entries.take(i)).push(entries[i].path@)
        } else {
            candidate_paths(entries.take(i))
        },
{
    assert(entries.take(i + 1).drop_last() =~= entries.take(i));
    assert(entries.take(i + 1).last() == entries[i]);
}

/// The watcher of one target directory. It holds nothing but the
/// directory's path; every candidate file is handled statelessly.
pub struct FileWatcher {
    target_dir: String,
}

impl FileWatcher {
    /// The target directory's path.
    pub closed spec fn target(&self) -> Seq<char> {
        self.target_dir@
    }

    /// A watcher for `target_dir`.
    pub fn new(target_dir: String) -> (r: FileWatcher)
        ensures
            r.target() == target_dir@,
    {
        FileWatcher { target_dir }
    }

    /// The target directory's path, for display and for the filesystem
    /// calls the caller makes.
    pub fn target_dir(&self) -> (r: &str)
        ensures
            r@ == self.target(),
    {
        self.target_dir.as_str()
    }

    /// Resolve the target directory against `home`: an absolute target
    /// is kept as it is, a relative one is taken to live under the home
    /// directory.
    pub fn expand_path(&mut self, home: &str)
        ensures
            is_absolute(old(self).target()) ==> final(self).target() == old(self).target(),
            !is_absolute(old(self).target()) ==> final(self).target() == joined(
                home@,
                old(self).target(),
            ),
    {
        if !is_absolute_path(self.target_dir.as_str()) {
            let expanded = join(home, self.target_dir.as_str());
            self.target_dir = expanded;
        }
    }

    /// Classify one candidate file and plan its move: the bucket is
    /// `target/<extension>` and the destination keeps the file name. A
    /// path with no file name or no extension is rejected as
    /// [`HandleError::UnclassifiableFile`] and nothing further is asked
    /// of the caller, so the file is left untouched.
    pub fn handle_file(&self, path: &str) -> (r: Result<MovePlan, HandleError>)
        ensures
            classification_of(self.target(), path@, r),
            r is Ok ==> r.unwrap().destination@ == destination_of(self.target(), path@),
    {
        match file_name(path) {
            None => Err(HandleError::UnclassifiableFile),
            Some(name) => {
                match extension(name.as_str()) {
                    None => Err(HandleError::UnclassifiableFile),
                    Some(ext) => {
                        let bucket_dir = join(self.target_dir.as_str(), ext.as_str());
                        let destination = join(bucket_dir.as_str(), name.as_str());
                        Ok(
                            MovePlan {
                                source: String::from_str(path),
                                bucket_dir,
                                destination,
                            },
                        )
                    },
                }
            },
        }
    }

    /// Classify every path carried by one event. A "file created" event
    /// yields one classification per path, each computed independently
    /// of the others — a failure on one path never blocks the next. Any
    /// other event kind is discarded: nothing to handle.
    pub fn handle_event(&self, event: &WatchEvent) -> (r: Vec<Result<MovePlan, HandleError>>)
        ensures
            event.kind is FileCreated ==> r@.len() == event.paths@.len() && forall|i: int|
                0 <= i < r@.len() ==> classification_of(self.target(), event.paths@[i]@, r@[i]),
            event.kind is Other ==> r@.len() == 0,
    {
        let mut results: Vec<Result<MovePlan, HandleError>> = Vec::new();
        match event.kind {
            WatchEventKind::Other => results,
            WatchEventKind::FileCreated => {
                let n = event.paths.len();
                let mut i: usize = 0;
                while i < n
                    invariant
                        i <= n,
                        n == event.paths@.len(),
                        results@.len() == i,
                        forall|j: int|
                            0 <= j < i ==> classification_of(
                                self.target(),
                                event.paths@[j]@,
                                results@[j],
                            ),
                    decreases n - i,
                {
                    let classified = self.handle_file(event.paths[i].as_str());
                    results.push(classified);
                    i = i + 1;
                }
                results
            },
        }
    }

    /// The candidates of one backload pass: the regular files among the
    /// listed entries, in listing order. Each is then handled on its
    /// own, exactly as a live event's path would be.
    pub fn backload_candidates(&self, entries: &Vec<ScanEntry>) -> (r: Vec<String>)
        ensures
            r@.map_values(|p: String| p@) == candidate_paths(entries@),
    {
        let mut candidates: Vec<String> = Vec::new();
        let n = entries.len();
        let mut i: usize = 0;
        assert(entries@.take(0) =~= Seq::<ScanEntry>::empty());
        while i < n
            invariant
                i <= n,
                n == entries@.len(),
                candidates@.map_values(|p: String| p@) == candidate_paths(entries@.take(i as int)),
            decreases n - i,
        {
            proof {
                lemma_candidate_paths_take_step(entries@, i as int);
            }
            let ghost before = candidates@;
            if entries[i].is_regular_file {
                let path = String::from_str(entries[i].path.as_str());
                candidates.push(path);
                proof {
                    assert(candidates@.map_values(|p: String| p@) =~= before.map_values(
                        |p: String| p@,
                    ).push(entries@[i as int].path@));
                }
            }
            i = i + 1;
        }
        proof {
            assert(entries@.take(n as int) =~= entries@);
        }
        candidates
    }
}

} // verus!
