//! The dispatcher: what becomes of a file that appears in the watched
//! folder, and the queue of files that wait for a manual decision.

use vstd::prelude::*;
use vstd::string::StringExecFns;
use crate::config::{
    destination_for_file, lemma_mode_words_differ, pending_views, text_of, Config,
    OrganizationMode, PendingFile, PendingFileView,
};
use crate::organizer::{chars_of, extension_of, split_name, OrganizeError};
use crate::text::{decimal, decimal_text, same_text};

verus! {

/// How long a new file is left alone before it is looked at, in
/// milliseconds.
pub const SETTLE_DELAY_MILLIS: u64 = 100;

/// What became of a file.
#[derive(Debug, Clone, PartialEq, Eq)]
pub enum Outcome {
    /// The file was moved and now lies at `destination`.
    Moved { source: String, destination: String },
    /// The file waits for a manual decision.
    Queued { path: String },
    /// No rule places the file; it stays where it is.
    NoRuleMatched { path: String },
    /// Handling the file failed; it stays where it is.
    Error { path: String, detail: String },
    /// The file was left where it is by a manual decision.
    Skipped { path: String },
}

/// An `Outcome` with its texts as sequences of characters.
pub enum OutcomeView {
    Moved { source: Seq<char>, destination: Seq<char> },
    Queued { path: Seq<char> },
    NoRuleMatched { path: Seq<char> },
    Error { path: Seq<char>, detail: Seq<char> },
    Skipped { path: Seq<char> },
}

impl View for Outcome {
    type V = OutcomeView;

    open spec fn view(&self) -> OutcomeView {
        match *self {
            Outcome::Moved { source, destination } => OutcomeView::Moved {
                source: source@,
                destination: destination@,
            },
            Outcome::Queued { path } => OutcomeView::Queued { path: path@ },
            Outcome::NoRuleMatched { path } => OutcomeView::NoRuleMatched { path: path@ },
            Outcome::Error { path, detail } => OutcomeView::Error { path: path@, detail: detail@ },
            Outcome::Skipped { path } => OutcomeView::Skipped { path: path@ },
        }
    }
}

/// What is to be done with a detected file.
#[derive(Debug, PartialEq, Eq)]
pub enum Dispatch {
    /// Move the file into `destination`.
    Move { destination: String },
    /// Put the file into the queue of pending files.
    Enqueue,
    /// Leave the file alone and publish the outcome.
    Report { outcome: Outcome },
}

/// A `Dispatch` with its texts as sequences of characters.
pub enum DispatchView {
    Move { destination: Seq<char> },
    Enqueue,
    Report { outcome: OutcomeView },
}

impl View for Dispatch {
    type V = DispatchView;

    open spec fn view(&self) -> DispatchView {
        match *self {
            Dispatch::Move { destination } => DispatchView::Move { destination: destination@ },
            Dispatch::Enqueue => DispatchView::Enqueue,
            Dispatch::Report { outcome } => DispatchView::Report { outcome: outcome@ },
        }
    }
}

/// What a mode makes of a file, given the destination that the rules found
/// for it. `auto` moves the file or reports that no rule matched; `ask`
/// queues it whatever the rules say; `both` moves it or queues it. Any other
/// word is an error of the configuration and is reported as one.
pub open spec fn dispatch_by_mode(
    mode: Seq<char>,
    destination: Option<Seq<char>>,
    path: Seq<char>,
) -> DispatchView {
    if mode == OrganizationMode::Auto.word() {
        match destination {
            Some(folder) => DispatchView::Move { destination: folder },
            None => DispatchView::Report { outcome: OutcomeView::NoRuleMatched { path } },
        }
    } else if mode == OrganizationMode::Ask.word() {
        DispatchView::Enqueue
    } else if mode == OrganizationMode::Both.word() {
        match destination {
            Some(folder) => DispatchView::Move { destination: folder },
            None => DispatchView::Enqueue,
        }
    } else {
        DispatchView::Report {
            outcome: OutcomeView::Error {
                path,
                detail: "Unknown organization mode: "@ + mode,
            },
        }
    }
}

/// What a configuration makes of a detected file.
pub open spec fn dispatch_of(config: Config, path: Seq<char>, file_name: Option<Seq<char>>)
    -> DispatchView {
    dispatch_by_mode(
        config.organization_mode@,
        destination_for_file(config.rules@, file_name),
        path,
    )
}

/// The entry that the queue holds for a file: its path, its name (`unknown`
/// for a path that ends in none), its extension as written (empty where it
/// has none), its size, and the time of detection in seconds, in decimal.
pub open spec fn pending_entry(
    path: Seq<char>,
    file_name: Option<Seq<char>>,
    size: u64,
    detected_at: u64,
) -> PendingFileView {
    PendingFileView {
        path,
        name: match file_name {
            Some(name) => name,
            None => "unknown"@,
        },
        extension: match file_name {
            Some(name) => match extension_of(name) {
                Some(extension) => extension,
                None => Seq::empty(),
            },
            None => Seq::empty(),
        },
        size,
        detected_at: decimal(detected_at as nat),
    }
}

/// A queue without the entries for `path`, the others in their order.
pub open spec fn without_path(queue: Seq<PendingFileView>, path: Seq<char>) -> Seq<
    PendingFileView,
> {
    queue.filter(|entry: PendingFileView| entry.path != path)
}

/// The outcome of an attempt to move a file: moved to the path it ended at,
/// or the error that stopped it.
pub open spec fn outcome_of_move(path: Seq<char>, moved: Result<String, OrganizeError>)
    -> OutcomeView {
    match moved {
        Ok(placed) => OutcomeView::Moved { source: path, destination: placed@ },
        Err(error) => OutcomeView::Error { path, detail: error.text() },
    }
}

/// The outcome to publish after an attempt to move a file.
pub fn move_outcome(path: &str, moved: Result<String, OrganizeError>) -> (outcome: Outcome)
    ensures
        outcome@ == outcome_of_move(path@, moved),
{
    match moved {
        Ok(placed) => Outcome::Moved { source: String::from_str(path), destination: placed },
        Err(error) => Outcome::Error { path: String::from_str(path), detail: error.message() },
    }
}

/// What a manual decision on a pending file leads to.
#[derive(Debug, PartialEq, Eq)]
pub enum Resolution {
    /// The file is gone. Its entry was removed, and the decision fails with
    /// this error.
    Missing { error: String },
    /// The file stays where it is. Its entry was removed; the outcome is to
    /// be published.
    Skipped { outcome: Outcome },
    /// The file is to be moved into `destination`, under `new_name` where
    /// one is given. Its entry stays until the move has succeeded.
    Move { destination: String, new_name: Option<String> },
}

/// A `Resolution` with its texts as sequences of characters.
pub enum ResolutionView {
    Missing { error: Seq<char> },
    Skipped { outcome: OutcomeView },
    Move { destination: Seq<char>, new_name: Option<Seq<char>> },
}

impl View for Resolution {
    type V = ResolutionView;

    open spec fn view(&self) -> ResolutionView {
        match *self {
            Resolution::Missing { error } => ResolutionView::Missing { error: error@ },
            Resolution::Skipped { outcome } => ResolutionView::Skipped { outcome: outcome@ },
            Resolution::Move { destination, new_name } => ResolutionView::Move {
                destination: destination@,
                new_name: text_of(new_name),
            },
        }
    }
}

/// What a manual decision leads to: a file that is gone fails, a decision
/// without destination skips, one with a destination moves.
pub open spec fn resolution_of(
    path: Seq<char>,
    exists: bool,
    destination: Option<Seq<char>>,
    new_name: Option<Seq<char>>,
) -> ResolutionView {
    if !exists {
        ResolutionView::Missing { error: "File no longer exists"@ }
    } else {
        match destination {
            Some(folder) => ResolutionView::Move { destination: folder, new_name },
            None => ResolutionView::Skipped { outcome: OutcomeView::Skipped { path } },
        }
    }
}

/// In mode `ask` no file is moved on the strength of a rule: whatever the
/// rules say, the file is queued.
pub proof fn lemma_ask_mode_always_queues(
    config: Config,
    path: Seq<char>,
    file_name: Option<Seq<char>>,
)
    requires
        config.organization_mode@ == OrganizationMode::Ask.word(),
    ensures
        dispatch_of(config, path, file_name) == DispatchView::Enqueue,
{
    lemma_mode_words_differ();
}

/// A queued file stays in the queue until a decision names its path: it is
/// there after it was queued, adding a file keeps the entries that were
/// there, and removing a path keeps every entry of another path and none of
/// that path.
pub proof fn lemma_pending_until_resolved(
    queue: Seq<PendingFileView>,
    entry: PendingFileView,
    added: PendingFileView,
    resolved: Seq<char>,
)
    ensures
        queue.push(entry).contains(entry),
        queue.contains(entry) ==> queue.push(added).contains(entry),
        queue.contains(entry) && entry.path != resolved ==> without_path(queue, resolved).contains(
            entry,
        ),
        entry.path == resolved ==> !without_path(queue, resolved).contains(entry),
{
    let keep = |other: PendingFileView| other.path != resolved;
    assert(queue.push(entry)[queue.len() as int] == entry);
    if queue.contains(entry) {
        let at = choose|at: int| 0 <= at < queue.len() && queue[at] == entry;
        assert(queue.push(added)[at] == entry);
        if entry.path != resolved {
            queue.lemma_filter_contains(keep, at);
        }
    }
    if entry.path == resolved && without_path(queue, resolved).contains(entry) {
        queue.lemma_filter_contains_rev(keep, entry);
    }
}

/// The state of the watcher: the configuration in force and the files that
/// wait for a manual decision, oldest first.
#[derive(Debug)]
pub struct FileWatcher {
    config: Config,
    pending_files: Vec<PendingFile>,
}

impl FileWatcher {
    /// The configuration in force.
    pub closed spec fn config(&self) -> Config {
        self.config
    }

    /// The pending files, oldest first.
    pub closed spec fn pending(&self) -> Seq<PendingFileView> {
        pending_views(self.pending_files@)
    }

    /// A watcher with this configuration and nothing pending.
    pub fn new(config: Config) -> (watcher: Self)
        ensures
            watcher.config() == config,
            watcher.pending() == Seq::<PendingFileView>::empty(),
    {
        let watcher = FileWatcher { config, pending_files: Vec::new() };
        assert(watcher.pending() =~= Seq::<PendingFileView>::empty());
        watcher
    }

    /// Puts a new configuration in force. Files detected from now on are
    /// handled by it; the pending files stay.
    pub fn update_config(&mut self, config: Config) -> (done: Result<(), String>)
        ensures
            done is Ok,
            final(self).config() == config,
            final(self).pending() == old(self).pending(),
    {
        self.config = config;
        Ok(())
    }

    /// The organisation mode in force, as the configuration words it.
    pub fn organization_mode(&self) -> (mode: &str)
        ensures
            mode@ == self.config().organization_mode@,
    {
        self.config.organization_mode.as_str()
    }

    /// What is to be done with a file that appeared in the watched folder,
    /// by the mode and the rules in force. Nothing changes here: the file is
    /// queued by `add_pending_file` and moved by the organiser.
    pub fn dispatch(&self, path: &str, file_name: Option<&str>) -> (action: Dispatch)
        ensures
            action@ == dispatch_of(self.config(), path@, chars_of(file_name)),
    {
        let mode = self.config.organization_mode.as_str();
        proof {
            lemma_mode_words_differ();
        }
        if same_text(mode, "ask") {
            return Dispatch::Enqueue;
        }
        let auto = same_text(mode, "auto");
        if !auto && !same_text(mode, "both") {
            return Dispatch::Report {
                outcome: Outcome::Error {
                    path: String::from_str(path),
                    detail: String::from_str("Unknown organization mode: ").concat(mode),
                },
            };
        }
        match self.config.destination_for_file(file_name) {
            Some(destination) => Dispatch::Move { destination },
            None => if auto {
                Dispatch::Report {
                    outcome: Outcome::NoRuleMatched { path: String::from_str(path) },
                }
            } else {
                Dispatch::Enqueue
            },
        }
    }

    /// What to do about a notification from the watched folder. Only the
    /// creation of a regular file counts: the answer is then how long to
    /// leave the file alone, in milliseconds, so that whoever writes it can
    /// finish. Any other notification is passed over.
    pub fn settle_delay(created: bool, is_file: bool) -> (wait: Option<u64>)
        ensures
            wait == if created && is_file {
                Some(SETTLE_DELAY_MILLIS)
            } else {
                None
            },
    {
        if created && is_file {
            Some(SETTLE_DELAY_MILLIS)
        } else {
            None
        }
    }

    /// What is to be done with a file once it was left alone for the settle
    /// delay. `exists` says whether it is still there: a file that vanished
    /// meanwhile is dropped without a word. Any other is dispatched.
    pub fn dispatch_settled(&self, path: &str, file_name: Option<&str>, exists: bool) -> (action:
        Option<Dispatch>)
        ensures
            match action {
                Some(found) => exists && found@ == dispatch_of(
                    self.config(),
                    path@,
                    chars_of(file_name),
                ),
                None => !exists,
            },
    {
        if exists {
            Some(self.dispatch(path, file_name))
        } else {
            None
        }
    }

    /// Puts a file at the end of the queue and gives the outcome to publish.
    /// A file that is queued twice has two entries.
    pub fn add_pending_file(
        &mut self,
        path: &str,
        file_name: Option<&str>,
        size: u64,
        detected_at: u64,
    ) -> (outcome: Outcome)
        ensures
            final(self).pending() == old(self).pending().push(
                pending_entry(path@, chars_of(file_name), size, detected_at),
            ),
            final(self).config() == old(self).config(),
            outcome@ == (OutcomeView::Queued { path: path@ }),
    {
        let name = match file_name {
            Some(name) => String::from_str(name),
            None => String::from_str("unknown"),
        };
        let extension = match file_name {
            Some(name) => match split_name(name).extension {
                Some(extension) => extension,
                None => String::new(),
            },
            None => String::new(),
        };
        let entry = PendingFile {
            path: String::from_str(path),
            name,
            extension,
            size,
            detected_at: decimal_text(detected_at),
        };
        self.pending_files.push(entry);
        assert(self.pending() =~= old(self).pending().push(
            pending_entry(path@, chars_of(file_name), size, detected_at),
        ));
        Outcome::Queued { path: String::from_str(path) }
    }

    /// The pending files, oldest first, as a copy: what is done with it
    /// leaves the queue as it is.
    pub fn get_pending_files(&self) -> (snapshot: Vec<PendingFile>)
        ensures
            pending_views(snapshot@) == self.pending(),
    {
        let mut snapshot: Vec<PendingFile> = Vec::new();
        let mut i: usize = 0;
        while i < self.pending_files.len()
            invariant
                i <= self.pending_files.len(),
                pending_views(snapshot@) == self.pending().subrange(
                    0,
                    i as int,
                ),
            decreases self.pending_files.len() - i,
        {
            let ghost before = self.pending().subrange(0, i as int);
            let ghost after = self.pending().subrange(0, i + 1);
            let ghost earlier = snapshot@;
            proof {
                assert(after.drop_last() =~= before);
                assert(after.last() == self.pending_files@[i as int]@);
            }
            snapshot.push(self.pending_files[i].clone());
            assert(snapshot@.drop_last() =~= earlier);
            assert(pending_views(snapshot@).drop_last() =~= pending_views(earlier));
            assert(pending_views(snapshot@).last() == after.last());
            assert(pending_views(snapshot@) =~= self.pending().subrange(0, i + 1));
            i += 1;
        }
        assert(self.pending().subrange(0, i as int) =~= self.pending());
        snapshot
    }

    /// How many files are pending. Zero means that nothing is left to decide.
    pub fn pending_count(&self) -> (count: usize)
        ensures
            count == self.pending().len(),
    {
        self.pending_files.len()
    }

    /// Removes every entry for `path` from the queue; the others keep their
    /// order.
    pub fn remove_pending_file(&mut self, path: &str) -> (done: Result<(), String>)
        ensures
            done is Ok,
            final(self).pending() == without_path(old(self).pending(), path@),
            final(self).config() == old(self).config(),
    {
        let ghost keep = |entry: PendingFileView| entry.path != path@;
        let mut kept: Vec<PendingFile> = Vec::new();
        let mut i: usize = 0;
        proof {
            reveal(Seq::filter);
            assert(self.pending().subrange(0, 0).filter(keep) =~= Seq::<PendingFileView>::empty());
        }
        while i < self.pending_files.len()
            invariant
                i <= self.pending_files.len(),
                keep == |entry: PendingFileView| entry.path != path@,
                pending_views(kept@) == self.pending().subrange(
                    0,
                    i as int,
                ).filter(keep),
            decreases self.pending_files.len() - i,
        {
            let ghost before = self.pending().subrange(0, i as int);
            let ghost after = self.pending().subrange(0, i + 1);
            proof {
                reveal(Seq::filter);
                assert(after.drop_last() =~= before);
                assert(after.last() == self.pending_files@[i as int]@);
            }
            if !same_text(self.pending_files[i].path.as_str(), path) {
                kept.push(self.pending_files[i].clone());
                assert(pending_views(kept@) =~= after.filter(keep));
            }
            i += 1;
        }
        assert(self.pending().subrange(0, i as int) =~= self.pending());
        self.pending_files = kept;
        Ok(())
    }

    /// Takes a manual decision on a pending file. `exists` says whether the
    /// file is still on disk. A file that is gone loses its entry and the
    /// decision fails. A decision without destination skips the file: its
    /// entry goes and the file stays. A decision with a destination asks for
    /// a move and leaves the entry until `finish_pending_move` hears that
    /// the move succeeded.
    pub fn process_pending_file(
        &mut self,
        file_path: &str,
        exists: bool,
        destination: Option<String>,
        new_name: Option<String>,
    ) -> (resolution: Resolution)
        ensures
            resolution@ == resolution_of(
                file_path@,
                exists,
                text_of(destination),
                text_of(new_name),
            ),
            final(self).pending() == if resolution is Move {
                old(self).pending()
            } else {
                without_path(old(self).pending(), file_path@)
            },
            final(self).config() == old(self).config(),
    {
        if !exists {
            let _ = self.remove_pending_file(file_path);
            return Resolution::Missing { error: String::from_str("File no longer exists") };
        }
        match destination {
            Some(folder) => Resolution::Move { destination: folder, new_name },
            None => {
                let _ = self.remove_pending_file(file_path);
                Resolution::Skipped {
                    outcome: Outcome::Skipped { path: String::from_str(file_path) },
                }
            },
        }
    }

    /// Ends a manual move. After a move that succeeded the file's entry is
    /// removed and the outcome to publish is given. After one that failed
    /// the entry stays and the error goes back to whoever decided.
    pub fn finish_pending_move(&mut self, file_path: &str, moved: Result<String, OrganizeError>)
        -> (done: Result<Outcome, String>)
        ensures
            match moved {
                Ok(placed) => done matches Ok(outcome) && outcome@ == (OutcomeView::Moved {
                    source: file_path@,
                    destination: placed@,
                }) && final(self).pending() == without_path(old(self).pending(), file_path@),
                Err(error) => done matches Err(message) && message@ == "Failed to move file: "@
                    + error.text() && final(self).pending() == old(self).pending(),
            },
            final(self).config() == old(self).config(),
    {
        match moved {
            Ok(placed) => {
                let _ = self.remove_pending_file(file_path);
                Ok(Outcome::Moved { source: String::from_str(file_path), destination: placed })
            },
            Err(error) => {
                let detail = error.message();
                Err(String::from_str("Failed to move file: ").concat(detail.as_str()))
            },
        }
    }
}

} // verus!
