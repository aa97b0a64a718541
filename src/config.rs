//! Where the two sources come from, and the choice of a configuration file.

use crate::bucket::{bucket_by_date, date_buckets};
use crate::entry::Entry;
use crate::reconcile::{reconcile, reconcile_spec, ReconcileItem};
use vstd::prelude::*;
use vstd::string::StringExecFns;

verus! {

/// The file paths of the journal and of the staging entries.
pub struct ReconcileConfig {
    pub journal_paths: Vec<String>,
    pub staging_paths: Vec<String>,
}

impl ReconcileConfig {
    pub fn new(journal_paths: Vec<String>, staging_paths: Vec<String>) -> (r: ReconcileConfig)
        ensures
            r.journal_paths@ == journal_paths@,
            r.staging_paths@ == staging_paths@,
    {
        ReconcileConfig { journal_paths, staging_paths }
    }
}

/// Reconciles the entries read from the journal with those read from staging:
/// each source is grouped into date buckets in normal form, then the buckets
/// are reconciled date by date.
pub fn reconcile_entries(journal: Vec<Entry>, staging: Vec<Entry>) -> (r: Vec<ReconcileItem>)
    ensures
        r@ == reconcile_spec(date_buckets(journal@), date_buckets(staging@)),
{
    reconcile(bucket_by_date(journal), bucket_by_date(staging))
}

/// Tells subscribers that the sources changed and the state was reloaded.
#[derive(Clone, Copy, Debug)]
pub struct FileChangeEvent;

/// What happened to a watched file.
#[derive(Clone, Copy, Debug, PartialEq, Eq, Structural)]
pub enum ChangeKind {
    Modified,
    Created,
    Removed,
    /// Anything else, such as an access.
    Other,
}

/// Whether a batch of file events calls for a reload: it holds a change,
/// creation or removal.
pub fn triggers_reload(events: &Vec<ChangeKind>) -> (r: bool)
    ensures
        r == exists|i: int| 0 <= i < events@.len() && events@[i] != ChangeKind::Other,
{
    let mut i: usize = 0;
    while i < events.len()
        invariant
            i <= events@.len(),
            forall|j: int| 0 <= j < i ==> events@[j] == ChangeKind::Other,
        decreases events@.len() - i,
    {
        if events[i] != ChangeKind::Other {
            return true;
        }
        i = i + 1;
    }
    false
}

/// The journal section of a configuration.
pub struct ConfigJournal {
    pub files: Vec<String>,
}

/// Where staging entries come from.
pub enum StagingSource {
    /// Read from these files.
    Files(Vec<String>),
    /// Printed by this command, run in `cwd`.
    Command { command: Vec<String>, cwd: String },
}

/// The staging section of a configuration.
pub struct ConfigStaging(pub StagingSource);

/// Why a staging section was refused.
#[derive(Clone, Copy, Debug, PartialEq, Eq, Structural)]
pub enum StagingSectionError {
    /// Neither files nor a command.
    Missing,
    /// Both files and a command.
    Both,
}

impl StagingSectionError {
    /// The message shown for the error.
    pub fn message(&self) -> (r: String)
        ensures
            *self == StagingSectionError::Missing ==> r@
                == "staging section must have either 'files' or 'command' specified"@,
            *self == StagingSectionError::Both ==> r@
                == "staging section cannot have both 'files' and 'command' specified"@,
    {
        match self {
            StagingSectionError::Missing => String::from_str(
                "staging section must have either 'files' or 'command' specified",
            ),
            StagingSectionError::Both => String::from_str(
                "staging section cannot have both 'files' and 'command' specified",
            ),
        }
    }
}

impl ConfigStaging {
    /// The staging section from its two optional parts: exactly one of files
    /// and command must be given. A command runs in the current directory.
    pub fn try_from_parts(files: Vec<String>, command: Vec<String>) -> (r: Result<ConfigStaging, StagingSectionError>)
        ensures
            files@.len() > 0 && command@.len() == 0 <==> (r matches Ok(ConfigStaging(StagingSource::Files(f))) && f@ == files@),
            files@.len() == 0 && command@.len() > 0 <==> (r matches Ok(ConfigStaging(StagingSource::Command { command: c, cwd })) && c@ == command@ && cwd@ == seq!['.']),
            files@.len() == 0 && command@.len() == 0 <==> r == Err::<ConfigStaging, StagingSectionError>(StagingSectionError::Missing),
            files@.len() > 0 && command@.len() > 0 <==> r == Err::<ConfigStaging, StagingSectionError>(StagingSectionError::Both),
    {
        match (files.len() == 0, command.len() == 0) {
            (false, true) => Ok(ConfigStaging(StagingSource::Files(files))),
            (true, false) => {
                let cwd = String::from_str(".");
                proof {
                    reveal_strlit(".");
                    assert(cwd@ =~= seq!['.']);
                }
                Ok(ConfigStaging(StagingSource::Command { command, cwd }))
            },
            (true, true) => Err(StagingSectionError::Missing),
            (false, false) => Err(StagingSectionError::Both),
        }
    }
}

/// A configuration: the journal files and the staging source.
pub struct Config {
    pub journal: ConfigJournal,
    pub staging: ConfigStaging,
}

/// The file names tried for a configuration, in order.
pub const CONFIG_LOCATIONS: [&'static str; 2] = ["beancount-staging.toml", ".beancount-staging.toml"];

impl Config {
    /// Which configuration file to load, given for each of `CONFIG_LOCATIONS`
    /// whether it exists: the first that exists, if any.
    pub fn find_and_load(exists: &[bool; 2]) -> (r: Option<usize>)
        ensures
            match r {
                Some(i) => i < 2 && exists[i as int] && forall|j: int| 0 <= j < i ==> !exists[j],
                None => !exists[0] && !exists[1],
            },
    {
        let mut i: usize = 0;
        while i < 2
            invariant
                i <= 2,
                forall|j: int| 0 <= j < i ==> !exists[j],
            decreases 2 - i,
        {
            if exists[i] {
                return Some(i);
            }
            i = i + 1;
        }
        None
    }
}

} // verus!
