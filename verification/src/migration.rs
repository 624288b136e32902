//! Bringing a session from before the registry existed into the directories of the
//! default account. The library decides what is done next; its caller does it on
//! disk and reports how it went.

use crate::accounts::AccountManager;
use crate::account::DEFAULT_ACCOUNT_ID;
use crate::registry::{cache_dir, data_dir};
use vstd::prelude::*;

verus! {

/// What stands in a data directory: one entry of its listing.
#[derive(Debug)]
pub struct DataDirEntry {
    pub name: String,
    /// Whether the entry is a directory.
    pub is_dir: bool,
    /// Whether the entry holds nothing. Meaningful for a directory.
    pub is_empty: bool,
}

/// The directories in which the engine is known to keep a session. A caller that
/// cannot list a data directory may look for these by name.
pub fn session_indicators() -> (r: Vec<String>)
    ensures
        r@.len() == 5,
        r@[0]@ == "storage"@,
        r@[1]@ == "serviceworkers"@,
        r@[2]@ == "deviceidhashsalts"@,
        r@[3]@ == "mediakeys"@,
        r@[4]@ == "resourcemonitorthrottler"@,
{
    let mut out: Vec<String> = Vec::new();
    out.push("storage".to_owned());
    out.push("serviceworkers".to_owned());
    out.push("deviceidhashsalts".to_owned());
    out.push("mediakeys".to_owned());
    out.push("resourcemonitorthrottler".to_owned());
    out
}

/// Whether a listing shows a browsing session: some directory in it holds something.
pub open spec fn shows_session(listing: Seq<DataDirEntry>) -> bool {
    exists|i: int| 0 <= i < listing.len() && (#[trigger] listing[i]).is_dir && !listing[i].is_empty
}

/// What is done next, or how the migration ended.
#[derive(Clone, Copy, Debug, PartialEq, Eq, Structural)]
pub enum MigrationStep {
    /// Create the directories that will hold the new data and cache directories.
    CreateParents,
    /// Rename the legacy data directory to the new one.
    RenameData,
    /// Copy the legacy data directory to the new one: renaming failed.
    CopyData,
    /// Remove the legacy data directory: it was copied.
    RemoveLegacyData,
    /// Rename the legacy cache directory to the new one.
    RenameCache,
    /// Copy the legacy cache directory to the new one: renaming failed.
    CopyCache,
    /// Remove the legacy cache directory: it was copied.
    RemoveLegacyCache,
    /// Ended: data is in place, and so is the cache if there was one.
    Finished,
    /// Ended: data is in place, the cache could not be brought over.
    FinishedWithoutCache,
    /// Ended: the data could not be brought over.
    Failed,
}

/// Whether the migration has ended at `step`.
pub open spec fn ended(step: MigrationStep) -> bool {
    step == MigrationStep::Finished || step == MigrationStep::FinishedWithoutCache || step
        == MigrationStep::Failed
}

/// What follows once the data is in place: the cache where there is one.
pub open spec fn after_data(cache_exists: bool) -> MigrationStep {
    if cache_exists {
        MigrationStep::RenameCache
    } else {
        MigrationStep::Finished
    }
}

/// The step after `step`, given whether `step` succeeded on disk. Data comes before
/// cache, and only the loss of data is a failure: a directory that cannot be renamed
/// is copied; data that cannot be copied fails the migration; a cache that cannot be
/// copied is given up; what was copied is removed at its old place, whether or not
/// that removal succeeds.
pub open spec fn next_step(step: MigrationStep, succeeded: bool, cache_exists: bool) -> MigrationStep {
    match step {
        MigrationStep::CreateParents => if succeeded {
            MigrationStep::RenameData
        } else {
            MigrationStep::Failed
        },
        MigrationStep::RenameData => if succeeded {
            after_data(cache_exists)
        } else {
            MigrationStep::CopyData
        },
        MigrationStep::CopyData => if succeeded {
            MigrationStep::RemoveLegacyData
        } else {
            MigrationStep::Failed
        },
        MigrationStep::RemoveLegacyData => after_data(cache_exists),
        MigrationStep::RenameCache => if succeeded {
            MigrationStep::Finished
        } else {
            MigrationStep::CopyCache
        },
        MigrationStep::CopyCache => if succeeded {
            MigrationStep::RemoveLegacyCache
        } else {
            MigrationStep::FinishedWithoutCache
        },
        MigrationStep::RemoveLegacyCache => MigrationStep::Finished,
        MigrationStep::Finished => MigrationStep::Finished,
        MigrationStep::FinishedWithoutCache => MigrationStep::FinishedWithoutCache,
        MigrationStep::Failed => MigrationStep::Failed,
    }
}

/// How many steps are left at most from `step`.
pub open spec fn steps_left(step: MigrationStep) -> nat {
    match step {
        MigrationStep::CreateParents => 7,
        MigrationStep::RenameData => 6,
        MigrationStep::CopyData => 5,
        MigrationStep::RemoveLegacyData => 4,
        MigrationStep::RenameCache => 3,
        MigrationStep::CopyCache => 2,
        MigrationStep::RemoveLegacyCache => 1,
        MigrationStep::Finished => 0,
        MigrationStep::FinishedWithoutCache => 0,
        MigrationStep::Failed => 0,
    }
}

/// The migration of one legacy session.
pub struct LegacyMigration {
    legacy_data: String,
    legacy_cache: String,
    new_data: String,
    new_cache: String,
    cache_exists: bool,
    step: MigrationStep,
}

/// What a `LegacyMigration` holds.
pub struct LegacyMigrationView {
    pub legacy_data: Seq<char>,
    pub legacy_cache: Seq<char>,
    pub new_data: Seq<char>,
    pub new_cache: Seq<char>,
    pub cache_exists: bool,
    pub step: MigrationStep,
}

impl View for LegacyMigration {
    type V = LegacyMigrationView;

    closed spec fn view(&self) -> LegacyMigrationView {
        LegacyMigrationView {
            legacy_data: self.legacy_data@,
            legacy_cache: self.legacy_cache@,
            new_data: self.new_data@,
            new_cache: self.new_cache@,
            cache_exists: self.cache_exists,
            step: self.step,
        }
    }
}

/// The directory that the step `step` reads from, and the one that it writes to;
/// empty where the step has none.
pub open spec fn paths_of(m: LegacyMigrationView) -> (Seq<char>, Seq<char>) {
    match m.step {
        MigrationStep::CreateParents => (Seq::empty(), Seq::empty()),
        MigrationStep::RenameData => (m.legacy_data, m.new_data),
        MigrationStep::CopyData => (m.legacy_data, m.new_data),
        MigrationStep::RemoveLegacyData => (m.legacy_data, Seq::empty()),
        MigrationStep::RenameCache => (m.legacy_cache, m.new_cache),
        MigrationStep::CopyCache => (m.legacy_cache, m.new_cache),
        MigrationStep::RemoveLegacyCache => (m.legacy_cache, Seq::empty()),
        MigrationStep::Finished => (Seq::empty(), Seq::empty()),
        MigrationStep::FinishedWithoutCache => (Seq::empty(), Seq::empty()),
        MigrationStep::Failed => (Seq::empty(), Seq::empty()),
    }
}

impl LegacyMigration {
    /// The migration of the legacy directories into the directories of the default
    /// account of `store`. `cache_exists` tells whether there is a legacy cache.
    pub fn begin(store: &AccountManager, legacy_data: String, legacy_cache: String, cache_exists: bool) -> (r: Self)
        ensures
            r@ == (LegacyMigrationView {
                legacy_data: legacy_data@,
                legacy_cache: legacy_cache@,
                new_data: data_dir(store.root(), DEFAULT_ACCOUNT_ID@),
                new_cache: cache_dir(store.root(), DEFAULT_ACCOUNT_ID@),
                cache_exists,
                step: MigrationStep::CreateParents,
            }),
    {
        LegacyMigration {
            legacy_data,
            legacy_cache,
            new_data: store.data_dir_for(DEFAULT_ACCOUNT_ID),
            new_cache: store.cache_dir_for(DEFAULT_ACCOUNT_ID),
            cache_exists,
            step: MigrationStep::CreateParents,
        }
    }

    /// What is to be done next, or how the migration ended.
    pub fn step(&self) -> (r: MigrationStep)
        ensures
            r == self@.step,
    {
        self.step
    }

    /// Whether the migration has ended.
    pub fn is_over(&self) -> (r: bool)
        ensures
            r == ended(self@.step),
    {
        match self.step {
            MigrationStep::Finished => true,
            MigrationStep::FinishedWithoutCache => true,
            MigrationStep::Failed => true,
            _ => false,
        }
    }

    /// The directory that the step to be done reads from, and the one that it writes
    /// to; empty where the step has none.
    pub fn paths(&self) -> (r: (String, String))
        ensures
            (r.0@, r.1@) == paths_of(self@),
    {
        match self.step {
            MigrationStep::RenameData => (self.legacy_data.clone(), self.new_data.clone()),
            MigrationStep::CopyData => (self.legacy_data.clone(), self.new_data.clone()),
            MigrationStep::RemoveLegacyData => (self.legacy_data.clone(), String::new()),
            MigrationStep::RenameCache => (self.legacy_cache.clone(), self.new_cache.clone()),
            MigrationStep::CopyCache => (self.legacy_cache.clone(), self.new_cache.clone()),
            MigrationStep::RemoveLegacyCache => (self.legacy_cache.clone(), String::new()),
            _ => (String::new(), String::new()),
        }
    }

    /// The two directories whose parents the first step creates.
    pub fn targets(&self) -> (r: (String, String))
        ensures
            r.0@ == self@.new_data,
            r.1@ == self@.new_cache,
    {
        (self.new_data.clone(), self.new_cache.clone())
    }

    /// Takes note of how the step went on disk, and moves on to the next.
    pub fn advance(&mut self, succeeded: bool)
        ensures
            final(self)@ == (LegacyMigrationView {
                step: next_step(old(self)@.step, succeeded, old(self)@.cache_exists),
                ..old(self)@
            }),
            !ended(old(self)@.step) ==> steps_left(final(self)@.step) < steps_left(old(self)@.step),
    {
        let next = match self.step {
            MigrationStep::CreateParents => if succeeded {
                MigrationStep::RenameData
            } else {
                MigrationStep::Failed
            },
            MigrationStep::RenameData => if succeeded {
                self.data_in_place()
            } else {
                MigrationStep::CopyData
            },
            MigrationStep::CopyData => if succeeded {
                MigrationStep::RemoveLegacyData
            } else {
                MigrationStep::Failed
            },
            MigrationStep::RemoveLegacyData => self.data_in_place(),
            MigrationStep::RenameCache => if succeeded {
                MigrationStep::Finished
            } else {
                MigrationStep::CopyCache
            },
            MigrationStep::CopyCache => if succeeded {
                MigrationStep::RemoveLegacyCache
            } else {
                MigrationStep::FinishedWithoutCache
            },
            MigrationStep::RemoveLegacyCache => MigrationStep::Finished,
            MigrationStep::Finished => MigrationStep::Finished,
            MigrationStep::FinishedWithoutCache => MigrationStep::FinishedWithoutCache,
            MigrationStep::Failed => MigrationStep::Failed,
        };
        self.step = next;
    }

    /// What follows once the data is in place.
    fn data_in_place(&self) -> (r: MigrationStep)
        ensures
            r == after_data(self@.cache_exists),
    {
        if self.cache_exists {
            MigrationStep::RenameCache
        } else {
            MigrationStep::Finished
        }
    }
}

impl AccountManager {
    /// Whether the listing of a data directory shows a browsing session: some
    /// directory in it holds something. The listing of a directory that does not
    /// exist is empty.
    pub fn check_session_exists(&self, listing: &Vec<DataDirEntry>) -> (r: bool)
        ensures
            r == shows_session(listing@),
    {
        let mut i: usize = 0;
        while i < listing.len()
            invariant
                i <= listing.len(),
                forall|j: int| 0 <= j < i ==> !((#[trigger] listing@[j]).is_dir && !listing@[j].is_empty),
            decreases listing.len() - i,
        {
            if listing[i].is_dir && !listing[i].is_empty {
                return true;
            }
            i += 1;
        }
        false
    }
}

/// The migration fails only where the data itself could not be brought over: the
/// parents could not be created, or the data could be neither renamed nor copied.
/// Nothing that happens to the cache fails it.
pub proof fn lemma_only_data_fails(step: MigrationStep, succeeded: bool, cache_exists: bool)
    requires
        step != MigrationStep::Failed,
        next_step(step, succeeded, cache_exists) == MigrationStep::Failed,
    ensures
        !succeeded,
        step == MigrationStep::CreateParents || step == MigrationStep::CopyData,
{
}

/// Every step brings the migration nearer to its end, and an ended migration stays
/// as it ended.
pub proof fn lemma_migration_ends(step: MigrationStep, succeeded: bool, cache_exists: bool)
    ensures
        !ended(step) ==> steps_left(next_step(step, succeeded, cache_exists)) < steps_left(step),
        ended(step) ==> next_step(step, succeeded, cache_exists) == step,
        ended(step) <==> steps_left(step) == 0,
{
}

} // verus!
