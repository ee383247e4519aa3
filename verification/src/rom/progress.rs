//! Counting what an archive holds and how far processing it has come.
use vstd::prelude::*;

use std::time::Instant;

verus! {

/// The number of directories, files and file bytes of an archive.
#[derive(Copy, Clone, Debug, PartialEq, Eq, Structural)]
pub struct RomCounter {
    pub directories: u64,
    pub files: u64,
    pub bytes: u64,
}

impl Default for RomCounter {
    fn default() -> (r: Self)
        ensures
            r == (RomCounter { directories: 0, files: 0, bytes: 0 }),
    {
        RomCounter { directories: 0, files: 0, bytes: 0 }
    }
}

impl RomCounter {
    pub fn new() -> (r: Self)
        ensures
            r == (RomCounter { directories: 0, files: 0, bytes: 0 }),
    {
        RomCounter { directories: 0, files: 0, bytes: 0 }
    }

    /// Counts a file of `size` bytes.
    pub fn add_file(&mut self, size: u64)
        requires
            old(self).files < u64::MAX,
            old(self).bytes + size <= u64::MAX,
        ensures
            *final(self) == (RomCounter {
                directories: old(self).directories,
                files: (old(self).files + 1) as u64,
                bytes: (old(self).bytes + size) as u64,
            }),
    {
        self.files = self.files + 1;
        self.bytes = self.bytes + size;
    }

    /// Counts a directory.
    pub fn add_directory(&mut self)
        requires
            old(self).directories < u64::MAX,
        ensures
            *final(self) == (RomCounter {
                directories: (old(self).directories + 1) as u64,
                files: old(self).files,
                bytes: old(self).bytes,
            }),
    {
        self.directories = self.directories + 1;
    }
}

/// What is being done to an archive.
#[derive(Copy, Clone, Debug, PartialEq, Eq, Structural)]
pub enum ProgressAction {
    Extract,
    Create,
}

#[verifier::external_type_specification]
#[verifier::external_body]
pub struct ExInstant(std::time::Instant);

/// `std::time::Instant::now`: the current time, of which nothing is known here.
#[verifier::external_body]
fn instant_now() -> Instant {
    Instant::now()
}

/// When processing an archive started, for a summary at its end.
pub struct RomTimingSummary {
    pub action: ProgressAction,
    pub start_time: Instant,
}

impl RomTimingSummary {
    /// Starts timing `action` now.
    pub fn new(action: ProgressAction) -> (r: Self)
        ensures
            r.action == action,
    {
        RomTimingSummary { action, start_time: instant_now() }
    }
}

/// How many files and bytes of an archive have been processed, out of how many.
pub struct RomProgress {
    pub total_counter: RomCounter,
    pub running_counter: RomCounter,
}

impl RomProgress {
    /// Starts processing an archive of `total_counter` files and bytes.
    pub fn new(total_counter: RomCounter) -> (r: Self)
        ensures
            r.total_counter == total_counter,
            r.running_counter == (RomCounter { directories: 0, files: 0, bytes: 0 }),
    {
        RomProgress { total_counter, running_counter: RomCounter::new() }
    }

    /// Counts a processed file of `size` bytes.
    pub fn add_file(&mut self, size: u64)
        requires
            old(self).running_counter.files < u64::MAX,
            old(self).running_counter.bytes + size <= u64::MAX,
        ensures
            final(self).total_counter == old(self).total_counter,
            final(self).running_counter == (RomCounter {
                directories: old(self).running_counter.directories,
                files: (old(self).running_counter.files + 1) as u64,
                bytes: (old(self).running_counter.bytes + size) as u64,
            }),
    {
        self.running_counter.add_file(size);
    }
}

} // verus!
