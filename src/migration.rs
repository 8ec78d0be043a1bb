//! The migration source: a bucket in a region.
use vstd::prelude::*;
use crate::keys::{down_keys, select_down, select_up, up_keys};
use crate::run::{Direction, MigrationRun};

verus! {

/// Where the migration scripts are stored.
#[derive(Debug)]
pub struct Migration {
    pub bucket: String,
    pub region: String,
}

impl Default for Migration {
    fn default() -> (r: Self)
        ensures
            r.bucket@.len() == 0,
            r.region@.len() == 0,
    {
        Migration { bucket: String::new(), region: String::new() }
    }
}

impl Migration {
    pub fn new(bucket: &str, region: &str) -> (r: Self)
        ensures
            r.bucket@ == bucket@,
            r.region@ == region@,
    {
        Migration { bucket: bucket.to_owned(), region: region.to_owned() }
    }

    /// The down migrations among `migration_keys`, in listed order.
    pub fn get_down_migrations(&self, migration_keys: &Vec<String>) -> (r: Vec<String>)
        ensures
            r@ == down_keys(migration_keys@),
    {
        select_down(migration_keys)
    }

    /// The up migrations among `migration_keys`, in listed order.
    pub fn get_up_migrations(&self, migration_keys: &Vec<String>) -> (r: Vec<String>)
        ensures
            r@ == up_keys(migration_keys@),
    {
        select_up(migration_keys)
    }

    /// Starts the run that applies the down migrations of this bucket. The
    /// source is consumed: it serves one run.
    pub fn execute_down_migrations(self) -> (r: MigrationRun)
        ensures
            r.wf(),
            r.phase is Listing,
            r.direction == Direction::Down,
            r.bucket == self.bucket,
            r.region == self.region,
    {
        MigrationRun::new(self.bucket, self.region, Direction::Down)
    }

    /// Starts the run that applies the up migrations of this bucket. The
    /// source is consumed: it serves one run.
    pub fn execute_up_migrations(self) -> (r: MigrationRun)
        ensures
            r.wf(),
            r.phase is Listing,
            r.direction == Direction::Up,
            r.bucket == self.bucket,
            r.region == self.region,
    {
        MigrationRun::new(self.bucket, self.region, Direction::Up)
    }
}

} // verus!
