//! Environment settings and the order in which opening an environment
//! applies them.
use vstd::prelude::*;
use crate::err::{err, is_ok_code, Error};

verus! {

/// Open the environment exclusively.
pub const MDBX_EXCLUSIVE: u32 = 0x40_0000;

/// Reclaim freed pages last-in first-out.
pub const MDBX_LIFORECLAIM: u32 = 0x400_0000;

/// Coalesce freed pages.
pub const MDBX_COALESCE: u32 = 0x200_0000;

/// Do not zero newly allocated pages.
pub const MDBX_NOMEMINIT: u32 = 0x100_0000;

/// The path names the data file itself, not a directory.
pub const MDBX_NOSUBDIR: u32 = 0x4000;

/// Do not sync on commit; keep the database consistent on a crash.
pub const MDBX_SAFE_NOSYNC: u32 = 0x1_0000;

/// How an environment is opened.
#[derive(Clone, Debug)]
pub struct Config {
    pub path: Vec<u8>,
    pub mode: u32,
    pub flag: u32,
    pub sync_period: u64,
    pub sync_bytes: u64,
    pub max_db: u64,
    pub pagesize: isize,
}

/// The flags an environment is opened with by default.
pub open spec fn default_flags() -> u32 {
    MDBX_EXCLUSIVE | MDBX_LIFORECLAIM | MDBX_COALESCE | MDBX_NOMEMINIT | MDBX_NOSUBDIR
        | MDBX_SAFE_NOSYNC
}

impl Config {
    /// The default settings for the data file at `path`: file mode 0o600,
    /// background sync every 65536/65536 s or 65536 bytes, at most 256
    /// sub-databases, libmdbx's default page size, and the default flags.
    pub fn from_path(path: Vec<u8>) -> (r: Config)
        ensures
            r.path@ == path@,
            r.mode == 0o600,
            r.flag == default_flags(),
            r.sync_period == 65536,
            r.sync_bytes == 65536,
            r.max_db == 256,
            r.pagesize == -1,
    {
        Config {
            path,
            mode: 0o600,
            flag: MDBX_EXCLUSIVE | MDBX_LIFORECLAIM | MDBX_COALESCE | MDBX_NOMEMINIT
                | MDBX_NOSUBDIR | MDBX_SAFE_NOSYNC,
            sync_period: 65536,
            sync_bytes: 65536,
            max_db: 256,
            pagesize: -1,
        }
    }
}

/// One step of opening an environment.
#[derive(Clone, Copy, Debug, PartialEq, Eq, Structural)]
pub enum EnvStep {
    /// Create the directories that hold the data file.
    CreateDirs,
    /// Create the environment handle.
    Create,
    /// Set the largest number of sub-databases.
    SetMaxDb(u64),
    /// Set the page size, leaving the other geometry to libmdbx.
    SetGeometry(isize),
    /// Open the data file with these flags and file mode.
    Open(u32, u32),
    /// Set how many unsynced bytes trigger a sync.
    SetSyncBytes(u64),
    /// Set the period of background syncs, in 1/65536 s.
    SetSyncPeriod(u64),
}

/// The steps of opening an environment, in order; the first that fails ends it.
pub open spec fn open_steps_spec(c: Config) -> Seq<EnvStep> {
    seq![
        EnvStep::CreateDirs,
        EnvStep::Create,
        EnvStep::SetMaxDb(c.max_db),
        EnvStep::SetGeometry(c.pagesize),
        EnvStep::Open(c.flag, c.mode),
        EnvStep::SetSyncBytes(c.sync_bytes),
        EnvStep::SetSyncPeriod(c.sync_period),
    ]
}

/// The steps of opening an environment with these settings, in order: the
/// directories, the handle, the sub-database limit and page size (which
/// must be set before opening), the file, then the sync thresholds.
pub fn open_steps(c: &Config) -> (r: Vec<EnvStep>)
    ensures
        r@ == open_steps_spec(*c),
{
    let r = vec![
        EnvStep::CreateDirs,
        EnvStep::Create,
        EnvStep::SetMaxDb(c.max_db),
        EnvStep::SetGeometry(c.pagesize),
        EnvStep::Open(c.flag, c.mode),
        EnvStep::SetSyncBytes(c.sync_bytes),
        EnvStep::SetSyncPeriod(c.sync_period),
    ];
    assert(r@ =~= open_steps_spec(*c));
    r
}

/// The number of steps in opening an environment.
pub const OPEN_STEPS: usize = 7;

/// What follows step `i` of opening an environment once it ended with result
/// code `code`: an error carrying the code when it is neither success nor
/// "true" (the opening stops there), otherwise the next step, or nothing when
/// that was the last one and the environment is open.
pub fn after_step(c: &Config, i: usize, code: i32) -> (r: Result<Option<EnvStep>, Error>)
    requires
        i < OPEN_STEPS,
    ensures
        !is_ok_code(code) ==> r == Err::<Option<EnvStep>, Error>(Error(code)),
        is_ok_code(code) && i + 1 < OPEN_STEPS ==> r == Ok::<Option<EnvStep>, Error>(
            Some(open_steps_spec(*c)[i + 1]),
        ),
        is_ok_code(code) && i + 1 == OPEN_STEPS ==> r == Ok::<Option<EnvStep>, Error>(None),
{
    match err(code) {
        Err(e) => Err(e),
        Ok(()) => {
            if i + 1 < OPEN_STEPS {
                let steps = open_steps(c);
                Ok(Some(steps[i + 1]))
            } else {
                Ok(None)
            }
        },
    }
}

} // verus!
