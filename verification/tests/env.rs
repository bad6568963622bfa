use mdbx::env::{
    after_step, open_steps, OPEN_STEPS, Config, EnvStep, MDBX_COALESCE, MDBX_EXCLUSIVE, MDBX_LIFORECLAIM, MDBX_NOMEMINIT,
    MDBX_NOSUBDIR, MDBX_SAFE_NOSYNC,
};
use mdbx::db::kind::{Dup, One};

#[test]
fn default_config() {
    let c = Config::from_path(b"/tmp/x.mdb".to_vec());
    assert_eq!(c.path, b"/tmp/x.mdb".to_vec());
    assert_eq!(c.mode, 0o600);
    assert_eq!(c.sync_period, 65536);
    assert_eq!(c.sync_bytes, 65536);
    assert_eq!(c.max_db, 256);
    assert_eq!(c.pagesize, -1);
    assert_eq!(
        c.flag,
        MDBX_EXCLUSIVE | MDBX_LIFORECLAIM | MDBX_COALESCE | MDBX_NOMEMINIT | MDBX_NOSUBDIR | MDBX_SAFE_NOSYNC
    );
}

#[test]
fn open_order() {
    let c = Config::from_path(b"db".to_vec());
    assert_eq!(
        open_steps(&c),
        vec![
            EnvStep::CreateDirs,
            EnvStep::Create,
            EnvStep::SetMaxDb(256),
            EnvStep::SetGeometry(-1),
            EnvStep::Open(c.flag, 0o600),
            EnvStep::SetSyncBytes(65536),
            EnvStep::SetSyncPeriod(65536),
        ]
    );
}

#[test]
fn kinds_exist() {
    let _ = (Dup(), One());
}

#[test]
fn opening_stops_at_the_first_failure() {
    let c = Config::from_path(b"db".to_vec());
    assert_eq!(after_step(&c, 0, 0), Ok(Some(EnvStep::Create)));
    assert_eq!(after_step(&c, 3, -1), Ok(Some(EnvStep::Open(c.flag, 0o600))));
    assert_eq!(after_step(&c, 4, 13), Err(mdbx::err::Error(13)));
    assert_eq!(after_step(&c, OPEN_STEPS - 1, 0), Ok(None));
}
