//! Startup orchestration: the fixed fail-fast chain that resolves
//! configuration, provisions storage, applies schema migrations, constructs
//! the shared state and produces the client configuration artifact — in that
//! order, stopping at the first failure, so the service never begins serving
//! against an unprovisioned or unmigrated store.
//!
//! The caller binds the listener and serves only on `Ok`; an ingestion run
//! may then be triggered against the returned state as an independent
//! background unit of work whose outcome does not affect serving.

use vstd::prelude::*;
use crate::app_state::AppState;
use crate::catalog::EntryModel;
use crate::config::Config;
use crate::config::ConfigError;
use crate::config::frontend_config_text;
use crate::config::resolve_config;
use crate::config::spec_frontend_config;
use crate::config::spec_valid_port;
use crate::migrations::Ledger;
use crate::migrations::Migration;
use crate::migrations::MigrationError;
use crate::migrations::first_failure_from;
use crate::migrations::ids;
use crate::migrations::run_migrations;
use crate::migrations::strictly_ascending;
use crate::storage::DirSet;
use crate::storage::StorageLayout;
use crate::storage::provision;
use crate::storage::spec_provision;

verus! {

/// Why startup aborted; each variant carries the failing step's own error.
#[derive(Clone, Copy, Debug, PartialEq, Eq, Structural)]
pub enum StartupError {
    Config(ConfigError),
    Migration(MigrationError),
}

/// The raw environment values startup begins from.
pub struct StartupInput {
    pub host: Option<String>,
    pub port: Option<String>,
    pub db_url: Option<String>,
}

impl StartupInput {
    /// Every required value is present and the port is well-formed.
    pub open spec fn resolvable(&self) -> bool {
        &&& self.host is Some
        &&& self.port is Some
        &&& spec_valid_port(self.port->0@)
        &&& self.db_url is Some
    }
}

/// Everything a ready-to-serve process holds: the resolved configuration,
/// the fresh shared state, and the client configuration artifact text.
pub struct ReadyService {
    pub config: Config,
    pub state: AppState,
    pub frontend_artifact: String,
}

/// Runs the startup chain: configuration, storage provisioning, migrations,
/// shared state, client artifact.
///
/// Stops at the first failure: a configuration error leaves filesystem and
/// ledger untouched; a migration failure happens only after storage is fully
/// provisioned and leaves the ledger at the applied prefix. On `Ok` the
/// storage layout is provisioned, every migration is applied, the state is
/// fresh with no active ingestion run, and the artifact holds the resolved
/// base URLs.
pub fn startup(
    input: StartupInput,
    layout: &StorageLayout,
    fs: &mut DirSet,
    ledger: &mut Ledger,
    migrations: &Vec<Migration>,
) -> (r: Result<ReadyService, StartupError>)
    requires
        old(fs).wf(),
        strictly_ascending(migrations@),
        old(ledger).is_prefix_of(migrations@),
    ensures
        final(fs).wf(),
        final(ledger).is_prefix_of(migrations@),
        !input.resolvable() ==> {
            &&& r matches Err(StartupError::Config(_))
            &&& *final(fs) == *old(fs)
            &&& *final(ledger) == *old(ledger)
        },
        input.host is None ==> r == Err::<ReadyService, StartupError>(
            StartupError::Config(ConfigError::MissingHost),
        ),
        input.host is Some && input.port is None ==> r == Err::<ReadyService, StartupError>(
            StartupError::Config(ConfigError::MissingPort),
        ),
        input.host is Some && input.port is Some && !spec_valid_port(input.port->0@) ==> r == Err::<
            ReadyService,
            StartupError,
        >(StartupError::Config(ConfigError::InvalidPort)),
        input.host is Some && input.port is Some && spec_valid_port(input.port->0@)
            && input.db_url is None ==> r == Err::<ReadyService, StartupError>(
            StartupError::Config(ConfigError::MissingDatabaseUrl),
        ),
        input.resolvable() ==> {
            let ff = first_failure_from(migrations@, old(ledger)@.len() as int);
            &&& final(fs)@ == spec_provision(old(fs)@, *layout)
            &&& final(ledger)@ == ids(migrations@).subrange(0, ff)
            &&& (ff < migrations@.len() ==> r == Err::<ReadyService, StartupError>(
                StartupError::Migration(MigrationError { failed_id: migrations@[ff].id }),
            ))
            &&& (ff == migrations@.len() ==> {
                &&& r is Ok
                &&& final(ledger)@ == ids(migrations@)
                &&& r->Ok_0.config.host == input.host->0
                &&& r->Ok_0.config.port_text == input.port->0
                &&& r->Ok_0.config.wf()
                &&& r->Ok_0.state.wf()
                &&& !r->Ok_0.state.spec_ingestion_active()
                &&& r->Ok_0.state.catalog@ == Seq::<EntryModel>::empty()
                &&& r->Ok_0.frontend_artifact@ == spec_frontend_config(
                    input.host->0@,
                    input.port->0@,
                )
            })
        },
{
    let config = match resolve_config(input.host, input.port, input.db_url) {
        Ok(c) => c,
        Err(e) => {
            return Err(StartupError::Config(e));
        },
    };
    let _created = provision(fs, layout);
    match run_migrations(ledger, migrations) {
        Ok(_) => {},
        Err(e) => {
            return Err(StartupError::Migration(e));
        },
    };
    let frontend_artifact = frontend_config_text(&config);
    let state = AppState::new();
    proof {
        assert(ids(migrations@).subrange(0, migrations@.len() as int) =~= ids(migrations@));
    }
    Ok(ReadyService { config, state, frontend_artifact })
}

} // verus!
