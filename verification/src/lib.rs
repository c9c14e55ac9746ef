//! Installing the French vACC vATIS profiles.
//!
//! vATIS refreshes the *content* of a profile on its own, but its updater preserves the
//! identity of what it updates, and the profile's file is named after its id. When every
//! id was reissued upstream on 2026-09-04, no amount of waiting could bring a controller
//! onto the new ones. That one-time migration is what this library decides; afterwards
//! vATIS's own updater takes over again and there is nothing left to do.
//!
//! Nothing here touches a file, a network or a process. What is found on a machine comes
//! in as values, and what is to be done goes out as values:
//!
//! - [`paths`]: where vATIS keeps its data, and where its client may be installed;
//! - [`release`] and [`archive`]: which file of a release holds the profiles, and the
//!   profiles in it;
//! - [`store`]: which files of the profile store are read, and what they hold;
//! - [`plan`]: what each region needs;
//! - [`apply`]: the plan carried out, one action at a time;
//! - [`status`] and [`client`]: what the user is shown, and where the client comes from;
//! - [`location`] and [`native`]: places in the file system, and their paths as a platform
//!   writes and reads them.
//!
//! [`progress`] and [`migration`] hold the statements about whole runs: what follows from
//! each answer, what becomes of the files, that nothing is lost, when a run ends, and when a
//! second one finds nothing to do.
//!
//! [`laws`], [`plan_laws`], [`run_laws`], [`path_laws`], [`native_laws`] and [`value_laws`] say
//! what the models come to, in the few words of [`plain`]; [`api_laws`] says it of the functions
//! themselves.

pub mod api_laws;
pub mod apply;
pub mod archive;
pub mod client;
pub mod fir;
pub mod laws;
pub mod location;
pub mod migration;
pub mod native;
pub mod native_laws;
pub mod path_laws;
pub mod paths;
pub mod plain;
pub mod plan;
pub mod plan_laws;
pub mod profile;
pub mod progress;
pub mod release;
pub mod run_laws;
pub mod status;
pub mod store;
pub mod text;
pub mod value_laws;
pub mod views;
pub mod warning;

pub use crate::apply::{apply, VatisSummary};
pub use crate::paths::{
    app_data_dir, backup_dir, detect_client, profile_path, profiles_dir, Platform, APP_ID,
};
pub use crate::plan::{plan, CanonicalProfile, ProfileOp, StoredProfile, VatisPlan};
pub use crate::profile::{ProfileHeader, ID_REISSUE_SERIAL};
pub use crate::store::read_store;
