//! Release-channel and version logic of the Strata self-updater: reading
//! release tags, ordering versions, persisting the update channel, and
//! deciding whether a published release is an update.
use vstd::prelude::*;

pub mod text;
pub mod release_channel;
pub mod version_laws;
pub mod update_check;

pub use release_channel::{BuildKind, Channel, Prerelease, Version};
pub use update_check::{
    archive_name, evaluate_release, is_newer, parse_version, ReleaseAsset, ReleaseResponse,
    UpdateCheck,
};

verus! {

} // verus!
