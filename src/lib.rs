//! Governance and access-control engine: a permission registry, a project
//! registry and a poll engine whose accepted polls change permissions.

pub mod build_data;
pub mod canister;
pub mod error;
pub mod permission;
pub mod polls;
pub mod principal;
pub mod projects;
pub mod settings;

pub use build_data::BuildData;
pub use canister::{UpgraderCanisterInitData, UpgraderCanisterState};
pub use error::UpgraderError;
pub use permission::{Permission, PermissionList, Permissions};
pub use polls::{ClosedPoll, PendingPoll, Poll, PollCreateData, PollResult, PollType, Polls};
pub use principal::Principal;
pub use projects::{ProjectData, Projects};
pub use settings::{Settings, SettingsData};
