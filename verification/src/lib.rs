//! Sync v1 and v2 Zitadel actions defined in a declarative way.
//!
//! The definitions are v1 actions and flows ([`Actions`], [`Flows`]) and v2
//! targets and executions ([`v2::Targets`], [`v2::Executions`]). A sync
//! compares them with what Zitadel reports and creates, updates and deletes
//! what differs. The decisions are made here ([`sync_v1::SyncV1`],
//! [`create_only::CreateOnlyV1`], [`v2::SyncV2`]); the calls to Zitadel are
//! made by whoever holds a connection to it, in the order these decisions
//! give.
pub mod auth;
pub mod create_only;
pub mod laws;
pub mod loading;
pub mod name_map;
pub mod orgs;
pub mod plan;
pub mod remote;
pub mod sync_v1;
pub mod text;
pub mod v2;
pub mod zitadel;

pub use loading::{complete_actions, scripts_to_load, Actions, Flows, LoadActionsV1Error};
pub use name_map::NameMap;
pub use zitadel::{Action, LoadedScript, OptionallyLoadedScript};
