//! A search provider service for recently opened editor workspaces.
//!
//! The library parses an editor's persisted workspace-history document,
//! extracts workspace URLs, turns them into identified search items, holds
//! the static table of known editor variants, and models the service
//! runtime as an explicit state machine. File and bus I/O live outside the
//! library.

mod ext;
pub mod items;
pub mod json;
pub mod registry;
pub mod service;
pub mod storage;

pub use items::IdMap;
pub use items::RecentItem;
pub use items::VscodeWorkspacesSource;
pub use items::item_id;
pub use items::item_name;
pub use registry::ProviderDefinition;
pub use registry::providers;
pub use service::ActivatedProvider;
pub use service::ServiceAction;
pub use service::ServiceEvent;
pub use service::ServiceState;
pub use service::plan_activations;
pub use service::step;

pub use json::JsonSpec;
pub use json::JsonValue;

pub use storage::Storage;
pub use storage::OpenedPathsList;
pub use storage::OpenedPathsListEntry;
pub use storage::ParseError;
