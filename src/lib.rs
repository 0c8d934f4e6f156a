//! A kube config file in two shapes: the wire shape, which mirrors the file,
//! and a shape keyed by name, which the editing logic works on.

pub mod config;
pub mod edit;
pub mod inline;
pub mod lines;
pub mod name_map;
pub mod paths;
pub mod pem;
pub mod wire;

pub use config::{ConfigError, KubeConfig, PrunePlan};
pub use edit::{cluster_listing, kept_names};
pub use inline::InlineError;
pub use name_map::NameMap;
pub use paths::{config_path, kube_dir};
pub use pem::strip_pem;
pub use wire::{
    ApiVersion, Cluster, ClusterSpec, Context, ContextSpec, Kind, User, UserFieldsError, UserSpec,
};
