pub mod types;
pub mod paths;
pub mod resolve;
pub mod rootset;
pub mod fstree;
pub mod index;
pub mod correlate;
pub mod reconcile;
pub mod registry;
