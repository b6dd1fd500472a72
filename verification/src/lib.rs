//! Directory-tree exploration core: record sorting, aggregation into a printable
//! tree, interactive navigation state and change debouncing, all on plain values.

pub mod aggregate;
pub mod ancestry;
pub mod config;
pub mod dir;
pub mod export;
pub mod format;
pub mod hierarchy;
pub mod icons;
pub mod order;
pub mod permute;
pub mod plugins;
pub mod prune;
pub mod record;
pub mod render;
pub mod sort;
pub mod soundness;
pub mod text;
pub mod tree;
pub mod tui;
pub mod view;
pub mod visibility;
pub mod watch;
