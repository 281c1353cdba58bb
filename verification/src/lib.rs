//! Browsing the symbol structure of a workspace from the per-package metadata
//! documents that its documentation tool exports.

pub mod analysis;
pub mod analysis_driver;
pub mod browser_rustdoc;
pub mod browser_trait;
pub mod labels;
pub mod loader;
pub mod model;
pub mod order;
pub mod scroll_pad;
pub mod text;
pub mod walk;
