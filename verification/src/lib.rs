//! Verified core of the Backstage desktop catalog: root paths, project
//! discovery decisions, scan coordination, generation envelopes and the
//! Pi assistant protocol checks.

pub mod api;
pub mod app_paths;
pub mod catalog;
pub mod discovery;
pub mod filesystem;
pub mod generation;
pub mod index;
pub mod launcher;
pub mod pi;
pub mod storage;
pub mod text;
