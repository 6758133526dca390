//! Concurrent command dashboard core: bounded output buffers, smartcase text
//! search with cyclic navigation, search highlight mapping, per-tab state, and
//! the decisions of the process supervisor.

pub mod app;
pub mod buffer;
pub mod highlight;
pub mod search;
pub mod styled;
pub mod tab;
pub mod tab_manager;
pub mod text;
