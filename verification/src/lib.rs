//! An ordered container of child entity references for a parent-child
//! entity hierarchy.
//!
//! A node's children are held as one mandatory ordered list (`all`) and one
//! optional ordered list (`active`) of entity handles. The active list is an
//! independently managed subset view: when it is present, the default read
//! view of the container is the active list; when it is absent, the default
//! view falls back to the full list.

pub mod children;
pub mod entity;
pub mod laws;
pub mod sorting;
pub mod storage;

pub use children::Children;
pub use entity::Entity;
pub use storage::EntityVec;
