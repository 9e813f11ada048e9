//! Window arrangement engine: classifies application windows, resolves a
//! target monitor, computes tiling geometry for a chosen layout preset,
//! tracks per-application usage, and plans the final window-to-slot
//! assignment.
//!
//! All decision logic lives here and is verified; operating-system calls
//! (window enumeration, positioning, persistence, clocks) are performed by
//! the surrounding application, which feeds their results in as plain values.

pub mod activity;
pub mod arrange;
pub mod config;
pub mod layout;
pub mod monitor;
pub mod text;
pub mod version;
pub mod windows;
