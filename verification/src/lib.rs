//! Verified core of a payload-joint inspection tool.
//!
//! A payload digest is a JSON snapshot describing the joints and components
//! of an engineering assembly.  This crate holds the digest data model, the
//! digest parser, and the selection / camera-framing logic, all verified.
//! Rendering, widget layout and file dialogs are left to the surrounding
//! application.

pub mod geometry;
pub mod model;
pub mod parse;
pub mod serialize;
pub mod session;
