//! Host-side scheduling of GPU compute work over named data buffers.
//!
//! A caller describes a computation as a [`algorithm::Function`]: a shader, an entry
//! point inside it, and an ordered list of variables attached to bind slots. The
//! [`algorithm::Algorithm`] decides which variables are already resident on the
//! device, which shader entry points are already known, how many workgroups a
//! dispatch needs, and in which order the device has to see the resulting steps.
//!
//! The crate holds the bookkeeping only. It never touches a device: what it
//! produces is a sequence of plain values that a backend carries out.

pub mod algorithm;
pub mod cache;
pub mod coding;
pub mod errors;
pub mod interface;
pub mod solver;
pub mod store;
pub mod tape;
pub mod variable;
