//! The decisions of a small image deployment service.
//!
//! A request uploads the tar archive of a container image. The service loads the image into a
//! container engine and replaces every container that runs it. This crate holds what the service
//! computes and decides; the files, the sockets and the HTTP server stand outside it.

pub mod config;
pub mod course;
pub mod deployment;
pub mod engine;
pub mod error;
pub mod json;
pub mod percent;
pub mod replace;
pub mod server;
pub mod status;
pub mod text;
pub mod uri;
