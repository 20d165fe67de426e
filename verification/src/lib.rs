//! Planning and reporting for a command-line video converter that drives an
//! external encoder with settings suited to mobile chat clients.
//!
//! The library decides and computes; it does no input or output of its own.
//! [`workflow`] lays down the course of a conversion as a sequence of
//! requests to the program around it, [`path`] derives the output path,
//! [`command`] assembles the encoder's parameter list, [`report`] and
//! [`error`] write what the user is told, and [`text`] and [`binary64`] hold
//! the number formatting beneath them.

pub mod binary64;
pub mod command;
pub mod config;
pub mod error;
pub mod path;
pub mod report;
pub mod text;
pub mod workflow;

pub use crate::command::build_encoder_args;
pub use crate::config::Config;
pub use crate::error::ConvertError;
pub use crate::path::{generate_output_path, has_file_name};
pub use crate::report::{format_bytes, format_ratio, Elapsed};
pub use crate::workflow::{advance, request, try_advance, Event, Request, Stage};
