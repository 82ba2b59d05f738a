//! Runtime logic for the Coral Edge TPU USB accelerator.

pub mod bench;
pub mod bytes;
pub mod chip;
pub mod cli;
pub mod listing;
pub mod loader;
pub mod model;
pub mod parser;
pub mod patch;
pub mod runner;
pub mod summary;
pub mod text;
pub mod usb;

pub use parser::{
    parse_instructions, DmaKind, Instruction, ModelParams, OutputSkeleton, ParseError, Program,
    Register,
};
