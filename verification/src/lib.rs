//! Telemetry of DJI Osmo Action clips: from the `djmd` track of an MP4 file to
//! CSV, SRT, VBO, GPX, FIT and IGC documents.

pub mod bytes;
pub mod cli;
pub mod dji;
pub mod export;
pub mod gui;
pub mod ieee;
pub mod mp4;
pub mod process;
pub mod protobuf;
pub mod text;
pub mod time;
