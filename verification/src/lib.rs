//! A verified offline-render orchestration pipeline.
//!
//! The library turns a persisted scene description plus runtime parameters
//! (image width, samples per pixel, thread count) into a completed raster
//! image, with staged validation, per-sample failure accounting and progress
//! observation. File and terminal I/O live outside the library; every function
//! here is pure and carries a contract.

pub mod assets;
pub mod cli;
pub mod codec;
pub mod config;
pub mod engine;
pub mod pipeline;
pub mod ppm;
pub mod progress;
pub mod scene;
pub mod text;
