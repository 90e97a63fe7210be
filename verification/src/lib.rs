//! Core of an image-processing service for diamond-painting workflows.
//!
//! Images are held in an in-memory store, quantized against a reference DMC
//! thread palette, and dithered with a Floyd-Steinberg kernel.  A bounded
//! work dispatcher hands CPU-bound jobs to a pool of workers and collects
//! their results for timed polling.

pub mod color;
pub mod dither;
pub mod dmc;
pub mod errors;
pub mod handlers;
pub mod image;
pub mod processing;
pub mod requests;
pub mod results;
pub mod services;
pub mod settings;
pub mod storage;
pub mod worker;

pub use color::Color;
pub use image::Img;
