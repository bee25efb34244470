//! The logic of rayshot, a screenshot tool: frames, annotations, the overlay's
//! selection and drawing rules, exported files and desktop settings.

pub mod anim;
pub mod bytes;
pub mod capture;
pub mod cli;
pub mod color;
pub mod export;
pub mod geometry;
pub mod hotkey;
pub mod overlay;
pub mod overlay_laws;
pub mod paths;
pub mod pixelate;
pub mod scene;
pub mod screencast;
pub mod text;
