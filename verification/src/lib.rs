//! Verified core of a screenshot tool: screen geometry, pixel frames, redaction
//! filters, the colour-picker magnifier, long-screenshot stitching, annotation
//! history, and the small text protocols used by hotkeys and the instance pipe.

pub mod arith;
pub mod text;
pub mod error;
pub mod coordinates;
pub mod color;
pub mod frame;
pub mod filter;
pub mod magnifier;
pub mod stitcher;
pub mod session;
pub mod encode;
pub mod controller;
pub mod pins;
pub mod events;
pub mod capture;
pub mod ai;
pub mod hotkey;
pub mod ipc;
pub mod credential;
pub mod config;
pub mod annotation;
pub mod tray;
