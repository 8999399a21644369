//! Lovshot's capture engine.
//!
//! The heart of the library is the scroll capture: while the user scrolls a
//! long page, frames of one screen region are captured, the vertical offset
//! between consecutive frames is measured, and the frames are stitched into
//! one tall image.
//!
//! - [`raster`]: RGBA rasters, their rows and windows.
//! - [`detector`]: the vertical offset between two frames.
//! - [`stitcher`]: a frame joined to the composed image.
//! - [`finisher`]: the crop before export.
//! - [`preview`]: the lightweight picture of the composed image.
//! - [`session`]: the state of one capture and its transitions.
//! - [`trigger`]: wheel events turned into requests for capture cycles.
//!
//! Around it stand the rules of the application that need no window system:
//! [`config`] for the shortcuts of each action, [`shortcuts`] for what
//! switches them off and what a pressed shortcut leads to, [`capture`] for
//! the picture of the whole screen, [`share_compose`] for the layout of a
//! picture with its caption, [`titlebar`] and [`windows`] for windows, and
//! [`types`] and [`error`] for what crosses the boundary. The functions of
//! other crates that the library calls are gathered in [`codec`].
//!
//! Apart from those, every function is verified against its contract.
//! Contracts speak of
//! mathematical models: a raster is its width, its height and its
//! sequence of bytes; a session is its sequences of frames and offsets.

pub mod capture;
pub mod codec;
pub mod config;
pub mod detector;
pub mod error;
pub mod finisher;
pub mod preview;
pub mod raster;
pub mod session;
pub mod share_compose;
pub mod shortcuts;
pub mod stitcher;
pub mod titlebar;
pub mod trigger;
pub mod types;
pub mod windows;
