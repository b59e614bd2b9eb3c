//! Reading and writing ZX Spectrum TR-DOS (`.trd`) and Sinclair (`.scl`) disk
//! images and the `.hobeta` single-file container; decoding ZX screen dumps;
//! and the logic of the tools built on them: the command line tool, the
//! archive plugin and the screen viewer.
//!
//! Everything works on byte buffers and text: reading and writing files, and
//! the native windows of the viewer, are left to the programs around it.
use vstd::prelude::*;

pub mod bytes;
pub mod cli;
pub mod entry;
pub mod error;
pub mod hobeta;
pub mod image;
pub mod paths;
pub mod plugin;
pub mod scl;
pub mod scl_laws;
pub mod screen;
pub mod screen_laws;
pub mod settings;
pub mod settings_laws;
pub mod text;
pub mod trd;
pub mod trd_laws;
pub mod viewer;

pub use entry::{ExtMode, TrFile};
pub use error::Error;
pub use image::{Format, Image};
pub use scl::SclArchive;
pub use screen::{RenderOpts, Screen, ScreenFormat};
pub use trd::{DiskType, TrdImage};

verus! {

} // verus!
