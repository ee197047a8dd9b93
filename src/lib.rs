//! Ambient lighting for a display: the colours along the border of a video
//! frame are averaged into the colours of an addressable LED strip that runs
//! around the screen.

use vstd::prelude::*;

pub mod cli;
pub mod lightstrip;
pub mod region;
pub mod sampler;
pub mod settings;
pub mod translation_engine;
