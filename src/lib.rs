//! Color-scheme management: template rendering, marker splicing and
//! palette generation, with their contracts proved.

pub mod text;
pub mod hexcode;
pub mod scheme;
pub mod render;
pub mod splice;
pub mod generate;
pub mod apply;
pub mod config;
pub mod update;
pub mod names;
