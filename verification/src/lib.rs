//! A verified codec and workflow core for exchanging the wallpaper image
//! embedded in Android theme documents.

pub mod classifier;
pub mod codec;
pub mod document;
pub mod localization;
pub mod orchestrator;
pub mod recode;
pub mod value;
