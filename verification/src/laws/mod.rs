//! What holds of the library as a whole, told in terms of what goes in and what comes out.

pub mod artifact;
pub mod files;
pub mod installshield;
pub mod lookup;
pub mod markdown;
pub mod merge;
pub mod names;
pub mod overlay;
pub mod position;
pub mod refusals;
pub mod sources;
pub mod text;
pub mod token;
pub mod update;
pub mod views;
pub mod yaml;
