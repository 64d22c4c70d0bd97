//! Verified building blocks of a JPEG XL decoder.
use vstd::prelude::*;

pub mod error;
pub mod bitreader;
pub mod predictors;
pub mod matree;
pub mod modular;
pub mod modular_fdis;
pub mod transform;
pub mod pass_group_hf;
pub mod non_zeros_grid;
pub mod per_channel_non_zeros;
pub mod per_pass_non_zeros;
pub mod multi_pass_hf_header;
pub mod multi_pass_hf_histogram_decoder;
pub mod pass_group;
pub mod metadata;
pub mod metadata_fdis;
pub mod image_metadata;
pub mod patches;
pub mod noise;
pub mod residual_plane;
pub mod orientation;

verus! {
} // verus!
