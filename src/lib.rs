//! Temporal continuity for sequence encoders: a bounded memory bank of pooled
//! representations with importance-ranked eviction, similarity retrieval and
//! compression; the distance cutoff of temporal attention; attention masks;
//! and the small building blocks of the encoder stack.
//!
//! Real-valued quantities (importance, similarity) enter the library as order
//! keys: unsigned integers that order as the values they stand for. The
//! arithmetic on them (decay, access boost, weighted averages) is supplied by
//! the caller as closures, and the library decides everything else.
use vstd::prelude::*;

pub mod layers;
pub mod mask;
pub mod memory_bank;
pub mod temporal_attention;
pub mod temporal_encoder;

pub use layers::{
    ActivationType, GELU, ReLU, ResidualConnection, SequenceTooLong, SinusoidalPositionalEncoding,
};
pub use mask::{combine_masks, create_causal_mask, create_padding_mask, BoolMatrix, MaskShapeMismatch};
pub use memory_bank::{rank_by_similarity, lowest_importance, MemoryBank, MemoryConfig, MemoryEntry};
pub use temporal_attention::{synthetic_distances, TemporalAttention, TemporalError};
pub use temporal_encoder::{TemporalEncoder, CONTEXT_WINDOW, RECALL_COUNT};

verus! {

} // verus!
