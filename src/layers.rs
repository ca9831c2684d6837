use vstd::prelude::*;

verus! {

/// The nonlinearity used inside a feed-forward block.
#[derive(Clone, Copy, Debug, PartialEq, Eq, Structural)]
pub enum ActivationType {
    ReLU,
    GELU,
}

/// Rectified linear unit.
#[derive(Clone, Copy, Debug)]
pub struct ReLU;

/// Gaussian error linear unit (tanh approximation).
#[derive(Clone, Copy, Debug)]
pub struct GELU;

/// Residual wrapper: a sublayer's output is added to its input and normalized.
#[derive(Clone, Copy, Debug)]
pub struct ResidualConnection;

/// Fixed sine/cosine positional encoding for sequences up to `max_seq_len`.
#[derive(Clone, Copy, Debug, PartialEq, Eq, Structural)]
pub struct SinusoidalPositionalEncoding {
    pub max_seq_len: usize,
}

/// A sequence longer than the positional encoding was built for.
#[derive(Clone, Copy, Debug, PartialEq, Eq, Structural)]
pub struct SequenceTooLong {
    pub seq_len: usize,
    pub max_seq_len: usize,
}

impl SinusoidalPositionalEncoding {
    pub fn new(max_seq_len: usize) -> (r: Self)
        ensures
            r.max_seq_len == max_seq_len,
    {
        SinusoidalPositionalEncoding { max_seq_len }
    }

    /// Whether a sequence of `seq_len` positions can be encoded: it may not be
    /// longer than the maximum the encoding was built for.
    pub fn check_sequence_len(&self, seq_len: usize) -> (r: Result<(), SequenceTooLong>)
        ensures
            r is Ok <==> seq_len <= self.max_seq_len,
            r matches Err(e) ==> e.seq_len == seq_len && e.max_seq_len == self.max_seq_len,
    {
        if seq_len > self.max_seq_len {
            Err(SequenceTooLong { seq_len, max_seq_len: self.max_seq_len })
        } else {
            Ok(())
        }
    }
}

} // verus!
