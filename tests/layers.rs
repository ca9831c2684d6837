use rust_transformer::{ActivationType, SequenceTooLong, SinusoidalPositionalEncoding};

#[test]
fn positional_encoding_limits_sequence_length() {
    let pe = SinusoidalPositionalEncoding::new(128);
    assert_eq!(pe.max_seq_len, 128);
    assert_eq!(pe.check_sequence_len(128), Ok(()));
    assert_eq!(pe.check_sequence_len(0), Ok(()));
    assert_eq!(pe.check_sequence_len(129), Err(SequenceTooLong { seq_len: 129, max_seq_len: 128 }));
}

#[test]
fn activation_kinds_are_distinct() {
    assert_ne!(ActivationType::ReLU, ActivationType::GELU);
}
