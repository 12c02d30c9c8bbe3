use fork_aware_txpool::api::{block_to_initialize, validation_call, ValidationCall};
use fork_aware_txpool::primitives::Hash256;
use fork_aware_txpool::transaction_validity::ApiError;

#[test]
fn validation_call_by_version() {
    let at = Hash256::repeat_byte(3);
    assert_eq!(validation_call(at, None), Err(ApiError::MissingTransactionQueueApi(at)));
    assert_eq!(validation_call(at, Some(0)), Ok(ValidationCall::BeforeVersion2));
    assert_eq!(validation_call(at, Some(1)), Ok(ValidationCall::BeforeVersion2));
    assert_eq!(validation_call(at, Some(2)), Ok(ValidationCall::BeforeVersion3));
    assert_eq!(validation_call(at, Some(3)), Ok(ValidationCall::Current));
    assert_eq!(validation_call(at, Some(u32::MAX)), Ok(ValidationCall::Current));
}

#[test]
fn older_calls_initialize_the_next_block() {
    assert!(!ValidationCall::Current.initializes_block());
    assert!(ValidationCall::BeforeVersion3.initializes_block());
    assert!(ValidationCall::BeforeVersion2.initializes_block());
    let at = Hash256::repeat_byte(3);
    assert_eq!(block_to_initialize(at, Some(41)), Ok(42));
    assert_eq!(block_to_initialize(at, Some(0)), Ok(1));
    assert_eq!(block_to_initialize(at, None), Err(ApiError::UnknownBlockNumber(at)));
}
