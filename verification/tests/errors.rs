use rust_blockchain::error::error_chain_fmt;
use rust_blockchain::error::BlockchainError;

#[test]
fn each_error_has_its_message() {
    assert_eq!(BlockchainError::BlockInvalid("AB".to_owned()).message(), "block invalid: AB");
    assert_eq!(
        BlockchainError::BlockNotFound("CD".to_owned()).message(),
        "block not found: CD"
    );
    assert_eq!(
        BlockchainError::ChainInvalid(Box::new(BlockchainError::Error("x".to_owned()))).message(),
        "blockchain invalid."
    );
    assert_eq!(BlockchainError::Error("unkown command.".to_owned()).message(), "error: unkown command.");
    assert_eq!(BlockchainError::DatabaseError("duplicate id".to_owned()).message(), "duplicate id");
    assert_eq!(BlockchainError::IoError("broken pipe".to_owned()).message(), "broken pipe");
}

#[test]
fn only_a_chain_error_has_a_source() {
    let inner = BlockchainError::BlockInvalid("AB".to_owned());
    let outer = BlockchainError::chain_invalid(inner);
    assert!(matches!(outer.source(), Some(BlockchainError::BlockInvalid(hash)) if hash == "AB"));
    assert!(BlockchainError::BlockInvalid("AB".to_owned()).source().is_none());
    assert!(BlockchainError::BlockNotFound("AB".to_owned()).source().is_none());
    assert!(BlockchainError::IoError("x".to_owned()).source().is_none());
    assert!(BlockchainError::DatabaseError("x".to_owned()).source().is_none());
    assert!(BlockchainError::other("x").source().is_none());
}

#[test]
fn the_cause_chain_lists_each_wrapped_error() {
    let plain = BlockchainError::BlockNotFound("AB".to_owned());
    assert_eq!(error_chain_fmt(&plain), "block not found: AB\n\n");

    let wrapped = BlockchainError::chain_invalid(BlockchainError::BlockInvalid("AB".to_owned()));
    assert_eq!(
        error_chain_fmt(&wrapped),
        "blockchain invalid.\n\nCaused by:\n\tblock invalid: AB\n"
    );

    let twice = BlockchainError::chain_invalid(BlockchainError::chain_invalid(
        BlockchainError::other("invalid chain length."),
    ));
    assert_eq!(
        error_chain_fmt(&twice),
        "blockchain invalid.\n\nCaused by:\n\tblockchain invalid.\nCaused by:\n\terror: invalid chain length.\n"
    );
}
