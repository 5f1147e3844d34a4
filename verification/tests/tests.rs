use blockchain_simulation::storage::Storage;
use blockchain_simulation::{Blockchain, LedgerError, Transaction};
use std::time::Duration;

fn create_clean_blockchain() -> Blockchain {
    let mut blockchain = Blockchain::new(Duration::from_secs(1));
    blockchain.is_active = true; // Make sure the blockchain is active
    blockchain
}

#[test]
fn test_blockchain_simulation() {
    let commands = vec![
        "b create-account alice 1000",
        "b create-account bob 500",
        "b transfer alice bob 200",
        "b balance alice",
        "b start-node",
    ]
    .iter()
    .map(|&cmd| cmd.to_string())
    .collect::<Vec<String>>();
    let mut blockchain = create_clean_blockchain();

    let output = blockchain.start_with_mocks(&commands);
    assert_eq!(output.len(), commands.len());
}

#[test]
fn test_create_account() {
    let mut blockchain = create_clean_blockchain();

    let account_name = "test_account";
    let initial_balance = 1000u64;

    blockchain
        .create_account(account_name, initial_balance)
        .unwrap();

    // Verify the transaction is in pending_transactions
    assert!(blockchain.pending_transactions.iter().any(|tx| match tx {
        Transaction::CreateAccount { id, balance } =>
            id == account_name && *balance == initial_balance,
        _ => false,
    }));

    // Process transactions through mining to reflect in storage
    blockchain.mine_block();

    // Check that the account is created in storage
    assert_eq!(blockchain.storage.get(account_name), Some(initial_balance));
}

#[test]
fn test_transfer_funds() {
    let mut blockchain = create_clean_blockchain();

    // Create accounts with initial balances
    assert!(blockchain.create_account("alice", 1000).is_ok());
    assert!(blockchain.create_account("bob", 500).is_ok());

    // Mine a block to process account creation transactions
    blockchain.mine_block();

    // Ensure the initial balances are set correctly
    assert_eq!(blockchain.balance("alice").unwrap(), 1000);
    assert_eq!(blockchain.balance("bob").unwrap(), 500);

    // Perform the transfer
    assert!(blockchain.transfer("alice", "bob", 200).is_ok());

    // Mine another block to process the transfer transaction
    blockchain.mine_block();

    // Check the balances after the transfer
    assert_eq!(
        blockchain.balance("alice").unwrap(),
        800,
        "Alice's balance should be 800 after the transfer"
    );
    assert_eq!(
        blockchain.balance("bob").unwrap(),
        700,
        "Bob's balance should be 700 after the transfer"
    );
}

#[test]
fn test_transfer_insufficient_funds() {
    let mut blockchain = create_clean_blockchain();

    blockchain.create_account("alice", 300).unwrap();

    // Process the creation transaction
    blockchain.mine_block();

    let result = blockchain.transfer("alice", "bob", 500);
    assert!(
        result.is_err(),
        "Transfer should fail due to insufficient funds"
    );

    assert_eq!(
        blockchain.storage.get("alice"),
        Some(300),
        "Alice's balance should remain unchanged"
    );
}

#[test]
fn test_account_not_found() {
    let blockchain = create_clean_blockchain();

    let result = blockchain.balance("nonexistent");
    assert!(
        result.is_err(),
        "Querying a nonexistent account should result in an error"
    );
}

#[test]
fn test_list_accounts() {
    let mut blockchain = create_clean_blockchain();
    blockchain.create_account("alice", 1000).unwrap();
    blockchain.create_account("bob", 500).unwrap();

    // Process the creation transactions
    blockchain.mine_block();

    let accounts_list = blockchain.list_accounts();
    assert!(
        accounts_list.contains("Account ID: alice, Balance: 1000"),
        "Alice should be listed with a balance of 1000"
    );
    assert!(
        accounts_list.contains("Account ID: bob, Balance: 500"),
        "Bob should be listed with a balance of 500"
    );
}

#[test]
fn test_process_command_create_account() {
    let mut blockchain = create_clean_blockchain();

    let result = blockchain.process_command("create-account charlie 1500");
    assert!(result.is_ok(), "Creating an account should succeed");

    // Process the creation transaction
    blockchain.mine_block();

    assert_eq!(
        blockchain.storage.get("charlie"),
        Some(1500),
        "Charlie's account should be created with a balance of 1500"
    );
}

#[test]
fn test_process_command_balance() {
    let mut blockchain = create_clean_blockchain();

    // Create an account and process its creation to update the storage
    let account_name = "alice";
    let initial_balance = 1000u64;
    blockchain
        .create_account(account_name, initial_balance)
        .unwrap();
    blockchain.mine_block(); // Simulate mining to process transactions

    // Test the balance command
    let result = blockchain.process_command(&format!("balance {}", account_name));
    assert!(result.is_ok(), "Balance command should succeed");
    assert_eq!(
        result.unwrap(),
        format!("Balance of '{}': {}", account_name, initial_balance),
        "Balance should be correctly retrieved"
    );
}

#[test]
fn test_process_command_transfer() {
    let mut blockchain = create_clean_blockchain();

    blockchain.create_account("alice", 1000).unwrap();
    blockchain.create_account("bob", 500).unwrap();
    blockchain.mine_block(); // Mine to process account creations

    blockchain
        .process_command("transfer alice bob 200")
        .unwrap();
    blockchain.mine_block(); // Mine to process the transfer

    assert_eq!(
        blockchain.storage.get("alice"),
        Some(800),
        "Alice's balance should be 800 after transfer"
    );
    assert_eq!(
        blockchain.storage.get("bob"),
        Some(700),
        "Bob's balance should be 700 after transfer"
    );
}

#[test]
fn test_blockchain_operation() {
    let mut blockchain = create_clean_blockchain();
    blockchain.stop_node();
    // Verify that the blockchain node is inactive initially
    assert!(!blockchain.is_active, "Node should initially be inactive");

    // Start the blockchain node
    blockchain.is_active = true;
    assert!(blockchain.is_active, "Node should be active after starting");

    // Create accounts
    blockchain.create_account("alice", 1000).unwrap();
    blockchain.create_account("bob", 500).unwrap();

    // Transactions should be pending, not yet affecting the storage
    assert!(
        blockchain.storage.get("alice").is_none(),
        "Alice's account should not exist until transactions are mined"
    );
    assert!(
        blockchain.storage.get("bob").is_none(),
        "Bob's account should not exist until transactions are mined"
    );

    // Mine a block to process pending transactions
    blockchain.mine_block();

    // Now the accounts should be in storage with the correct balances
    assert_eq!(
        blockchain.storage.get("alice"),
        Some(1000),
        "Alice's account should exist with correct balance after mining"
    );
    assert_eq!(
        blockchain.storage.get("bob"),
        Some(500),
        "Bob's account should exist with correct balance after mining"
    );
}

#[test]
fn test_transfer_conserves_total_supply() {
    let mut blockchain = create_clean_blockchain();
    blockchain.create_account("alice", 1000).unwrap();
    blockchain.create_account("bob", 500).unwrap();
    blockchain.mine_block();

    blockchain.transfer("alice", "bob", 200).unwrap();
    blockchain.mine_block();

    let alice = blockchain.balance("alice").unwrap();
    let bob = blockchain.balance("bob").unwrap();
    assert_eq!(alice, 800);
    assert_eq!(bob, 700);
    assert_eq!(alice + bob, 1500, "a transfer must not change the total supply");
}

#[test]
fn test_failed_transfer_leaves_destination_absent() {
    let mut blockchain = create_clean_blockchain();
    blockchain.create_account("alice", 300).unwrap();
    blockchain.mine_block();

    let result = blockchain.transfer("alice", "bob", 500);
    assert_eq!(result, Err(LedgerError::InsufficientFunds));
    assert_eq!(blockchain.balance("alice").unwrap(), 300);
    assert!(
        blockchain.storage.get("bob").is_none(),
        "a failed transfer must not create the destination account"
    );
}

#[test]
fn test_create_existing_account_fails() {
    let mut blockchain = create_clean_blockchain();
    blockchain.create_account("alice", 1000).unwrap();
    blockchain.mine_block();

    let result = blockchain.create_account("alice", 5);
    assert_eq!(result, Err(LedgerError::AlreadyExists));
    assert_eq!(blockchain.balance("alice").unwrap(), 1000);
}

#[test]
fn test_create_pending_duplicate_fails() {
    let mut blockchain = create_clean_blockchain();
    blockchain.create_account("alice", 1000).unwrap();

    // The first creation is still pending, but already claims the name.
    let result = blockchain.create_account("alice", 5);
    assert_eq!(result, Err(LedgerError::AlreadyExists));
}

#[test]
fn test_create_account_inactive_node_fails() {
    let mut blockchain = create_clean_blockchain();
    blockchain.stop_node();
    let result = blockchain.create_account("alice", 1000);
    assert_eq!(result, Err(LedgerError::NotRunning));
}

#[test]
fn test_transfer_from_missing_account_fails() {
    let mut blockchain = create_clean_blockchain();
    let result = blockchain.transfer("ghost", "bob", 1);
    assert_eq!(result, Err(LedgerError::NotFound));
}

#[test]
fn test_transfer_overflowing_credit_fails() {
    let mut blockchain = create_clean_blockchain();
    blockchain.create_account("alice", u64::MAX).unwrap();
    blockchain.create_account("bob", 1).unwrap();
    blockchain.mine_block();

    let result = blockchain.transfer("alice", "bob", u64::MAX);
    assert_eq!(result, Err(LedgerError::BalanceOverflow));
    assert_eq!(blockchain.balance("alice").unwrap(), u64::MAX);
    assert_eq!(blockchain.balance("bob").unwrap(), 1);
}

#[test]
fn test_transfer_to_self_keeps_balance() {
    let mut blockchain = create_clean_blockchain();
    blockchain.create_account("alice", 100).unwrap();
    blockchain.mine_block();

    assert!(blockchain.transfer("alice", "alice", 40).is_ok());
    blockchain.mine_block();

    assert_eq!(blockchain.balance("alice").unwrap(), 100);
}

#[test]
fn test_transfer_validated_against_pending_creation() {
    let mut blockchain = create_clean_blockchain();
    blockchain.create_account("alice", 100).unwrap();

    // Alice only exists in the pending pool, but transfers are validated
    // against the balances as they will stand once the pool commits.
    assert!(blockchain.transfer("alice", "bob", 50).is_ok());
    blockchain.mine_block();

    assert_eq!(blockchain.balance("alice").unwrap(), 50);
    assert_eq!(blockchain.balance("bob").unwrap(), 50);
}

#[test]
fn test_mine_block_drains_pool_and_extends_chain() {
    let mut blockchain = create_clean_blockchain();
    blockchain.create_account("alice", 1000).unwrap();
    blockchain.create_account("bob", 500).unwrap();
    assert_eq!(blockchain.pending_transactions.len(), 2);
    let chain_len = blockchain.chain.len();

    blockchain.mine_block();

    assert_eq!(blockchain.pending_transactions.len(), 0);
    assert_eq!(blockchain.chain.len(), chain_len + 1);
}

#[test]
fn test_mine_block_empty_pool_leaves_chain_unchanged() {
    let mut blockchain = create_clean_blockchain();
    let chain_len = blockchain.chain.len();
    blockchain.mine_block();
    assert_eq!(blockchain.chain.len(), chain_len);
}

#[test]
fn test_mine_block_inactive_node_is_a_no_op() {
    let mut blockchain = create_clean_blockchain();
    blockchain.create_account("alice", 1000).unwrap();
    blockchain.stop_node();
    let chain_len = blockchain.chain.len();

    blockchain.mine_block();

    assert_eq!(blockchain.chain.len(), chain_len);
    assert_eq!(blockchain.pending_transactions.len(), 1);
}

#[test]
fn test_last_block_hash_links_previous_block() {
    let mut blockchain = create_clean_blockchain();
    blockchain.create_account("alice", 1000).unwrap();
    blockchain.mine_block();

    let last = blockchain.chain.last().unwrap();
    let expected = format!("{}{}", last.timestamp, last.prev_block_hash);
    assert_eq!(blockchain.get_last_block_hash(), expected);
}

#[test]
fn test_save_load_round_trip() {
    let mut blockchain = create_clean_blockchain();
    blockchain.create_account("alice", 1000).unwrap();
    blockchain.create_account("bob", 500).unwrap();
    blockchain.mine_block();

    let saved = blockchain.storage.encode().expect("encoding should succeed");
    let loaded = Storage::decode(saved.as_str()).expect("decoding what was encoded should succeed");

    assert_eq!(loaded.get("alice"), Some(1000));
    assert_eq!(loaded.get("bob"), Some(500));
    assert!(loaded.get("carol").is_none());
}

#[test]
fn test_save_load_round_trip_empty_mapping() {
    let storage = Storage::new();
    let saved = storage.encode().expect("encoding should succeed");
    let loaded = Storage::decode(saved.as_str()).expect("decoding what was encoded should succeed");
    assert!(loaded.get("alice").is_none());
}

#[test]
fn test_round_trip_method() {
    let mut blockchain = create_clean_blockchain();
    blockchain.create_account("alice", 42).unwrap();
    blockchain.mine_block();

    let reloaded = blockchain.storage.round_trip().expect("round trip should succeed");
    assert_eq!(reloaded.get("alice"), Some(42));
}

#[test]
fn test_decode_rejects_malformed_text() {
    assert!(Storage::decode("not a saved mapping").is_none());
}

#[test]
fn test_process_command_create_account_message() {
    let mut blockchain = create_clean_blockchain();
    let result = blockchain.process_command("create-account charlie 1500");
    assert_eq!(
        result.unwrap(),
        "Account 'charlie' created with balance 1500"
    );
}

#[test]
fn test_process_command_transfer_message() {
    let mut blockchain = create_clean_blockchain();
    blockchain.create_account("alice", 1000).unwrap();
    blockchain.mine_block();
    let result = blockchain.process_command("transfer alice bob 200");
    assert_eq!(result.unwrap(), "Transferred 200 from 'alice' to 'bob'");
}

#[test]
fn test_process_command_list_accounts() {
    let mut blockchain = create_clean_blockchain();
    assert_eq!(
        blockchain.process_command("list-accounts").unwrap(),
        "No accounts found."
    );

    blockchain.create_account("alice", 1000).unwrap();
    blockchain.mine_block();
    assert_eq!(
        blockchain.process_command("list-accounts").unwrap(),
        "Account ID: alice, Balance: 1000\n"
    );
}

#[test]
fn test_process_command_invalid_inputs() {
    let mut blockchain = create_clean_blockchain();
    assert_eq!(
        blockchain.process_command("create-account alice abc"),
        Err("Invalid balance".to_string())
    );
    assert_eq!(
        blockchain.process_command("transfer alice bob ten"),
        Err("Invalid amount".to_string())
    );
    assert_eq!(
        blockchain.process_command("balance"),
        Err("Invalid command".to_string())
    );
    assert_eq!(
        blockchain.process_command(""),
        Err("Invalid command".to_string())
    );
    assert_eq!(
        blockchain.process_command("create-account alice 99999999999999999999999"),
        Err("Invalid balance".to_string())
    );
}

#[test]
fn test_process_command_tolerates_extra_whitespace() {
    let mut blockchain = create_clean_blockchain();
    blockchain.create_account("alice", 1000).unwrap();
    blockchain.mine_block();
    let result = blockchain.process_command("  balance \t alice ");
    assert_eq!(result.unwrap(), "Balance of 'alice': 1000");
}

#[test]
fn test_process_command_splits_on_unicode_whitespace() {
    let mut blockchain = create_clean_blockchain();
    blockchain.create_account("alice", 1000).unwrap();
    blockchain.mine_block();
    // Form feed, no-break space, and em space all separate tokens.
    let result = blockchain.process_command("balance\u{000C}alice");
    assert_eq!(result.unwrap(), "Balance of 'alice': 1000");
    let result = blockchain.process_command("balance\u{00A0}alice");
    assert_eq!(result.unwrap(), "Balance of 'alice': 1000");
    let result = blockchain.process_command("balance\u{2003}alice");
    assert_eq!(result.unwrap(), "Balance of 'alice': 1000");
}

#[test]
fn test_scripted_session_outputs() {
    let commands = vec![
        "create-account alice 1000".to_string(),
        "create-account bob 500".to_string(),
        "nonsense".to_string(),
        "balance alice".to_string(),
    ];
    let mut blockchain = create_clean_blockchain();
    let output = blockchain.start_with_mocks(&commands);
    assert_eq!(
        output,
        vec![
            "Account 'alice' created with balance 1000".to_string(),
            "Account 'bob' created with balance 500".to_string(),
            "Error: Invalid command".to_string(),
            // Creations are still pending, so the committed balance is absent.
            "Error: Account not found".to_string(),
        ]
    );
}
