use chain_dkim::chain::balances;
use chain_dkim::chain::proof_of_existence;
use chain_dkim::chain::runtime::{alice, bob, charlie, Runtime, RuntimeCall};
use chain_dkim::chain::support::{Block, Extrinsic, Header};
use chain_dkim::chain::system;
use chain_dkim::chain::systems;

#[test]
fn init_balances() {
    let mut balances = balances::Pallet::new();

    assert_eq!(balances.balance("alice".to_string()), 0);
    balances.set_balance("alice".to_string(), 100);
    assert_eq!(balances.balance("alice".to_string()), 100);
    assert_eq!(balances.balance("bob".to_string()), 0);
}

#[test]
fn balances_transfer_balance() {
    let mut balances = balances::Pallet::new();

    assert_eq!(
        balances.transfer("alice".to_string(), "bob".to_string(), 51),
        Err("Insufficient balance")
    );

    balances.set_balance("alice".to_string(), 100);
    assert_eq!(balances.transfer("alice".to_string(), "bob".to_string(), 51), Ok(()));
    assert_eq!(balances.balance("alice".to_string()), 49);
    assert_eq!(balances.balance("bob".to_string()), 51);

    assert_eq!(
        balances.transfer("alice".to_string(), "bob".to_string(), 51),
        Err("Insufficient balance")
    );
}

#[test]
fn init_balance() {
    let mut balances = balances::Pallet::new();

    assert_eq!(balances.balance(bob()), 0);
    balances.set_balance(bob(), 100);
    assert_eq!(balances.balance(bob()), 100);
    assert_eq!(balances.balance(alice()), 0);
}

#[test]
fn main_transfer_balance() {
    let mut balances = balances::Pallet::new();
    assert_eq!(balances.balance(bob()), 0);

    balances.set_balance(bob(), 100);
    balances.set_balance(alice(), 50);

    // Bob transfers 50 to Alice
    balances.transfer(bob(), alice(), 50).unwrap();

    assert_eq!(balances.balance(bob()), 50);
    assert_eq!(balances.balance(alice()), 100);
}

#[test]
fn transfer_balance_insufficient() {
    let mut balances = balances::Pallet::new();
    assert_eq!(balances.balance(bob()), 0);

    balances.set_balance(bob(), 100);
    balances.set_balance(alice(), 50);

    let transfer_result = balances.transfer(bob(), alice(), 110);

    assert_eq!(transfer_result, Err("Insufficient balance"));
    assert_eq!(balances.balance(bob()), 100);
    assert_eq!(balances.balance(alice()), 50);
}

#[test]
fn transfer_balance_overflow() {
    let mut balances = balances::Pallet::new();
    assert_eq!(balances.balance(bob()), 0);

    balances.set_balance(bob(), 100);
    balances.set_balance(alice(), u128::MAX);

    let transfer_result = balances.transfer(bob(), alice(), 50);

    assert_eq!(transfer_result, Err("Overflow when adding balance"));
    assert_eq!(balances.balance(bob()), 100);
    assert_eq!(balances.balance(alice()), u128::MAX);
}

#[test]
fn basic_proof_of_existence() {
    let mut poe = proof_of_existence::Pallet::new();
    let _ = poe.create_claim("alice".to_string(), "my_document".to_string());
    assert_eq!(poe.get_claim(&"my_document".to_string()), Some(&"alice".to_string()));

    let res = poe.revoke_claim("bob".to_string(), "my_document".to_string());
    assert_eq!(res, Err("Caller is not the owner of the claim"));

    let res = poe.create_claim("bob".to_string(), "my_document".to_string());
    assert_eq!(res, Err("Claim already exists"));

    let res = poe.revoke_claim("alice".to_string(), "non existent".to_string());
    assert_eq!(res, Err("Claim does not exist"));

    let _ = poe.revoke_claim("alice".to_string(), "my_document".to_string());
    assert_eq!(poe.get_claim(&"my_document".to_string()), None);
}

#[test]
fn init_system() {
    let system = system::Pallet::new();
    assert_eq!(system.block_number(), 0);
}

#[test]
fn inc_block_number() {
    let mut system = system::Pallet::new();
    system.inc_block_number();
    assert_eq!(system.block_number(), 1);
}

#[test]
fn inc_nonce() {
    let mut system = system::Pallet::new();
    system.inc_nonce("alice".to_string());
    system.inc_nonce("alice".to_string());
    assert_eq!(system.get_nonce("alice".to_string()), 2);
}

#[test]
fn it_works() {}

#[test]
fn sketch_pallet_increment_changes_nothing() {
    let mut p = systems::Pallet::new();
    assert_eq!(p.block_number(), 0);
    p.inc_block_number(5);
    assert_eq!(p.block_number(), 0);
}

#[test]
fn account_names() {
    assert_eq!(alice(), "alice");
    assert_eq!(bob(), "bob");
    assert_eq!(charlie(), "charlie");
}

#[test]
fn transfer_conserves_between_two_accounts() {
    let mut b = balances::Pallet::new();
    b.set_balance(alice(), 70);
    b.set_balance(bob(), 5);
    b.set_balance(charlie(), 9);
    assert_eq!(b.transfer(alice(), bob(), 30), Ok(()));
    assert_eq!(b.balance(alice()) + b.balance(bob()), 75);
    assert_eq!(b.balance(alice()), 40);
    assert_eq!(b.balance(charlie()), 9);
}

#[test]
fn transfer_to_self_adds_the_amount() {
    let mut b = balances::Pallet::new();
    b.set_balance(alice(), 10);
    assert_eq!(b.transfer(alice(), alice(), 4), Ok(()));
    assert_eq!(b.balance(alice()), 14);
}

#[test]
fn create_then_revoke_restores_claims() {
    let mut poe = proof_of_existence::Pallet::new();
    assert_eq!(poe.create_claim(alice(), "doc".to_string()), Ok(()));
    assert_eq!(poe.get_claim(&"doc".to_string()), Some(&alice()));
    assert_eq!(poe.create_claim(bob(), "doc".to_string()), Err("Claim already exists"));
    assert_eq!(poe.revoke_claim(alice(), "doc".to_string()), Ok(()));
    assert_eq!(poe.get_claim(&"doc".to_string()), None);
}

fn transfer(caller: String, to: String, amount: u128) -> Extrinsic<String, RuntimeCall> {
    Extrinsic { caller, call: RuntimeCall::balances(balances::Call::transfer { to, amount }) }
}

#[test]
fn runtime_executes_blocks_in_order() {
    let mut rt = Runtime::new();
    rt.balances.set_balance(alice(), 100);

    let block_1 = Block {
        header: Header { block_number: 1 },
        extrinsics: vec![transfer(alice(), bob(), 30), transfer(alice(), charlie(), 20), transfer(bob(), charlie(), 1000)],
    };
    assert_eq!(rt.execute_block(block_1), Ok(()));
    assert_eq!(rt.system.block_number(), 1);
    assert_eq!(rt.balances.balance(alice()), 50);
    assert_eq!(rt.balances.balance(bob()), 30);
    assert_eq!(rt.balances.balance(charlie()), 20);
    assert_eq!(rt.system.get_nonce(alice()), 2);
    assert_eq!(rt.system.get_nonce(bob()), 1);

    let block_2 = Block {
        header: Header { block_number: 2 },
        extrinsics: vec![
            Extrinsic {
                caller: alice(),
                call: RuntimeCall::proof_of_existence(proof_of_existence::Call::CreateClaim { claim: "my_document".to_string() }),
            },
            Extrinsic {
                caller: bob(),
                call: RuntimeCall::proof_of_existence(proof_of_existence::Call::CreateClaim { claim: "my_document".to_string() }),
            },
        ],
    };
    assert_eq!(rt.execute_block(block_2), Ok(()));
    assert_eq!(rt.proof_of_existence.get_claim(&"my_document".to_string()), Some(&alice()));
    assert_eq!(rt.system.get_nonce(bob()), 2);
}

#[test]
fn runtime_refuses_wrong_block_number() {
    let mut rt = Runtime::new();
    rt.balances.set_balance(alice(), 100);
    let block = Block { header: Header { block_number: 5 }, extrinsics: vec![transfer(alice(), bob(), 30)] };
    assert_eq!(rt.execute_block(block), Err("block number does not match what is expected"));
    assert_eq!(rt.system.block_number(), 1);
    assert_eq!(rt.balances.balance(alice()), 100);
    assert_eq!(rt.system.get_nonce(alice()), 0);
}
