use near_sdk::test_utils::{accounts, VMContextBuilder};
use near_sdk::{AccountId, MockedBlockchain, PromiseError};
use token_vesting::contract::{create, settle, transfers_due, Contract, InvestorError, Transfer};
use token_vesting::investment::{Investment, InvestmentInput, InvestmentJson};
use token_vesting::schedule::next_payout;

const TOTAL_SUPPLY: u128 = 1_234_567_891_011_121;

type Ledger = Vec<(String, Investment)>;

fn get_context(predecessor_account_id: AccountId) -> VMContextBuilder {
    let mut builder = VMContextBuilder::new();
    builder
        .current_account_id(accounts(0))
        .signer_account_id(predecessor_account_id.clone())
        .predecessor_account_id(predecessor_account_id);
    builder
}

fn set_context(builder: &VMContextBuilder) {
    let storage = near_sdk::mock::with_mocked_blockchain(|b| b.take_storage());
    near_sdk::env::set_blockchain_interface(MockedBlockchain::new(
        builder.build(),
        near_sdk::test_vm_config(),
        near_sdk::RuntimeFeesConfig::test(),
        Default::default(),
        storage,
        Default::default(),
        None,
    ));
}

fn new_contract() -> Contract {
    Contract::new(accounts(2).to_string(), TOTAL_SUPPLY, accounts(5).to_string())
}

fn input(start_date: &str, vesting: u8, cycle: u8, total_amount: u128) -> InvestmentInput {
    InvestmentInput { start_date: start_date.to_string(), vesting, cycle, total_amount }
}

fn fields(r: &Investment) -> (String, u8, u8, u8, u128, u128, String) {
    (
        r.start_date.clone(),
        r.vesting,
        r.cycle,
        r.remaining_payouts,
        r.total_amount,
        r.paid_amount,
        r.last_payment_date.clone(),
    )
}

fn put(ledger: &mut Ledger, account: &str, record: Investment) {
    match ledger.iter_mut().find(|(key, _)| key == account) {
        Some(row) => row.1 = record,
        None => ledger.push((account.to_string(), record)),
    }
}

fn get<'a>(ledger: &'a Ledger, account: &str) -> &'a Investment {
    &ledger.iter().find(|(key, _)| key == account).unwrap().1
}

fn add_or_panic(contract: &Contract, ledger: &mut Ledger, account: AccountId, investment: InvestmentInput) {
    match contract.add_investor(investment) {
        Ok(record) => put(ledger, account.as_str(), record),
        Err(error) => panic!("{}", error.message()),
    }
}

#[test]
#[should_panic(expected = "Only the contract owner can add an investor.")]
fn test_add_investors_no_permission() {
    let mut context = get_context(accounts(2));
    set_context(&context);
    let contract = new_contract();
    let mut ledger = Ledger::new();

    set_context(context.predecessor_account_id(accounts(1)).block_timestamp(1000));

    let investment = input("2023-01-01", 10, 1, TOTAL_SUPPLY);

    add_or_panic(&contract, &mut ledger, accounts(1), investment.clone());
}

#[test]
#[should_panic(expected = "Total amount cannot exceed total supply.")]
fn test_add_investors_oversupply() {
    let mut context = get_context(accounts(2));
    set_context(&context);
    let contract = new_contract();
    let mut ledger = Ledger::new();

    set_context(context.predecessor_account_id(accounts(2)).block_timestamp(1000));

    let investment = input("2023-01-01", 10, 1, TOTAL_SUPPLY + 1);

    add_or_panic(&contract, &mut ledger, accounts(1), investment.clone());
}

#[test]
#[should_panic(expected = "Invalid date format. Please use YYYY-MM-DD format.")]
fn test_add_investors_date_regex() {
    let mut context = get_context(accounts(2));
    set_context(&context);
    let contract = new_contract();
    let mut ledger = Ledger::new();

    set_context(context.predecessor_account_id(accounts(2)).block_timestamp(1000));

    let investment = input("2023-02-30", 10, 1, TOTAL_SUPPLY + 1);

    add_or_panic(&contract, &mut ledger, accounts(1), investment.clone());
}

#[test]
#[should_panic(expected = "Cycle must be a positive integer.")]
fn test_add_investors_cycle() {
    let mut context = get_context(accounts(2));
    set_context(&context);
    let contract = new_contract();
    let mut ledger = Ledger::new();

    set_context(context.predecessor_account_id(accounts(2)).block_timestamp(1000));

    let investment = input("2023-01-01", 10, 0, TOTAL_SUPPLY + 1);

    add_or_panic(&contract, &mut ledger, accounts(1), investment.clone());
}

#[test]
fn a_contract_keeps_its_settings() {
    let contract = new_contract();
    assert_eq!(contract.owner_id, "charlie");
    assert_eq!(contract.token_contract_address, "fargo");
    assert_eq!(contract.total_supply, TOTAL_SUPPLY);
    assert!(contract.get_all_investors(&Ledger::new()).is_empty());
    assert!(transfers_due(&Ledger::new(), (2023, 1, 1)).is_empty());
}

#[test]
fn the_owner_is_granted_a_record() {
    set_context(&get_context(accounts(2)));
    let contract = new_contract();
    let record = contract.add_investor(input("2023-01-01", 10, 3, TOTAL_SUPPLY)).unwrap();
    let expected =
        ("2023-01-01".to_string(), 10, 3, 3, TOTAL_SUPPLY, 0, "2023-01-01".to_string());
    assert_eq!(fields(&record), expected);
    assert!(record.is_well_formed());
    set_context(get_context(accounts(2)).predecessor_account_id(accounts(1)));
    assert_eq!(
        contract.add_investor(input("2023-01-01", 10, 3, TOTAL_SUPPLY)).err(),
        Some(InvestorError::NotOwner)
    );
}

#[test]
fn each_violation_is_turned_down_with_its_error() {
    let owner = "charlie".to_string();
    let other = "bob".to_string();
    let cases = [
        (other.clone(), input("2023-02-30", 0, 0, 0), InvestorError::NotOwner),
        (owner.clone(), input("2023-02-30", 0, 0, 0), InvestorError::InvalidDate),
        (owner.clone(), input("2023-1-1", 1, 1, 1), InvestorError::InvalidDate),
        (owner.clone(), input("2023-01-01", 0, 0, 0), InvestorError::ZeroCycle),
        (owner.clone(), input("2023-01-01", 0, 1, 0), InvestorError::ZeroVesting),
        (owner.clone(), input("2023-01-01", 1, 1, 0), InvestorError::ZeroAmount),
        (owner.clone(), input("2023-01-01", 1, 1, TOTAL_SUPPLY + 1), InvestorError::ExceedsSupply),
    ];
    for (caller, investment, error) in cases {
        assert_eq!(create(&owner, TOTAL_SUPPLY, &caller, investment).err(), Some(error));
    }
    let granted = create(&owner, TOTAL_SUPPLY, &owner, input("2023-01-01", 1, 1, TOTAL_SUPPLY));
    assert_eq!(
        fields(&granted.unwrap()),
        ("2023-01-01".to_string(), 1, 1, 1, TOTAL_SUPPLY, 0, "2023-01-01".to_string())
    );
}

#[test]
fn each_error_has_its_message() {
    assert_eq!(InvestorError::NotOwner.message(), "Only the contract owner can add an investor.");
    assert_eq!(
        InvestorError::InvalidDate.message(),
        "Invalid date format. Please use YYYY-MM-DD format."
    );
    assert_eq!(InvestorError::ZeroCycle.message(), "Cycle must be a positive integer.");
    assert_eq!(InvestorError::ZeroVesting.message(), "Vesting must be a positive integer.");
    assert_eq!(InvestorError::ZeroAmount.message(), "Total amount must be a positive integer.");
    assert_eq!(InvestorError::ExceedsSupply.message(), "Total amount cannot exceed total supply.");
}

#[test]
fn creation_above_the_supply_leaves_the_ledger_as_it_is() {
    set_context(&get_context(accounts(2)));
    let contract = new_contract();
    let mut ledger = Ledger::new();
    put(&mut ledger, "bob", contract.add_investor(input("2023-01-01", 3, 1, 1000)).unwrap());
    let before: Vec<_> = ledger.iter().map(|(k, r)| (k.clone(), fields(r))).collect();
    for account in ["bob", "alice"] {
        match contract.add_investor(input("2024-01-01", 5, 1, TOTAL_SUPPLY + 1)) {
            Ok(record) => put(&mut ledger, account, record),
            Err(error) => assert_eq!(error, InvestorError::ExceedsSupply),
        }
    }
    let after: Vec<_> = ledger.iter().map(|(k, r)| (k.clone(), fields(r))).collect();
    assert_eq!(before, after);
    assert!(contract.add_investor(input("2024-01-01", 5, 1, TOTAL_SUPPLY)).is_ok());
}

#[test]
fn the_ledger_is_listed_with_amounts_in_decimal_notation() {
    let contract = new_contract();
    let owner = contract.owner_id.clone();
    let mut ledger = Ledger::new();
    for (name, total) in [("alice", 1000u128), ("bob", u128::MAX), ("danny", 1)] {
        let record = create(&owner, u128::MAX, &owner, input("2023-01-01", 3, 1, total)).unwrap();
        put(&mut ledger, name, record);
    }
    let listed = contract.get_all_investors(&ledger);
    let keys: Vec<&str> = listed.iter().map(|(k, _)| k.as_str()).collect();
    assert_eq!(keys, ["alice", "bob", "danny"]);
    assert_eq!(listed[0].1.total_amount, "1000");
    assert_eq!(listed[1].1.total_amount, "340282366920938463463374607431768211455");
    assert_eq!(listed[2].1.total_amount, "1");
    assert_eq!(listed[2].1.paid_amount, "0");
    assert_eq!(listed[2].1.start_date, "2023-01-01");
    assert_eq!(listed[2].1.remaining_payouts, 3);
}

#[test]
fn installments_of_1000_over_three_periods_are_333_333_334() {
    set_context(&get_context(accounts(2)));
    let contract = new_contract();
    let mut ledger = Ledger::new();
    put(&mut ledger, "bob", contract.add_investor(input("2023-08-29", 3, 1, 1000)).unwrap());

    let due_days = [(2023, 8, 29), (2023, 9, 29), (2023, 10, 29)];
    let amounts = [333u128, 333, 334];
    let paid = ["333", "666", "1000"];
    let last = ["2023-08-29", "2023-09-29", "2023-10-29"];
    for pass in 0..3 {
        let day = due_days[pass];
        let early = if pass == 0 { (2023, 8, 28) } else { (day.0, day.1, day.2 - 1) };
        assert!(transfers_due(&ledger, early).is_empty());
        let mut transfers = transfers_due(&ledger, day);
        assert_eq!(transfers.len(), 1);
        let transfer: Transfer = transfers.pop().unwrap();
        assert_eq!(transfer.receiver_id, "bob");
        assert_eq!(transfer.amount, amounts[pass]);
        assert_eq!(transfer.investment.paid_amount, paid[pass]);
        assert_eq!(transfer.investment.total_amount, "1000");
        assert_eq!(transfer.investment.remaining_payouts as usize, 2 - pass);
        assert_eq!(transfer.investment.last_payment_date, last[pass]);
        let request = transfer.request();
        assert_eq!(request.receiver_id, "bob");
        assert_eq!(request.amount, amounts[pass].to_string());
        assert_eq!(request.memo, None);
        // Until the transfer is confirmed the ledger still holds the old record.
        assert_eq!(get(&ledger, "bob").remaining_payouts as usize, 3 - pass);
        let commit = contract.on_ft_transfer_success(Ok(()), transfer.investment).unwrap();
        put(&mut ledger, "bob", commit);
        assert_eq!(get(&ledger, "bob").remaining_payouts as usize, 2 - pass);
    }
    let record = get(&ledger, "bob");
    assert_eq!(record.paid_amount, 1000);
    assert_eq!(record.remaining_payouts, 0);
    assert!(record.is_well_formed());
    assert!(transfers_due(&ledger, (9999, 12, 31)).is_empty());
}

#[test]
fn a_failed_transfer_leaves_the_record_unchanged() {
    set_context(&get_context(accounts(2)));
    let contract = new_contract();
    let mut ledger = Ledger::new();
    put(&mut ledger, "bob", contract.add_investor(input("2023-08-29", 3, 1, 1000)).unwrap());
    let first = transfers_due(&ledger, (2023, 8, 29)).pop().unwrap();
    put(&mut ledger, "bob", contract.on_ft_transfer_success(Ok(()), first.investment).unwrap());
    let before = fields(get(&ledger, "bob"));

    let transfer = transfers_due(&ledger, (2023, 9, 30)).pop().unwrap();
    assert_eq!(transfer.amount, 333);
    for failure in [PromiseError::Failed, PromiseError::TooLong(9)] {
        let commit = contract.on_ft_transfer_success(Err(failure), transfer.investment.clone());
        assert!(commit.is_none());
        if let Some(record) = commit {
            put(&mut ledger, "bob", record);
        }
        assert_eq!(fields(get(&ledger, "bob")), before);
    }
    assert!(settle(false, transfer.investment.clone()).is_none());
    let settled = settle(true, transfer.investment.clone()).unwrap();
    assert_eq!(
        fields(&settled),
        ("2023-08-29".to_string(), 3, 1, 1, 1000, 666, "2023-09-29".to_string())
    );

    // The next pass computes the same transfer again.
    let again = transfers_due(&ledger, (2023, 9, 30)).pop().unwrap();
    assert_eq!(again.amount, transfer.amount);
    assert_eq!(again.investment.paid_amount, transfer.investment.paid_amount);
    assert_eq!(again.investment.last_payment_date, transfer.investment.last_payment_date);
    assert_eq!(again.investment.remaining_payouts, transfer.investment.remaining_payouts);
}

#[test]
fn a_pass_dispatches_only_what_is_due_in_ledger_order() {
    let owner = "charlie".to_string();
    let mut ledger = Ledger::new();
    let names = ["alice", "bob", "danny", "eugene"];
    let starts = ["2023-03-01", "2023-01-01", "2023-02-01", "2023-02-02"];
    for (name, start) in names.iter().zip(starts) {
        put(&mut ledger, name, create(&owner, 400, &owner, input(start, 4, 1, 400)).unwrap());
    }
    assert!(transfers_due(&ledger, (2022, 12, 31)).is_empty());
    let receivers = |day| -> Vec<String> {
        transfers_due(&ledger, day).into_iter().map(|t| t.receiver_id).collect()
    };
    assert_eq!(receivers((2023, 1, 1)), ["bob"]);
    assert_eq!(receivers((2023, 2, 1)), ["bob", "danny"]);
    assert_eq!(receivers((2023, 2, 2)), ["bob", "danny", "eugene"]);
    assert_eq!(receivers((2023, 3, 1)), ["alice", "bob", "danny", "eugene"]);
}

#[test]
fn a_pass_runs_on_records_that_no_creation_leads_to() {
    // One payout made at the date of reference itself, with two months to the cycle.
    let record = Investment {
        start_date: "2023-01-15".to_string(),
        vesting: 6,
        cycle: 2,
        remaining_payouts: 2,
        total_amount: 1000,
        paid_amount: 332,
        last_payment_date: "2023-01-15".to_string(),
    };
    assert!(!record.is_well_formed());
    assert!(record.is_payable());
    let ledger: Ledger = vec![("b".to_string(), record)];
    let mut context = get_context(accounts(2));
    set_context(context.block_timestamp(1678838400 * 1_000_000_000));
    let contract = new_contract();
    let mut transfers = contract.distribute_token(&ledger);
    assert_eq!(transfers.len(), 1);
    let transfer = transfers.pop().unwrap();
    assert_eq!(transfer.receiver_id, "b");
    assert_eq!(transfer.amount, 332);
    assert_eq!(transfer.request().amount, "332");
    assert_eq!(transfer.investment.remaining_payouts, 1);
    assert_eq!(transfer.investment.paid_amount, "664");
    assert_eq!(transfer.investment.last_payment_date, "2023-03-15");
    assert_eq!(transfer.investment.start_date, "2023-01-15");
    assert_eq!(transfer.investment.vesting, 6);
    assert_eq!(transfer.investment.cycle, 2);
    assert_eq!(transfer.investment.total_amount, "1000");
    assert!(transfers_due(&ledger, (2023, 3, 14)).is_empty());
}

#[test]
fn payable_records_are_those_whose_next_installment_can_be_computed() {
    let base = Investment {
        start_date: "2023-01-15".to_string(),
        vesting: 6,
        cycle: 2,
        remaining_payouts: 2,
        total_amount: 1000,
        paid_amount: 332,
        last_payment_date: "2023-01-15".to_string(),
    };
    assert!(base.is_payable());
    let mut r = base.clone();
    r.last_payment_date = "soon".to_string();
    assert!(!r.is_payable());
    r.remaining_payouts = 0;
    assert!(r.is_payable());
    let mut r = base.clone();
    r.start_date = "never".to_string();
    assert!(r.is_payable());
    r.remaining_payouts = 6;
    assert!(!r.is_payable());
    let mut r = base.clone();
    r.vesting = 0;
    assert!(!r.is_payable());
    r.remaining_payouts = 1;
    assert!(r.is_payable());
    r.paid_amount = 1001;
    assert!(!r.is_payable());
    let mut r = base.clone();
    r.total_amount = u128::MAX;
    r.vesting = 1;
    assert!(!r.is_payable());
    r.cycle = 1;
    r.paid_amount = 1;
    assert!(!r.is_payable());
    r.paid_amount = 0;
    assert!(r.is_payable());
    let mut r = base.clone();
    r.last_payment_date = "2147483647-12-15".to_string();
    assert!(!r.is_payable());
    r.last_payment_date = "2147483647-10-15".to_string();
    assert!(r.is_payable());
    let mut r = base.clone();
    r.last_payment_date = "2023-00-15".to_string();
    r.cycle = 0;
    assert!(!r.is_payable());
    r.cycle = 1;
    assert!(r.is_payable());
    assert_eq!(next_payout(&r, (2023, 12, 31)).unwrap().investment.last_payment_date, "2023-01-15");
}

#[test]
fn a_record_with_nothing_left_is_never_due() {
    let done = Investment {
        start_date: "2023-01-15".to_string(),
        vesting: 3,
        cycle: 1,
        remaining_payouts: 0,
        total_amount: 1000,
        paid_amount: 1000,
        last_payment_date: "2023-03-15".to_string(),
    };
    assert!(done.is_well_formed());
    assert!(next_payout(&done, (9999, 12, 31)).is_none());
    let none = Investment {
        start_date: "2023-01-15".to_string(),
        vesting: 1,
        cycle: 2,
        remaining_payouts: 0,
        total_amount: 1000,
        paid_amount: 0,
        last_payment_date: "2023-01-15".to_string(),
    };
    assert!(none.is_well_formed());
    assert!(next_payout(&none, (9999, 12, 31)).is_none());
}

#[test]
fn an_installment_is_due_from_its_due_date_on() {
    let record = Investment::open(input("2023-01-31", 3, 1, 1000));
    assert!(next_payout(&record, (2023, 1, 30)).is_none());
    let first = next_payout(&record, (2023, 1, 31)).unwrap();
    assert_eq!(first.amount, 333);
    assert_eq!(first.investment.last_payment_date, "2023-01-31");
    // The day is carried over as it is: the second installment falls on "February 31".
    let second = next_payout(&first.investment, (2023, 2, 28));
    assert!(second.is_none());
    assert!(next_payout(&first.investment, (2023, 2, 30)).is_none());
    let second = next_payout(&first.investment, (2023, 3, 1)).unwrap();
    assert_eq!(second.investment.last_payment_date, "2023-02-31");
    assert_eq!(second.amount, 333);
    assert!(second.investment.is_well_formed());
    let third = next_payout(&second.investment, (2023, 3, 31)).unwrap();
    assert_eq!(third.amount, 334);
    assert_eq!(third.investment.paid_amount, 1000);
    assert_eq!(third.investment.remaining_payouts, 0);
    assert_eq!(third.investment.last_payment_date, "2023-03-31");
}

#[test]
fn with_a_longer_cycle_the_first_installment_falls_one_cycle_after_the_start() {
    let record = Investment::open(input("2023-11-10", 12, 3, 1000));
    assert_eq!(record.remaining_payouts, 4);
    assert!(next_payout(&record, (2024, 2, 9)).is_none());
    let first = next_payout(&record, (2024, 2, 10)).unwrap();
    assert_eq!(first.amount, 249);
    assert_eq!(first.investment.last_payment_date, "2024-02-10");
    let second = next_payout(&first.investment, (2024, 5, 10)).unwrap();
    assert_eq!(second.amount, 249);
    let third = next_payout(&second.investment, (2024, 8, 10)).unwrap();
    assert_eq!(third.investment.paid_amount, 747);
    let last = next_payout(&third.investment, (2024, 11, 10)).unwrap();
    assert_eq!(last.amount, 253);
    assert_eq!(last.investment.paid_amount, 1000);
    assert_eq!(last.investment.remaining_payouts, 0);
    assert_eq!(last.investment.last_payment_date, "2024-11-10");
    assert!(last.investment.is_well_formed());
}

#[test]
fn every_record_paid_to_the_end_has_paid_its_entitlement() {
    for vesting in 1..=40u8 {
        for cycle in 1..=vesting {
            for total in [1u128, 7, 1000, 999_983, u128::MAX] {
                let mut record = Investment::open(input("2023-12-31", vesting, cycle, total));
                let mut sum: u128 = 0;
                while record.remaining_payouts > 0 {
                    assert!(record.is_payable());
                    let payout = next_payout(&record, (i32::MAX, 12, 31)).unwrap();
                    sum += payout.amount;
                    record = payout.investment;
                    assert!(record.is_well_formed());
                    assert_eq!(record.paid_amount, sum);
                }
                assert_eq!(record.paid_amount, total);
            }
        }
    }
}

#[test]
fn due_dates_past_the_year_9999_are_written_with_five_digits() {
    let record = Investment::open(input("9999-12-01", 2, 1, 10));
    let first = next_payout(&record, (9999, 12, 1)).unwrap();
    assert!(next_payout(&first.investment, (9999, 12, 31)).is_none());
    let second = next_payout(&first.investment, (10000, 1, 1)).unwrap();
    assert_eq!(second.investment.last_payment_date, "10000-01-01");
    assert!(second.investment.is_well_formed());
}

#[test]
fn the_current_pass_uses_the_date_of_the_block() {
    let mut context = get_context(accounts(2));
    set_context(&context);
    let contract = new_contract();
    let mut ledger = Ledger::new();
    put(&mut ledger, "bob", contract.add_investor(input("2023-08-29", 3, 1, 1000)).unwrap());
    set_context(context.block_timestamp(1693180800 * 1_000_000_000));
    assert!(contract.distribute_token(&ledger).is_empty());
    set_context(context.block_timestamp(1693274924 * 1_000_000_000));
    let transfers = contract.distribute_token(&ledger);
    assert_eq!(transfers.len(), 1);
    assert_eq!(transfers[0].amount, 333);
    let json: InvestmentJson = transfers[0].investment.clone();
    assert_eq!(json.paid_amount, "333");
}
