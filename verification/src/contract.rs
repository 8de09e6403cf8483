//! The vesting contract: the creation of records by the owner, the pass
//! over the ledger that finds the installments that are due, and the
//! settlement that makes a paid installment part of the ledger.
//!
//! The ledger itself lives in the chain's storage. The operations here take
//! its rows and hand back what is to be written: the caller reads and
//! writes.

use vstd::prelude::*;
use vstd::string::*;
use near_sdk::PromiseError;
use crate::calendar::{date_key, is_civil_date};
use crate::date_text::{is_valid_date_format, spec_is_valid_date_format};
use crate::decimal::{amount_to_text, decimal_text};
use crate::environment::{get_current_date, predecessor_account};
use crate::investment::{
    Investment, InvestmentInput, InvestmentJson, InvestmentJsonView, InvestmentView,
};
use crate::schedule::next_payout;

verus! {

/// Why a record was not created.
#[derive(Debug, Clone, Copy, PartialEq, Eq, Structural)]
pub enum InvestorError {
    /// The caller is not the owner of the contract.
    NotOwner,
    /// The date of reference is not a valid date of the form `YYYY-MM-DD`.
    InvalidDate,
    /// The cycle is zero.
    ZeroCycle,
    /// The number of vesting periods is zero.
    ZeroVesting,
    /// The entitlement is zero.
    ZeroAmount,
    /// The entitlement exceeds the total supply.
    ExceedsSupply,
}

/// A transfer to dispatch: who receives how much, and the record that is to
/// replace the beneficiary's once the transfer is confirmed.
#[derive(Debug)]
pub struct Transfer {
    pub receiver_id: String,
    pub amount: u128,
    pub investment: InvestmentJson,
}

/// The mathematical value of a transfer.
pub struct TransferView {
    pub receiver_id: Seq<char>,
    pub amount: nat,
    pub investment: InvestmentJsonView,
}

impl View for Transfer {
    type V = TransferView;

    open spec fn view(&self) -> TransferView {
        TransferView {
            receiver_id: self.receiver_id@,
            amount: self.amount as nat,
            investment: self.investment@,
        }
    }
}

/// What is sent to the token contract to have a transfer made.
#[derive(Debug)]
pub struct TransferRequest {
    pub receiver_id: String,
    /// The amount in decimal notation.
    pub amount: String,
    pub memo: Option<String>,
}

/// The settings of the vesting contract.
pub struct Contract {
    /// The account that may create records.
    pub owner_id: String,
    /// The account of the token contract that makes the transfers.
    pub token_contract_address: String,
    /// The ceiling of every entitlement.
    pub total_supply: u128,
}

/// The rows of the ledger as mathematical values: each beneficiary's
/// account with its record, in the ledger's order.
pub open spec fn entries_of(rows: Seq<(String, Investment)>) -> Seq<(Seq<char>, InvestmentView)> {
    Seq::new(rows.len(), |i: int| (rows[i].0@, rows[i].1@))
}

/// The next installment of every record can be computed.
pub open spec fn all_payable(entries: Seq<(Seq<char>, InvestmentView)>) -> bool {
    forall|i: int| 0 <= i < entries.len() ==> (#[trigger] entries[i]).1.payable()
}

/// The verdict on a request to create a record, with the record where it is
/// granted. The conditions are tried in this order: the caller is the
/// owner, the date of reference is valid, cycle, periods and entitlement are
/// positive, the entitlement does not exceed the supply.
pub open spec fn creation_outcome(
    owner: Seq<char>,
    supply: u128,
    caller: Seq<char>,
    input: InvestmentInput,
) -> Result<InvestmentView, InvestorError> {
    if caller != owner {
        Err(InvestorError::NotOwner)
    } else if !spec_is_valid_date_format(input.start_date@) {
        Err(InvestorError::InvalidDate)
    } else if input.cycle == 0 {
        Err(InvestorError::ZeroCycle)
    } else if input.vesting == 0 {
        Err(InvestorError::ZeroVesting)
    } else if input.total_amount == 0 {
        Err(InvestorError::ZeroAmount)
    } else if input.total_amount > supply {
        Err(InvestorError::ExceedsSupply)
    } else {
        Ok(input.opened())
    }
}

/// The transfers that a pass over `entries` on the day `today` dispatches:
/// one for each record with an installment due, in the order of the entries.
pub open spec fn due_transfers(
    entries: Seq<(Seq<char>, InvestmentView)>,
    today: (int, int, int),
) -> Seq<TransferView>
    decreases entries.len(),
{
    if entries.len() == 0 {
        Seq::empty()
    } else {
        let earlier = due_transfers(entries.drop_last(), today);
        let (account, record) = entries.last();
        if record.is_due(today) {
            earlier.push(
                TransferView {
                    receiver_id: account,
                    amount: record.payout_amount() as nat,
                    investment: record.after_payout().to_json(),
                },
            )
        } else {
            earlier
        }
    }
}

/// `transfer` pays the installment of `entry` that is due on `today`: the
/// record has an installment left, its due date is not after `today`, and
/// the transfer carries the amount of the installment and the record as it
/// stands once the installment is paid.
pub open spec fn pays_due_installment(
    transfer: TransferView,
    entry: (Seq<char>, InvestmentView),
    today: (int, int, int),
) -> bool {
    &&& entry.1.remaining_payouts > 0
    &&& date_key(entry.1.due_date().0, entry.1.due_date().1, entry.1.due_date().2) <= date_key(
        today.0,
        today.1,
        today.2,
    )
    &&& transfer.receiver_id == entry.0
    &&& transfer.amount == entry.1.payout_amount()
    &&& transfer.investment == entry.1.after_payout().to_json()
}

/// A pass dispatches transfers for due installments only: never for a
/// record with no installment left, nor for one whose next installment falls
/// due after `today`.
pub proof fn lemma_only_due_dispatched(
    entries: Seq<(Seq<char>, InvestmentView)>,
    today: (int, int, int),
    k: int,
)
    requires
        all_payable(entries),
        0 <= k < due_transfers(entries, today).len(),
    ensures
        exists|i: int|
            0 <= i < entries.len() && pays_due_installment(
                due_transfers(entries, today)[k],
                #[trigger] entries[i],
                today,
            ),
    decreases entries.len(),
{
    let shorter = entries.drop_last();
    let earlier = due_transfers(shorter, today);
    let last = entries.len() - 1;
    if k < earlier.len() {
        assert forall|i: int| 0 <= i < shorter.len() implies (#[trigger] shorter[i]).1.payable() by {
            assert(entries[i].1.payable());
        }
        lemma_only_due_dispatched(shorter, today, k);
        let i = choose|i: int|
            0 <= i < shorter.len() && pays_due_installment(earlier[k], #[trigger] shorter[i], today);
        assert(entries[i] == shorter[i]);
        assert(pays_due_installment(due_transfers(entries, today)[k], entries[i], today));
    } else {
        assert(entries[last] == entries.last());
        assert(entries[last].1.payable());
        assert(pays_due_installment(due_transfers(entries, today)[k], entries[last], today));
    }
}

/// A pass dispatches at most one transfer for each record.
pub proof fn lemma_due_transfers_len(entries: Seq<(Seq<char>, InvestmentView)>, today: (int, int, int))
    ensures
        due_transfers(entries, today).len() <= entries.len(),
    decreases entries.len(),
{
    if entries.len() > 0 {
        lemma_due_transfers_len(entries.drop_last(), today);
    }
}

/// A pass over a ledger in which no record has an installment due
/// dispatches nothing.
pub proof fn lemma_nothing_due(entries: Seq<(Seq<char>, InvestmentView)>, today: (int, int, int))
    requires
        forall|i: int| 0 <= i < entries.len() ==> !(#[trigger] entries[i]).1.is_due(today),
    ensures
        due_transfers(entries, today).len() == 0,
    decreases entries.len(),
{
    if entries.len() > 0 {
        let shorter = entries.drop_last();
        assert forall|i: int| 0 <= i < shorter.len() implies !(#[trigger] shorter[i]).1.is_due(
            today,
        ) by {
            assert(shorter[i] == entries[i]);
        }
        lemma_nothing_due(shorter, today);
        assert(entries.last() == entries[entries.len() - 1]);
    }
}

/// Decides on a request of `caller` to create a record under a contract
/// with the owner `owner` and the supply `total_supply`.
///
/// Granted, the record that `input` states: well formed, with nothing paid.
/// Turned down, the first violated condition.
pub fn create(owner: &String, total_supply: u128, caller: &String, input: InvestmentInput) -> (result:
    Result<Investment, InvestorError>)
    ensures
        match result {
            Ok(record) => creation_outcome(owner@, total_supply, caller@, input) == Ok::<
                InvestmentView,
                InvestorError,
            >(record@) && record@.wf(),
            Err(error) => creation_outcome(owner@, total_supply, caller@, input) == Err::<
                InvestmentView,
                InvestorError,
            >(error),
        },
{
    if *caller != *owner {
        return Err(InvestorError::NotOwner);
    }
    if !is_valid_date_format(input.start_date.as_str()) {
        return Err(InvestorError::InvalidDate);
    }
    if input.cycle == 0 {
        return Err(InvestorError::ZeroCycle);
    }
    if input.vesting == 0 {
        return Err(InvestorError::ZeroVesting);
    }
    if input.total_amount == 0 {
        return Err(InvestorError::ZeroAmount);
    }
    if input.total_amount > total_supply {
        return Err(InvestorError::ExceedsSupply);
    }
    Ok(Investment::open(input))
}

/// The transfers to dispatch on the day `today` for the ledger `rows`: one
/// for each record with an installment due, in the ledger's order. Each
/// carries the record that is to replace the beneficiary's once the transfer
/// is confirmed; the rows themselves stay as they are.
pub fn transfers_due(rows: &Vec<(String, Investment)>, today: (i32, u32, u32)) -> (transfers: Vec<
    Transfer,
>)
    requires
        all_payable(entries_of(rows@)),
    ensures
        transfers@.map_values(|t: Transfer| t@) == due_transfers(
            entries_of(rows@),
            (today.0 as int, today.1 as int, today.2 as int),
        ),
{
    let ghost day = (today.0 as int, today.1 as int, today.2 as int);
    let ghost entries = entries_of(rows@);
    let mut transfers: Vec<Transfer> = Vec::new();
    let mut i: usize = 0;
    assert(entries.subrange(0, 0) =~= Seq::<(Seq<char>, InvestmentView)>::empty());
    assert(transfers@.map_values(|t: Transfer| t@) =~= Seq::<TransferView>::empty());
    while i < rows.len()
        invariant
            0 <= i <= rows@.len(),
            entries == entries_of(rows@),
            all_payable(entries),
            day == (today.0 as int, today.1 as int, today.2 as int),
            transfers@.map_values(|t: Transfer| t@) == due_transfers(
                entries.subrange(0, i as int),
                day,
            ),
        decreases rows@.len() - i,
    {
        let row = &rows[i];
        let ghost before = transfers@.map_values(|t: Transfer| t@);
        proof {
            assert(entries[i as int] == (row.0@, row.1@));
            assert(entries[i as int].1.payable());
            let longer = entries.subrange(0, i + 1);
            assert(longer.drop_last() =~= entries.subrange(0, i as int));
            assert(longer.last() == entries[i as int]);
        }
        match next_payout(&row.1, today) {
            Some(payout) => {
                let transfer = Transfer {
                    receiver_id: row.0.clone(),
                    amount: payout.amount,
                    investment: InvestmentJson::from(payout.investment),
                };
                transfers.push(transfer);
                assert(transfers@.map_values(|t: Transfer| t@) =~= before.push(transfer@));
            },
            None => {},
        }
        i = i + 1;
    }
    assert(entries.subrange(0, i as int) =~= entries);
    transfers
}

/// Settles a dispatched transfer: the record to write into the ledger where
/// the transfer is confirmed, `None` where it failed and the ledger is to
/// stay as it is.
pub fn settle(confirmed: bool, investment: InvestmentJson) -> (commit: Option<Investment>)
    requires
        investment@.to_investment() is Some,
    ensures
        match commit {
            Some(record) => confirmed && investment@.to_investment() == Some(record@),
            None => !confirmed,
        },
{
    if confirmed {
        Some(Investment::from(investment))
    } else {
        None
    }
}

impl InvestorError {
    /// The message with which the request is turned down.
    pub fn message(&self) -> (text: String)
        ensures
            text@ == self.spec_message(),
    {
        match self {
            InvestorError::NotOwner => String::from_str(
                "Only the contract owner can add an investor.",
            ),
            InvestorError::InvalidDate => String::from_str(
                "Invalid date format. Please use YYYY-MM-DD format.",
            ),
            InvestorError::ZeroCycle => String::from_str("Cycle must be a positive integer."),
            InvestorError::ZeroVesting => String::from_str("Vesting must be a positive integer."),
            InvestorError::ZeroAmount => String::from_str(
                "Total amount must be a positive integer.",
            ),
            InvestorError::ExceedsSupply => String::from_str(
                "Total amount cannot exceed total supply.",
            ),
        }
    }

    /// The message of each error.
    pub open spec fn spec_message(&self) -> Seq<char> {
        match self {
            InvestorError::NotOwner => "Only the contract owner can add an investor."@,
            InvestorError::InvalidDate => "Invalid date format. Please use YYYY-MM-DD format."@,
            InvestorError::ZeroCycle => "Cycle must be a positive integer."@,
            InvestorError::ZeroVesting => "Vesting must be a positive integer."@,
            InvestorError::ZeroAmount => "Total amount must be a positive integer."@,
            InvestorError::ExceedsSupply => "Total amount cannot exceed total supply."@,
        }
    }
}

impl Transfer {
    /// The request that has this transfer made: the receiver, the amount in
    /// decimal notation, and no memo.
    pub fn request(&self) -> (request: TransferRequest)
        ensures
            request.receiver_id@ == self.receiver_id@,
            request.amount@ == decimal_text(self.amount as nat),
            request.memo is None,
    {
        TransferRequest {
            receiver_id: self.receiver_id.clone(),
            amount: amount_to_text(self.amount),
            memo: None,
        }
    }
}

impl Contract {
    /// The settings of a contract.
    pub fn new(owner_id: String, total_supply: u128, token_contract_address: String) -> (contract:
        Contract)
        ensures
            contract.owner_id@ == owner_id@,
            contract.token_contract_address@ == token_contract_address@,
            contract.total_supply == total_supply,
    {
        Contract { owner_id, token_contract_address, total_supply }
    }

    /// The ledger as it is listed: each beneficiary with its record in the
    /// travelling form, the amounts in decimal notation, in the ledger's
    /// order.
    pub fn get_all_investors(&self, rows: &Vec<(String, Investment)>) -> (result: Vec<
        (String, InvestmentJson),
    >)
        ensures
            result@.len() == rows@.len(),
            forall|i: int|
                0 <= i < result@.len() ==> (#[trigger] result@[i]).0@ == rows@[i].0@
                    && result@[i].1@ == rows@[i].1@.to_json(),
    {
        let mut result: Vec<(String, InvestmentJson)> = Vec::new();
        let mut i: usize = 0;
        while i < rows.len()
            invariant
                0 <= i <= rows@.len(),
                result@.len() == i,
                forall|k: int|
                    0 <= k < i ==> (#[trigger] result@[k]).0@ == rows@[k].0@ && result@[k].1@
                        == rows@[k].1@.to_json(),
            decreases rows@.len() - i,
        {
            let row = &rows[i];
            result.push((row.0.clone(), InvestmentJson::from(row.1.clone())));
            i = i + 1;
        }
        result
    }

    /// Decides on a request of the account that called the contract to
    /// create a record.
    ///
    /// Whoever called, a record is granted only where the owner would be
    /// granted it, and it is the record that `investment` states; a request
    /// is turned down either because the caller is not the owner or with the
    /// error that the owner would get.
    pub fn add_investor(&self, investment: InvestmentInput) -> (result: Result<
        Investment,
        InvestorError,
    >)
        ensures
            match result {
                Ok(record) => creation_outcome(
                    self.owner_id@,
                    self.total_supply,
                    self.owner_id@,
                    investment,
                ) == Ok::<InvestmentView, InvestorError>(record@) && record@.wf(),
                Err(error) => error == InvestorError::NotOwner || creation_outcome(
                    self.owner_id@,
                    self.total_supply,
                    self.owner_id@,
                    investment,
                ) == Err::<InvestmentView, InvestorError>(error),
            },
    {
        let caller = predecessor_account();
        create(&self.owner_id, self.total_supply, &caller, investment)
    }

    /// The transfers to dispatch now for the ledger `rows`: those that are
    /// due on the date of the current block.
    ///
    /// Whatever time the runtime reports, the transfers are those due on one
    /// day of the calendar from 1970 on.
    pub fn distribute_token(&self, rows: &Vec<(String, Investment)>) -> (transfers: Vec<Transfer>)
        requires
            all_payable(entries_of(rows@)),
        ensures
            exists|today: (int, int, int)|
                1970 <= today.0 && is_civil_date(today.0, today.1, today.2)
                    && transfers@.map_values(|t: Transfer| t@) == #[trigger] due_transfers(
                    entries_of(rows@),
                    today,
                ),
    {
        let today = get_current_date();
        let transfers = transfers_due(rows, today);
        assert(transfers@.map_values(|t: Transfer| t@) == due_transfers(
            entries_of(rows@),
            (today.0 as int, today.1 as int, today.2 as int),
        ));
        transfers
    }

    /// Settles a dispatched transfer, given what became of its promise: the
    /// record to write into the ledger where the promise succeeded, `None`
    /// where it failed and the ledger is to stay as it is.
    pub fn on_ft_transfer_success(
        &self,
        last_result: Result<(), PromiseError>,
        investment: InvestmentJson,
    ) -> (commit: Option<Investment>)
        requires
            investment@.to_investment() is Some,
        ensures
            match commit {
                Some(record) => last_result is Ok && investment@.to_investment() == Some(record@),
                None => last_result is Err,
            },
    {
        let confirmed = match last_result {
            Ok(_) => true,
            Err(_) => false,
        };
        settle(confirmed, investment)
    }
}

} // verus!
