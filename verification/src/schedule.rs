//! The payout scheduler: which installment of a record is due on a given
//! day, what it amounts to, and the record as it stands once the installment
//! is paid.

use vstd::prelude::*;
use vstd::string::*;
use crate::calendar::{add_month, date_key, date_order_key, spec_add_month};
use crate::date_text::{date_text, format_date, parse_date, parse_date_text};
use crate::investment::{
    lemma_at_start, lemma_installments_fit, lemma_wf_dates, Investment, InvestmentView,
};

verus! {

/// An installment that is due: its amount, and the record as it stands once
/// the installment is paid. The record in the ledger is not touched.
#[derive(Debug)]
pub struct Payout {
    pub amount: u128,
    pub investment: Investment,
}

impl InvestmentView {
    /// The due date of the next installment: the date of reference while no
    /// installment has been paid and the first one falls on it, else one
    /// cycle after the due date of the installment that was paid last.
    pub open spec fn due_date(self) -> (int, int, int) {
        if self.at_start() {
            parse_date_text(self.start_date).unwrap()
        } else {
            let last = parse_date_text(self.last_payment_date).unwrap();
            spec_add_month(last.0, last.1, last.2, self.cycle as int)
        }
    }

    /// An installment is left and its due date is not after `today`.
    pub open spec fn is_due(self, today: (int, int, int)) -> bool {
        self.remaining_payouts > 0 && date_key(
            self.due_date().0,
            self.due_date().1,
            self.due_date().2,
        ) <= date_key(today.0, today.1, today.2)
    }

    /// The amount of the next installment: the last one is all that is
    /// still unpaid, every other one the equal share.
    pub open spec fn payout_amount(self) -> int {
        if self.remaining_payouts == 1 {
            self.total_amount - self.paid_amount
        } else {
            self.installment() as int
        }
    }

    /// The record once the next installment is paid. The date of the last
    /// payment moves to the due date, except where the installment fell on
    /// the date of reference.
    pub open spec fn after_payout(self) -> InvestmentView {
        InvestmentView {
            remaining_payouts: (self.remaining_payouts - 1) as nat,
            paid_amount: (self.paid_amount + self.payout_amount()) as nat,
            last_payment_date: if self.at_start() {
                self.last_payment_date
            } else {
                date_text(self.due_date().0, self.due_date().1, self.due_date().2)
            },
            ..self
        }
    }
}

impl InvestmentView {
    /// The next installment, if one is left, can be computed: the date that
    /// its due date is taken from reads as a date, the due date's year fits
    /// in 32 bits, and the amounts stay within 128 bits. The last installment
    /// asks that no more was paid than the entitlement, every other one that
    /// there is at least one vesting period.
    pub open spec fn payable(self) -> bool {
        self.remaining_payouts > 0 ==> {
            &&& if self.at_start() {
                parse_date_text(self.start_date) is Some
            } else {
                &&& parse_date_text(self.last_payment_date) is Some
                &&& parse_date_text(self.last_payment_date).unwrap().1 + self.cycle >= 1
                &&& parse_date_text(self.last_payment_date).unwrap().0 + (parse_date_text(
                    self.last_payment_date,
                ).unwrap().1 + self.cycle - 1) / 12 <= i32::MAX
            }
            &&& if self.remaining_payouts == 1 {
                self.paid_amount <= self.total_amount
            } else {
                self.vesting > 0 && self.paid_amount + self.installment() <= u128::MAX
            }
        }
    }
}

/// The next installment of a well-formed record can be computed.
pub proof fn lemma_wf_payable(record: InvestmentView)
    requires
        record.wf(),
    ensures
        record.payable(),
{
    if record.remaining_payouts > 0 {
        lemma_wf_dates(record);
        lemma_after_payout_wf(record);
    }
}

/// Paying the next installment of a well-formed record leaves a well-formed
/// record: the amounts stay within the entitlement, and the last installment
/// brings what was paid to exactly the entitlement.
pub proof fn lemma_after_payout_wf(record: InvestmentView)
    requires
        record.wf(),
        record.remaining_payouts > 0,
    ensures
        record.after_payout().wf(),
        0 <= record.payout_amount(),
        record.paid_amount + record.payout_amount() <= record.total_amount,
        record.remaining_payouts > 1 ==> record.installment() <= record.total_amount,
        record.remaining_payouts == 1 ==> record.after_payout().paid_amount
            == record.total_amount,
        record.due_date().0 <= 9999 + 5420 + 22,
        0 <= record.due_date().0,
        1 <= record.due_date().1 <= 12,
        1 <= record.due_date().2 <= 31,
{
    lemma_wf_dates(record);
    let done = record.payouts_done();
    let share = record.installment() as int;
    lemma_installments_fit(record, done);
    if record.remaining_payouts > 1 {
        lemma_installments_fit(record, done + 1);
        lemma_installments_fit(record, 1);
        assert((done + 1) * share == done * share + share) by (nonlinear_arith);
        assert(1 * share == share) by (nonlinear_arith);
    }
    let next = record.after_payout();
    assert(next.start() == record.start());
    assert(next.payouts_done() == done + 1);
    lemma_at_start(record);
    if record.at_start() {
        assert(next.months_elapsed() == 0);
        assert(record.months_elapsed() == 0);
    } else {
        assert(next.months_elapsed() == record.months_elapsed() + record.cycle) by (nonlinear_arith)
            requires
                next.payouts_done() == done + 1,
                next.cycle == record.cycle,
                record.cycle >= 1,
                done >= 0,
                record.cycle == 1 ==> done >= 1,
                next.months_elapsed() == (if next.cycle == 1 {
                    if next.payouts_done() >= 1 {
                        next.payouts_done() - 1
                    } else {
                        0
                    }
                } else {
                    next.payouts_done() * next.cycle
                }),
                record.months_elapsed() == (if record.cycle == 1 {
                    if done >= 1 {
                        done - 1
                    } else {
                        0
                    }
                } else {
                    done * record.cycle
                }),
        ;
        assert(next.last_payment() == record.due_date());
    }
}

impl InvestmentView {
    /// The record once its next `count` installments are paid.
    pub open spec fn after_payouts(self, count: nat) -> InvestmentView
        decreases count,
    {
        if count == 0 {
            self
        } else {
            self.after_payouts((count - 1) as nat).after_payout()
        }
    }
}

/// A record of which every installment is paid has paid out exactly its
/// entitlement, whether or not the entitlement divides evenly. This holds of
/// records that start with an installment: with fewer vesting periods than
/// months to the cycle a record starts with none, and pays nothing.
pub proof fn lemma_fully_paid(record: InvestmentView)
    requires
        record.wf(),
        record.vesting >= record.cycle,
        record.remaining_payouts == 0,
    ensures
        record.paid_amount == record.total_amount,
{
    let vesting = record.vesting as int;
    let cycle = record.cycle as int;
    assert(vesting / cycle >= 1) by (nonlinear_arith)
        requires
            vesting >= cycle,
            cycle > 0,
    ;
}

/// Paying installments one after the other, as many as are left, keeps the
/// record well formed and counts the installments down.
pub proof fn lemma_after_payouts(record: InvestmentView, count: nat)
    requires
        record.wf(),
        count <= record.remaining_payouts,
    ensures
        record.after_payouts(count).wf(),
        record.after_payouts(count).remaining_payouts == record.remaining_payouts - count,
        record.after_payouts(count).paid_amount <= record.total_amount,
        record.after_payouts(count).start_date == record.start_date,
        record.after_payouts(count).vesting == record.vesting,
        record.after_payouts(count).cycle == record.cycle,
        record.after_payouts(count).total_amount == record.total_amount,
    decreases count,
{
    if count > 0 {
        lemma_after_payouts(record, (count - 1) as nat);
        lemma_after_payout_wf(record.after_payouts((count - 1) as nat));
    } else {
        if record.remaining_payouts > 0 {
            lemma_after_payout_wf(record);
        } else if record.initial_payouts() > 0 {
        } else {
            assert(record.paid_amount == 0) by (nonlinear_arith)
                requires
                    record.paid_amount == (record.initial_payouts() - record.remaining_payouts)
                        * record.installment(),
                    record.initial_payouts() == 0,
                    record.remaining_payouts == 0,
            ;
        }
    }
}

/// A record that is opened with at least one installment and paid
/// installment by installment until none is left has then paid exactly its
/// entitlement.
pub proof fn lemma_paid_in_full(input: crate::investment::InvestmentInput)
    requires
        input.acceptable(),
        input.vesting >= input.cycle,
    ensures
        input.opened().after_payouts(input.opened().remaining_payouts).remaining_payouts == 0,
        input.opened().after_payouts(input.opened().remaining_payouts).paid_amount
            == input.total_amount,
{
    let record = input.opened();
    crate::investment::lemma_opened_wf(input);
    lemma_after_payouts(record, record.remaining_payouts);
    lemma_fully_paid(record.after_payouts(record.remaining_payouts));
}

/// The next installment of a record, if one is due on `today`.
///
/// `None` where no installment is left or the next one falls due after
/// `today`. Otherwise the amount to transfer and the record as it is to
/// stand once the transfer is confirmed; of a well-formed record that record
/// is well formed again.
pub fn next_payout(investment: &Investment, today: (i32, u32, u32)) -> (payout: Option<Payout>)
    requires
        investment@.payable(),
    ensures
        match payout {
            Some(due) => {
                &&& investment@.is_due((today.0 as int, today.1 as int, today.2 as int))
                &&& due.amount == investment@.payout_amount()
                &&& due.investment@ == investment@.after_payout()
                &&& investment@.wf() ==> due.investment@.wf()
            },
            None => !investment@.is_due((today.0 as int, today.1 as int, today.2 as int)),
        },
{
    if investment.remaining_payouts == 0 {
        return None;
    }
    let first = investment.vesting == investment.remaining_payouts;
    let due = if first {
        match parse_date(investment.start_date.as_str()) {
            Some(date) => date,
            None => unreached(),
        }
    } else {
        match parse_date(investment.last_payment_date.as_str()) {
            Some((year, month, day)) => add_month(year, month, day, investment.cycle),
            None => unreached(),
        }
    };
    if date_order_key(due.0, due.1, due.2) > date_order_key(today.0, today.1, today.2) {
        return None;
    }
    let amount = if investment.remaining_payouts == 1 {
        investment.total_amount - investment.paid_amount
    } else {
        (investment.total_amount / investment.vesting as u128) * investment.cycle as u128
    };
    let last_payment_date = if first {
        investment.last_payment_date.clone()
    } else {
        format_date(due.0, due.1, due.2)
    };
    proof {
        if investment@.wf() {
            lemma_after_payout_wf(investment@);
        }
    }
    Some(
        Payout {
            amount,
            investment: Investment {
                start_date: investment.start_date.clone(),
                vesting: investment.vesting,
                cycle: investment.cycle,
                remaining_payouts: investment.remaining_payouts - 1,
                total_amount: investment.total_amount,
                paid_amount: investment.paid_amount + amount,
                last_payment_date,
            },
        },
    )
}

impl Investment {
    /// Whether the next installment, if one is left, can be computed.
    pub fn is_payable(&self) -> (payable: bool)
        ensures
            payable == self@.payable(),
    {
        if self.remaining_payouts == 0 {
            return true;
        }
        let dated = if self.vesting == self.remaining_payouts {
            parse_date(self.start_date.as_str()).is_some()
        } else {
            match parse_date(self.last_payment_date.as_str()) {
                Some((year, month, _)) => {
                    let raw: i64 = month as i64 + self.cycle as i64 - 1;
                    raw >= 0 && year as i64 + raw / 12 <= 2147483647
                },
                None => false,
            }
        };
        if !dated {
            return false;
        }
        if self.remaining_payouts == 1 {
            self.paid_amount <= self.total_amount
        } else if self.vesting == 0 {
            false
        } else {
            match (self.total_amount / self.vesting as u128).checked_mul(self.cycle as u128) {
                Some(share) => self.paid_amount.checked_add(share).is_some(),
                None => false,
            }
        }
    }
}

} // verus!
