//! The vesting record of one beneficiary, its states, and the forms in which
//! it travels.

use vstd::prelude::*;
use vstd::string::*;
use crate::calendar::{add_months, spec_add_month, spec_is_valid_date};
use crate::date_text::{
    date_text, format_date, is_valid_date_format, lemma_date_text_of_parse,
    lemma_parse_date_of_date_text, parse_date, parse_date_text, spec_is_valid_date_format,
};
use crate::decimal::{
    amount_to_text, decimal_text, lemma_parse_amount_of_decimal_text, parse_amount,
    spec_parse_amount,
};

verus! {

/// The record of one beneficiary: a total entitlement released in equal
/// installments.
#[derive(Debug)]
pub struct Investment {
    /// The date of reference of the first installment, as `YYYY-MM-DD`.
    pub start_date: String,
    /// The number of vesting periods.
    pub vesting: u8,
    /// The number of months between installments.
    pub cycle: u8,
    /// The number of installments that are still to be paid.
    pub remaining_payouts: u8,
    /// The whole entitlement, in the smallest unit of the token.
    pub total_amount: u128,
    /// What has been paid, in the same unit.
    pub paid_amount: u128,
    /// The due date of the installment that was paid last, as text; the date
    /// of reference until then.
    pub last_payment_date: String,
}

/// A record as it travels: the amounts in decimal notation.
#[derive(Debug)]
pub struct InvestmentJson {
    pub start_date: String,
    pub vesting: u8,
    pub cycle: u8,
    pub remaining_payouts: u8,
    pub total_amount: String,
    pub paid_amount: String,
    pub last_payment_date: String,
}

/// What an administrator states to open a record.
#[derive(Debug)]
pub struct InvestmentInput {
    pub start_date: String,
    pub vesting: u8,
    pub cycle: u8,
    pub total_amount: u128,
}

/// The mathematical value of a record.
pub struct InvestmentView {
    pub start_date: Seq<char>,
    pub vesting: nat,
    pub cycle: nat,
    pub remaining_payouts: nat,
    pub total_amount: nat,
    pub paid_amount: nat,
    pub last_payment_date: Seq<char>,
}

/// The mathematical value of a record as it travels.
pub struct InvestmentJsonView {
    pub start_date: Seq<char>,
    pub vesting: nat,
    pub cycle: nat,
    pub remaining_payouts: nat,
    pub total_amount: Seq<char>,
    pub paid_amount: Seq<char>,
    pub last_payment_date: Seq<char>,
}

impl View for Investment {
    type V = InvestmentView;

    open spec fn view(&self) -> InvestmentView {
        InvestmentView {
            start_date: self.start_date@,
            vesting: self.vesting as nat,
            cycle: self.cycle as nat,
            remaining_payouts: self.remaining_payouts as nat,
            total_amount: self.total_amount as nat,
            paid_amount: self.paid_amount as nat,
            last_payment_date: self.last_payment_date@,
        }
    }
}

impl View for InvestmentJson {
    type V = InvestmentJsonView;

    open spec fn view(&self) -> InvestmentJsonView {
        InvestmentJsonView {
            start_date: self.start_date@,
            vesting: self.vesting as nat,
            cycle: self.cycle as nat,
            remaining_payouts: self.remaining_payouts as nat,
            total_amount: self.total_amount@,
            paid_amount: self.paid_amount@,
            last_payment_date: self.last_payment_date@,
        }
    }
}

impl InvestmentView {
    /// The number of installments that the record starts with.
    pub open spec fn initial_payouts(self) -> nat {
        self.vesting / self.cycle
    }

    /// The amount of every installment but the last.
    pub open spec fn installment(self) -> nat {
        (self.total_amount / self.vesting) * self.cycle
    }

    /// The number of installments that have been paid.
    pub open spec fn payouts_done(self) -> int {
        self.initial_payouts() - self.remaining_payouts
    }

    /// No installment has been paid and the first one falls on the date of
    /// reference itself.
    pub open spec fn at_start(self) -> bool {
        self.remaining_payouts == self.vesting
    }

    /// What has been paid once `remaining` installments are left: the whole
    /// entitlement at the end, equal installments before.
    pub open spec fn paid_when(self, remaining: nat) -> int {
        if remaining == 0 && self.initial_payouts() > 0 {
            self.total_amount as int
        } else {
            (self.initial_payouts() - remaining) * self.installment()
        }
    }

    /// The number of months from the date of reference to the due date of
    /// the installment that was paid last. With one month to the cycle the
    /// first installment falls on the date of reference; with more, one cycle
    /// after it.
    pub open spec fn months_elapsed(self) -> int {
        if self.cycle == 1 {
            if self.payouts_done() >= 1 {
                self.payouts_done() - 1
            } else {
                0
            }
        } else {
            self.payouts_done() * self.cycle
        }
    }

    /// The date of reference in numbers.
    pub open spec fn start(self) -> (int, int, int) {
        parse_date_text(self.start_date).unwrap()
    }

    /// The due date of the installment that was paid last, the date of
    /// reference before the first.
    pub open spec fn last_payment(self) -> (int, int, int) {
        spec_add_month(self.start().0, self.start().1, self.start().2, self.months_elapsed())
    }

    /// The states that a record goes through from its creation on: the date
    /// of reference is a valid date, periods, cycle and entitlement are
    /// positive, and what is left to pay determines what was paid and when.
    pub open spec fn wf(self) -> bool {
        &&& spec_is_valid_date_format(self.start_date)
        &&& 0 < self.vesting <= u8::MAX
        &&& 0 < self.cycle <= u8::MAX
        &&& 0 < self.total_amount <= u128::MAX
        &&& self.remaining_payouts <= self.initial_payouts()
        &&& self.paid_amount == self.paid_when(self.remaining_payouts)
        &&& self.last_payment_date == date_text(
            self.last_payment().0,
            self.last_payment().1,
            self.last_payment().2,
        )
    }

    /// The record in the form in which it travels.
    pub open spec fn to_json(self) -> InvestmentJsonView {
        InvestmentJsonView {
            start_date: self.start_date,
            vesting: self.vesting,
            cycle: self.cycle,
            remaining_payouts: self.remaining_payouts,
            total_amount: decimal_text(self.total_amount),
            paid_amount: decimal_text(self.paid_amount),
            last_payment_date: self.last_payment_date,
        }
    }
}

impl InvestmentJsonView {
    /// The record that the travelling form denotes, if both of its amounts
    /// denote one.
    pub open spec fn to_investment(self) -> Option<InvestmentView> {
        match (spec_parse_amount(self.total_amount), spec_parse_amount(self.paid_amount)) {
            (Some(total), Some(paid)) => Some(
                InvestmentView {
                    start_date: self.start_date,
                    vesting: self.vesting,
                    cycle: self.cycle,
                    remaining_payouts: self.remaining_payouts,
                    total_amount: total as nat,
                    paid_amount: paid as nat,
                    last_payment_date: self.last_payment_date,
                },
            ),
            _ => None,
        }
    }
}

impl Clone for Investment {
    fn clone(&self) -> (copy: Self)
        ensures
            copy@ == self@,
    {
        Investment {
            start_date: self.start_date.clone(),
            vesting: self.vesting,
            cycle: self.cycle,
            remaining_payouts: self.remaining_payouts,
            total_amount: self.total_amount,
            paid_amount: self.paid_amount,
            last_payment_date: self.last_payment_date.clone(),
        }
    }
}

impl Clone for InvestmentJson {
    fn clone(&self) -> (copy: Self)
        ensures
            copy@ == self@,
    {
        InvestmentJson {
            start_date: self.start_date.clone(),
            vesting: self.vesting,
            cycle: self.cycle,
            remaining_payouts: self.remaining_payouts,
            total_amount: self.total_amount.clone(),
            paid_amount: self.paid_amount.clone(),
            last_payment_date: self.last_payment_date.clone(),
        }
    }
}

impl Clone for InvestmentInput {
    fn clone(&self) -> (copy: Self)
        ensures
            copy.start_date@ == self.start_date@,
            copy.vesting == self.vesting,
            copy.cycle == self.cycle,
            copy.total_amount == self.total_amount,
    {
        InvestmentInput {
            start_date: self.start_date.clone(),
            vesting: self.vesting,
            cycle: self.cycle,
            total_amount: self.total_amount,
        }
    }
}

impl InvestmentJson {
    /// The record in the form in which it travels: the amounts written in
    /// decimal notation, the rest unchanged.
    pub fn from(investment: Investment) -> (json: InvestmentJson)
        ensures
            json@ == investment@.to_json(),
    {
        let total_amount = amount_to_text(investment.total_amount);
        let paid_amount = amount_to_text(investment.paid_amount);
        InvestmentJson {
            start_date: investment.start_date,
            vesting: investment.vesting,
            cycle: investment.cycle,
            remaining_payouts: investment.remaining_payouts,
            total_amount,
            paid_amount,
            last_payment_date: investment.last_payment_date,
        }
    }
}

impl Investment {
    /// The record that a travelling form denotes, where both of its amounts
    /// denote one; `None` where one of them does not.
    pub fn checked_from(json: InvestmentJson) -> (investment: Option<Investment>)
        ensures
            match investment {
                Some(record) => json@.to_investment() == Some(record@),
                None => json@.to_investment() is None,
            },
    {
        let total = parse_amount(json.total_amount.as_str());
        let paid = parse_amount(json.paid_amount.as_str());
        match (total, paid) {
            (Some(total_amount), Some(paid_amount)) => Some(
                Investment {
                    start_date: json.start_date,
                    vesting: json.vesting,
                    cycle: json.cycle,
                    remaining_payouts: json.remaining_payouts,
                    total_amount,
                    paid_amount,
                    last_payment_date: json.last_payment_date,
                },
            ),
            _ => None,
        }
    }

    /// The record that a travelling form denotes. Both amounts must denote
    /// one.
    pub fn from(json: InvestmentJson) -> (investment: Investment)
        requires
            json@.to_investment() is Some,
        ensures
            json@.to_investment() == Some(investment@),
    {
        match Investment::checked_from(json) {
            Some(investment) => investment,
            None => unreached(),
        }
    }
}

/// Fewer equal installments than the record starts with never exceed the
/// entitlement.
pub proof fn lemma_installments_fit(record: InvestmentView, count: int)
    requires
        record.vesting > 0,
        record.cycle > 0,
        0 <= count < record.initial_payouts(),
    ensures
        0 <= count * record.installment() <= record.total_amount,
{
    let share = (record.total_amount / record.vesting) as int;
    let cycle = record.cycle as int;
    let vesting = record.vesting as int;
    let initial = record.initial_payouts() as int;
    assert(initial * cycle <= vesting) by (nonlinear_arith)
        requires
            initial == vesting / cycle,
            cycle > 0,
            vesting > 0,
    ;
    assert(count * cycle <= initial * cycle && 0 <= count * cycle) by (nonlinear_arith)
        requires
            0 <= count < initial,
            cycle > 0,
    ;
    assert(share * vesting <= record.total_amount) by (nonlinear_arith)
        requires
            share == record.total_amount / (vesting as nat),
            vesting > 0,
    ;
    assert(count * (share * cycle) <= share * vesting && 0 <= count * (share * cycle))
        by (nonlinear_arith)
        requires
            0 <= count * cycle <= vesting,
            0 <= share,
            0 <= count,
    ;
}

/// What a well-formed record says of its two dates: both read back as the
/// dates they were written from, and the last payment lies few enough years
/// after the date of reference.
pub proof fn lemma_wf_dates(record: InvestmentView)
    requires
        record.wf(),
    ensures
        parse_date_text(record.start_date) == Some(record.start()),
        record.start_date == date_text(record.start().0, record.start().1, record.start().2),
        spec_is_valid_date(record.start().0, record.start().1, record.start().2),
        parse_date_text(record.last_payment_date) == Some(record.last_payment()),
        0 <= record.months_elapsed() <= 255 * 255,
        2000 <= record.last_payment().0 <= 9999 + 5420,
        1 <= record.last_payment().1 <= 12,
        record.last_payment().2 == record.start().2,
        1 <= record.last_payment().2 <= 31,
{
    lemma_date_text_of_parse(record.start_date);
    let elapsed = record.months_elapsed();
    let done = record.payouts_done();
    assert(0 <= done <= 255);
    assert(0 <= elapsed <= 255 * 255) by (nonlinear_arith)
        requires
            0 <= done <= 255,
            0 < record.cycle <= 255,
            elapsed == (if record.cycle == 1 {
                if done >= 1 {
                    done - 1
                } else {
                    0
                }
            } else {
                done * record.cycle
            }),
    ;
    let last = record.last_payment();
    lemma_parse_date_of_date_text(last.0, last.1, last.2);
}

/// Only with one month to the cycle, and before any payment, are as many
/// installments left as there are vesting periods.
pub proof fn lemma_at_start(record: InvestmentView)
    requires
        record.wf(),
    ensures
        record.at_start() <==> record.cycle == 1 && record.payouts_done() == 0,
{
    let vesting = record.vesting as int;
    let cycle = record.cycle as int;
    assert(cycle >= 2 ==> vesting / cycle < vesting) by (nonlinear_arith)
        requires
            vesting > 0,
            cycle > 0,
    ;
    assert(cycle == 1 ==> vesting / cycle == vesting) by (nonlinear_arith);
}

impl InvestmentInput {
    /// The date of reference is a valid date, and periods, cycle and
    /// entitlement are positive.
    pub open spec fn acceptable(&self) -> bool {
        &&& spec_is_valid_date_format(self.start_date@)
        &&& self.cycle > 0
        &&& self.vesting > 0
        &&& self.total_amount > 0
    }

    /// The record that these statements open: nothing paid, as many
    /// installments left as cycles fit into the periods, and the date of
    /// reference as the date of the last payment.
    pub open spec fn opened(&self) -> InvestmentView {
        InvestmentView {
            start_date: self.start_date@,
            vesting: self.vesting as nat,
            cycle: self.cycle as nat,
            remaining_payouts: (self.vesting / self.cycle) as nat,
            total_amount: self.total_amount as nat,
            paid_amount: 0,
            last_payment_date: self.start_date@,
        }
    }
}

/// A newly opened record is well formed.
pub proof fn lemma_opened_wf(input: InvestmentInput)
    requires
        input.acceptable(),
    ensures
        input.opened().wf(),
{
    let record = input.opened();
    lemma_date_text_of_parse(record.start_date);
    assert(record.payouts_done() == 0);
    assert(record.months_elapsed() == 0) by (nonlinear_arith)
        requires
            record.payouts_done() == 0,
            record.months_elapsed() == (if record.cycle == 1 {
                if record.payouts_done() >= 1 {
                    record.payouts_done() - 1
                } else {
                    0
                }
            } else {
                record.payouts_done() * record.cycle
            }),
    ;
    assert(record.paid_when(record.remaining_payouts) == 0) by (nonlinear_arith)
        requires
            record.payouts_done() == 0,
            record.remaining_payouts == record.initial_payouts(),
            record.paid_when(record.remaining_payouts) == (if record.remaining_payouts == 0
                && record.initial_payouts() > 0 {
                record.total_amount as int
            } else {
                (record.initial_payouts() - record.remaining_payouts) * record.installment()
            }),
    ;
}

impl Investment {
    /// Opens the record that `input` states.
    pub fn open(input: InvestmentInput) -> (investment: Investment)
        requires
            input.acceptable(),
        ensures
            investment@ == input.opened(),
            investment@.wf(),
    {
        proof {
            lemma_opened_wf(input);
        }
        Investment {
            start_date: input.start_date.clone(),
            vesting: input.vesting,
            cycle: input.cycle,
            remaining_payouts: input.vesting / input.cycle,
            total_amount: input.total_amount,
            paid_amount: 0,
            last_payment_date: input.start_date,
        }
    }

    /// Whether the record is in one of the states that a record goes through
    /// from its creation on.
    pub fn is_well_formed(&self) -> (well_formed: bool)
        ensures
            well_formed == self@.wf(),
    {
        if !is_valid_date_format(self.start_date.as_str()) || self.vesting == 0 || self.cycle == 0
            || self.total_amount == 0 {
            return false;
        }
        let initial: u8 = self.vesting / self.cycle;
        if self.remaining_payouts > initial {
            return false;
        }
        let done: u8 = initial - self.remaining_payouts;
        let paid: u128 = if self.remaining_payouts == 0 && initial > 0 {
            self.total_amount
        } else if done == 0 {
            assert(0 * self@.installment() == 0) by (nonlinear_arith);
            0
        } else {
            proof {
                lemma_installments_fit(self@, done as int);
                lemma_installments_fit(self@, 1);
                assert(1 * self@.installment() == self@.installment()) by (nonlinear_arith);
            }
            (done as u128) * ((self.total_amount / self.vesting as u128) * self.cycle as u128)
        };
        if self.paid_amount != paid {
            return false;
        }
        let elapsed: u32 = if self.cycle == 1 {
            if done >= 1 {
                (done - 1) as u32
            } else {
                0
            }
        } else {
            assert(done * self.cycle <= 255 * 255) by (nonlinear_arith)
                requires
                    done <= 255,
                    self.cycle <= 255,
            ;
            (done as u32) * (self.cycle as u32)
        };
        proof {
            lemma_date_text_of_parse(self.start_date@);
        }
        match parse_date(self.start_date.as_str()) {
            Some((year, month, day)) => {
                let last = add_months(year, month, day, elapsed);
                let expected = format_date(last.0, last.1, last.2);
                self.last_payment_date == expected
            },
            None => false,
        }
    }
}

/// A record that is put into its travelling form and read back is unchanged.
pub proof fn lemma_json_round_trip(record: InvestmentView)
    requires
        record.total_amount <= u128::MAX,
        record.paid_amount <= u128::MAX,
    ensures
        record.to_json().to_investment() == Some(record),
{
    lemma_parse_amount_of_decimal_text(record.total_amount as u128);
    lemma_parse_amount_of_decimal_text(record.paid_amount as u128);
}

} // verus!
