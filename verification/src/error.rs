//! The reasons for which the contract refuses a call.

use vstd::prelude::*;

verus! {

/// Why a call was refused. A refused call leaves the ledger as it was.
#[derive(Clone, Copy, Debug, PartialEq, Eq, Structural)]
pub enum Error {
    /// The address that must authorise the call has not done so.
    Unauthorized,
    /// No admin has been set.
    NotInitialized,
    /// A protocol fee above one hundred percent.
    FeeTooHigh,
    /// A token that is not on the whitelist.
    TokenNotWhitelisted,
    /// `recipients` and `amounts` differ in length.
    AmountsLengthMismatch,
    /// `recipients` and `tokens` differ in length.
    TokensLengthMismatch,
    /// An invoice without recipients.
    NoRecipients,
    /// A deadline at or before the present.
    DeadlineNotInFuture,
    /// An amount owed that is zero or negative.
    AmountNotPositive,
    /// A subscription over no month, or over more than a year.
    MonthsOutOfRange,
    /// No invoice has this id.
    InvoiceNotFound,
    /// The invoice is frozen.
    InvoiceFrozen,
    /// The invoice has been released, refunded or cancelled.
    NotPending,
    /// The invoice can no longer be paid.
    DeadlinePassed,
    /// A payment that is zero or negative.
    PaymentNotPositive,
    /// A payment above what is still owed.
    PaymentExceedsRemaining,
    /// The invoice names no token to pay in.
    NoToken,
    /// Less has been paid than is owed.
    NotFullyFunded,
    /// A refund of an invoice towards which all that is owed has been paid.
    FullyFunded,
    /// The invoice can still be paid.
    DeadlineNotPassed,
    /// A cancellation by someone other than the creator.
    NotCreatorCancelling,
    /// A cancellation of an invoice that has been paid towards.
    HasPayments,
    /// An extension by someone other than the creator.
    NotCreatorExtending,
    /// A new deadline at or before the present.
    NewDeadlineNotInFuture,
    /// The invoice is neither released nor refunded.
    NotFinalized,
    /// A recipient for whom the invoice holds no amount or no token.
    MissingShare,
    /// A result that its integer type cannot hold.
    Overflow,
}

impl Error {
    /// The text that a refusal is reported with.
    pub open spec fn text(self) -> Seq<char> {
        match self {
            Error::Unauthorized => "authorization is missing"@,
            Error::NotInitialized => "contract not initialized"@,
            Error::FeeTooHigh => "fee_bps must be <= 10000"@,
            Error::TokenNotWhitelisted => "token not whitelisted"@,
            Error::AmountsLengthMismatch => "recipients and amounts length mismatch"@,
            Error::TokensLengthMismatch => "recipients and tokens length mismatch"@,
            Error::NoRecipients => "must have at least one recipient"@,
            Error::DeadlineNotInFuture => "deadline must be in the future"@,
            Error::AmountNotPositive => "amounts must be positive"@,
            Error::MonthsOutOfRange => "months must be between 1 and 12"@,
            Error::InvoiceNotFound => "invoice not found"@,
            Error::InvoiceFrozen => "invoice is frozen"@,
            Error::NotPending => "invoice is not pending"@,
            Error::DeadlinePassed => "invoice deadline has passed"@,
            Error::PaymentNotPositive => "payment amount must be positive"@,
            Error::PaymentExceedsRemaining => "payment exceeds remaining balance"@,
            Error::NoToken => "no token"@,
            Error::NotFullyFunded => "invoice not fully funded"@,
            Error::FullyFunded => "invoice is fully funded"@,
            Error::DeadlineNotPassed => "deadline has not passed"@,
            Error::NotCreatorCancelling => "only creator can cancel"@,
            Error::HasPayments => "cannot cancel invoice with payments"@,
            Error::NotCreatorExtending => "only creator can extend deadline"@,
            Error::NewDeadlineNotInFuture => "new deadline must be in the future"@,
            Error::NotFinalized => "invoice not finalized"@,
            Error::MissingShare => "recipient without amount or token"@,
            Error::Overflow => "arithmetic overflow"@,
        }
    }

    /// The text that a refusal is reported with.
    pub fn message(&self) -> (text: &'static str)
        ensures
            text@ == self.text(),
    {
        match self {
            Error::Unauthorized => "authorization is missing",
            Error::NotInitialized => "contract not initialized",
            Error::FeeTooHigh => "fee_bps must be <= 10000",
            Error::TokenNotWhitelisted => "token not whitelisted",
            Error::AmountsLengthMismatch => "recipients and amounts length mismatch",
            Error::TokensLengthMismatch => "recipients and tokens length mismatch",
            Error::NoRecipients => "must have at least one recipient",
            Error::DeadlineNotInFuture => "deadline must be in the future",
            Error::AmountNotPositive => "amounts must be positive",
            Error::MonthsOutOfRange => "months must be between 1 and 12",
            Error::InvoiceNotFound => "invoice not found",
            Error::InvoiceFrozen => "invoice is frozen",
            Error::NotPending => "invoice is not pending",
            Error::DeadlinePassed => "invoice deadline has passed",
            Error::PaymentNotPositive => "payment amount must be positive",
            Error::PaymentExceedsRemaining => "payment exceeds remaining balance",
            Error::NoToken => "no token",
            Error::NotFullyFunded => "invoice not fully funded",
            Error::FullyFunded => "invoice is fully funded",
            Error::DeadlineNotPassed => "deadline has not passed",
            Error::NotCreatorCancelling => "only creator can cancel",
            Error::HasPayments => "cannot cancel invoice with payments",
            Error::NotCreatorExtending => "only creator can extend deadline",
            Error::NewDeadlineNotInFuture => "new deadline must be in the future",
            Error::NotFinalized => "invoice not finalized",
            Error::MissingShare => "recipient without amount or token",
            Error::Overflow => "arithmetic overflow",
        }
    }
}

} // verus!
