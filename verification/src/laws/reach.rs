//! What holds of every ledger that can be reached.

use vstd::prelude::*;

use crate::laws::history;
use crate::laws::money;
use crate::laws::soundness::{self, Call};
use crate::ledger::{LedgerView, StorageView};
use crate::types::Address;

verus! {

/// A call, with the time at which it is made and the addresses that authorise it.
pub struct Step {
    pub timestamp: u64,
    pub authorized: Seq<Address>,
    pub call: Call,
}

impl LedgerView {
    /// The ledger as the call of `step` finds it.
    pub open spec fn at(self, step: Step) -> LedgerView {
        LedgerView { timestamp: step.timestamp, authorized: step.authorized, ..self }
    }

    /// The ledger after the call of `step`: as the call leaves it, or as it was if
    /// the call was refused.
    pub open spec fn after_step(self, step: Step) -> LedgerView {
        if self.at(step).refusal(step.call) is None {
            self.at(step).after(step.call)
        } else {
            self.at(step)
        }
    }

    /// The ledger after `steps`, one after the other.
    pub open spec fn after_steps(self, steps: Seq<Step>) -> LedgerView
        decreases steps.len(),
    {
        if steps.len() == 0 {
            self
        } else {
            self.after_steps(steps.drop_last()).after_step(steps.last())
        }
    }

    /// A ledger on which the contract at `contract` has stored nothing and from
    /// which it has asked for nothing.
    pub open spec fn blank(contract: Address) -> LedgerView {
        LedgerView {
            timestamp: 0,
            contract,
            authorized: Seq::empty(),
            storage: StorageView::empty(),
            effects: Seq::empty(),
        }
    }
}

/// Calls do not change the contract's address.
proof fn lemma_contract_stays(ledger: LedgerView, call: Call)
    ensures
        ledger.after(call).contract == ledger.contract,
{
    if let Call::BatchPay { payer, payments } = call {
        lemma_contract_stays_over_payments(ledger, payer, payments);
    }
}

proof fn lemma_contract_stays_over_payments(
    ledger: LedgerView,
    payer: Address,
    payments: Seq<(u64, i128)>,
)
    ensures
        ledger.after_payments(payer, payments).contract == ledger.contract,
    decreases payments.len(),
{
    if payments.len() > 0 {
        lemma_contract_stays_over_payments(ledger, payer, payments.drop_last());
    }
}

proof fn lemma_steps_keep_soundness(ledger: LedgerView, steps: Seq<Step>)
    requires
        ledger.storage.sound(),
    ensures
        ledger.after_steps(steps).storage.sound(),
        ledger.after_steps(steps).contract == ledger.contract,
    decreases steps.len(),
{
    if steps.len() > 0 {
        let before = ledger.after_steps(steps.drop_last());
        let step = steps.last();
        lemma_steps_keep_soundness(ledger, steps.drop_last());
        if before.at(step).refusal(step.call) is None {
            soundness::law_calls_keep_soundness(before.at(step), step.call);
        }
        lemma_contract_stays(before.at(step), step.call);
    }
}

/// Whatever calls have been made, by whomever and whenever, the ledger is sound.
pub proof fn law_reachable_ledgers_are_sound(contract: Address, steps: Seq<Step>)
    ensures
        LedgerView::blank(contract).after_steps(steps).storage.sound(),
{
    soundness::law_empty_storage_is_sound();
    lemma_steps_keep_soundness(LedgerView::blank(contract), steps);
}

/// Whatever calls follow, what has been stays: no invoice is lost, none that is
/// closed is reopened, and no payment or audit entry is taken back.
pub proof fn law_the_past_stays(contract: Address, past: Seq<Step>, later: Seq<Step>)
    ensures
        LedgerView::blank(contract).after_steps(past + later).storage.continues(
            LedgerView::blank(contract).after_steps(past).storage,
        ),
    decreases later.len(),
{
    let blank = LedgerView::blank(contract);
    let start = blank.after_steps(past);
    law_reachable_ledgers_are_sound(contract, past);
    if later.len() == 0 {
        assert(past + later =~= past);
        lemma_continues_itself(start.storage);
    } else {
        let shorter = past + later.drop_last();
        let step = later.last();
        law_the_past_stays(contract, past, later.drop_last());
        law_reachable_ledgers_are_sound(contract, shorter);
        assert((past + later).drop_last() =~= shorter);
        let before = blank.after_steps(shorter);
        if before.at(step).refusal(step.call) is None {
            history::law_calls_keep_history(before.at(step), step.call);
            history::law_history_carries_over(
                start.storage,
                before.storage,
                before.after_step(step).storage,
            );
        }
    }
}

proof fn lemma_continues_itself(storage: StorageView)
    ensures
        storage.continues(storage),
{
    assert forall|id: u64| #[trigger] storage.invoices.contains_key(id) implies {
        &&& storage.invoices[id].continues(storage.invoices[id])
        &&& storage.log_of(id).is_prefix_of(storage.log_of(id))
    } by {
        assert(storage.invoices[id].with_frozen(storage.invoices[id].frozen)
            =~= storage.invoices[id]);
    }
}

/// A freeze lasts: whatever calls follow, an invoice that is frozen stays frozen
/// until it is unfrozen.
pub proof fn law_freeze_lasts(contract: Address, past: Seq<Step>, later: Seq<Step>, id: u64)
    requires
        ({
            let found = LedgerView::blank(contract).after_steps(past).storage;
            found.invoices.contains_key(id) && found.invoices[id].frozen
        }),
        forall|n: int| 0 <= n < later.len() ==> (#[trigger] later[n]).call != (Call::Unfreeze { id }),
    ensures
        ({
            let reached = LedgerView::blank(contract).after_steps(past + later).storage;
            reached.invoices.contains_key(id) && reached.invoices[id].frozen
        }),
    decreases later.len(),
{
    let blank = LedgerView::blank(contract);
    if later.len() == 0 {
        assert(past + later =~= past);
    } else {
        let shorter = past + later.drop_last();
        let step = later[later.len() - 1];
        assert forall|n: int| 0 <= n < later.drop_last().len() implies (
        #[trigger] later.drop_last()[n]).call != (Call::Unfreeze { id }) by {
            assert(later.drop_last()[n] == later[n]);
        }
        law_freeze_lasts(contract, past, later.drop_last(), id);
        law_reachable_ledgers_are_sound(contract, shorter);
        assert((past + later).drop_last() =~= shorter);
        let found = blank.after_steps(shorter).at(step);
        if found.refusal(step.call) is None {
            history::law_calls_keep_the_freeze(found, step.call, id);
        }
    }
}

/// Whatever calls follow, an invoice that is not frozen stays so until it is frozen.
pub proof fn law_unfrozen_invoices_stay_unfrozen(
    contract: Address,
    past: Seq<Step>,
    later: Seq<Step>,
    id: u64,
)
    requires
        ({
            let found = LedgerView::blank(contract).after_steps(past).storage;
            found.invoices.contains_key(id) && !found.invoices[id].frozen
        }),
        forall|n: int| 0 <= n < later.len() ==> (#[trigger] later[n]).call != (Call::Freeze { id }),
    ensures
        ({
            let reached = LedgerView::blank(contract).after_steps(past + later).storage;
            reached.invoices.contains_key(id) && !reached.invoices[id].frozen
        }),
    decreases later.len(),
{
    let blank = LedgerView::blank(contract);
    if later.len() == 0 {
        assert(past + later =~= past);
    } else {
        let shorter = past + later.drop_last();
        let step = later[later.len() - 1];
        assert forall|n: int| 0 <= n < later.drop_last().len() implies (
        #[trigger] later.drop_last()[n]).call != (Call::Freeze { id }) by {
            assert(later.drop_last()[n] == later[n]);
        }
        law_unfrozen_invoices_stay_unfrozen(contract, past, later.drop_last(), id);
        law_reachable_ledgers_are_sound(contract, shorter);
        assert((past + later).drop_last() =~= shorter);
        let found = blank.after_steps(shorter).at(step);
        if found.refusal(step.call) is None {
            history::law_calls_keep_the_freeze(found, step.call, id);
        }
    }
}

/// The call of `step`, unless it is refused, keeps the funds of invoices apart.
pub open spec fn stays_apart(ledger: LedgerView, step: Step, token: Address) -> bool {
    ledger.at(step).refusal(step.call) is None ==> money::keeps_accounts_apart(
        ledger.at(step),
        step.call,
        token,
    )
}

/// Whatever calls have been made, what the contract has taken in of a token, less
/// what it has paid out, covers what it holds of the token for payers; so every
/// pending invoice in it can be refunded. Left out are releases that pay in a token
/// other than the one that was paid in, and payments by the contract to itself;
/// calls that are refused may be any.
pub proof fn law_payers_are_covered(contract: Address, steps: Seq<Step>, token: Address)
    requires
        forall|n: int|
            0 <= n < steps.len() ==> stays_apart(
                #[trigger] LedgerView::blank(contract).after_steps(steps.take(n)),
                steps[n],
                token,
            ),
    ensures
        ({
            let reached = LedgerView::blank(contract).after_steps(steps);
            money::balance_effect(reached.effects, contract, token) >= money::held(
                reached.storage,
                token,
            )
        }),
    decreases steps.len(),
{
    let blank = LedgerView::blank(contract);
    if steps.len() > 0 {
        let earlier = steps.drop_last();
        let m = steps.len() - 1;
        assert forall|n: int| 0 <= n < earlier.len() implies stays_apart(
            #[trigger] blank.after_steps(earlier.take(n)),
            earlier[n],
            token,
        ) by {
            assert(earlier.take(n) =~= steps.take(n));
            assert(stays_apart(blank.after_steps(steps.take(n)), steps[n], token));
        }
        law_payers_are_covered(contract, earlier, token);
        assert(steps.take(m) =~= earlier);
        let before = blank.after_steps(earlier);
        let found = before.at(steps[m]);
        assert(stays_apart(blank.after_steps(steps.take(m)), steps[m], token));
        soundness::law_empty_storage_is_sound();
        lemma_steps_keep_soundness(blank, earlier);
        if found.refusal(steps[m].call) is None {
            money::law_balance_covers_what_is_held(found, steps[m].call, token);
        }
    }
}

} // verus!
