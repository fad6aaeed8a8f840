//! What the contract sees of the ledger while it serves a call: the time, its
//! own address, who has authorised the call, its persistent storage, and the
//! effects that it asks the host for.

use vstd::prelude::*;

use crate::error::Error;
use crate::table::{Duplicate, Table};
use crate::types::{
    Action, Address, AuditEntry, Effect, EffectView, Invoice, InvoiceView, PlanKey,
    SubscriptionParams, SubscriptionParamsView,
};

verus! {

/// The contract's persistent entries. An entry that was never written is `None`,
/// or absent from its table.
pub struct Storage {
    /// The id of the newest invoice.
    pub counter: Option<u64>,
    pub admin: Option<Address>,
    pub treasury: Option<Address>,
    /// The protocol fee, in hundredths of a percent.
    pub fee_bps: Option<u32>,
    /// The tokens that invoices may be made out in; any token where it is `None`.
    pub whitelist: Option<Vec<Address>>,
    pub invoices: Table<u64, Invoice>,
    pub logs: Table<u64, Vec<AuditEntry>>,
    pub subscriptions: Table<u64, SubscriptionParams>,
    /// The ids of the invoices of each creator, oldest first.
    pub creators: Table<Address, Vec<u64>>,
    /// Installment plans: when a payer means to pay how much.
    pub plans: Table<PlanKey, Vec<(u64, i128)>>,
}

/// The mathematical content of [`Storage`].
#[verifier::ext_equal]
pub struct StorageView {
    pub counter: Option<u64>,
    pub admin: Option<Address>,
    pub treasury: Option<Address>,
    pub fee_bps: Option<u32>,
    pub whitelist: Option<Set<Address>>,
    pub invoices: Map<u64, InvoiceView>,
    pub logs: Map<u64, Seq<AuditEntry>>,
    pub subscriptions: Map<u64, SubscriptionParamsView>,
    pub creators: Map<Address, Seq<u64>>,
    pub plans: Map<PlanKey, Seq<(u64, i128)>>,
}

impl View for Storage {
    type V = StorageView;

    open spec fn view(&self) -> StorageView {
        StorageView {
            counter: self.counter,
            admin: self.admin,
            treasury: self.treasury,
            fee_bps: self.fee_bps,
            whitelist: match self.whitelist {
                Some(tokens) => Some(tokens@.to_set()),
                None => None,
            },
            invoices: self.invoices@,
            logs: self.logs@,
            subscriptions: self.subscriptions@,
            creators: self.creators@,
            plans: self.plans@,
        }
    }
}

impl StorageView {
    /// Storage to which nothing has been written.
    pub open spec fn empty() -> StorageView {
        StorageView {
            counter: None,
            admin: None,
            treasury: None,
            fee_bps: None,
            whitelist: None,
            invoices: Map::empty(),
            logs: Map::empty(),
            subscriptions: Map::empty(),
            creators: Map::empty(),
            plans: Map::empty(),
        }
    }

    /// The id of the newest invoice; zero before the first.
    pub open spec fn last_id(self) -> u64 {
        match self.counter {
            Some(id) => id,
            None => 0,
        }
    }

    /// The ids of the invoices that `creator` has made, oldest first.
    pub open spec fn ids_of(self, creator: Address) -> Seq<u64> {
        if self.creators.contains_key(creator) {
            self.creators[creator]
        } else {
            Seq::empty()
        }
    }

    /// The audit log of an invoice, oldest entry first.
    pub open spec fn log_of(self, id: u64) -> Seq<AuditEntry> {
        if self.logs.contains_key(id) {
            self.logs[id]
        } else {
            Seq::empty()
        }
    }

    /// The installment plan of `payer` for an invoice.
    pub open spec fn plan_of(self, payer: Address, invoice_id: u64) -> Seq<(u64, i128)> {
        let key = PlanKey { payer, invoice_id };
        if self.plans.contains_key(key) {
            self.plans[key]
        } else {
            Seq::empty()
        }
    }
}

impl Storage {
    /// Storage to which nothing has been written.
    pub fn new() -> (r: Self)
        ensures
            r@ == StorageView::empty(),
    {
        Storage {
            counter: None,
            admin: None,
            treasury: None,
            fee_bps: None,
            whitelist: None,
            invoices: Table::new(),
            logs: Table::new(),
            subscriptions: Table::new(),
            creators: Table::new(),
            plans: Table::new(),
        }
    }

    /// The id of the newest invoice; zero before the first.
    pub fn last_id(&self) -> (r: u64)
        ensures
            r == self@.last_id(),
    {
        match self.counter {
            Some(id) => id,
            None => 0,
        }
    }
}

impl Duplicate for Storage {
    fn duplicate(&self) -> (r: Self) {
        Storage {
            counter: self.counter,
            admin: self.admin,
            treasury: self.treasury,
            fee_bps: self.fee_bps,
            whitelist: match &self.whitelist {
                Some(tokens) => Some(tokens.duplicate()),
                None => None,
            },
            invoices: self.invoices.duplicate(),
            logs: self.logs.duplicate(),
            subscriptions: self.subscriptions.duplicate(),
            creators: self.creators.duplicate(),
            plans: self.plans.duplicate(),
        }
    }
}

/// The ledger as one call of the contract sees it.
pub struct Ledger {
    /// The time of the ledger, in seconds.
    pub timestamp: u64,
    /// The contract's own address.
    pub contract: Address,
    /// The addresses whose authorisation of this call the host has confirmed.
    pub authorized: Vec<Address>,
    pub storage: Storage,
    /// What the host is to do, in order, once the call has succeeded.
    pub effects: Vec<Effect>,
}

/// The mathematical content of a [`Ledger`].
#[verifier::ext_equal]
pub struct LedgerView {
    pub timestamp: u64,
    pub contract: Address,
    pub authorized: Seq<Address>,
    pub storage: StorageView,
    pub effects: Seq<EffectView>,
}

impl View for Ledger {
    type V = LedgerView;

    open spec fn view(&self) -> LedgerView {
        LedgerView {
            timestamp: self.timestamp,
            contract: self.contract,
            authorized: self.authorized@,
            storage: self.storage@,
            effects: Seq::new(self.effects@.len(), |i: int| self.effects@[i]@),
        }
    }
}

impl LedgerView {
    /// `address` has authorised the call.
    pub open spec fn authorizes(self, address: Address) -> bool {
        self.authorized.contains(address)
    }

    /// The ledger after one more effect has been asked for.
    pub open spec fn with_effect(self, effect: EffectView) -> LedgerView {
        LedgerView { effects: self.effects.push(effect), ..self }
    }

    /// The ledger after `invoice` has been stored under `id`.
    pub open spec fn with_invoice(self, id: u64, invoice: InvoiceView) -> LedgerView {
        LedgerView {
            storage: StorageView {
                invoices: self.storage.invoices.insert(id, invoice),
                ..self.storage
            },
            ..self
        }
    }

    /// The ledger after an entry has been added to the audit log of `id`.
    pub open spec fn with_audit_entry(self, id: u64, action: Action, actor: Address) -> LedgerView {
        let entry = AuditEntry { action, actor, timestamp: self.timestamp };
        LedgerView {
            storage: StorageView {
                logs: self.storage.logs.insert(id, self.storage.log_of(id).push(entry)),
                ..self.storage
            },
            ..self
        }
    }
}

impl Ledger {
    /// A ledger at time `timestamp` on which the contract at `contract` has
    /// stored nothing yet.
    pub fn new(timestamp: u64, contract: Address) -> (r: Self)
        ensures
            r@ == (LedgerView {
                timestamp,
                contract,
                authorized: Seq::empty(),
                storage: StorageView::empty(),
                effects: Seq::empty(),
            }),
    {
        let r = Ledger {
            timestamp,
            contract,
            authorized: Vec::new(),
            storage: Storage::new(),
            effects: Vec::new(),
        };
        assert(r@.effects =~= Seq::empty());
        r
    }

    /// Asks the host for one more effect.
    pub(crate) fn emit(&mut self, effect: Effect)
        ensures
            final(self)@ == old(self)@.with_effect(effect@),
    {
        self.effects.push(effect);
        assert(self@.effects =~= old(self)@.effects.push(effect@));
    }

    /// Refuses unless `address` has authorised the call.
    pub(crate) fn require_auth(&self, address: &Address) -> (r: Result<(), Error>)
        ensures
            r == if self@.authorizes(*address) {
                Ok::<(), Error>(())
            } else {
                Err::<(), Error>(Error::Unauthorized)
            },
    {
        if contains(&self.authorized, address) {
            Ok(())
        } else {
            Err(Error::Unauthorized)
        }
    }
}

impl Duplicate for Ledger {
    fn duplicate(&self) -> (r: Self) {
        let mut effects: Vec<Effect> = Vec::new();
        let mut i: usize = 0;
        while i < self.effects.len()
            invariant
                i <= self.effects@.len(),
                effects@.len() == i,
                forall|j: int| 0 <= j < i ==> (#[trigger] effects@[j])@ == self.effects@[j]@,
            decreases self.effects@.len() - i,
        {
            effects.push(self.effects[i].duplicate());
            i += 1;
        }
        let r = Ledger {
            timestamp: self.timestamp,
            contract: self.contract,
            authorized: self.authorized.duplicate(),
            storage: self.storage.duplicate(),
            effects,
        };
        assert(r@.effects =~= self@.effects);
        r
    }
}

/// Whether `address` is among `addresses`.
pub(crate) fn contains(addresses: &Vec<Address>, address: &Address) -> (r: bool)
    ensures
        r == addresses@.contains(*address),
{
    let mut i: usize = 0;
    while i < addresses.len()
        invariant
            i <= addresses@.len(),
            forall|j: int| 0 <= j < i ==> addresses@[j] != *address,
        decreases addresses@.len() - i,
    {
        if addresses[i] == *address {
            return true;
        }
        i += 1;
    }
    false
}

/// The invoice stored under `id`.
pub(crate) fn load_invoice(ledger: &Ledger, id: u64) -> (r: Result<Invoice, Error>)
    ensures
        match r {
            Ok(invoice) => ledger@.storage.invoices.contains_key(id) && invoice@
                == ledger@.storage.invoices[id],
            Err(e) => !ledger@.storage.invoices.contains_key(id) && e == Error::InvoiceNotFound,
        },
{
    match ledger.storage.invoices.get(&id) {
        Some(invoice) => Ok(invoice.duplicate()),
        None => Err(Error::InvoiceNotFound),
    }
}

/// Stores `invoice` under `id`.
pub(crate) fn save_invoice(ledger: &mut Ledger, id: u64, invoice: Invoice)
    ensures
        final(ledger)@ == old(ledger)@.with_invoice(id, invoice@),
{
    ledger.storage.invoices.set(id, invoice);
}

/// Adds an entry to the audit log of `id`.
pub(crate) fn append_audit_entry(ledger: &mut Ledger, id: u64, action: Action, actor: Address)
    ensures
        final(ledger)@ == old(ledger)@.with_audit_entry(id, action, actor),
{
    let entry = AuditEntry { action, actor, timestamp: ledger.timestamp };
    let mut log = get_audit_log(ledger, id);
    log.push(entry);
    ledger.storage.logs.set(id, log);
}

/// The ids of the invoices of `creator`, oldest first.
pub(crate) fn ids_of(ledger: &Ledger, creator: Address) -> (ids: Vec<u64>)
    ensures
        ids@ == ledger@.storage.ids_of(creator),
{
    match ledger.storage.creators.get(&creator) {
        Some(ids) => ids.duplicate(),
        None => Vec::new(),
    }
}

/// The audit log of an invoice, oldest entry first.
pub fn get_audit_log(ledger: &Ledger, id: u64) -> (log: Vec<AuditEntry>)
    ensures
        log@ == ledger@.storage.log_of(id),
{
    match ledger.storage.logs.get(&id) {
        Some(log) => log.duplicate(),
        None => Vec::new(),
    }
}

} // verus!
