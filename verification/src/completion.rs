//! Proofs of completion: a digest over what an invoice came to.

use vstd::prelude::*;

use crate::contract::SplitContract;
use crate::error::Error;
use crate::ledger::{load_invoice, Ledger, LedgerView};
use crate::types::{CompletionProof, Invoice, InvoiceStatus, InvoiceView};

verus! {

/// `soroban_sdk::Env`: the host that the contract runs on. It is passed on to
/// [`sha256`] and nothing is claimed of it.
#[verifier::external_type_specification]
#[verifier::external_body]
pub struct ExEnv(soroban_sdk::Env);

/// The SHA-256 digest of `data`.
pub uninterp spec fn sha256_digest(data: Seq<u8>) -> Seq<u8>;

/// Calls `soroban_sdk::crypto::Crypto::sha256`, on the bytes that
/// `soroban_sdk::Bytes::from_array` makes of `data`, and takes the digest out with
/// `soroban_sdk::crypto::Hash::to_array`. What is claimed: the digest depends on
/// the bytes alone, and not on the host that works it out. Which digest it is, is
/// left unsaid. A host whose budget is used up ends the whole invocation instead
/// of returning.
#[verifier::external_body]
fn sha256(host: &soroban_sdk::Env, data: &[u8; 32]) -> (digest: [u8; 32])
    ensures
        digest@ == sha256_digest(data@),
{
    let bytes = soroban_sdk::Bytes::from_array(host, data);
    host.crypto().sha256(&bytes).to_array()
}

/// The `n` lowest bytes of `value`, the lowest first.
pub open spec fn le_bytes(value: nat, n: nat) -> Seq<u8>
    decreases n,
{
    if n == 0 {
        Seq::empty()
    } else {
        seq![(value % 256) as u8] + le_bytes(value / 256, (n - 1) as nat)
    }
}

/// The number whose 128 bits are those of `value` in two's complement.
pub open spec fn bits_of(value: i128) -> nat {
    if value >= 0 {
        value as nat
    } else {
        (value + 0x1_0000_0000_0000_0000_0000_0000_0000_0000) as nat
    }
}

/// The byte that stands for a status.
pub open spec fn status_byte(status: InvoiceStatus) -> u8 {
    match status {
        InvoiceStatus::Pending => 0,
        InvoiceStatus::Released => 1,
        InvoiceStatus::Refunded => 2,
        InvoiceStatus::Cancelled => 3,
    }
}

/// What the digest of an invoice is taken over: what was paid, the deadline, the
/// status, and the number of recipients, in 32 bytes.
pub open spec fn payload(invoice: InvoiceView) -> Seq<u8> {
    le_bytes(bits_of(invoice.funded), 16) + le_bytes(invoice.deadline as nat, 8) + seq![
        status_byte(invoice.status),
        (invoice.recipients.len() % 256) as u8,
        0u8,
        0u8,
        0u8,
        0u8,
        0u8,
        0u8,
    ]
}

impl LedgerView {
    /// Why no proof is given for `id`, if none is.
    pub open spec fn completion_refusal(self, id: u64) -> Option<Error> {
        let status = self.storage.invoices[id].status;
        if !self.storage.invoices.contains_key(id) {
            Some(Error::InvoiceNotFound)
        } else if status != InvoiceStatus::Released && status != InvoiceStatus::Refunded {
            Some(Error::NotFinalized)
        } else {
            None
        }
    }
}

/// `le_bytes` of `n` bytes has length `n`.
pub(crate) proof fn lemma_le_bytes_len(value: nat, n: nat)
    ensures
        le_bytes(value, n).len() == n,
    decreases n,
{
    if n > 0 {
        lemma_le_bytes_len(value / 256, (n - 1) as nat);
    }
}

/// Writes the `n` lowest bytes of `value` to `raw`, from position `start` on.
fn put_le_bytes(raw: &mut [u8; 32], start: usize, value: u128, n: usize)
    requires
        start + n <= 32,
    ensures
        final(raw)@ == old(raw)@.take(start as int) + le_bytes(value as nat, n as nat) + old(
            raw,
        )@.skip(start + n),
{
    let ghost before = raw@;
    let mut rest: u128 = value;
    let mut i: usize = 0;
    assert(before =~= before.take(start as int) + before.skip(start as int));
    let ghost mut written: Seq<u8> = Seq::empty();
    while i < n
        invariant
            start + n <= 32,
            i <= n,
            raw@.len() == 32,
            before.len() == 32,
            written.len() == i,
            raw@ =~= before.take(start as int) + written + before.skip(start + i),
            le_bytes(value as nat, n as nat) =~= written + le_bytes(rest as nat, (n - i) as nat),
        decreases n - i,
    {
        let byte: u8 = (rest % 256) as u8;
        raw[start + i] = byte;
        proof {
            written = written.push(byte);
        }
        rest = rest / 256;
        i += 1;
    }
}

/// The number whose 128 bits are those of `value` in two's complement.
fn bits(value: i128) -> (r: u128)
    ensures
        r == bits_of(value),
{
    if value >= 0 {
        value as u128
    } else {
        u128::MAX - ((-(value + 1)) as u128)
    }
}

/// What the digest of `invoice` is taken over.
pub fn completion_payload(invoice: &Invoice) -> (raw: [u8; 32])
    ensures
        raw@ == payload(invoice@),
{
    let mut raw: [u8; 32] = [0u8; 32];
    put_le_bytes(&mut raw, 0, bits(invoice.funded), 16);
    put_le_bytes(&mut raw, 16, invoice.deadline as u128, 8);
    raw[24] = match invoice.status {
        InvoiceStatus::Pending => 0,
        InvoiceStatus::Released => 1,
        InvoiceStatus::Refunded => 2,
        InvoiceStatus::Cancelled => 3,
    };
    raw[25] = (invoice.recipients.len() % 256) as u8;
    proof {
        lemma_le_bytes_len(bits_of(invoice@.funded), 16);
        lemma_le_bytes_len(invoice@.deadline as nat, 8);
    }
    assert(raw@ =~= payload(invoice@));
    raw
}

/// The invoice stored under `id`, if it has been released or refunded.
fn load_final(ledger: &Ledger, id: u64) -> (r: Result<Invoice, Error>)
    ensures
        match ledger@.completion_refusal(id) {
            Some(e) => r == Err::<Invoice, Error>(e),
            None => r matches Ok(invoice) && invoice@ == ledger@.storage.invoices[id],
        },
{
    match load_invoice(ledger, id) {
        Ok(invoice) => {
            if invoice.status == InvoiceStatus::Released || invoice.status
                == InvoiceStatus::Refunded {
                Ok(invoice)
            } else {
                Err(Error::NotFinalized)
            }
        },
        Err(e) => Err(e),
    }
}

impl SplitContract {
    /// The proof of completion of an invoice that has been released or refunded.
    pub fn get_completion_proof(
        host: &soroban_sdk::Env,
        ledger: &Ledger,
        invoice_id: u64,
    ) -> (r: Result<CompletionProof, Error>)
        ensures
            match ledger@.completion_refusal(invoice_id) {
                Some(e) => r == Err::<CompletionProof, Error>(e),
                None => {
                    let invoice = ledger@.storage.invoices[invoice_id];
                    r matches Ok(proved) && proved.id == invoice_id && proved.status
                        == invoice.status && proved.funded == invoice.funded && proved.timestamp
                        == ledger@.timestamp && proved.hash@ == sha256_digest(payload(invoice))
                },
            },
    {
        match load_final(ledger, invoice_id) {
            Ok(invoice) => {
                let hash = sha256(host, &completion_payload(&invoice));
                Self::completion_proof(ledger, invoice_id, hash)
            },
            Err(e) => Err(e),
        }
    }

    /// The proof of completion of an invoice whose payload has the digest `hash`.
    pub fn completion_proof(ledger: &Ledger, invoice_id: u64, hash: [u8; 32]) -> (r: Result<
        CompletionProof,
        Error,
    >)
        ensures
            match ledger@.completion_refusal(invoice_id) {
                Some(e) => r == Err::<CompletionProof, Error>(e),
                None => {
                    let invoice = ledger@.storage.invoices[invoice_id];
                    r == Ok::<CompletionProof, Error>(
                        (CompletionProof {
                            id: invoice_id,
                            status: invoice.status,
                            funded: invoice.funded,
                            timestamp: ledger@.timestamp,
                            hash,
                        }),
                    )
                },
            },
    {
        match load_final(ledger, invoice_id) {
            Ok(invoice) => Ok(
                CompletionProof {
                    id: invoice_id,
                    status: invoice.status,
                    funded: invoice.funded,
                    timestamp: ledger.timestamp,
                    hash,
                },
            ),
            Err(e) => Err(e),
        }
    }
}

} // verus!
