# stellar_split

Invoice and payment splitting for Stellar, with a verified core.

A creator makes an invoice out to recipients and amounts. Payers contribute; the
payment that completes an invoice routes its funds to the recipients, less a
protocol fee if one is set. If the deadline passes first, payers are refunded.
Invoices can recur or belong to a subscription, which bills once for each of its
months; they can be frozen by an admin, and every step is recorded in an audit log.

- `src/` is the library, verified with Verus. `contract` has the entry points,
  `model` says what each of them does as a function of the ledger, and `laws` holds
  what is proved of all of them together: that every reachable ledger is sound, that
  the past of an invoice is never undone, that a release passes on what was paid in
  and no more, that what the contract has taken in covers what it holds for payers,
  that a freeze lasts, that a subscription comes to as many invoices as it has months.
- `app/` is the Soroban contract: it reads entries from the ledger, calls the
  library, writes the entries back, and carries out the transfers and events that
  the library has asked for.
- `tests/` runs the library.

The one thing taken on trust is the host's SHA-256, in `completion`.
