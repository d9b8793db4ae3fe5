# ticketing_api

A small back-end for booking event seats that never oversells and never
books one client twice. The rules carry proved contracts; the HTTP and
Postgres plumbing around them is ordinary Rust.

What is proved is the protocols' decisions, step by step, their effect on
the in-memory ledger when requests come one after another, and what happens
when many reservations race one another. For the race, the database is
modelled as Postgres behaves under `READ COMMITTED`: a seat locked with
`FOR UPDATE SKIP LOCKED` is skipped by the other transactions, an insert
waits while another open transaction has inserted the same idempotency key
and fails on the `UNIQUE` index once one has committed, and a transaction's
writes are seen only after its commit. Under any interleaving of any number
of reservations and runs of the hold sweeper, with any answer the database
may give (failures included), no seat is held for two bookings, none is taken
without its booking, no key is stored twice, and nothing a transaction wrote
is seen before its commit. Between sweeps, a request that lost its key to
another finds the winner's booking. That Postgres keeps these locking and
uniqueness rules is assumed, not proved; confirmations are proved one at a
time.

## Layout

- `src/` — the verified library.
  - `reserve.rs`, `confirm.rs`: the reservation and confirmation protocols as
    state machines. Each step takes the database's answer to the last
    statement and decides the next statement, or the outcome.
  - `store.rs`: an in-memory seat ledger (events, seats, bookings) whose
    operations run the same protocols; its invariant says seats and bookings
    match one for one and idempotency keys are unique.
  - `racing.rs`: reservations racing one another, and the hold sweeper,
    over shared tables with row locks and a unique key; the invariant that
    every interleaving keeps.
  - `laws.rs`: what holds across calls: no oversell, retries under one key
    get one booking, confirming is idempotent, lapsed holds are reclaimed,
    availability counts add up, and the protocols' own ordering guarantees.
  - `labels.rs`: seat labels (`S0001`, ..., `S10000`, ...), proved distinct.
  - `config.rs`: settings from environment values, with a verified decimal
    parser that behaves as `str::parse`.
  - `middleware.rs`: the in-flight limit, on a `tokio` semaphore.
  - `error.rs`, `models.rs`, `routes.rs`, `repo.rs`: errors and their HTTP
    replies, request and reply bodies, what each handler answers.
- `app/` — the server: axum routes, Postgres statements for each protocol
  step (run under `READ COMMITTED`, seats locked with
  `FOR UPDATE SKIP LOCKED`), the hold sweeper, metrics and tracing.
- `tests/` — the booking scenarios against the ledger, the protocols step by
  step, and the library's smaller rules.
