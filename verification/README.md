# aleo_core

Verified core logic of an Aleo node and of the data formats of its programs, written in
Verus.

- `src/` is the library. Each public function states what it returns in its `ensures`
  clause, over mathematical models (`Seq`, `int`, views of each type), and Verus proves
  it. The public proof functions (`lemma_*`) state the laws that relate several
  functions, such as reading back what was written.
  - Data formats: field elements (`field`, `limbs`, `bits`), identifier literals,
    identifiers, program IDs and locators (`program_names`), literal, plaintext, finalize
    and register types, transition leaves, dynamic records and futures, futures and their
    arguments (`future`), transition inputs and outputs (`transition`), the IDs of a
    request's inputs and a response's outputs and the checks of a signed request (`ids`),
    and the byte format of a deployment (`deployment`).
  - Node logic: connection admission (`peering`), the handshake checks (`handshake`),
    the heartbeat's peer management (`heartbeat`), automatic ledger checkpoints
    (`checkpoint`), the start-up settings (`node_config`), and the batch plan by which a
    test chain is generated (`testchain`).
  - The network's hash, encryption, record-commitment and signature functions, and the
    encodings of programs, verifying keys, certificates and addresses, are the caller's:
    functions that need them take them as closures, and their contracts say what holds
    for whatever those return.
- `tests/` runs the library on concrete values.
- `app/` is the command line around the library: flags, files and addresses.
