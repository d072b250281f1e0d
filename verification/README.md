# coliseum

A small proof-of-work blockchain, the ledgers of a network of nodes, and storage
nodes that share items. The rules are written in Verus and proved; the network and
the programs around them are plain Rust.

- `src/` — the verified library:
  - `chain` — transactions, blocks, the block's JSON text and hash, proof of work,
    mining, and the validity of a chain.
  - `store` — the storage node: items stored under fresh identifiers and shared with
    the other nodes, retrievals that ask the other nodes and answer with the most
    frequent item, the registry of nodes, and the replies to clients and nodes.
  - `client` — the storage client's messages and the clients it learns.
  - `net` — the ledger (`ledger`), its messages and answers (`protocol`, `view`),
    and the item-sharing peer (`peer`).
  - `items`, `registry`, `text` — items, sets of addresses, and the writing of numbers
    and JSON strings.
  - `outside` — the calls into `sha256` and `uuid`, with what each is believed to
    return. The library reads neither clock nor random source: the programs pass the
    time and random bytes in.
- `app/` — the programs: the chain's web service (Rocket), the ledger node and client
  (TCP), the storage node and client (Tokio), the peer's HTTP side (reqwest), and the
  ledger steps that work on floating-point balances.
- `tests/` — tests of the library on concrete values.
