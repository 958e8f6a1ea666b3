# auth_kademlia

A Kademlia distributed hash table for signed records.

Every value in the table is a record of the form

```text
algorithm (12 bytes) | signature | DID document (JSON)
```

and carries the public key under which it verifies.  A node stores a record only
if it is valid and its key is free, replaces it only with the consent of the key
in the current record, and deletes it only on a signed request.

## Layout

`src/` is the library.  Its executable functions state what they do in `requires`
and `ensures` clauses, and Verus proves them.

| module | what it holds |
|---|---|
| `node`, `ranking` | peers, XOR distances, bounded lists of nearest peers |
| `bucket`, `routing` | k-buckets and the routing table |
| `routing_laws`, `table_laws`, `walk_laws` | what holds of the table as a whole |
| `crawling` | iterative lookups of peers and values |
| `fragmentation` | splitting messages over datagrams and joining them |
| `storage` | key-value storage with expiry |
| `crypto` | Dilithium, Ed25519 and RSA signatures, key management |
| `record`, `document`, `json` | signed records and DID documents |
| `auth_handler`, `judge`, `signature_cache` | which records are authentic |
| `protocol` | messages, requests and replies |
| `network` | the operations of a node, step by step |
| `roles` | what a node started as a program does |
| `utils`, `text`, `seqs`, `server` | digests, plain text, facts about sequences |

Calls into other crates stand behind small functions marked
`#[verifier::external_body]`; the comment above each says what is believed of the
call.

`app/` is the program around the library: sockets, files, timers, the encoding of
messages, and the command line.

`tests/` runs the library, including whole networks of nodes in one process.
