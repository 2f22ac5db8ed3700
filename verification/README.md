# khora_node

The decisions of the nodes of a proof-of-stake network, verified with Verus:
a staker with an interface, a user with an interface, and a full staker at the
console.

The library in `src/` decides; the programs in `app/` act. The library never
touches the network, the disk or the clock: it is handed messages, moments and
what the ledger did, and answers with messages to send and work for the ledger
to do. What it calls itself are hashes and curve arithmetic (sha3,
curve25519-dalek) and the packing of messages (bincode), which depend on their
arguments alone, and random picks (rand), of which only what holds of every
outcome is relied on.

| module | what it is about |
| --- | --- |
| `bytes`, `keys`, `table` | numbers as bytes, sets of keys, tables as lists of lines |
| `digest`, `wire` | hashes, scalars and points; packed messages |
| `rules`, `clock` | the parameters of a chain; time |
| `net` | addresses, peers, the address book |
| `election` | votes and leaders |
| `request`, `console` | requests to spend, as they are spelled |
| `frame`, `outer` | messages, and what is done with them |
| `node`, `saved` | a staker's node, and what it leaves on disk |
| `block`, `reading` | how a block is read |
| `pool` | transactions that wait |
| `rounds` | the rounds in which validators make blocks |
| `ring`, `reset` | rings, and the panic button |
| `user` | a user's node |
| `staker` | a full staker's node |

The properties that hold across functions are public proof functions beside
the functions they speak of.
