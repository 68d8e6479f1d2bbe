# libp2p_behaviours

Three network behaviours of a libp2p node, written in Verus: each comes with a contract that
says what every operation does, and Verus proves that it does.

- `kad`: the Kademlia distributed hash table. The routing table, searches for peers, records
  and providers, answers to the requests of other peers, bootstrapping and the choice of the
  mode.
- `dcutr`: the upgrade of relayed connections to direct ones. The addresses to be advertised,
  the dials of an attempt and their repetition in bursts.
- `autonat`: the server side of reachability tests.

## Layout

- `src/assoc.rs`, `src/nonzero.rs`, `src/text.rs`, `src/time.rs`: small building blocks.
- `src/net.rs`: what is used of the networking crates. The functions that call into another
  crate stand here, each with what is taken for granted of the call.
- `src/swarm.rs`: what a swarm tells a behaviour, and what a behaviour asks of a swarm.
- `src/autonat.rs`, `src/dcutr/`, `src/kad/`: the behaviours.
- `src/dcutr/laws.rs`, `src/kad/laws.rs`, `src/kad/provider_laws.rs`: what holds across several
  operations. `src/kad/operations.rs` lists all that can be done to a Kademlia behaviour.
- `tests/`: the behaviours at work, on given values.
- `app/`: the behaviours as a swarm can run them. The connection handlers, which speak the
  wire protocols, are supplied from outside.

## Reading the contracts

A behaviour is a plain struct. What an operation does is a relation between the struct before
and after it, for example `address_added(before, after, ..)` in `src/kad/routing.rs`. Each
behaviour has a predicate `wf` that holds of it at all times.

The routing table is described by `TableView` in `src/kad/kbucket.rs`: the peers that it holds
and those that wait for a place, each list in the order of its last change.

Time is an argument: a function whose name ends in `_at` takes the present, and the function
without the ending reads it from the clock. In the same way a function whose name ends in
`_with` takes what the record store returned, and the one without asks the store.

Which candidate a search contacts next is decided outside: `poll` asks for a decision, and
carries it out.
