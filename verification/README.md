# infra_net_libp2p

The peer-to-peer network layer of a serverless chat: every peer is also the
infrastructure (relay, DHT, reachability server), and no host anybody operates
appears in any code path.

`src/` is the verified library. It holds the wire formats (the CBOR envelope
codec, the join-ticket text format, the length-prefixed framing of direct
messages), the identity and address translations, the hostile-input bounds
(per-peer token buckets, size caps), and the ledgers that decide what this
peer tells the world: which observed addresses are corroborated enough to
advertise, whether strangers can dial it, which peers were seen recently,
and which of several connections carries the one session with a peer. The
decisions of the event loop are a state machine (`network_driver`): a swarm
event or a command goes in, the next state and what to do come out.

`app/` is the rest: the tokio runtime, the libp2p swarm and protocol
composition, the event loop that performs what the state machine decides,
and the synchronous handles a composition root calls.

Calls into libp2p, ciborium and base64 go through a small set of trusted
wrappers, each documented with what its contract claims of the outside code.
