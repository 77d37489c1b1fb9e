# cs244b_project

Streamlet, a simple blockchain consensus protocol, with a transparency-log
application on top, written in Verus.

`src/` is the verified library:

- `crypto`, `encoding`, `decoding`, `text`: SHA-256 and Ed25519 over plain
  bytes, the little-endian length-prefixed framing of signed bytes and its
  reading back, decimal rendering.
- `blockchain`: blocks, chains of signed blocks, and the manager of notarized
  chains that finalizes the middle of three consecutive epochs.
- `messages`, `wire`: protocol messages and their wire form; reading back the
  bytes of a message gives that message.
- `peer_init`, `network`: peer discovery, and the queue of network operations
  that the transport carries out.
- `streamlet`: the node's decisions for each operator command, epoch and
  network message: leader election, voting, notarization.
- `app`: the directory application, the byte form of its directories and
  their reading back, its interface to the nodes, the directory service's
  signature checks.
- `prototype`, `example`, `simple_chain`, `player`, `config`, `p2p`: the
  simpler designs and the small test programs' logic.

`app/` is the program around it: the libp2p transport, the event loops, file
and TCP input and output, and the serde copies of the library's types.
`tests/` holds the tests.
