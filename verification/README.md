# brb_node_snfs

A node of a peer-to-peer filesystem. Every node keeps a replica of one tree of files and
directories. A change is made on the node's own replica at once, and reaches the other
nodes by a Byzantine reliable broadcast among the members of a voting group. Moves that are
made together are one transaction, which is queued, agreed on and taken in as a whole.

A node is started in one of two ways. Without a peer it trusts itself and founds a
voting group of which it is the one member. With the address of a peer it makes itself
known to the peer and trusts it; the peer, if it votes, proposes to its group that the
new node join.

## Layout

- `src/` is the library. Its functions carry contracts that Verus proves.
  - `actor`, `tree`, `agreement`: the identities, the replicated tree and the broadcast,
    with what is taken from `brb`, `brb_dt_tree` and `crdt_tree`.
  - `shared`, `store`, `treestore`: the state of a node, the queue of changes that wait for
    the broadcast, and a replica on its own.
  - `roster`, `command`, `router`: the peers, the messages, and the router that turns every
    command into changes of the state and a list of actions.
  - `repl`, `config`, `mount`: the prompt, the start of a node, and what is left to do
    when the filesystem is unmounted.
  - `tree_laws`, `node_laws`: what holds of the tree and of a node at large.
- `tests/` runs the library, alone and in small networks.
- `app/` is the program: the command line, the network, the prompt and the mounted
  directory.

## Trust

The functions marked `external_body` call the outside crates. Their contracts are believed;
each doc comment says which function is called and what is claimed of it.
