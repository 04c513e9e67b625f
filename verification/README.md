# Evering

Bounded interprocess communication through shared memory: typed layouts that
can be mapped anywhere, recoverable storage for what is transferred, bounded
duplex queues, and explicit steps of ownership. `src/` is the core that does not
depend on an operating system, written in Verus; `app/` holds the native
adapters around it.

| Concept | What it is for |
| --- | --- |
| `session::Session` | One participant's view of a shared region: create or open it, create, open and remove what is in it, reap the dead. |
| `pool` | Blocks of bounded classes that hold what is transferred. |
| `channel` | A duplex of two bounded rings of tokens, with one role at each end. |
| `channel::Port` | The invitation to a role, as stable bytes. |
| `notify` | What is committed before a peer is told, and what is owed where that fails. |
| `process` | The frames and decisions of a handoff and of the supervision of a child. |

## How the core is stated

A region is a value: its root, its directory, its heap and the layouts that the
directory publishes. Each operation says in its contract what it leaves of that
value and what it answers, for every state that it can find. Where participants
race, an operation is cut into its atomic steps, and each step takes what was
observed of the shared words.

- `header`, `mem`, `schema`, `extent`: identity, admission and projection of
  layouts.
- `talc`: the general heap of a region, with its bins, its boundary tags and the
  word that names the participant in the middle of a change.
- `dir`: names of layouts; creation, removal, growth and recovery as changes
  that leave evidence behind.
- `queue`: the ring, its slots and turns, closing, and the repair of slots that
  a dead participant left. `queue::order` says that every step keeps the ring in
  order, and `queue::delivery` that items come out in the order of their
  reservations. `queue::padding` takes the lines that keep cursors apart from
  `crossbeam_utils`.
- `channel`, `token`, `msg`, `plain`: what travels, who holds which role, and
  what a received block is admitted as.
- `pool`, `boxed`, `bytes`: storage of blocks, and values in it.
- `session`: the operations of one participant in a region.

What holds of several operations together is stated in public proof functions
whose names begin with `law_`.

## What comes from the target

A record holds the width of the target's words and atomics, and a channel pads
its cursors to the target's cache lines. Every number that the core writes is
lowest byte first, on every target, and the words of a region's values have 64
bits.

## Values that are not checked here

`app/` maps memory, signals peers, sends descriptors and waits. It hands plain
values to the core and performs what the core decides. A mapping that a region
refuses, or that the last session in it leaves, comes back from the core, and
`app/` releases it.

Nothing ties a mapping to the values of its region. The operations of a session
take those values as they are given, and no code here places them in the memory
that was mapped: which bytes of it stand for which value is left to whoever
holds both. `app/progress.rs` asks whether the rings of a channel are in order
before it works on them; the other conditions on those values hold of whatever
the core itself made.
