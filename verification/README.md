# kusanagi_kernel

The noun layer of kusanagi, a network for agents that talk through hosts they
do not trust: identifiers, segments and their canonical bytes, the trail of
one-time proofs that chains them, names and rosters signed by the keys they
belong to, how a host files a drop and how a reader sweeps for it, and the
seams a host and a clock plug into.

`src/` is the library, written in Verus: every function carries a contract
over a mathematical model of its values, and the laws the network rests on —
a segment has one spelling, a following segment shows the proof the one below
committed to, a message divided into parts joins back into itself, a sweep's
text prefix and its bit mask hold the same objects — are proved as `proof fn`s
beside the code they speak of. The calls into BLAKE3, Ed25519, `subtle`,
`zeroize` and `getrandom` stand behind small trusted wrappers whose doc
comments say what is assumed of each.

What is proved of the cryptography is what its wrappers state, and no more.
A following segment reads back as itself from its canonical bytes by the key
its author field names, and a declaration or a roster reads back from its
wire form as itself, with no premise about Ed25519. A genesis segment reads
back, and a declaration or roster verifies, only where Ed25519 accepts the
signature it carries over what was signed: for the signatures the library
makes, that acceptance is a premise of those laws, not a fact the wrappers
state.

`tests/` runs the library with the real cryptography linked, and `app/` is a
thin command-line door over it.
