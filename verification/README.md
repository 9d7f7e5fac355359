# ce-mail

Mail between the nodes of a mesh, in which an address is a public key. Every message is signed by
its sender and sealed to its recipient; a mailbox keeps small signed envelopes for recipients who
are away and never sees a plaintext.

The library is written in Verus. Its functions carry contracts over mathematical models of their
data, and the laws that hold of the library as a whole stand beside them as proof functions.

* `src/` is the library: the binary format, envelopes and receipts, sealing, limits, the mailbox and
  its service, conversations, screening, and what a client and a mailbox decide between the turns of
  the network. `src/lib.rs` describes the modules.
* `tests/` runs it, with real keys, ciphers and hashes.
* `app/` is the command line: it talks to a CE node, reads and writes files, and asks the library
  what to do. It needs the CE crates (`ce-identity`, `ce-cap`, `ce-rs`), which are not published on
  crates.io.

What the library takes on trust is what it calls in other crates: SHA-2, the curve, the cipher, hex,
the system's randomness, `bincode` for single numbers and texts, and three functions of std. Each
such call has a contract of its own, whose comment says what is assumed of it. Signatures and capability chains
are checked by functions that the caller passes in; the contracts say what these are asked and what
is made of their answers.
