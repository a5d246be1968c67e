# seam

One mouse, one keyboard and one clipboard across every machine on a desk. The pointer crosses
from screen to screen, and input follows it over an encrypted connection.

## Layout

- `src/` is the library, verified with Verus: the wire format, pairing and trust, the
  arrangement of screens, who owns input, what is shared, and what the page and the command
  line say. Every function states what it returns or changes; each module's public proof
  functions state what holds of the library as a whole.
- `app/` is the program around it: sockets, multicast DNS, the systems' input interfaces,
  files, the page server and the command line. It hands plain values to the library and
  carries out what comes back.
- `tests/` runs the library, with the outside crates linked.

## What is taken on trust

A few small functions in `src/` call an outside crate or the standard library where the
verifier knows nothing of it: hashing, keys and certificates, signatures, compression, UTF-8,
letter case and quoting. Each says above it what it claims of the function it calls.

Two machines agree on a heartbeat when the digests of their held keys are equal. With equal
modifiers, a difference within one of the four words of held keys always shows. With the same
keys otherwise, any difference in modifiers and locks shows, as long as none of the few rare
usages that share a word with the modifiers is held. A 64-bit digest cannot tell every pair of
states apart.
