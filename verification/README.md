# ironfix

A FIX engine's core, verified with Verus: tag=value messages, stream framing,
FAST field encodings, session rules and a message store.

| Part | What it holds |
| --- | --- |
| `src/types` | Identifiers, sequence numbers, message types, decoded messages, durations and errors |
| `src/tagvalue` | The tag=value decoder and encoder, checksums and the length/data tag pairs |
| `src/transport` | Cutting frames off a byte stream and resynchronising behind garbage |
| `src/fast` | Stop-bit integers, strings and byte vectors, presence maps and field operators |
| `src/session` | Configuration, heartbeats, sequence numbers and the session's states |
| `src/store` | Stored messages, the store interface and a store in memory |
| `src/outside` | What the library takes from other crates and from std, with the contracts it relies on |
| `app` | Async, locking, logging and serialisation around the library |

Each function states what it returns in its contract; one that reads a clock
states it for the reading, and stands beside one that takes the reading as an
argument. What holds across
functions (an encoded frame decodes to what was put in, a frame is handed up
whole, a number is accepted once) is stated and proved in the `laws` modules.
Only `src/outside` is believed without proof.
