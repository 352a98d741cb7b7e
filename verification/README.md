# bmlite

Driver logic for the BM-Lite fingerprint module, verified with Verus.

The module speaks a framed protocol over SPI: a request is a transport
buffer (header, command, arguments) sealed with a CRC-32; the module
acknowledges it, announces the size of its reply, sends the reply with its
own CRC, and expects an acknowledgement back. Between these exchanges the
driver polls the module's ready line.

The library holds that protocol as state machines that never touch the
hardware: each operation (`identify`, `enroll`, `delete_all`, ...) returns
an action (exchange these bytes, read the ready line, drive the reset line,
wait, report progress, finish), and `step` takes the outcome of that action
and returns the next one. Every step has an exact contract; the byte
layouts, the reply parser and the result of each command are specified
over sequences, and the laws that tie them together are proved.

- `src/endian.rs`: byte orders, and the byteorder reads the driver uses.
- `src/checksum.rs`: the CRC-32 of the `crc` crate.
- `src/transport.rs`: building requests.
- `src/response.rs`: parsing replies.
- `src/link.rs`: the link exchange that carries one request and its reply.
- `src/bmlitelib.rs`: commands, their results, and the driver's operations.
- `src/runs.rs`: laws over whole runs (identify as three commands, an enrollment and its count).
- `src/lib.rs`: the first, smaller driver (reset and delete-all).
- `app/`: the loops that carry out the actions on embedded-hal interfaces,
  and a bench program.
