# moto_ipc

Synchronous calls between two processes of Motor OS through a page of memory that
both share, verified with Verus.

A server listens at a URL; a client connects to it, writes a request into the shared
page, hands its processor to the server, and reads the response from the same page
when it is woken.

- `src/` decides. Each operation returns the system call to make as a plain value and
  takes the reply; its contract says what is asked for, what every reply leads to,
  and what is given back to the kernel. A server takes several calls for one
  operation, so it is a state machine: `model.rs` is its mathematics, `server.rs` its
  code. `laws.rs` states what holds of the library as a whole.
- `app/` acts: it makes the system calls with `moto-sys`, and turns regions of shared
  memory into references.
- `tests/` run the library on concrete values. They make no system call.

Two things are believed without proof, each in one function with a contract: what
`moto_sys::url_encode` returns (`url.rs`), and what `BTreeMap::get_mut` does
(`keys.rs`).
