# encrypt_it

A desktop workbench that encrypts and decrypts files in place with
XChaCha20-Poly1305 or DES, shows the first 512 bytes of the result as a hex
table, and reports how long a run took.

- `src/` is the library, verified with Verus:
  - `crypto.rs`: the content operations (`Crypto::chaca20poly1305`,
    `Crypto::des` with PKCS#7 padding, the 512-byte display limit) and their
    round-trip guarantees;
  - `primitives.rs`: the calls into `chacha20poly1305` and `des`;
  - `text.rs`: hex text, the spaced display of a ciphertext, splitting at white
    space, decimal numbers;
  - `tabs.rs`: the set of open tab names;
  - `context.rs`: the workbench state and its decisions (tabs, menu, runs,
    messages, file details);
  - `data.rs`: the operation and algorithm choices.
- `app/` is the egui program: windows, file dialogs, file I/O, the worker
  thread and its channel.
- `tests/` runs the library on concrete values.
