# pumpkindb

The script engine of PumpkinDB, an event-sourcing database engine driven by
PumpkinScript, a small concatenative stack language, written in Verus. Not part
of this crate: the floating-point instructions; programs that use them end
with an unknown-instruction error.

`src/` is the verified library:

- `encoding`, `receivable`, `binparser`: the binary form of PumpkinScript
  (size headers, data, instructions, closures) and reading it back;
- `packable`, `bignum`: the byte packings of integers and floats;
- `env`, `envheap`, `queue`, `txn_stack`: the environment a script runs in;
- `storage`, `mod_storage`: transactions on the key-value store. A storage
  instruction (or a clock reading) leaves a request on its environment and
  runs again once the reply is there; the scheduler hands the requests out
  and the replies in;
- `script`, `instructions`: errors and the error programs they carry, and the
  shared shape of an instruction's step;
- `mod_core`, `mod_stack`, `mod_binaries`, `mod_numbers`, `mod_storage`,
  `mod_hash`, `mod_hlc`, `mod_json`, `mod_msg`, `mod_uuid`, `mod_string`: the
  instruction modules, each stated as a function from the environment's
  model to its next model and result;
- `dispatcher`, `scheduler`: the interpreter (one step of a program,
  TRY, the dictionary) and a round-robin scheduler of environments;
- `messaging`: the publish/subscribe broker's bookkeeping;
- `packet`: the length-prefixed packets of the client protocol;
- `laws`: properties that span several functions.

`app/` is the server around it: threads, channels, TCP sockets, the LMDB
environment that carries out the requests to the store, and the hybrid
logical clock.
