# motrix_core

The logic of a download manager, written in [Verus](https://github.com/verus-lang/verus):
tasks and their states, the queue, resumable HTTP transfers, torrents, settings,
sessions, and a JSON-RPC interface that clients of aria2 understand.

- `src/` is the library. Every function states what it does in `requires` and
  `ensures`, and Verus proves it.
- `app/` is the program around it: the command line, the server, files, sockets and
  the transfer engines.
- `tests/` runs the library on concrete values.

## Layout of the library

| Module | What it holds |
| --- | --- |
| `task`, `repository` | tasks, their state machine, and the book of tasks |
| `manager`, `engine` | the queue: starting, pausing, resuming, removing, seeding |
| `fastdown` | parallel transfers: ranges that are there, saved states, resuming |
| `http` | transfers over one connection, and their attempts |
| `kget` | other protocols, and asking a server for a length |
| `bt` | magnet links, bit fields, and the table of torrents |
| `options`, `config` | options of tasks, settings, patches |
| `session` | saving tasks and taking them up again |
| `rpc`, `ledger`, `rpc_backend` | requests, authorization, batches, commands and answers |
| `cli` | commands, the calls they make, and what they print |
| `broadcaster` | how often the state is sent, and what is sent |
| `json`, `assoc`, `text`, `digits`, `double`, `size`, `path`, `gid` | what the others build on |

Strings are modelled as sequences of characters, tables as sequences of pairs, and
doubles as their IEEE 754 encoding. Proof functions whose names begin with `law_`
state what holds across functions: that what is saved comes back, that a resumed
transfer asks for exactly the missing bytes, that no more tasks run than may, that a
call without the secret is refused.

## What is taken on trust

A few functions of other crates are called through wrappers whose contracts are not
proved here. Each says in its documentation which function it calls and what it
claims of it.

The server reaches the engine through the trait `RpcBackend`, which programs
implement and of which nothing is assumed. A `Ledger` stands between the two and
writes down, for proofs, each call that the backend gets.
