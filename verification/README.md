# Steam Input Lease

Stops a running Steam client from reading controllers while another program owns
them, and gives the controllers back afterwards. A small payload inside Steam serves
a control pipe; every open connection that acquired a lease keeps controllers blocked,
and a closed connection releases, so a crashed owner leaves nothing behind.

`src/` is the verified library: the wire protocol, the lease accounting, the handle
table, the analysis that finds Steam's discovery scheduler in a module image, and the
decisions of the host, the payload, the launcher and the C ABI. Each function states
what it returns in its contract, and Verus proves it. Work that only Windows can do is
described as stages and actions: the caller performs an action and hands the outcome
back.

`app/` is ordinary Rust around it.

| File | Program |
| --- | --- |
| `main.rs` | Console launcher and diagnostics |
| `host.rs` | Pipe client, recovery from outside, loading, process launch |
| `abi.rs` | C ABI |
| `gate.rs`, `detours.rs`, `forward.rs`, `local.rs`, `trace.rs` | Payload: server, hooks, stand-in exports, recovery from inside, startup trace |
| `engine.rs` | Hook engine |
| `definition.rs` | Build step: the payload's export table |
| `target.rs` | Isolated process for trying out blocking |

## What is trusted

Three contracts rest on documentation instead of a proof: `String::push` and
`char::from_u32` of the standard library in `src/text.rs`, and the x86-64 decoder of
`iced-x86` in `src/scheduler.rs`. What the decoder makes of given bytes is only named;
everything that follows from its answer is proved for every answer.
