# workmux

Parts of workmux, a tool that runs coding agents side by side in tmux windows and sandboxes:

- `agent_setup`: whether an agent reports its status to workmux, and how its hooks get there;
- `frozen_config`: snapshots of the configuration for the supervisor of a sandbox;
- `sandbox`: the `CONNECT` proxy through which a sandbox reaches the network, and the notice about
  what a sandbox does not cover;
- `sidebar`: the daemon that gathers what agents do and tells the sidebars.

`src/` holds what is decided and computed, in Verus: every function has a contract over the
mathematical models of its data, and the laws that span functions are proof functions beside them.
`app/` does what touches the machine: it reads files, watches directories, opens sockets and runs
threads, hands the library what came of it, and does what the library says next. The rest of
workmux (git, GitHub, tmux, stored state) is behind the trait `Host` there.

Paths are components with the bytes that they were spelled in (`paths`), maps and sets are tables and lists without repetition (`tables`),
and times are nanoseconds from a fixed origin.

What is taken on trust are a few functions of `serde_json`, `ignore`, `console` and the standard
library. Each has a doc comment that says what is assumed of it.
