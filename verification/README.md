# discovery

Endpoint discovery for a proxy, verified with Verus.

A listener holds a `Discovery` and resolves names with it. Each `Watch` that it gets is told of the
endpoints of its name as they come and go, and binds each to a service that labels its requests. On
the controller thread a `DiscoveryWork` serves the watches: it queries the destination service once
per name, reads the streams of updates, and reconnects the streams that are lost.

## Layout

- `src/` is the library. `work.rs` is the state machine of the work, `set.rs` what is known of one
  name, `query.rs` the query that is open for it, `watch.rs` the handles, `labels.rs` and `addr.rs`
  endpoints and their labels, `pb.rs` the messages, `cache.rs` what is asked of a cache, and
  `channel.rs` the channels. `laws.rs` states and proves what holds of all of them together.
- `app/` runs the work on futures: it polls the client, the channels and the streams, and hands the
  library what came of it.
- `tests/` runs the library on real channels.

## What is the caller's

The cache of a name's endpoints and the normalization of names are functions of the caller. The
contracts say what they are asked, and what follows from each answer. The laws on watches hold for
every cache that reports what changes in it.

## What is trusted

The unbounded channels of `futures`, `http::Extensions::insert`, `Arc::clone`, `HashMap::iter` and
`Hash::hash` are called through small functions whose contracts are taken on trust. Each says in its
comment what is claimed.
