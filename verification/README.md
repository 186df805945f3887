# trail-stash

An always-on, ciphertext-blind, fully in-memory replica of encrypted trails. Two phones that are
rarely online at the same time exchange their trails through it: it replicates what devices have
opted in, keeps fetching content until it can be served, wakes subscribers with a silent push, and
lets go of what is older than the retention window.

The library under `src/` is written in Verus. Every function states what it returns or changes, and
the contracts are proved. What the program needs beyond that (iroh, HTTP, the environment, timers)
stands in `app/`.

## Layout

| Module | What it holds |
| --- | --- |
| `stash_model` | the node as a state machine: steps, invariant, laws |
| `node` | the node's state and its steps |
| `content` | which blobs are referenced, and which have landed |
| `entry` | entry keys, fetch sources, backoff, expiry of listed entries |
| `subscriptions` | granted namespaces and wake targets |
| `retention` | the rolling window |
| `control`, `api`, `auth` | the control API: answers, validation, pre-shared key |
| `config`, `relay` | configuration and custom relays |
| `push`, `waker`, `json` | silent pushes for APNs and FCM |
| `mls` | the delivery-service seam |
| `log_redaction`, `telemetry` | redaction of log lines, join keys, export |
| `table`, `text`, `clock` | building blocks |

## What is proved

- Opt-in: nothing is referenced or tracked, and nobody is woken, for a namespace without a grant.
- Every referenced hash is tracked until its last reference expires; a hash is released exactly when
  all entries that reference it have expired, across namespaces.
- Wakes fire once: over any sequence of arrivals, settle passes and sweeps, the subscribers of a
  namespace are woken at most once for an entry that is not released. Whatever is held is announced
  in the namespace that it arrived in, or the next settle pass goes through it. An entry that stays
  without content is announced after 30 seconds, and its fetch is still retried.
- Content is asked for from the peer that delivered the record first, then from its author.
- A failed fetch backs off between half a second and a minute.
- The control API answers each request as its contract says; the answer to an unsubscription does
  not depend on what was there, and an unsubscription with the fields of a registration stops the
  wake that the registration arranged.
- A push carries a type and a namespace id, is silent, and goes to each subscriber once. Log lines
  about it do not tell tokens apart.
- A redacted log line keeps no character of what looks like an identifier, nor of what the address
  test takes for an address. The test is asked about every run of address characters, about the run
  without the dots and colons at its ends, and about the parts of it that single colons set off.

## What is trusted

Calls into `serde_json` (building JSON values), `iroh` (endpoint ids, relay maps) and the system
clock stand behind wrappers whose doc comments say what their contracts claim.

## Environment

| Variable | Default | Meaning |
| --- | --- | --- |
| `TRAIL_STASH_SECRET_KEY` | required | 64 lowercase hex digits, the seed of the stash's identity |
| `PORT` | 8787 | control-API port |
| `TRAIL_STASH_RETENTION_HOURS` | 48 | retention window, 1 to 336 |
| `TRAIL_STASH_PRUNE_INTERVAL_MIN` | 15 | prune cadence, 1 to 1440 |
| `TRAIL_STASH_PSK` | none | pre-shared key for `/v1/*` |
| `TRAIL_STASH_RELAY_URLS` | none | comma-separated custom relays |
| `TRAIL_STASH_RELAY_TOKEN` | none | bearer token for the custom relays |
| `APNS_BUNDLE_ID`, `APNS_HOST` | none, `api.push.apple.com` | APNs route |
| `FCM_PROJECT_ID` | none | FCM route |
| `APNS_BEARER`, `FCM_BEARER` | none | push credentials |
| `OTEL_EXPORTER_OTLP_ENDPOINT`, `OTEL_SERVICE_NAME` | none, `trail-stash` | telemetry |
