# xbridge

A voice gateway between SIP and applications: calls are controlled over a REST API, events
go out as webhooks, and audio is streamed over WebSockets.

## Layout

- `src/` is the library: what the gateway decides and computes, verified with Verus.
  - `audio`, `wav`: mu-law and linear samples, RIFF/WAVE files.
  - `trunk`: SIP messages, dialogs and identifiers of the trunk host.
  - `ws`, `stream`: stream events and frames, the life of a stream, the playout queue.
  - `router`, `bridge`, `state`, `registry`: the REST API, what calls report, and the state
    behind both.
  - `webhook_client`, `rate_limit`, `metrics`, `config`, `clock`, `text`: delivery with
    backoff and a dead letter queue, the token bucket, the Prometheus text, configuration,
    timestamps and text primitives.
- `tests/` runs the library on concrete values.
- `app/` is the program around it: the HTTP server, the SIP stack, configuration files and
  JSON.

## What is proved and what is not

Every function of the library states what it returns in terms of a mathematical model, and
the public proof functions named `law_..` state what holds across functions. Taken on trust
are a few outside functions, each behind one item with a doc comment: appending a character
to a string, UTF-8 validation, random bytes and jitter, base64, and which IP addresses an
entry of a trunk peer covers.
