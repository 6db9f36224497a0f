# pscheckwait

A virtual waiting line for web sites: each site admits up to `max_active`
visitors at once and lines up the rest, first come, first served. Visitors
keep their place with heartbeats; tokens that go quiet expire.

The library (`src/`) is verified with Verus:

- `model` states what a site's queue is (the line and the last-seen times of
  waiting and admitted tokens) and what every operation does to it;
- `memory` is the in-memory queue, proved to follow the model exactly;
- `laws` proves properties across operations: promotion never admits past
  the limit, expiry evicts only idle tokens, a token that leaves or is kicked
  is unknown, listing pages split the line and the admitted tokens with no
  repeats or gaps, and more;
- `orderly` states when a queue is orderly (no token twice in line, the line
  holds exactly the waiting tokens, none both waiting and admitted) and
  proves that every operation keeps it so (entering, for a token not already
  admitted or waiting); in an orderly queue promotion is first come, first
  served (`laws::law_first_come_first_served`);
- `origin` parses `Origin`/`Referer` values and decides whether a request may
  use a site; `admin`, `config`, `sites` and `settings` hold the rules of the
  administration API and of start-up;
- `redis_plan` and `sessions` hold the decisions of the Redis-backed queue and
  of the live (WebSocket) sessions, whose commands and messages run in the
  application; `laws` proves that a promotion run against a store that
  answers faithfully ends in the state the queue model gives;
- `tokens`, `text` (in part), `clock` and `settings` (in part) declare the
  outside and standard-library calls the library relies on, with the
  contracts it assumes of them.

The server (`app/`) wires the library into an HTTP and WebSocket service.
It serves the static pages (the demo, the loader script, the admin page) by
reading them from disk at run time, relative to the working directory
(`loader/`, `demo/`, `wait/`, `admin-sveltekit/build/`), rather than
embedding them in the executable: a missing file is answered with 404.
