# esp32-lb

A small HTTP load balancer. Requests are sent to healthy backends in turn; an attempt that times
out, fails, or is answered with 502, 503 or 504 puts the backend on probation and is repeated on the
next one. An admin API reports on the backends and adds or removes them at run time.

- `src/` holds the decisions, verified with Verus: backend health and latency (`health`, `metrics`,
  `backend`), round-robin selection (`balance`), the retry rules of a request and what holds of it
  over all its attempts (`exchange`, `retries`), the rewriting of request targets (`uri`,
  `outgoing`), identifiers (`identifier`) and the administration of the backend list (`admin`).
- `app/` holds the program around it: the proxy on port 3001, the admin API on port 3002, logging,
  and the sharing of state between tasks.
- `tests/` exercises the library on concrete values.
