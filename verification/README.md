# omega_daemon

The decision core of the Omega desktop daemon, verified with Verus: the
plugin table and each plugin's lifecycle, command routing and the command
catalogue, command hosts (startup backoff, process authentication,
admission and queues, execution tracking), renderer attachments and
permits, the hub's bounded histories and view registry, system brokers'
drivers and action admission, state-transition events, and the planners
that compare what a document declares with what is running.

Layout:

- `src/` — the library. Every function carries a contract that Verus
  proves; contracts and public proof functions state the laws the library
  keeps (for example, that one queued pass answers every request that
  arrived with it, that a replaced session is retired, or that putting a
  plan on file settles it).
- `tests/` — tests of the library on concrete values.
- `app/` — the edges around it:
  process signals, filesystem watching, staging and swapping directories,
  the session environment file, event time stamps, the presentation-host
  runner, schedule timers, and wire forms. It makes no decision of its own.
  The daemon's socket loop, command-host serving, broker connections and
  hub broadcasting speak the Omega wire protocol, whose crates are not part
  of this repository; the library holds their decisions as functions from
  state and event to state and action, for such a loop to drive.
