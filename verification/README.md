# outlayer-scheduler

A config-driven scheduler that calls a remote agent on an interval, when watched
public storage values change, or when a webhook is posted to.

- `src/` is the library, verified with Verus: configuration defaults and
  validation, `${VAR}` expansion of the configuration text, TOML-to-JSON
  conversion, the agent's input and request, storage-diff decisions and the
  cache of last-seen values, alert throttling and Telegram messages, webhook
  admission (shared secret and per-minute limit), and the main loop's interval
  and failure-streak decisions.
- `app/` is the program around it: command line, file and environment access,
  HTTP client and server, the async main loop, and the floating-point
  threshold test of the storage-diff trigger.
- `tests/` exercises the library on concrete values.

Times handed to the library are nanoseconds on a monotonic clock that starts
with the program.
