# PIMProbe

Touch probing for the Nestworks C500: a service that drives the machine's
controller through a socket bridge and measures edges, corners, centers and
surfaces with a touch probe.

The decisions of the service are a library verified with Verus:

- `frame`: the length-prefixed frames of the controller bridge.
- `parser`: the controller's records (acknowledgments, errors, status and
  probe reports, parser modes, settings).
- `magnitude`: whether a decimal is finite as an `f64`, decided on its digits.
- `controller`: which commands may be framed, what a status report says about
  readiness, and the probe actuator requests.
- `probe`: parser modes, axes, stage kinds, the checks before a routine and
  the options of the repeatability check.
- `routine`: the steps of each kind of routine.
- `stage`: which controller events complete, or fail, a motion stage.
- `script`: how a routine's review script is streamed while it runs.
- `reviews`: one-shot authorizations of reviewed plans and their results.
- `logs`: the run history folded from the history file.
- `updates`: which release to offer, and the checks of a downloaded installer.
- `service`: command-line arguments, labels, feature selections, the USB
  export target and the admission of machine actions.
- `text`: the character-sequence operations the others are stated over.

`app/` holds the service around the library: the HTTP API, the socket
connection, files and processes, and the routines' floating-point geometry.
`tests/` exercises the library.
