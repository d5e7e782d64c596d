# dnp3_master

A DNP3 master that monitors a fleet of RTUs: it polls them over TCP, keeps a
snapshot of each, queues operator controls, and serves both over HTTP.

The rule it is built on: **telemetry is the only source of point values.** A
command is an intent; a snapshot changes when telemetry shows the effect.

- `src/` is the library, verified with Verus: snapshots and polls
  (`master::model`, `telemetry`), arriving telemetry (`handler`), the online
  rule (`clock`), configuration (`config`, `settings`), connections (`fleet`),
  commands (`command`, `idmap`), fleet health (`health`), and what a snapshot
  says of its whole history (`history`).
- `app/` is the program around it: TOML, sockets, timers, locks, HTTP.
- `tests/` runs the library on concrete values.

## Configuration

`rtus.toml`, or the file that `RTUS_FILE` names:

```toml
master_addr = 1            # optional, defaults to 1
poll_interval_ms = 1000    # optional, defaults to 1000; not 0
offline_after_ms = 10000   # optional, defaults to 10000

[[rtu]]
id = "rtu1"                # unique
endpoint = "172.30.1.4:20000"
rtu_addr = 1024
bi_count = 8               # optional, defaults to 3
poll_interval_ms = 500     # optional, defaults to the fleet's; not 0
```

RTUs with the same `endpoint` share one connection.

## API

- `GET /api/rtus` lists the snapshots.
- `GET /api/health` summarises the fleet; look at `offline`.

  Both judge at the time of the request which RTUs are online.
- `POST /api/rtus/<id>/bi/<index>/<true|false>` and
  `POST /api/rtus/<id>/ai0/<value>` queue a control: 200 if it is queued, 404 for
  an unknown id, 503 if the RTU's queue does not take it.
