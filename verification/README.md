# wdrlib

Wdr is a client-server process control system. Each node (`wdr`) reads the
configuration from ZooKeeper every five seconds, keeps its processes in step
with it (downloading, starting and stopping them) and publishes their states;
the manager (`wdrm`) serves the configuration, the node list and the node
reports over HTTP.

`src/` is the verified library:

- `config`, `info`: the configuration and the node reports, with their views;
  a report book that keeps the latest report of each process, over any run
  of reports.
- `paths`: the ZooKeeper layout (`/config`, `/node/<name>`, `/info/<name>`)
  and the parent of a path.
- `zk`: the ZooKeeper client, over trusted wrappers of the `zookeeper` crate.
  Each session keeps a ghost record of the requests it made and what came
  back, so that every operation states exactly which requests it makes;
  `ensure` creates a node and its missing ancestors, parents first, nesting
  no deeper than the path has slashes, plus one. Sessions are opened in
  `app/`: opening one is network work.
- `workers`: the table of a node's running processes (each worker with its
  stop channel and a ghost count of the stop signals offered on it, without
  ever blocking), the record
  of retired workers, and the reconciliation laws that tie the table to the
  configuration.
- `manager`: reading the stored configuration text and the change detection
  of the node's main loop.
- `process`, `settings`, `manager_settings`, `service`: the file name of a
  download, the node's name and settings, the manager's settings, and the
  answers of the manager's HTTP service.

`app/` holds the programs: the node's threads and channels, downloads and
child processes, the HTTP server, the JSON forms of the data and the loading
of settings.
