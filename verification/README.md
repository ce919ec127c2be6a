# grafbabe

grafbabe polls one Prometheus endpoint, keeps a month of its metrics in a
SQLite database and serves a dashboard of them over HTTP.

The decisions of the program are a library whose behaviour is stated in
contracts and proved:

- `text`: string routines (trimming, splitting, lines, decimal numbers,
  lexicographic order) stated over character sequences.
- `config`, `ini`, `args`: the settings, their defaults, the configuration
  file and the command line.
- `migrations`: the schema versions, which migrations a database needs, and
  where a failing migration went wrong.
- `models`, `sampling`, `series`: the time windows, which stored events
  answer a request, and how their values group into series.
- `snapshot`: what a snapshot of the endpoint adds to the database.
- `http`, `files`: how a request is read and answered, entity tags, and
  which frontend files a build includes.
- `serve`: what the event loop does for each event.
- `messages`: the words errors are reported in.

`app/` holds the program around the library: the SQLite statements, the
HTTP client, the sockets and event loop, the log, and the parse of the
Prometheus exposition format, whose values are floating-point numbers.
