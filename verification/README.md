# mirakc-core

The core of mirakc, a Mirakurun-compatible TV tuner server, as a library
whose behaviour is stated in contracts and proved with Verus.

- `src/` holds the verified library: the configuration and its validation,
  identifiers and the Mirakurun models, the EPG (EIT sections, schedules by
  day and segment, the state of services, clocks and programs), the
  decisions of the EPG jobs, on-air program tracking, recording schedules and
  records, filter pipelines and the check of which templates render
  safely with which data, the broadcaster's bookkeeping and smaller
  helpers.  Calls into outside crates (mustache, shell-words, path-dedot,
  cron, url, smallstr) and into parts of std that Verus has no
  specification for go through small trusted functions whose contracts say
  what is assumed of them.
- `tests/` exercises the library on concrete values.
- `app/` holds what talks to the world: reading configuration files,
  saving files, the clock, child processes and the JSON lines that the
  mirakc-arib commands print.
