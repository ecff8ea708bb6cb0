# noticeflow

NoticeFlow watches the macOS notification store, matches new notifications
against user rules, extracts variables from them and runs the actions the
rules name (shell and script commands, URLs, apps, HTTP requests,
notifications). The library under `src/` holds that logic, verified with
Verus; `app/` is the command-line program around it.

## Library (`src/`)

- `text`, `strmap`, `paths`: character sequences, a sorted string map (the
  variables), path joining and components.
- `foreign`: the calls into outside crates (regex, serde_json, chrono, uuid,
  dirs, plist, base64), each with the contract the library relies on.
- `property_list`: the entries of a property list as the library reads
  them (notification payloads, an application's `Info.plist`).
- `template`: filling `{{name}}`, `${name}`, `$name` and their modifier and
  escape forms; a substituted value is never read again. `template_frame`:
  plain text before and after a placeholder comes through unchanged.
- `variables`, `rules`, `validation`: extracting variables, evaluating match
  conditions, choosing the rules a notification triggers, checking rules
  before they are saved.
- `automation`, `analysis`, `dispatch`, `id_table`, `record_cache`: filters,
  the watcher's state machine, match explanations, the action queue,
  cooldowns, hit counts, history and log bookkeeping, the decoded-record
  cache.
- `action_runner`: the commands actions plan, their outcomes and messages,
  HTTP retries.
- `app_settings`, `app_catalog`, `notification_db`, `notification_archive`,
  `commands`, `tray_icon`: settings and safe data directories, the
  application catalog, payload decoding and store queries, the archive's
  statements and rows, the decisions behind each command, the tray icon.

## Program (`app/`)

`noticeflow watch` runs the watcher and the action worker; the other
commands list and edit rules, settings, notifications and the archive
(an unknown command prints the list).
