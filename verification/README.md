# hsf

A small utility for the Linux hosts file (`/etc/hosts`): check, add and
remove entries, reset the file to a base template, keep named backups, and
apply presets that can `#include` other files and `#require` remote lists.

The rules and the decisions of the program are a library verified with
Verus; the program around it performs the file, terminal, process and
network work.

## Layout

- `src/` — the verified library.
  - `chars.rs`, `text.rs`: character classes, and text operations (lines,
    trimming, words, joining, replacing) stated as spec functions over
    `Seq<char>`.
  - `sysfiles.rs`: host names, domains, URLs, IP addresses, file names, and
    the reading of hosts files (rules, validity, sizes).
  - `utils.rs`: `check`, `add`, `remove`, `clear`, `reset` on the text of a
    hosts file, the user's answers, the time format, and the host name
    dialog, with the laws that relate them (an added entry is found by
    `check`, for a domain given without white space around it; a removed
    domain is not).
  - `backup.rs`: backup names, the backup file format and its read-back
    law, the `backup` actions, and what `backup info` shows (the time is
    written by chrono in the local time zone).
  - `preset.rs`: the `preset` command and the checks on a formatted preset.
  - `preproccesor.rs`: the `#include` and `#require` processors, as state
    machines that ask for each file or download and take back the result.
  - `cli.rs`, `error.rs`: the top-level commands and the error messages.
- `tests/` — tests of the library on concrete values.
- `app/` — the program: argument handling, reading and writing files,
  prompts, privileges, the formatter child process and the downloads.
