# scwx

Fast SSH, database and port-forward access to Scaleway infrastructure.

- `src/` is the library, verified with Verus: the inventory and its
  filters, naming and database keys, the picker's input and output, the ssh,
  tmux and mysql command lines, tunnel bookkeeping, the inventory cache's
  freshness, credential resolution, the Scaleway fetch's pagination and
  error policy, and the update checks. Each public function states its
  result in `ensures`; the `lemma_*` proof functions state the laws that
  relate several of them (values that read back, columns that align, a
  stable sort, shell quoting that round-trips).
- `app/` is the program around it: command-line parsing, files, the
  Scaleway and GitHub HTTP APIs, and the ssh, tmux, fzf and mysql
  processes.
- `tests/` runs the library on concrete values.
