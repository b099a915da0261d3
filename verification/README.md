# network_utils

Finds the process that owns a local TCP or UDP socket, and that process's
parent, on Linux, macOS and Windows.

* `src/` is the verified library (Verus). `model` holds the address, tuple
  and error types; `text` the string helpers (whitespace fields, integer
  parsing as `str::parse` does it, decimal numerals); `linux`, `macos` and
  `windows` decode what each operating system reports and decide the
  answers: the netlink `sock_diag` request and reply walk and the `/proc`
  rules on Linux, the `pcblist_n` record scan on macOS, the IP Helper owner
  tables, Toolhelp snapshots and module names on Windows.
* `app/` makes the system calls (netlink sockets, `/proc`, sysctl, libproc,
  Win32) and hands their results to the library; its `process` module has
  the lookup functions `get_pid`, `get_ppid`, `find_process_name` and
  `find_process_ppid`.
* `tests/` runs the library on concrete inputs.
