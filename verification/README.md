# duallink

The verified core of DualLink, a Windows network adapter manager that
toggles adapters, balances traffic between two connections and fails over
automatically from one to the other.

- `src/` is the library, proved with Verus:
  - `text`: trimming, searching, line splitting, decimal reading and writing;
  - `network`: the PowerShell commands and plans that change adapters and
    routing metrics, the reading of `ping.exe` and PowerShell output, the
    adapter records built from the members of PowerShell's JSON (the JSON
    reading itself is `serde_json`'s, trusted), subnet masks;
  - `monitor`: settings, the state shown to the user, and each monitoring
    tick's decisions, among them the debounced failover (two failed checks
    switch to the secondary adapter, three successful ones switch back);
  - `calendar`: the Gregorian date of a day since 1970-01-01;
  - `logger`: the log line stamps, the daily file name and the start banner;
  - `instance`: the process id stored in the single-instance lock;
  - `clock`, `json`: the system clock and `serde_json`, behind trusted items.
- `app/` is the desktop application around it: Tauri commands, the
  monitoring task, process spawning, files, the tray.
- `tests/` runs the library on concrete inputs.
