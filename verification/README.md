# drvcheck

A scanner for known-vulnerable Windows kernel drivers. It enumerates the loaded
drivers, resolves their NT paths to Win32 paths, computes the SHA-256 digest of
each driver file and reports the drivers whose digest is listed in the
[LOLDrivers](https://loldrivers.io) database (`loldrivers.json` next to the
executable).

Layout:

- `src/` — the library, verified with Verus:
  - `text.rs`: character helpers (prefixes, search, ASCII case folding, Unicode
    white space, trimming, joining);
  - `wide.rs`: UTF-16 buffers of the Windows API;
  - `paths.rs`: NT path to Win32 path conversion;
  - `digest.rs`: SHA-256 and hexadecimal text (through `sha2` and `hex`), and
    the two steps of hashing one driver;
  - `vuln.rs`: the vulnerability database and its lookups;
  - `report.rs`: the alert shown for a matched driver.
- `app/` — the program: Windows API calls, file and console I/O, JSON parsing.
- `tests/` — tests of the library.
