# Studio-Offline

Runs Roblox Studio against a local server: a scanner finds what has to be patched in a build of
the program, a library patches it when it starts, and a server answers the requests that then
arrive on this machine.

- `src/` is the verified library: the scanner (`pe`, `scan_urls`, `scan_patterns`, `scan_trust`,
  `cookie`, `scan`), the patches (`offsets`, `runtime`), the rules of the server (`assets`,
  `datastores`, `avatar`, `startup`, `logging`), and what these stand on (`code`, `search`,
  `text`, `numbers`, `utf16`). What holds across functions is stated in `url_laws`, `trust_laws`,
  `patch_laws` and at the end of the other modules.
- `tests/` runs the library.
- `app/` holds the programs around it: files, network, process memory, JSON.
