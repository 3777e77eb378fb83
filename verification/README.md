# log_forensics

Search, page through and summarise log artefacts: plain text, delimited text (csv, tsv,
Zeek logs), systemd journals, packet captures (pcap, pcapng) and exported Windows registry
files. Each plugin turns a file into lines and offers three tools: `search` (literal,
smart-case), `read` (a window of rows or of bytes) and `stat` (a summary of the file).

- `src/` is the library, verified with Verus: every format is read from the file's bytes, and
  each tool's result is stated exactly in its contract. Calls into outside crates (regular
  expressions, decompression, csv, pcap and packet parsing, JSON and time formatting) stand
  behind small trusted wrappers whose contracts say what is assumed of them.
- `app/` holds the Node bindings: reading files, worker threads, and JavaScript types.
- `tests/` runs the library on concrete files built in memory.
