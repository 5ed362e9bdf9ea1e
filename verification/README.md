# batcher

A verified library behind two small command-line programs: a batch downloader
with a prime-number benchmark, and a Spotify playlist tool.

- `src/` is the library, checked by Verus: the two sieves (`prime`, with their
  laws in `sieve_laws`), byte-size formatting (`console`), decimal text
  (`text`, `number`), the command lines (`command`, `spotify`), download
  bookkeeping (`download`, `tickets`, `threaded_queue`) and playlist comparison
  and display (`track`, `diff`, `display`).
- `app/` runs the programs: the database, the network, the terminal and the
  threads. The executable's file name picks the program: `spotigit` runs the
  playlist tool, any other name the batch program.
- `tests/` runs the library on concrete values.
