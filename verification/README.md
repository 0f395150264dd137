# porcelain

A local-first git client: a command that starts a server on the loopback interface and opens
the browser on it. This crate is its core, written in Verus: the client's decisions on what
it reads, runs and answers are executable functions with contracts, proved by the verifier.

## Layout

- `src/` — the verified library.
  - `text` — text as `Seq<char>`: the specifications of trimming, splitting, searching and
    integer formatting that every parser below is stated in.
  - `progress`, `records`, `status_v2`, `patch` — the parsers of git's output
    (`--progress`, `log -z`, `status --porcelain=v2 -z`, unified diffs) and the patch cutter
    that keeps only the chosen hunks and lines.
  - `model`, `read` — the domain types, the log graph's lanes and its cursor, the diffstat,
    the reading of references and of libgit2's diff lines.
  - `error`, `exec`, `init`, `clone`, `commit`, `branch` — the command lines given to `git`,
    what is checked before it runs, and how its stderr is turned into a sentence.
  - `jobs`, `askpass`, `indexing`, `ws` — long-running jobs, passphrase prompts, the search
    indexing job's decisions, and the WebSocket topics.
  - `web`, `server`, `assets`, `fs`, `registry`, `repos`, `recents`, `search`, `config`,
    `discover`, `cli` — the server's gatekeeping, its folder browser, the registry of open
    repositories, the search syntax and the rules of each route.
- `tests/` — tests of the library on concrete values.
- `app/` — the program around the library: the HTTP server, the calls to `git` and libgit2,
  the SQLite index, the file system and the command line. It hands the library plain values
  and acts on what comes back. A few choices tied to the I/O itself stay there: the streaming
  loop over a command's output stops on an idle timeout, on a cancellation or on a read error,
  and the size and speed of a download are computed in floating point.

## Checking

The library is verified with Verus; the tests and the program build with the usual Rust
toolchain against the library.
