# mlh

Mailing-list harvesting: archive mailing lists from NNTP servers and
public-inbox git repositories, then parse the archived e-mails into a
Parquet dataset.

The library in `src/` is written in Verus; every function in it is
verified against its `requires`/`ensures` contract.

- `archiver`: configuration and list selection, article range selections,
  the archive layout (e-mail files, progress, lineage, error log, Parquet
  batching and file numbering), the NNTP worker's decisions (which articles
  to read, retries, the step-by-step worker loop) and the public-inbox
  layout, epoch order, e-mail ids and selection.
- `parser`: header and body extraction, date selection, post-processing of
  the header fields, trailers and patches, and the records of the dataset.
- `tools`: the decisions of the `check_nntp` and `check_git` browsers.
- `text`, `platform`: verified text, number and path helpers, and the
  file-system questions the library asks.

Calls into `regex`, `chrono` and `mail-parser` go through small trusted
wrappers whose contracts name what the outside function returns.

`app/` holds the command-line program (`archiver`, `parser`, `check-nntp`,
`check-git` subcommands): network and file I/O, threads, prompts, and the
Arrow/Parquet writing. It runs the library's decisions and does nothing
else of its own.
