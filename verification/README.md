# bnu_core

The core of a local-first notes and meetings client: Markdown notes in a
vault, meeting notes that reference their recordings with `/v` lines,
transcription and minutes by an OpenAI-compatible model service, a
knowledge graph extracted from the notes, and retrieval for questions.

- `src/` is the library, verified with Verus: text handling, Markdown
  parsing and chunking, WAV headers and PCM conversion, cutting speech into
  segments, the naming rules of recordings, meeting-note rewriting
  (transcript blocks and the minutes section), minutes rendering and the
  prompts, graph validation and batching, the rate limiter and retry
  decisions, the secret box, and the laws that hold between them
  (`lemma_*` proof functions; those spanning several functions stand in the
  `*_law` modules).
- `app/` is the program around it: SQLite, files, HTTP calls, the float
  arithmetic of loudness and vectors, and the loops of the long-running jobs.
  Those loops read, call the services and write; what they do next is decided
  by step functions of the library (`process::process_step`,
  `process::segment_step`, `process::minutes_plan`,
  `minutes_run::minutes_step`, and in `extraction` `needs_extraction`,
  `fold_batch` and `extraction_rows`), which they call with each event.
  Retrieval is the one exception: it fuses and reranks by float scores, so
  its ordering stays in `app/`.
- `tests/` exercise the library on concrete inputs.
