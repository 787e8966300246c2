# laminae

Writing-persona and edit-learning logic, verified with Verus.

- `src/` is the verified library:
  - `filter` — the post-generation voice filter (machine vocabulary, meta openers,
    paragraphs, trailing questions, em-dashes, length), with its findings and fixes
    stated exactly;
  - `prompt` — compiling a persona into a prompt block;
  - `dna` — extracting distinctive phrases and tracking them as voice DNA;
  - `tracker`, `detector` — edit records and the recurring edit patterns found in them;
  - `store` — the deduplicated store of learned instructions, capped first in, first
    out, and listed by reinforcement;
  - `learner` — the request and reply handling of edit analysis;
  - `model`, `time`, `ratio`, `sort`, `text` — data types and the text, ordering and
    arithmetic they rest on.
  Percentages, overlaps and thresholds are exact ratios and basis points; points in time
  are plain seconds and nanoseconds.
- `app/` holds what stays outside the proofs: serde-ready copies of the data types,
  float views of the ratios, the call to a language model, and process setup for the
  Windows sandbox.
- `tests/` exercise the library on concrete inputs.
