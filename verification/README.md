# resume_workbench

The logic of a desktop resume tailor, verified with Verus: it normalizes captured job posts,
builds the ATS term ledger from a job analysis, resolves each term against the base resume and
the evidence bank, scores a document's keyword coverage, checks a tailored resume against the
base it was written from, and decides each step of a tailoring run.

- `src/` is the verified library. Every public function states its result over spec
  functions (`json`, `text`, `evidence`, `preflight`, `ats`, `tailoring`, `pipeline`, ...), and
  the `lemma_*` proof functions state the laws that relate them; those that span several
  modules stand in `checks_laws`, `ledger_laws`, `candidate_laws`, `slug_laws`, `run_laws` and
  `prompt_laws`.
- `tests/` runs the library on concrete inputs.
- `app/` is the unverified shell: configuration and keychain, the workspace on disk, the OpenAI
  calls, job import over HTTP, document rendering, and the local bridge the browser extension
  talks to. It converts between serde values and the library's types and leaves every decision
  to the library.
