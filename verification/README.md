# github_code_searching

A command-line client for GitHub's code search: it searches for a list of
terms, several at a time, walks the pages of results for each term, pauses
while the API's rate limit is used up, and appends the results it keeps to an
output file, one JSON array per page.

- `src/` is the verified library (Verus): the choice of the API token, the
  request for a page (with the term percent-encoded), the step taken on an
  answer's status and rate-limit pause, the outcome of an answer (its JSON
  body read and the kept records written through serde_json), the walk
  through the pages and its limit, the rate-limit plan and its countdown, the
  progress lines, and how the outcomes of all searches combine.
- `app/` is the program around it: argument parsing, sending requests and
  reading bodies, the output file, the progress display, tasks and sleeping.
- `tests/` runs the library on concrete values.
