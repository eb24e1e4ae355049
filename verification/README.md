# nico_title

Title analysis for NicoNico Vocaloid videos, verified with Verus.

- `src/` is the verified library: rule-based song-title extraction
  (`extract`), BIO tagging of titles from extracted song titles (`bio`),
  per-character features (`features`), BIO labels, Viterbi back-pointer
  following and B-tag counts (`crf`), comparison of predicted and annotated
  titles (`analyze_results`), the cover-song keyword classifier
  (`classifier`), character n-grams and the n-gram vocabulary (`ngram`),
  and the computing parts of the data tools: TSV fields (`dataset`), title
  pattern tallies (`analyze`), request prompts, batches and reply framing
  for the annotating model (`annotate`), the join of rule-based and model
  annotations with its statistics (`compare`), and paging (`download`).
- `app/` is the command-line program around it: files, HTTP requests, JSON,
  and the floating-point models (the CRF weights and training, and the
  logistic-regression cover classifier).
