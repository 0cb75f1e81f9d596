# hcl_highlight

A line-by-line syntax-highlighting tokenizer for HCL / Terraform files,
verified with Verus.

`tokenize_line(line, state, tokens)` appends the tokens of one line and
returns the state the next line starts in (normal, inside a block comment,
or inside a heredoc named by the hash of its tag).

- `src/token.rs`: tokens, token kinds and the line states.
- `src/chars.rs`: byte classes.
- `src/keywords.rs`: the keyword tables.
- `src/model.rs`: what each line turns into, as functions on its bytes.
- `src/hcl.rs`: the tokenizer, proved to produce exactly that.
- `src/laws.rs`: properties of every scanned line (order of tokens,
  comments and heredocs across lines).

Behaviour worth knowing:

- The `*/` that ends a block comment is looked for after the comment's
  opening `/*`, so `/*/` leaves the comment open; on a line that goes on
  with a comment from an earlier line it is looked for from the start.
- A heredoc is closed by a line whose text, blanks around it aside, is its
  tag, a word of identifier bytes (`-` included). The state keeps only the
  tag's hash, so another such word with the same hash closes the heredoc
  too: `r-w` closes `<<EOF`.
