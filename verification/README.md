# Kidobo

Kidobo keeps a host firewall's blocklist in step with local entries, remote feeds, banned autonomous
systems and safelists. This crate holds its rules, written in Verus: every function of the library
states what it returns and is proved to.

- `src/policy`: networks, their text and arithmetic, configuration rules, blocklist documents, and
  lookup.
- `src/adapter`: feeds and their caches, firewall commands and their text, host probes.
- `src/workflow`: the command workflows, from their requests and ports to their outcomes.
- `src/text.rs`, `src/numerals.rs`, `src/ordering.rs`, `src/url_text.rs`: shared vocabulary.
- `app`: ordinary Rust around the library: files, processes, the network, and the terminal.
- `tests`: the library seen from outside.

Ports of the workflows are traits without promises: a workflow's contract says which call it made
and what followed from the reply, whatever the reply was. Functions that call another crate are few
and marked; the comment above each says what is taken on trust of that crate.

Laws that span functions are public proof functions named `law_...`.
