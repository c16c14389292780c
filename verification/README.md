# minigraf

The core of Minigraf, a small bi-temporal graph database with a Datalog query
language, written in Verus: its public functions carry contracts that Verus
proves, and the laws that relate them stand as proof functions.

## Layout

- `src/` — the verified library:
  - `edn`, `clauses`, `find`, `facts`, `command`: the EDN reader and the
    Datalog command parser (queries, rules, transactions, retractions);
  - `safety`, `prepared`, `substitute`: the variable-safety checks of `not`,
    `not-join` and expression clauses, and prepared queries with bind slots;
  - `stratification`: the rule dependency graph and its stratification;
  - `recursion`: semi-naive fixed-point evaluation of recursive rules, with
    its limits, over a rule step (one rule applied once);
  - `stratified`: stratified evaluation of a rule set: the requested
    predicates and their dependencies, stratum by stratum, positive rules to
    a fixed point and rules with negation once over the lower strata;
  - `disjunction`: `or` and `or-join` clauses (union of the branches, the
    covered-early stop, the join onto the incoming rows, `or-join`
    projection) over a branch evaluator;
  - `branch`: the evaluation of one `or` branch under incoming rows (its
    patterns, nested `or` clauses, negations and expression clauses), the
    branch evaluator that queries and rules use;
  - `negation`: `not` and `not-join`: whether a negated body can be
    satisfied under a row, and the filters a query applies with them;
  - `rule_application`: applying a rule once (its patterns matched, its
    expression, `or`, `not` and `not-join` clauses applied, its head
    instantiated under each row), and the recursive and stratified
    evaluation of rule sets with that step;
  - `planning`, `execution`: the checks a read query makes before any fact
    is matched (`:valid-at`, per-fact pseudo-attributes, recursion limits),
    its planned clauses with rule invocations read as patterns, and the run
    of a read query from its parsed form to its result rows, after
    stratified evaluation of the rules it invokes;
  - `expression`, `functions`, `aggregation`, `window`, `executor`,
    `evaluator`: expression evaluation, the function registry, grouping and
    aggregates, window functions, result projection and rule helpers;
  - `header`, `storage`, `btree`, `packed`, `file_store`: the file header,
    the page-store interface with its in-memory backend, paged index blobs,
    packed fact pages, and the decisions of the file-backed store;
  - `temporal`, `server`, `text`: timestamps, log levels and error codes, and
    string helpers.
- `app/` — ordinary Rust around the library: the file-backed page store,
  logging, `f64` arithmetic, and the serde encodings of facts and indexes.
- `tests/` — the test suite, run against the compiled library.

Matching patterns against the fact store is not part of this crate: the
matcher (all of a clause list's patterns matched against facts, seeded
with rows) and the conversion of a rule head's EDN into a fact's entity
and value are the caller's, passed as closures. The planner's cost-based clause order, the magic-set rewriting
of rules and the temporal filtering of the fact store are not modelled
either: a rule body or a query is applied as patterns, then expression
clauses, then `or` clauses, then `not` and `not-join`, each group in the
order written, and the matcher reads the facts the caller filtered.

Floating point never enters `src/`: floats are carried as their text, and the
functions that need `f64` arithmetic take the caller's step for it as an
argument; `app/floats.rs` supplies one.
