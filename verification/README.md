# datafusion_distributed

Runs DataFusion plans on a cluster of workers, and watches the cluster from a console.

- `src/` is the library. It decides: which worker gets which task, what is sent to it, when all
  metrics are in, which address a worker is dialed at and by which name it is spoken to. What
  its own code does is stated in contracts that Verus proves. What is taken on trust from other
  crates stands in small functions marked `#[verifier::external_body]`, in `assume_specification`
  items, and in declarations of other crates' types. Some of those functions only make a call and
  claim nothing of its result; the contracts around them say which calls a value came from.
- `app/` is the program around it: the command line, the terminal, the network, and DataFusion's
  traits.
- `tests/` runs the library with the crates that it relies on.
