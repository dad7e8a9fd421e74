# terrashift

Cross-cloud Terraform migration: scan an estate's `.tf` files, map its
resources to another provider, check the plan against the target schema,
emit HCL, apply it behind an approval gate and verify the resulting state.
An evaluation harness compares emitted files with golden fixtures.

## Layout

- `src/` — the library, verified with Verus: the scanner, mapper (plan
  validation, cache, prompts), validator, generator (emission plan, backup
  and rollback steps), executor gate, recovery and cost-optimizer loops
  (as state machines), state check, feedback, and the evaluation harness
  (`eval/`). Calls into hcl-rs, sha2 and similar stand behind small trusted
  wrappers whose contracts name or state what those crates return.
- `app/` — ordinary Rust around the library: file and process I/O, the
  async drivers of the LLM-backed loops, serde copies of the library's
  types, and HCL rendering (which handles floating-point numbers).
- `tests/` — the test suite, run against the compiled library.
