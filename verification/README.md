# opus

Identity, capability, policy and signed-ledger primitives for an AI-native IDE,
verified with Verus.

- `src/` is the verified library:
  - `capability`: capabilities and ordered, duplicate-free capability sets;
  - `domain`: identities, action requests, and the policy that allows a request,
    denies it, or routes it to a human;
  - `crypto`: deterministic FNV-1a signatures of event provenance;
  - `ledger`: signed events and the append-only ledger;
  - `trust`: the trust graph, identities keyed and ordered by DID;
  - `app`: the runtime that runs catalog actions through the policy and records
    every request, approval, denial and execution as a signed event;
  - `workspace`: the decisions of the desktop shell's workspace browser;
  - `laws`: properties of every decision, request trail and signature;
  - `text`: joining, ordering and numbering text.
- `tests/` exercises the library on concrete values.
- `app/` is the command-line program and the desktop shell's file-system commands.
