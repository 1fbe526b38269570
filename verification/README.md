# ternary_explain

Explainability for ternary agent decisions (-1, 0, +1), with a verified core.

- `src/` — the verified library (Verus):
  - `types.rs`: `TernaryAction` (conversions, labels, opposite, the other
    actions) with its laws, and the deterministic `Clock`;
  - `audit.rs`: `DecisionIndex`, the id / timestamp / action of each logged
    decision, with lookup by id, filters by action and by time, the action
    distribution, and the laws that tie them together; `DecisionLog`, which
    keeps logged items together with their records and searches them through
    the index;
  - `ranking.rs`: the stable ranking of items by integer key, largest first
    (a merge of ranked halves), and the proof that this ranking is unique;
  - `lookup.rs`: first score for an action, first input with a name;
  - `explanation.rs`: `Explanation` and its text layout.
- `app/` — the parts that carry floating-point scores, confidences and
  contributions (traces, feature contributions, explanation text,
  counterfactuals, the audit log and reports), built on the verified core.
- `tests/` — tests of the verified library.
