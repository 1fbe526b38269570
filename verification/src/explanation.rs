//! Explanations of ternary decisions and their text layout.

use vstd::prelude::*;

verus! {

/// A generated explanation for a ternary decision.
#[derive(Debug, Clone)]
pub struct Explanation {
    /// The decision ID this explains.
    pub decision_id: u64,
    /// One-line summary.
    pub summary: String,
    /// Detailed breakdown paragraphs.
    pub details: Vec<String>,
    /// Whether this was flagged as a close/uncertain decision.
    pub is_close_call: bool,
}

/// The lines joined into one text, one line after another, separated by a
/// newline.
pub open spec fn join_lines(lines: Seq<Seq<char>>) -> Seq<char>
    decreases lines.len(),
{
    if lines.len() == 0 {
        Seq::empty()
    } else if lines.len() == 1 {
        lines[0]
    } else {
        join_lines(lines.drop_last()) + seq!['\n'] + lines.last()
    }
}

/// The lines of an explanation: its summary, then each detail in order.
pub open spec fn explanation_lines(e: Explanation) -> Seq<Seq<char>> {
    seq![e.summary@] + e.details@.map_values(|d: String| d@)
}

/// Joining lines: no lines give the empty text, one line gives that line,
/// and one more line adds a newline and that line after the text of the
/// others.
pub proof fn lemma_join_lines(lines: Seq<Seq<char>>, x: Seq<char>)
    ensures
        join_lines(Seq::<Seq<char>>::empty()) == Seq::<char>::empty(),
        join_lines(seq![x]) == x,
        lines.len() > 0 ==> join_lines(lines.push(x)) == join_lines(lines) + seq!['\n'] + x,
{
    assert(lines.push(x).drop_last() == lines);
}

/// The lines of an explanation are its summary followed by all of its
/// details, each detail in its own line, in order.
pub proof fn lemma_explanation_lines(e: Explanation)
    ensures
        explanation_lines(e).len() == e.details@.len() + 1,
        explanation_lines(e)[0] == e.summary@,
        forall|k: int|
            0 <= k < e.details@.len() ==> #[trigger] explanation_lines(e)[k + 1]
                == e.details@[k]@,
{
}

/// Format an explanation as a single string: the summary, then each detail
/// on a line of its own.
pub fn format_explanation(explanation: &Explanation) -> (r: String)
    ensures
        r@ == join_lines(explanation_lines(*explanation)),
        explanation.details@.len() == 0 ==> r@ == explanation.summary@,
        explanation.details@.len() > 0 ==> r@ == join_lines(
            explanation_lines(*explanation).drop_last(),
        ) + seq!['\n'] + explanation.details@.last()@,
{
    let ghost lines = explanation_lines(*explanation);
    let mut r = explanation.summary.clone();
    let n = explanation.details.len();
    let mut i: usize = 0;
    proof {
        reveal_strlit("\n");
        assert(lines.take(1) == seq![explanation.summary@]);
    }
    while i < n
        invariant
            n == explanation.details@.len(),
            i <= n,
            lines == explanation_lines(*explanation),
            lines.len() == n + 1,
            r@ == join_lines(lines.take(i + 1)),
            "\n"@ == seq!['\n'],
        decreases n - i,
    {
        r.append("\n");
        r.append(explanation.details[i].as_str());
        assert(lines.take(i + 2).drop_last() == lines.take(i + 1));
        assert(lines[i + 1] == explanation.details@[i as int]@);
        i = i + 1;
    }
    assert(lines.take(n + 1) == lines);
    r
}

} // verus!
