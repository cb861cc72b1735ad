use crate::lex::{EventLog, chord, log_events, remaining, resolved};
use crate::parse::{CapacityExceeded, ChordEmit, Output, flat, flatten, parse_with, selected};
use vstd::prelude::*;

verus! {

/// The report that the log's head gives under a rule table: empty while no
/// chord resolves, else the flattened action of the rule the chord selects.
pub open spec fn report_of<T>(s: Seq<crate::lex::Event>, rules: Seq<ChordEmit<T>>) -> Seq<Output<T>> {
    let g = resolved(s);
    if g.len() == 0 {
        Seq::empty()
    } else {
        flat(selected(g, rules))
    }
}

/// One step of the pipeline: resolves the chord at the head of the log,
/// selects its rule and flattens the action into a report. A log with no
/// resolved chord gives an empty report.
pub fn eval<T: Copy>(
    stack: &mut EventLog,
    rules: Vec<ChordEmit<T>>,
) -> (r: Result<Vec<Output<T>>, CapacityExceeded>)
    ensures
        log_events(*final(stack)) == remaining(log_events(*old(stack))),
        report_of(log_events(*old(stack)), rules@).len() <= crate::lex::REPORT_SIZE <==> r is Ok,
        r is Ok ==> r->Ok_0@ == report_of(log_events(*old(stack)), rules@),
{
    let pressed = chord(stack);
    if pressed.is_empty() {
        return Ok(Vec::new());
    }
    let emit = parse_with(&pressed, rules);
    flatten(&emit)
}

} // verus!
