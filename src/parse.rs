use crate::lex::{Gesture, Key, Pressed, gesture_keys};
use vstd::std_specs::iter::IteratorSpec;
use vstd::prelude::*;

verus! {

/// One element of a rule's pattern.
#[derive(Debug, PartialEq, Eq, Structural, Copy, Clone)]
pub enum ChordEvent {
    /// Two gesture slots of which at least one equals one of the two keys:
    /// any overlap matches, not only the pair in either order.
    Both(Pressed, Pressed),
    /// One gesture slot equal to the key.
    On(Pressed),
    /// A key of the right hand. It decides the match on its own: elements
    /// after it are never looked at, so it belongs last in a pattern.
    RAny,
    /// A key of the left hand, deciding the match as `RAny` does.
    LAny,
}

/// What a matched rule emits: a terminal, or a modifier held around a
/// nested action.
#[derive(Debug, PartialEq, Eq)]
pub enum Emit<T> {
    Mod(Box<Emit<T>>),
    Ctrl(Box<Emit<T>>),
    Shift(Box<Emit<T>>),
    Alt(Box<Emit<T>>),
    String(String),
    Code(T),
    Identity,
}

/// A rule: a pattern and the action it emits.
pub struct ChordEmit<T>(pub Vec<ChordEvent>, pub Emit<T>);

/// Whether the pattern `pat`, from its element `p` on, matches the gesture
/// `g` from slot `c` on.
pub open spec fn matches_from(g: Seq<Pressed>, pat: Seq<ChordEvent>, p: int, c: int) -> bool
    decreases pat.len() - p,
{
    if p < 0 || p >= pat.len() {
        true
    } else if c < 0 || c >= g.len() {
        false
    } else {
        match pat[p] {
            ChordEvent::Both(a, b) => c + 2 <= g.len() && (g[c] == a || g[c + 1] == b || g[c] == b
                || g[c + 1] == a) && matches_from(g, pat, p + 1, c + 2),
            ChordEvent::On(a) => g[c] == a && matches_from(g, pat, p + 1, c + 1),
            ChordEvent::RAny => g[c].0 is Right,
            ChordEvent::LAny => g[c].0 is Left,
        }
    }
}

/// Whether a whole pattern matches a gesture.
pub open spec fn rule_matches(g: Seq<Pressed>, pat: Seq<ChordEvent>) -> bool {
    matches_from(g, pat, 0, 0)
}

/// The action of the first rule from index `i` on whose pattern matches,
/// or `Identity` when none does.
pub open spec fn first_match<T>(g: Seq<Pressed>, rules: Seq<ChordEmit<T>>, i: int) -> Emit<T>
    decreases rules.len() - i,
{
    if i < 0 || i >= rules.len() {
        Emit::Identity
    } else if rule_matches(g, rules[i].0@) {
        rules[i].1
    } else {
        first_match(g, rules, i + 1)
    }
}

/// The action that a rule table gives a gesture.
pub open spec fn selected<T>(g: Seq<Pressed>, rules: Seq<ChordEmit<T>>) -> Emit<T> {
    first_match(g, rules, 0)
}

proof fn lemma_first_match_prefix<T>(g: Seq<Pressed>, rules: Seq<ChordEmit<T>>, n: int, k: int, m: int)
    requires
        0 <= k <= m < n <= rules.len(),
        rule_matches(g, rules[m].0@),
    ensures
        first_match(g, rules, k) == first_match(g, rules.take(n), k),
    decreases m - k,
{
    assert(rules.take(n)[k] == rules[k]);
    if k < m {
        lemma_first_match_prefix(g, rules, n, k + 1, m);
    }
}

proof fn lemma_first_match_at<T>(g: Seq<Pressed>, rules: Seq<ChordEmit<T>>, k: int, i: int)
    requires
        0 <= k <= i < rules.len(),
        rule_matches(g, rules[i].0@),
        forall|x: int| k <= x < i ==> !rule_matches(g, #[trigger] rules[x].0@),
    ensures
        first_match(g, rules, k) == rules[i].1,
    decreases i - k,
{
    if k < i {
        lemma_first_match_at(g, rules, k + 1, i);
    }
}

/// Rule order decides. Of two rules that both match a gesture, the later
/// one has no say: the table gives what it gives without that rule and all
/// after it. When no rule before the earlier one matches, the earlier
/// rule's action is the result.
pub proof fn lemma_earlier_rule_wins<T>(g: Seq<Pressed>, rules: Seq<ChordEmit<T>>, i: int, j: int)
    requires
        0 <= i < j < rules.len(),
        rule_matches(g, rules[i].0@),
        rule_matches(g, rules[j].0@),
    ensures
        selected(g, rules) == selected(g, rules.take(j)),
        (forall|x: int| 0 <= x < i ==> !rule_matches(g, #[trigger] rules[x].0@)) ==> selected(
            g,
            rules,
        ) == rules[i].1,
{
    lemma_first_match_prefix(g, rules, j, 0, i);
    if forall|x: int| 0 <= x < i ==> !rule_matches(g, #[trigger] rules[x].0@) {
        lemma_first_match_at(g, rules, 0, i);
    }
}

proof fn lemma_no_match_from<T>(g: Seq<Pressed>, rules: Seq<ChordEmit<T>>, k: int)
    requires
        0 <= k <= rules.len(),
        forall|x: int| 0 <= x < rules.len() ==> !rule_matches(g, #[trigger] rules[x].0@),
    ensures
        first_match(g, rules, k) == Emit::<T>::Identity,
    decreases rules.len() - k,
{
    if k < rules.len() {
        lemma_no_match_from(g, rules, k + 1);
    }
}

/// A gesture that no rule matches selects `Identity`, whose report is
/// empty.
pub proof fn lemma_unmatched_is_silent<T>(g: Seq<Pressed>, rules: Seq<ChordEmit<T>>)
    requires
        forall|x: int| 0 <= x < rules.len() ==> !rule_matches(g, #[trigger] rules[x].0@),
    ensures
        selected(g, rules) == Emit::<T>::Identity,
        flat(selected(g, rules)) == Seq::<Output<T>>::empty(),
{
    lemma_no_match_from(g, rules, 0);
}

fn rule_match(chord: &Gesture, events: &[ChordEvent]) -> (r: bool)
    ensures
        r == rule_matches(gesture_keys(*chord), events@),
{
    let g = chord.as_slice();
    let ghost gs = g@;
    let ghost pat = events@;
    let mut ix: usize = 0;
    let mut offset: usize = 0;
    while ix < events.len()
        invariant
            0 <= ix <= events.len(),
            g@ == gs,
            events@ == pat,
            gs == gesture_keys(*chord),
            gs.len() <= crate::lex::PRESS_SIZE,
            ix + offset <= gs.len(),
            rule_matches(gs, pat) == matches_from(gs, pat, ix as int, (ix + offset) as int),
        decreases events.len() - ix,
    {
        let c = ix + offset;
        if c >= g.len() {
            return false;
        }
        match events[ix] {
            ChordEvent::Both(p1, p2) => {
                if g.len() < c + 2 {
                    return false;
                }
                let ch1 = g[c];
                let ch2 = g[c + 1];
                if ch1 != p1 && ch2 != p2 && ch1 != p2 && ch2 != p1 {
                    return false;
                }
                offset = offset + 1;
            },
            ChordEvent::On(p) => {
                if p != g[c] {
                    return false;
                }
            },
            ChordEvent::RAny => {
                return matches!(g[c].0, Key::Right(_));
            },
            ChordEvent::LAny => {
                return matches!(g[c].0, Key::Left(_));
            },
        }
        ix = ix + 1;
    }
    true
}

/// The action of the first rule, in table order, whose pattern matches the
/// chord; `Identity` when none matches.
pub fn parse_with<T>(chord: &Gesture, rules: Vec<ChordEmit<T>>) -> (r: Emit<T>)
    ensures
        r == selected(gesture_keys(*chord), rules@),
{
    let ghost g = gesture_keys(*chord);
    let ghost all = rules@;
    let mut table = rules;
    let mut i: usize = 0;
    while i < table.len()
        invariant
            0 <= i <= table.len(),
            table@ == all,
            all == rules@,
            g == gesture_keys(*chord),
            selected(g, all) == first_match(g, all, i as int),
        decreases table.len() - i,
    {
        let hit = rule_match(chord, table[i].0.as_slice());
        if hit {
            let ChordEmit(_, emit) = table.remove(i);
            return emit;
        }
        i = i + 1;
    }
    Emit::Identity
}

/// One entry of an output report: a held modifier, an abstract code, or a
/// character of a literal.
#[derive(Debug, PartialEq, Eq)]
pub enum Output<T> {
    Mod,
    Ctrl,
    Shift,
    Alt,
    Code(T),
    Char(char),
}

/// A report would need more than `REPORT_SIZE` entries.
#[derive(Debug, PartialEq, Eq, Structural, Copy, Clone)]
pub struct CapacityExceeded;

/// The entry of one character of a literal.
pub open spec fn char_entry<T>(c: char) -> Output<T> {
    Output::Char(c)
}

/// One `Char` entry per character, in order.
pub open spec fn char_outputs<T>(s: Seq<char>) -> Seq<Output<T>> {
    Seq::new(s.len(), |i: int| char_entry(s[i]))
}

/// The report of an action: its modifiers outermost first, then its code,
/// or one entry per character of its literal; nothing for `Identity`.
pub open spec fn flat<T>(e: Emit<T>) -> Seq<Output<T>>
    decreases e,
{
    match e {
        Emit::Mod(inner) => seq![Output::Mod] + flat(*inner),
        Emit::Ctrl(inner) => seq![Output::Ctrl] + flat(*inner),
        Emit::Shift(inner) => seq![Output::Shift] + flat(*inner),
        Emit::Alt(inner) => seq![Output::Alt] + flat(*inner),
        Emit::String(s) => char_outputs(s@),
        Emit::Code(c) => seq![Output::Code(c)],
        Emit::Identity => Seq::empty(),
    }
}

fn push_chars<T>(s: &String, out: &mut Vec<Output<T>>) -> (ok: bool)
    requires
        old(out)@.len() <= crate::lex::REPORT_SIZE,
    ensures
        ok == (old(out)@.len() + s@.len() <= crate::lex::REPORT_SIZE),
        ok ==> final(out)@ == old(out)@ + char_outputs::<T>(s@),
{
    broadcast use vstd::string::axiom_spec_iter, vstd::string::next_postcondition;

    let ghost base = out@;
    let mut chars = s.as_str().chars();
    let ghost mut done: Seq<char> = Seq::empty();
    assert(out@ =~= base + char_outputs::<T>(done));
    loop
        invariant
            done + IteratorSpec::remaining(&chars) == s@,
            out@ == base + char_outputs::<T>(done),
            base == old(out)@,
            base.len() <= crate::lex::REPORT_SIZE,
            out@.len() <= crate::lex::REPORT_SIZE,
            IteratorSpec::obeys_prophetic_iter_laws(&chars),
            IteratorSpec::decrease(&chars) is Some,
        decreases IteratorSpec::decrease(&chars)->0,
    {
        let ghost old_rem = IteratorSpec::remaining(&chars);
        let next = chars.next();
        match next {
            None => {
                assert(done =~= s@);
                return true;
            },
            Some(c) => {
                if out.len() >= crate::lex::REPORT_SIZE {
                    return false;
                }
                out.push(Output::Char(c));
                proof {
                    assert(char_outputs::<T>(done.push(c)) =~= char_outputs::<T>(done).push(char_entry(c)));
                    assert(done.push(c) + IteratorSpec::remaining(&chars) =~= done + old_rem);
                    done = done.push(c);
                }
            },
        }
    }
}

fn flatten_into<T: Copy>(emit: &Emit<T>, out: &mut Vec<Output<T>>) -> (ok: bool)
    requires
        old(out)@.len() <= crate::lex::REPORT_SIZE,
    ensures
        ok == (old(out)@.len() + flat(*emit).len() <= crate::lex::REPORT_SIZE),
        ok ==> final(out)@ == old(out)@ + flat(*emit),
    decreases emit,
{
    let (held, inner) = match emit {
        Emit::Mod(inner) => (Output::Mod, inner),
        Emit::Ctrl(inner) => (Output::Ctrl, inner),
        Emit::Shift(inner) => (Output::Shift, inner),
        Emit::Alt(inner) => (Output::Alt, inner),
        Emit::String(s) => {
            return push_chars(s, out);
        },
        Emit::Code(c) => {
            if out.len() >= crate::lex::REPORT_SIZE {
                return false;
            }
            out.push(Output::Code(*c));
            assert(out@ =~= old(out)@ + flat(*emit));
            return true;
        },
        Emit::Identity => {
            assert(old(out)@ + flat(*emit) =~= old(out)@);
            return true;
        },
    };
    assert(flat(*emit) == seq![held] + flat(**inner));
    if out.len() >= crate::lex::REPORT_SIZE {
        return false;
    }
    out.push(held);
    let ghost mid = out@;
    let ok = flatten_into(&**inner, out);
    proof {
        if ok {
            assert(out@ =~= old(out)@ + flat(*emit));
        }
    }
    ok
}

/// The report of an action, or `CapacityExceeded` when it would need more
/// than `REPORT_SIZE` entries.
pub fn flatten<T: Copy>(emit: &Emit<T>) -> (r: Result<Vec<Output<T>>, CapacityExceeded>)
    ensures
        flat(*emit).len() <= crate::lex::REPORT_SIZE <==> r is Ok,
        r is Ok ==> r->Ok_0@ == flat(*emit),
{
    let mut out: Vec<Output<T>> = Vec::new();
    if flatten_into(emit, &mut out) {
        Ok(out)
    } else {
        Err(CapacityExceeded)
    }
}

} // verus!
