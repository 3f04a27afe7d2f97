//! Turtle interpretation of an action string.
//!
//! The turtle starts at the origin with heading zero. It reads the action
//! string one symbol at a time and emits drawing actions, each relative to
//! the position before it. Headings and positions are kept symbolically: a
//! heading is a count of turns, and a pop leads back to the position that
//! was current after a given number of actions. Turning a heading into an
//! angle, and actions into coordinates, is left to the caller, who knows the
//! turning angle.

use vstd::prelude::*;
use crate::grammar::is_action_string;
use crate::text::chars_of;

verus! {

/// A heading: the direction `turns` times the turning angle plus
/// `reversals` times a half turn. Nothing is reduced modulo a full turn.
#[derive(Clone, Copy, Debug, PartialEq, Eq, Structural)]
pub struct Heading {
    pub turns: i128,
    pub reversals: usize,
}

/// Where a drawing action leads, seen from the position before it.
#[derive(Clone, Copy, Debug, PartialEq, Eq, Structural)]
pub enum Motion {
    /// Nowhere: the opening action, which fixes the origin.
    Origin,
    /// One unit along the heading.
    Unit(Heading),
    /// Back to the position that was current after the first so many
    /// actions.
    BackTo(usize),
}

/// A drawing action: a move without a mark, or a visible line.
#[derive(Clone, Copy, Debug, PartialEq, Eq, Structural)]
pub enum DAct {
    RmoveTo(Motion),
    RlineTo(Motion),
}

/// Why an action string cannot be interpreted. `at` is the index of the
/// offending symbol.
#[derive(Clone, Copy, Debug, PartialEq, Eq, Structural)]
pub enum TurtleError {
    /// A `]` with nothing on the stack.
    StackUnderflow { at: usize },
    /// A symbol that is no action.
    UnimplementedAction { at: usize, symbol: char },
}

/// A heading as a mathematical value.
pub struct HeadingModel {
    pub turns: int,
    pub reversals: nat,
}

/// A motion as a mathematical value.
pub enum MotionModel {
    Origin,
    Unit(HeadingModel),
    BackTo(nat),
}

/// A drawing action as a mathematical value.
pub struct DActModel {
    /// whether the action leaves a mark
    pub draw: bool,
    pub motion: MotionModel,
}

/// An interpretation failure as a mathematical value.
pub enum TurtleFault {
    StackUnderflow { at: nat },
    UnimplementedAction { at: nat, symbol: char },
}

impl View for Heading {
    type V = HeadingModel;

    open spec fn view(&self) -> HeadingModel {
        HeadingModel { turns: self.turns as int, reversals: self.reversals as nat }
    }
}

impl View for Motion {
    type V = MotionModel;

    open spec fn view(&self) -> MotionModel {
        match *self {
            Motion::Origin => MotionModel::Origin,
            Motion::Unit(h) => MotionModel::Unit(h@),
            Motion::BackTo(mark) => MotionModel::BackTo(mark as nat),
        }
    }
}

impl View for DAct {
    type V = DActModel;

    open spec fn view(&self) -> DActModel {
        match *self {
            DAct::RmoveTo(m) => DActModel { draw: false, motion: m@ },
            DAct::RlineTo(m) => DActModel { draw: true, motion: m@ },
        }
    }
}

impl View for TurtleError {
    type V = TurtleFault;

    open spec fn view(&self) -> TurtleFault {
        match *self {
            TurtleError::StackUnderflow { at } => TurtleFault::StackUnderflow { at: at as nat },
            TurtleError::UnimplementedAction { at, symbol } => TurtleFault::UnimplementedAction {
                at: at as nat,
                symbol,
            },
        }
    }
}

/// The drawing actions of `v` as mathematical values.
pub open spec fn dacts_view(v: Seq<DAct>) -> Seq<DActModel> {
    v.map_values(|a: DAct| a@)
}

/// The turtle between two symbols.
pub struct Turtle {
    pub heading: HeadingModel,
    /// Saved states, oldest first: the heading, and the number of actions
    /// emitted when it was saved, which stands for the position.
    pub stack: Seq<(HeadingModel, nat)>,
    /// The actions emitted so far.
    pub dacts: Seq<DActModel>,
}

/// The turtle before the first symbol: heading zero, empty stack, and the
/// opening move to the origin already emitted.
pub open spec fn turtle_start() -> Turtle {
    Turtle {
        heading: HeadingModel { turns: 0, reversals: 0 },
        stack: Seq::empty(),
        dacts: seq![opening_move()],
    }
}

/// What the symbol `c`, found at index `at`, does to the turtle `t`.
pub open spec fn turtle_step(t: Turtle, c: char, at: nat) -> Result<Turtle, TurtleFault> {
    if c == 'F' {
        Ok(Turtle { dacts: t.dacts.push(DActModel { draw: true, motion: MotionModel::Unit(t.heading) }), ..t })
    } else if c == 'f' {
        Ok(Turtle { dacts: t.dacts.push(DActModel { draw: false, motion: MotionModel::Unit(t.heading) }), ..t })
    } else if c == '+' {
        Ok(Turtle { heading: HeadingModel { turns: t.heading.turns + 1, ..t.heading }, ..t })
    } else if c == '-' {
        Ok(Turtle { heading: HeadingModel { turns: t.heading.turns - 1, ..t.heading }, ..t })
    } else if c == '|' {
        Ok(Turtle { heading: HeadingModel { reversals: t.heading.reversals + 1, ..t.heading }, ..t })
    } else if c == '[' {
        Ok(Turtle { stack: t.stack.push((t.heading, t.dacts.len())), ..t })
    } else if c == ']' {
        if t.stack.len() == 0 {
            Err(TurtleFault::StackUnderflow { at })
        } else {
            Ok(
                Turtle {
                    heading: t.stack.last().0,
                    stack: t.stack.drop_last(),
                    dacts: t.dacts.push(
                        DActModel { draw: false, motion: MotionModel::BackTo(t.stack.last().1) },
                    ),
                },
            )
        }
    } else {
        Err(TurtleFault::UnimplementedAction { at, symbol: c })
    }
}

/// The turtle after the whole of `s`, or the first failure on the way.
pub open spec fn turtle_run(s: Seq<char>) -> Result<Turtle, TurtleFault>
    decreases s.len(),
{
    if s.len() == 0 {
        Ok(turtle_start())
    } else {
        match turtle_run(s.drop_last()) {
            Ok(t) => turtle_step(t, s.last(), (s.len() - 1) as nat),
            Err(e) => Err(e),
        }
    }
}

/// The opening move of every interpretation.
pub open spec fn opening_move() -> DActModel {
    DActModel { draw: false, motion: MotionModel::Origin }
}

/// Whether the actions begin with the opening move and every action that
/// leads back names a position that was reached before it: one behind the
/// opening move and not behind the action itself.
pub open spec fn leads_back_in_order(dacts: Seq<DActModel>) -> bool {
    &&& dacts.len() >= 1
    &&& dacts[0] == opening_move()
    &&& forall|i: int|
        0 <= i < dacts.len() ==> ((#[trigger] dacts[i]).motion matches MotionModel::BackTo(mark)
            ==> 1 <= mark <= i)
}

/// What the turtle emits is in order, between any two symbols, and so is
/// what it has saved: each saved position was reached by then.
pub proof fn lemma_run_leads_back_in_order(s: Seq<char>)
    ensures
        turtle_run(s) matches Ok(t) ==> leads_back_in_order(t.dacts) && forall|k: int|
            0 <= k < t.stack.len() ==> 1 <= (#[trigger] t.stack[k]).1 <= t.dacts.len(),
    decreases s.len(),
{
    if s.len() > 0 {
        lemma_run_leads_back_in_order(s.drop_last());
    }
}

/// A failure on a prefix is the failure of the whole string.
pub proof fn lemma_run_failure_stays(s: Seq<char>, k: int)
    requires
        0 <= k <= s.len(),
        turtle_run(s.take(k)) is Err,
    ensures
        turtle_run(s) == turtle_run(s.take(k)),
    decreases s.len() - k,
{
    if k == s.len() {
        assert(s.take(k) =~= s);
    } else {
        assert(s.take(k + 1).drop_last() =~= s.take(k));
        lemma_run_failure_stays(s, k + 1);
    }
}

/// How many `[` of `s` are still open at its end: the `[` counted up, the
/// `]` counted down.
pub open spec fn depth(s: Seq<char>) -> int
    decreases s.len(),
{
    if s.len() == 0 {
        0
    } else if s.last() == '[' {
        depth(s.drop_last()) + 1
    } else if s.last() == ']' {
        depth(s.drop_last()) - 1
    } else {
        depth(s.drop_last())
    }
}

/// Whether every `]` of `s` has a `[` before it that it closes: no prefix
/// holds more `]` than `[`. A `[` may stay open.
pub open spec fn no_unmatched_close(s: Seq<char>) -> bool {
    forall|k: int| 0 <= k <= s.len() ==> depth(#[trigger] s.take(k)) >= 0
}

/// The interpreter never fails on an action string in which every `]` closes
/// a `[`, balanced strings among them; its stack then holds one state for
/// each `[` that is still open.
pub proof fn lemma_matched_brackets_run(s: Seq<char>)
    requires
        is_action_string(s),
        no_unmatched_close(s),
    ensures
        turtle_run(s) matches Ok(t) && t.stack.len() == depth(s),
    decreases s.len(),
{
    if s.len() > 0 {
        let head = s.drop_last();
        assert forall|k: int| 0 <= k <= head.len() implies depth(#[trigger] head.take(k)) >= 0 by {
            assert(head.take(k) =~= s.take(k));
        }
        lemma_matched_brackets_run(head);
        assert(s.take(s.len() as int) =~= s);
        assert(is_action_string(s) ==> crate::grammar::is_action(s[s.len() - 1]));
    }
}

/// The first `]` that closes nothing makes the interpreter fail with a stack
/// underflow at that symbol, whatever follows it.
pub proof fn lemma_first_unmatched_close_underflows(s: Seq<char>, k: int)
    requires
        0 <= k < s.len(),
        is_action_string(s.take(k)),
        no_unmatched_close(s.take(k)),
        depth(s.take(k)) == 0,
        s[k] == ']',
    ensures
        turtle_run(s) == Err::<Turtle, TurtleFault>(TurtleFault::StackUnderflow { at: k as nat }),
{
    lemma_matched_brackets_run(s.take(k));
    assert(s.take(k + 1).drop_last() =~= s.take(k));
    lemma_run_failure_stays(s, k + 1);
}

/// On an action string with a `]` that closes nothing, the interpreter fails
/// with a stack underflow, and the symbol it names is a `]`.
pub proof fn lemma_unmatched_close_underflows(s: Seq<char>)
    requires
        is_action_string(s),
        !no_unmatched_close(s),
    ensures
        turtle_run(s) matches Err(TurtleFault::StackUnderflow { at }) && at < s.len() && s[at as int]
            == ']',
    decreases s.len(),
{
    if s.len() == 0 {
        assert forall|k: int| 0 <= k <= s.len() implies depth(#[trigger] s.take(k)) >= 0 by {
            assert(s.take(k) =~= s);
        }
    } else {
        let head = s.drop_last();
        if no_unmatched_close(head) {
            let k = choose|k: int| 0 <= k <= s.len() && depth(#[trigger] s.take(k)) < 0;
            if k < s.len() {
                assert(head.take(k) =~= s.take(k));
            }
            assert(s.take(s.len() as int) =~= s);
            assert(head.take(head.len() as int) =~= head);
            assert(head =~= s.take(s.len() - 1));
            lemma_first_unmatched_close_underflows(s, s.len() - 1);
        } else {
            lemma_unmatched_close_underflows(head);
        }
    }
}

spec fn stack_view(v: Seq<(Heading, usize)>) -> Seq<(HeadingModel, nat)> {
    v.map_values(|e: (Heading, usize)| (e.0@, e.1 as nat))
}

/// Interprets an action string.
///
/// The result holds the drawing actions in the order in which the turtle
/// emits them, the opening move to the origin first. The first `]` that
/// finds the stack empty, or the first symbol that is no action, ends the
/// interpretation with an error that names its index.
pub fn lsys_dacts_from_rules(rules: &str) -> (out: Result<Vec<DAct>, TurtleError>)
    ensures
        match turtle_run(rules@) {
            Ok(t) => out matches Ok(v) && dacts_view(v@) == t.dacts,
            Err(e) => out matches Err(x) && x@ == e,
        },
        out matches Ok(v) ==> leads_back_in_order(dacts_view(v@)),
{
    let symbols = chars_of(rules);
    let mut stack: Vec<(Heading, usize)> = Vec::new();
    let mut dacts: Vec<DAct> = Vec::new();
    let mut d = Heading { turns: 0, reversals: 0 };
    dacts.push(DAct::RmoveTo(Motion::Origin));
    assert(dacts_view(dacts@) =~= turtle_start().dacts);
    assert(stack_view(stack@) =~= turtle_start().stack);
    let mut i: usize = 0;
    while i < symbols.len()
        invariant
            symbols@ == rules@,
            i <= symbols.len(),
            turtle_run(rules@.take(i as int)) == Ok::<Turtle, TurtleFault>(
                Turtle { heading: d@, stack: stack_view(stack@), dacts: dacts_view(dacts@) },
            ),
            -(i as int) <= d.turns <= i,
            d.reversals <= i,
            forall|k: int|
                0 <= k < stack.len() ==> -(i as int) <= (#[trigger] stack[k]).0.turns <= i
                    && stack[k].0.reversals <= i,
        decreases symbols.len() - i,
    {
        let c = symbols[i];
        proof {
            assert(rules@.take(i + 1).drop_last() =~= rules@.take(i as int));
            assert(rules@.take(i + 1).last() == c);
        }
        let ghost old_dacts = dacts@;
        let ghost old_stack = stack@;
        if c == 'F' {
            dacts.push(DAct::RlineTo(Motion::Unit(d)));
            assert(dacts_view(dacts@) =~= dacts_view(old_dacts).push(
                DActModel { draw: true, motion: MotionModel::Unit(d@) },
            ));
        } else if c == 'f' {
            dacts.push(DAct::RmoveTo(Motion::Unit(d)));
            assert(dacts_view(dacts@) =~= dacts_view(old_dacts).push(
                DActModel { draw: false, motion: MotionModel::Unit(d@) },
            ));
        } else if c == '+' {
            d = Heading { turns: d.turns + 1, reversals: d.reversals };
        } else if c == '-' {
            d = Heading { turns: d.turns - 1, reversals: d.reversals };
        } else if c == '|' {
            d = Heading { turns: d.turns, reversals: d.reversals + 1 };
        } else if c == '[' {
            stack.push((d, dacts.len()));
            assert(stack_view(stack@) =~= stack_view(old_stack).push((d@, dacts@.len())));
        } else if c == ']' {
            match stack.pop() {
                None => {
                    proof {
                        lemma_run_failure_stays(rules@, i + 1);
                    }
                    return Err(TurtleError::StackUnderflow { at: i });
                },
                Some((saved, mark)) => {
                    assert(stack_view(stack@) =~= stack_view(old_stack).drop_last());
                    assert(stack_view(old_stack).last() == (saved@, mark as nat));
                    dacts.push(DAct::RmoveTo(Motion::BackTo(mark)));
                    assert(dacts_view(dacts@) =~= dacts_view(old_dacts).push(
                        DActModel { draw: false, motion: MotionModel::BackTo(mark as nat) },
                    ));
                    d = saved;
                },
            }
        } else {
            proof {
                lemma_run_failure_stays(rules@, i + 1);
            }
            return Err(TurtleError::UnimplementedAction { at: i, symbol: c });
        }
        i += 1;
    }
    proof {
        assert(rules@.take(i as int) =~= rules@);
        lemma_run_leads_back_in_order(rules@);
    }
    Ok(dacts)
}

} // verus!
