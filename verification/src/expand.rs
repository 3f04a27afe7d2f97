//! Expansion of a grammar: rewriting a string generation by generation, the
//! single pass of post-rules, and the removal of what is no action.

use vstd::prelude::*;
use crate::grammar::{is_action, is_action_char, is_action_string, LSys, Rules};
use crate::text::{chars_of, push_chars, string_from_chars};

verus! {

/// What one symbol is rewritten to: its replacement if it has a rule, else
/// the symbol itself.
pub open spec fn rewrite_symbol(rules: Map<char, Seq<char>>, c: char) -> Seq<char> {
    if rules.contains_key(c) {
        rules[c]
    } else {
        seq![c]
    }
}

/// `rewrite_symbol` under fixed rules, as a function of the symbol.
pub open spec fn rewriter(rules: Map<char, Seq<char>>) -> spec_fn(char) -> Seq<char> {
    |c: char| rewrite_symbol(rules, c)
}

/// One pass over `s`: every symbol rewritten, the results joined in order.
pub open spec fn rewrite_pass(rules: Map<char, Seq<char>>, s: Seq<char>) -> Seq<char> {
    s.map_values(rewriter(rules)).flatten()
}

/// `start` after `generations` passes.
pub open spec fn expand(rules: Map<char, Seq<char>>, start: Seq<char>, generations: nat) -> Seq<
    char,
>
    decreases generations,
{
    if generations == 0 {
        start
    } else {
        rewrite_pass(rules, expand(rules, start, (generations - 1) as nat))
    }
}

/// The number of passes that an order asks for: none if it is negative.
pub open spec fn generations_of(order: i32) -> nat {
    if order < 0 {
        0
    } else {
        order as nat
    }
}

/// `is_action` as a function value.
pub open spec fn action_filter() -> spec_fn(char) -> bool {
    |c: char| is_action(c)
}

/// `s` without the symbols that are no action characters.
pub open spec fn minimize(s: Seq<char>) -> Seq<char> {
    s.filter(action_filter())
}

/// The expansion of a system before minimization: `generations` passes of
/// the rules over `start`, then one pass of the post-rules.
pub open spec fn pre_minimize(
    rules: Map<char, Seq<char>>,
    post_rules: Map<char, Seq<char>>,
    start: Seq<char>,
    generations: nat,
) -> Seq<char> {
    rewrite_pass(post_rules, expand(rules, start, generations))
}

/// The action string of a system at a given number of generations.
pub open spec fn elaborate(
    rules: Map<char, Seq<char>>,
    post_rules: Map<char, Seq<char>>,
    start: Seq<char>,
    generations: nat,
) -> Seq<char> {
    minimize(pre_minimize(rules, post_rules, start, generations))
}

/// Whether a pass of `rules` keeps every symbol of `s` as it is: each has no
/// rule, or a rule that gives the symbol itself.
pub open spec fn leaves_unchanged(rules: Map<char, Seq<char>>, s: Seq<char>) -> bool {
    forall|i: int| 0 <= i < s.len() ==> rewrite_symbol(rules, #[trigger] s[i]) == seq![s[i]]
}

/// Whether a pass of `rules` erases no symbol of `s`: each is rewritten to
/// at least one symbol.
pub open spec fn erases_nothing(rules: Map<char, Seq<char>>, s: Seq<char>) -> bool {
    forall|i: int| 0 <= i < s.len() ==> rewrite_symbol(rules, #[trigger] s[i]).len() >= 1
}

/// Whether no rule of `rules` has an empty replacement.
pub open spec fn non_erasing(rules: Map<char, Seq<char>>) -> bool {
    forall|c: char| rules.contains_key(c) ==> (#[trigger] rules[c]).len() >= 1
}

/// A pass over a string with one more symbol at its end is the pass over the
/// string, followed by what that symbol is rewritten to.
pub proof fn lemma_pass_push(rules: Map<char, Seq<char>>, s: Seq<char>, c: char)
    ensures
        rewrite_pass(rules, s.push(c)) == rewrite_pass(rules, s) + rewrite_symbol(rules, c),
{
    let parts = s.map_values(rewriter(rules));
    assert(s.push(c).map_values(rewriter(rules)) =~= parts.push(rewrite_symbol(rules, c)));
    parts.lemma_flatten_push(rewrite_symbol(rules, c));
}

/// A pass that keeps every symbol of a string gives the string back.
pub proof fn lemma_pass_leaves_unchanged(rules: Map<char, Seq<char>>, s: Seq<char>)
    requires
        leaves_unchanged(rules, s),
    ensures
        rewrite_pass(rules, s) == s,
    decreases s.len(),
{
    if s.len() == 0 {
        assert(s.map_values(rewriter(rules)) =~= Seq::<Seq<char>>::empty());
        assert(rewrite_pass(rules, s) =~= s);
    } else {
        let head = s.drop_last();
        assert forall|i: int| 0 <= i < head.len() implies rewrite_symbol(rules, #[trigger] head[i])
            == seq![head[i]] by {
            assert(head[i] == s[i]);
        }
        lemma_pass_leaves_unchanged(rules, head);
        lemma_pass_push(rules, head, s.last());
        assert(head.push(s.last()) =~= s);
        assert(rewrite_symbol(rules, s[s.len() - 1]) == seq![s.last()]);
        assert(head + seq![s.last()] =~= s);
    }
}

/// At generation zero the expansion before minimization is the start string,
/// provided that the post-rules keep each of its symbols. Without that, it
/// is one pass of the post-rules over the start string.
pub proof fn lemma_generation_zero(
    rules: Map<char, Seq<char>>,
    post_rules: Map<char, Seq<char>>,
    start: Seq<char>,
)
    requires
        leaves_unchanged(post_rules, start),
    ensures
        pre_minimize(rules, post_rules, start, 0) == start,
{
    lemma_pass_leaves_unchanged(post_rules, start);
}

/// A pass that erases no symbol of a string gives a string that is at least
/// as long.
pub proof fn lemma_pass_length(rules: Map<char, Seq<char>>, s: Seq<char>)
    requires
        erases_nothing(rules, s),
    ensures
        rewrite_pass(rules, s).len() >= s.len(),
    decreases s.len(),
{
    if s.len() == 0 {
    } else {
        let head = s.drop_last();
        assert forall|i: int| 0 <= i < head.len() implies rewrite_symbol(
            rules,
            #[trigger] head[i],
        ).len() >= 1 by {
            assert(head[i] == s[i]);
        }
        lemma_pass_length(rules, head);
        lemma_pass_push(rules, head, s.last());
        assert(head.push(s.last()) =~= s);
        assert(rewrite_symbol(rules, s[s.len() - 1]).len() >= 1);
    }
}

/// The expansion never gets shorter from one generation to a later one, as
/// long as no pass in between erases a symbol of the string it rewrites.
pub proof fn lemma_expand_length_monotone(
    rules: Map<char, Seq<char>>,
    start: Seq<char>,
    earlier: nat,
    later: nat,
)
    requires
        earlier <= later,
        forall|g: nat| earlier <= g < later ==> erases_nothing(rules, #[trigger] expand(rules, start, g)),
    ensures
        expand(rules, start, earlier).len() <= expand(rules, start, later).len(),
    decreases later,
{
    if earlier < later {
        let g = (later - 1) as nat;
        lemma_expand_length_monotone(rules, start, earlier, g);
        lemma_pass_length(rules, expand(rules, start, g));
    }
}

/// Under rules without an empty replacement, the expansion never gets
/// shorter from one generation to a later one.
pub proof fn lemma_expand_never_shrinks(
    rules: Map<char, Seq<char>>,
    start: Seq<char>,
    earlier: nat,
    later: nat,
)
    requires
        non_erasing(rules),
        earlier <= later,
    ensures
        expand(rules, start, earlier).len() <= expand(rules, start, later).len(),
{
    assert forall|g: nat| earlier <= g < later implies erases_nothing(
        rules,
        #[trigger] expand(rules, start, g),
    ) by {
        let s = expand(rules, start, g);
        assert forall|i: int| 0 <= i < s.len() implies rewrite_symbol(rules, #[trigger] s[i]).len()
            >= 1 by {
            if rules.contains_key(s[i]) {
                assert(rules[s[i]].len() >= 1);
            }
        }
    }
    lemma_expand_length_monotone(rules, start, earlier, later);
}

/// Minimizing gives an action string.
pub proof fn lemma_minimize_gives_actions(s: Seq<char>)
    ensures
        is_action_string(minimize(s)),
    decreases s.len(),
{
    reveal(Seq::filter);
    if s.len() > 0 {
        lemma_minimize_gives_actions(s.drop_last());
    }
}

/// Minimizing leaves an action string as it is.
pub proof fn lemma_minimize_keeps_actions(s: Seq<char>)
    requires
        is_action_string(s),
    ensures
        minimize(s) == s,
    decreases s.len(),
{
    reveal(Seq::filter);
    if s.len() > 0 {
        let head = s.drop_last();
        assert forall|i: int| 0 <= i < head.len() implies is_action(#[trigger] head[i]) by {
            assert(head[i] == s[i]);
        }
        lemma_minimize_keeps_actions(head);
        assert(is_action(s[s.len() - 1]));
        assert(head.push(s.last()) =~= s);
    }
}

/// Minimizing twice gives what minimizing once gives.
pub proof fn lemma_minimize_idempotent(s: Seq<char>)
    ensures
        minimize(minimize(s)) == minimize(s),
{
    lemma_minimize_gives_actions(s);
    lemma_minimize_keeps_actions(minimize(s));
}

/// One pass over `old`.
fn rewrite_once(rules: &Rules, old: &Vec<char>) -> (new: Vec<char>)
    ensures
        new@ == rewrite_pass(rules@, old@),
{
    let mut new: Vec<char> = Vec::new();
    let mut i: usize = 0;
    while i < old.len()
        invariant
            i <= old.len(),
            new@ == rewrite_pass(rules@, old@.take(i as int)),
        decreases old.len() - i,
    {
        let c = old[i];
        let ghost done = new@;
        match rules.get(c) {
            Some(replacement) => push_chars(&mut new, replacement.as_str()),
            None => new.push(c),
        }
        proof {
            lemma_pass_push(rules@, old@.take(i as int), c);
            assert(old@.take(i + 1) =~= old@.take(i as int).push(c));
            assert(new@ =~= done + rewrite_symbol(rules@, c));
        }
        i += 1;
    }
    assert(old@.take(i as int) =~= old@);
    new
}

/// Rewrites `start` under `rules`, once per generation.
///
/// Each pass replaces every symbol that has a rule by its replacement and
/// keeps every other symbol, in order. An order of zero or less gives
/// `start` back.
pub fn rules_apply_basic(rules: &Rules, start: &str, order: i32) -> (new: String)
    ensures
        new@ == expand(rules@, start@, generations_of(order)),
        order <= 0 ==> new@ == start@,
{
    let mut cur = chars_of(start);
    let mut done: i32 = 0;
    while done < order
        invariant
            0 <= done,
            done as nat <= generations_of(order),
            cur@ == expand(rules@, start@, done as nat),
        decreases order - done,
    {
        cur = rewrite_once(rules, &cur);
        done += 1;
    }
    string_from_chars(&cur)
}

/// Removes from `rules` every symbol that is no action character.
pub fn rules_minimize(rules: String) -> (out: String)
    ensures
        out@ == minimize(rules@),
        is_action_string(out@),
{
    let symbols = chars_of(rules.as_str());
    let mut kept: Vec<char> = Vec::new();
    let mut i: usize = 0;
    proof {
        reveal(Seq::filter);
    }
    assert(symbols@.take(0).filter(action_filter()) =~= Seq::<char>::empty());
    while i < symbols.len()
        invariant
            i <= symbols.len(),
            kept@ == minimize(symbols@.take(i as int)),
        decreases symbols.len() - i,
    {
        let c = symbols[i];
        proof {
            assert(symbols@.take(i + 1) =~= symbols@.take(i as int).push(c));
            symbols@.take(i as int).lemma_filter_push(c, action_filter());
        }
        if is_action_char(c) {
            kept.push(c);
        }
        i += 1;
    }
    proof {
        assert(symbols@.take(i as int) =~= symbols@);
        lemma_minimize_gives_actions(symbols@);
    }
    string_from_chars(&kept)
}

/// The action string of `lsys` at the given order: the rules applied once
/// per generation, the post-rules applied once, and what is no action
/// character removed.
pub fn lsys_apply_rules(lsys: &LSys, order: i32) -> (out: String)
    ensures
        out@ == elaborate(lsys.rules@, lsys.post_rules@, lsys.start@, generations_of(order)),
        is_action_string(out@),
{
    let basic = rules_apply_basic(&lsys.rules, lsys.start.as_str(), order);
    let post = rules_apply_basic(&lsys.post_rules, basic.as_str(), 1);
    assert(post@ == rewrite_pass(lsys.post_rules@, basic@)) by {
        reveal_with_fuel(expand, 2);
    }
    rules_minimize(post)
}

} // verus!
