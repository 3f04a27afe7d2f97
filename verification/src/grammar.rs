//! The grammar of a Lindenmayer system: the action alphabet, rule tables,
//! and the record that holds one system.

use std::collections::HashMap;
use vstd::prelude::*;
use vstd::std_specs::hash::*;
use vstd::std_specs::iter::IteratorSpec;

verus! {

broadcast use vstd::std_specs::hash::group_hash_axioms;

/// Whether `c` is one of the seven action characters: `F` draws forward,
/// `f` moves forward, `+` and `-` turn, `|` reverses, `[` saves the state
/// and `]` restores it.
pub open spec fn is_action(c: char) -> bool {
    c == 'F' || c == 'f' || c == '+' || c == '-' || c == '[' || c == ']' || c == '|'
}

/// Whether every symbol of `s` is an action character.
pub open spec fn is_action_string(s: Seq<char>) -> bool {
    forall|i: int| 0 <= i < s.len() ==> is_action(#[trigger] s[i])
}

/// Tests whether `c` is an action character.
pub fn is_action_char(c: char) -> (b: bool)
    ensures
        b == is_action(c),
{
    c == 'F' || c == 'f' || c == '+' || c == '-' || c == '[' || c == ']' || c == '|'
}

proof fn lemma_code_point_names_symbol(a: char, b: char)
    ensures
        a as u32 == b as u32 ==> a == b,
{
}

/// A rule table: for some symbols, the string that replaces them.
///
/// The table is hashed by the symbol's code point, and each entry holds its
/// symbol beside the replacement. An entry counts as a rule of the symbol
/// that it holds.
#[derive(Clone, Debug, PartialEq)]
pub struct Rules {
    table: HashMap<u32, (char, String)>,
}

impl View for Rules {
    type V = Map<char, Seq<char>>;

    closed spec fn view(&self) -> Map<char, Seq<char>> {
        Map::new(
            |c: char| self.table@.contains_key(c as u32) && self.table@[c as u32].0 == c,
            |c: char| self.table@[c as u32].1@,
        )
    }
}

impl Rules {
    /// A table without rules.
    pub fn new() -> (rules: Rules)
        ensures
            rules@ == Map::<char, Seq<char>>::empty(),
    {
        let rules = Rules { table: HashMap::new() };
        assert(rules@ =~= Map::<char, Seq<char>>::empty());
        rules
    }

    /// Sets the replacement of `symbol`, in place of an earlier one if there
    /// was one.
    pub fn insert(&mut self, symbol: char, replacement: &str)
        ensures
            final(self)@ == old(self)@.insert(symbol, replacement@),
    {
        let owned = replacement.to_owned();
        self.table.insert(symbol as u32, (symbol, owned));
        assert forall|c: char|
            #[trigger] self@.contains_key(c) <==> old(self)@.insert(
                symbol,
                replacement@,
            ).contains_key(c) by {
            lemma_code_point_names_symbol(c, symbol);
        }
        assert forall|c: char| #[trigger] self@.contains_key(c) implies self@[c] == old(
            self,
        )@.insert(symbol, replacement@)[c] by {
            lemma_code_point_names_symbol(c, symbol);
        }
        assert(self@ =~= old(self)@.insert(symbol, replacement@));
    }

    /// The replacement of `symbol`, if it has a rule.
    pub fn get(&self, symbol: char) -> (found: Option<&String>)
        ensures
            match found {
                Some(replacement) => self@.contains_key(symbol) && self@[symbol] == replacement@,
                None => !self@.contains_key(symbol),
            },
    {
        let key = symbol as u32;
        match self.table.get(&key) {
            Some(entry) => if entry.0 == symbol {
                Some(&entry.1)
            } else {
                None
            },
            None => None,
        }
    }

    /// The symbols that have a rule, each once, in no particular order.
    pub fn symbols(&self) -> (out: Vec<char>)
        ensures
            out@.no_duplicates(),
            forall|c: char| out@.contains(c) <==> self@.contains_key(c),
    {
        let mut out: Vec<char> = Vec::new();
        let walk = self.table.keys();
        let ghost keys: Seq<u32> = walk.remaining().unref();
        let ghost mut picked: Seq<int> = Seq::empty();
        let ghost mut seen: int = 0;
        for key in it: walk
            invariant
                it.seq().unref() == keys,
                seen == it.index(),
                seen <= keys.len(),
                keys.no_duplicates(),
                keys.to_set() == self.table@.dom(),
                out@.len() == picked.len(),
                forall|j: int|
                    0 <= j < picked.len() ==> 0 <= (#[trigger] picked[j]) < seen
                        && out@[j] as u32 == keys[picked[j]] && self@.contains_key(out@[j]),
                forall|i: int, j: int| 0 <= i < j < picked.len() ==> picked[i] < picked[j],
                forall|k: int|
                    0 <= k < seen && self.table@[#[trigger] keys[k]].0 as u32 == keys[k]
                        ==> picked.contains(k),
        {
            let ghost at = it.index() as int;
            assert(keys[at] == *key);
            assert(keys.to_set().contains(*key));
            match self.table.get(key) {
                Some(entry) => {
                    if entry.0 as u32 == *key {
                        out.push(entry.0);
                        proof {
                            let before = picked;
                            picked = picked.push(at);
                            assert forall|k: int|
                                0 <= k < at + 1 && self.table@[#[trigger] keys[k]].0 as u32
                                    == keys[k] implies picked.contains(k) by {
                                if k < at {
                                    let j = choose|j: int| 0 <= j < before.len() && before[j] == k;
                                    assert(picked[j] == k);
                                } else {
                                    assert(picked[before.len() as int] == k);
                                }
                            }
                        }
                    }
                },
                None => {},
            }
            proof {
                seen = seen + 1;
            }
        }
        assert(seen == keys.len());
        assert forall|i: int, j: int|
            0 <= i < out@.len() && 0 <= j < out@.len() && i != j implies out@[i] != out@[j] by {
            if i < j {
                assert(picked[i] < picked[j]);
            } else {
                assert(picked[j] < picked[i]);
            }
            assert(keys[picked[i]] != keys[picked[j]]);
        }
        assert forall|c: char| out@.contains(c) <==> self@.contains_key(c) by {
            if out@.contains(c) {
                let j = choose|j: int| 0 <= j < out@.len() && out@[j] == c;
                assert(0 <= picked[j]);
            }
            if self@.contains_key(c) {
                assert(keys.to_set().contains(c as u32));
                let k = choose|k: int| 0 <= k < keys.len() && keys[k] == c as u32;
                assert(picked.contains(k));
                let j = choose|j: int| 0 <= j < picked.len() && picked[j] == k;
                lemma_code_point_names_symbol(out@[j], c);
                assert(out@[j] == c);
            }
        }
        out
    }
}

/// One Lindenmayer system.
///
/// A symbol of `start` or of a replacement that is no action character and
/// has no rule is no error: it stays as it is through every rewriting.
#[derive(Clone, Debug, PartialEq)]
pub struct LSys {
    pub title: String,
    pub refs: Vec<String>,
    /// the string that generation zero consists of
    pub start: String,
    /// the turning angle in degrees, as the bits of an IEEE 754 double
    pub angle_bits: u64,
    /// the generations to render
    pub order: Vec<i32>,
    /// the rules applied once per generation
    pub rules: Rules,
    /// the rules applied once, after the last generation
    pub post_rules: Rules,
}

} // verus!
