//! Reduction of variant display names to the species name they build on.

use vstd::prelude::*;
use crate::text::{
    chars_of, contains_lit, copy_range, find_lit_exec, skip_word, skip_word_exec, skip_ws,
    skip_ws_exec, string_of,
};

verus! {

pub open spec fn mega_lit() -> Seq<char> {
    seq!['M', 'e', 'g', 'a']
}

pub open spec fn ex_lit() -> Seq<char> {
    seq![' ', 'e', 'x']
}

/// Bounds of the first whitespace-separated word.
pub open spec fn first_word_bounds(s: Seq<char>) -> Option<(int, int)> {
    let a = skip_ws(s, 0);
    if a < s.len() {
        Some((a, skip_word(s, a)))
    } else {
        None
    }
}

/// Bounds of the second whitespace-separated word.
pub open spec fn second_word_bounds(s: Seq<char>) -> Option<(int, int)> {
    match first_word_bounds(s) {
        Some((_, b)) => {
            let a = skip_ws(s, b);
            if a < s.len() {
                Some((a, skip_word(s, a)))
            } else {
                None
            }
        },
        None => None,
    }
}

/// A name that contains `Mega` becomes its second word, where it has one.
pub open spec fn after_mega_rule(s: Seq<char>) -> Seq<char> {
    if contains_lit(s, mega_lit()) {
        match second_word_bounds(s) {
            Some((a, b)) => s.subrange(a, b),
            None => s,
        }
    } else {
        s
    }
}

/// A name that contains ` ex` becomes its first word, where it has one.
pub open spec fn after_ex_rule(s: Seq<char>) -> Seq<char> {
    if contains_lit(s, ex_lit()) {
        match first_word_bounds(s) {
            Some((a, b)) => s.subrange(a, b),
            None => s,
        }
    } else {
        s
    }
}

/// The lookup key of a display name: the `Mega` rule, then the ` ex` rule
/// on what the first one left.
pub open spec fn spec_normalize(s: Seq<char>) -> Seq<char> {
    after_ex_rule(after_mega_rule(s))
}

fn mega_rule(s: Vec<char>) -> (r: Vec<char>)
    ensures
        r@ == after_mega_rule(s@),
{
    let lit = vec!['M', 'e', 'g', 'a'];
    if find_lit_exec(&s, 0, &lit).is_none() {
        return s;
    }
    let a0 = skip_ws_exec(&s, 0);
    if a0 >= s.len() {
        return s;
    }
    let b0 = skip_word_exec(&s, a0);
    let a1 = skip_ws_exec(&s, b0);
    if a1 >= s.len() {
        return s;
    }
    let b1 = skip_word_exec(&s, a1);
    copy_range(&s, a1, b1)
}

fn ex_rule(s: Vec<char>) -> (r: Vec<char>)
    ensures
        r@ == after_ex_rule(s@),
{
    let lit = vec![' ', 'e', 'x'];
    if find_lit_exec(&s, 0, &lit).is_none() {
        return s;
    }
    let a0 = skip_ws_exec(&s, 0);
    if a0 >= s.len() {
        return s;
    }
    let b0 = skip_word_exec(&s, a0);
    copy_range(&s, a0, b0)
}

pub(crate) fn normalize_chars(s: Vec<char>) -> (r: Vec<char>)
    ensures
        r@ == spec_normalize(s@),
{
    let m = mega_rule(s);
    ex_rule(m)
}

/// Returns the name under which a display name is looked up: a name with
/// `Mega` in it becomes its second word ("Mega Charizard X" gives
/// "Charizard"), then a name with ` ex` in it becomes its first word
/// ("Pikachu ex" gives "Pikachu").
pub fn normalize_name(name: &str) -> (r: String)
    ensures
        r@ == spec_normalize(name@),
{
    let e = normalize_chars(chars_of(name));
    string_of(&e)
}

} // verus!
