//! One row of a completion popup: the completion text plus an optional dim
//! hint, and how many rows the popup shows.
use vstd::prelude::*;
use crate::text::{lowercase, to_lower};
use crate::theme::collect_chars;

verus! {

/// The most suggestion rows the popup shows.
pub const POPUP_MAX_ROWS: usize = 8;

/// One suggestion row: the completion `text` plus an optional dim `hint` (a
/// function signature, a type, a shortcut) shown right-aligned.
#[derive(Clone)]
pub struct Suggestion {
    pub text: String,
    pub hint: Option<String>,
}

impl Suggestion {
    /// A suggestion with no hint.
    pub fn new(text: &str) -> (r: Self)
        ensures
            r.text@ == text@,
            r.hint is None,
    {
        Suggestion { text: text.to_owned(), hint: None }
    }

    /// A suggestion with a right-aligned dim hint.
    pub fn with_hint(text: &str, hint: &str) -> (r: Self)
        ensures
            r.text@ == text@,
            r.hint matches Some(h) && h@ == hint@,
    {
        Suggestion { text: text.to_owned(), hint: Some(hint.to_owned()) }
    }
}


impl From<String> for Suggestion {
    /// A suggestion of `text` with no hint.
    fn from(text: String) -> (r: Self) {
        Suggestion { text, hint: None }
    }
}

impl vstd::std_specs::convert::FromSpecImpl<String> for Suggestion {
    open spec fn obeys_from_spec() -> bool {
        true
    }

    open spec fn from_spec(text: String) -> Self {
        Suggestion { text, hint: None }
    }
}

/// Whether the characters of `prefix` begin `s`.
fn starts_with_chars(s: &Vec<char>, prefix: &Vec<char>) -> (r: bool)
    ensures
        r == prefix@.is_prefix_of(s@),
{
    if prefix.len() > s.len() {
        return false;
    }
    let mut i: usize = 0;
    while i < prefix.len()
        invariant
            prefix@.len() <= s@.len(),
            i <= prefix@.len(),
            forall|j: int| 0 <= j < i ==> prefix@[j] == s@[j],
        decreases prefix@.len() - i,
    {
        if prefix[i] != s[i] {
            return false;
        }
        i = i + 1;
    }
    true
}

/// Whether two character vectors are equal.
fn chars_eq(a: &Vec<char>, b: &Vec<char>) -> (r: bool)
    ensures
        r == (a@ == b@),
{
    if a.len() != b.len() {
        return false;
    }
    let r = starts_with_chars(a, b);
    proof {
        if r {
            assert(a@ =~= b@);
        }
    }
    r
}

/// Whether suggestion `s` shows vocabulary entry `e`: its name as the text and
/// its signature as the hint.
pub open spec fn suggests(s: Suggestion, e: (&str, &str)) -> bool {
    &&& s.text@ == e.0@
    &&& s.hint matches Some(h) && h@ == e.1@
}

/// Whether vocabulary entry `name` completes the lowercased input `needle`:
/// it starts with it and is not already it.
pub open spec fn completes(name: Seq<char>, needle: Seq<char>) -> bool {
    needle.is_prefix_of(name) && name != needle
}

/// The completions of an input already lowercased to `needle`: in
/// vocabulary order, each entry whose name starts with `needle` without
/// equalling it, as a suggestion with its signature as the hint.
pub fn completions_of(vocabulary: &[(&str, &str)], needle: &str) -> (r: Vec<Suggestion>)
    ensures
        ({
            let kept = vocabulary@.filter(|e: (&str, &str)| completes(e.0@, needle@));
            &&& r@.len() == kept.len()
            &&& forall|i: int| 0 <= i < r@.len() ==> suggests(#[trigger] r@[i], kept[i])
        }),
{
    let mut out: Vec<Suggestion> = Vec::new();
    let needle_chars = collect_chars(needle);
    let ghost pred = |e: (&str, &str)| completes(e.0@, needle@);
    let mut i: usize = 0;
    while i < vocabulary.len()
        invariant
            i <= vocabulary@.len(),
            needle_chars@ == needle@,
            pred == (|e: (&str, &str)| completes(e.0@, needle@)),
            out@.len() == vocabulary@.take(i as int).filter(pred).len(),
            forall|j: int|
                0 <= j < out@.len() ==> suggests(
                    #[trigger] out@[j],
                    vocabulary@.take(i as int).filter(pred)[j],
                ),
        decreases vocabulary@.len() - i,
    {
        let (name, signature) = vocabulary[i];
        let name_chars = collect_chars(name);
        let keep = starts_with_chars(&name_chars, &needle_chars) && !chars_eq(
            &name_chars,
            &needle_chars,
        );
        proof {
            reveal_with_fuel(Seq::<_>::filter, 1);
            assert(vocabulary@.take(i + 1).drop_last() =~= vocabulary@.take(i as int));
            assert(vocabulary@.take(i + 1).last() == vocabulary@[i as int]);
        }
        if keep {
            out.push(Suggestion::with_hint(name, signature));
        }
        i = i + 1;
    }
    proof {
        assert(vocabulary@.take(vocabulary@.len() as int) =~= vocabulary@);
    }
    out
}

/// A prefix-matching completion pass over a vocabulary of `(name, signature)`
/// entries: nothing for an empty input; otherwise the completions of the
/// lowercased input ([`completions_of`]).
pub fn completions(vocabulary: &[(&str, &str)], prefix: &str) -> (r: Vec<Suggestion>)
    ensures
        prefix@.len() == 0 ==> r@.len() == 0,
        prefix@.len() > 0 ==> {
            let kept = vocabulary@.filter(
                |e: (&str, &str)| completes(e.0@, lowercase(prefix@)),
            );
            &&& r@.len() == kept.len()
            &&& forall|i: int| 0 <= i < r@.len() ==> suggests(#[trigger] r@[i], kept[i])
        },
{
    if prefix.is_empty() {
        return Vec::new();
    }
    let needle = to_lower(prefix);
    completions_of(vocabulary, needle.as_str())
}

/// The rows the popup shows: no popup (`None`) for an empty list, otherwise
/// the first [`POPUP_MAX_ROWS`] suggestions, in order. Row `index` is drawn
/// highlighted when it is the host's highlighted row, and a press on it
/// reports `index`.
pub fn popup_rows(suggestions: Vec<Suggestion>) -> (r: Option<Vec<Suggestion>>)
    ensures
        suggestions@.len() == 0 ==> r is None,
        suggestions@.len() > 0 ==> (r matches Some(rows) && rows@ == suggestions@.take(
            if suggestions@.len() < POPUP_MAX_ROWS {
                suggestions@.len() as int
            } else {
                POPUP_MAX_ROWS as int
            },
        )),
{
    if suggestions.len() == 0 {
        return None;
    }
    let mut rows = suggestions;
    let ghost all = rows@;
    rows.truncate(POPUP_MAX_ROWS);
    proof {
        if all.len() < POPUP_MAX_ROWS {
            assert(all.take(all.len() as int) =~= all);
        }
    }
    Some(rows)
}

/// An entry completes an input exactly when its name is strictly longer than
/// the input and begins with it, and its suggestion shows the name as the
/// text and the signature as the hint.
pub proof fn law_completion_is_a_strict_extension(name: Seq<char>, needle: Seq<char>)
    ensures
        completes(name, needle) <==> (needle.len() < name.len() && name.take(needle.len() as int)
            == needle),
{
    if needle.len() < name.len() && name.take(needle.len() as int) == needle {
        assert forall|i: int| 0 <= i < needle.len() implies needle[i] == name[i] by {
            assert(name.take(needle.len() as int)[i] == name[i]);
        }
    }
    if completes(name, needle) {
        assert(name.take(needle.len() as int) =~= needle);
        assert(needle.len() != name.len()) by {
            if needle.len() == name.len() {
                assert(name =~= needle);
            }
        }
    }
}

} // verus!
