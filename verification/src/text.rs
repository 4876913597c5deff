//! Small helpers on strings that the other modules share.

use vstd::prelude::*;

verus! {

/// Whether two texts hold the same characters.
pub fn same_text(left: &str, right: &str) -> (same: bool)
    ensures
        same == (left@ == right@),
{
    let owned_left: String = left.to_owned();
    let owned_right: String = right.to_owned();
    owned_left == owned_right
}

/// The text of `left` followed by that of `right`.
pub fn join(left: &str, right: &str) -> (joined: String)
    ensures
        joined@ == left@ + right@,
{
    let owned: String = left.to_owned();
    owned.concat(right)
}

/// The texts of `first`, `second` and `third`, one after the other.
pub fn join3(first: &str, second: &str, third: &str) -> (joined: String)
    ensures
        joined@ == first@ + second@ + third@,
{
    join(first, second).concat(third)
}

/// What stands before a suffix of a text, if the text ends with it.
pub open spec fn before_suffix(text: Seq<char>, suffix: Seq<char>) -> Option<Seq<char>> {
    if text.len() >= suffix.len() && text.skip(text.len() - suffix.len()) == suffix {
        Some(text.take(text.len() - suffix.len()))
    } else {
        None
    }
}

/// What stands before a suffix of a text, if the text ends with it.
pub fn strip_suffix<'a>(text: &'a str, suffix: &str) -> (stripped: Option<&'a str>)
    ensures
        match stripped {
            Some(stripped) => before_suffix(text@, suffix@) == Some(stripped@),
            None => before_suffix(text@, suffix@) is None,
        },
{
    let len: usize = text.unicode_len();
    let suffix_len: usize = suffix.unicode_len();
    if len < suffix_len {
        return None;
    }
    let split: usize = len - suffix_len;
    let tail: &str = text.substring_char(split, len);
    assert(tail@ =~= text@.skip(split as int));
    if same_text(tail, suffix) {
        let head: &str = text.substring_char(0, split);
        assert(head@ =~= text@.take(split as int));
        Some(head)
    } else {
        None
    }
}

/// A suffix is stripped from exactly the texts that end with it, and what is left, with the suffix
/// put back behind it, is the text.
pub proof fn law_stripped_text_and_suffix_make_up_the_text(
    text: &str,
    suffix: &str,
    stripped: Option<&str>,
    stem: Seq<char>,
)
    requires
        call_ensures(strip_suffix, (text, suffix), stripped),
    ensures
        text@ == stem + suffix@ ==> (stripped matches Some(kept) && kept@ == stem),
        stripped matches Some(kept) ==> text@ == kept@ + suffix@,
{
    if text@ == stem + suffix@ {
        assert(text@.skip(text@.len() - suffix@.len()) =~= suffix@);
        assert(text@.take(text@.len() - suffix@.len()) =~= stem);
    }
    if let Some(kept) = stripped {
        assert(text@ =~= text@.take(text@.len() - suffix@.len()) + text@.skip(
            text@.len() - suffix@.len(),
        ));
    }
}

/// Two texts are the same exactly where they have the same length and the same character at every
/// place.
pub proof fn law_same_texts_agree_everywhere(left: &str, right: &str, same: bool)
    requires
        call_ensures(same_text, (left, right), same),
    ensures
        same <==> left@.len() == right@.len() && (forall|i: int|
            0 <= i < left@.len() ==> left@[i] == right@[i]),
{
    if left@.len() == right@.len() && (forall|i: int|
        0 <= i < left@.len() ==> left@[i] == right@[i]) {
        assert(left@ =~= right@);
    }
}

} // verus!
