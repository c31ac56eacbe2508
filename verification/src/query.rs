//! Editing the query.

use vstd::prelude::*;

use crate::text::{
    chars_of, is_space, is_whitespace, string_of_range, trim, trim_end, trim_end_len,
    trim_start_by, CharClass,
};

verus! {

/// The position of the last whitespace character of `s` before position
/// `end`, or -1 when there is none.
pub open spec fn last_space_before(s: Seq<char>, end: int) -> int
    decreases end,
{
    if end <= 0 || end > s.len() {
        -1
    } else if is_space(s[end - 1]) {
        end - 1
    } else {
        last_space_before(s, end - 1)
    }
}

/// The query once its last word and the blanks after it are removed: what
/// comes before the last whitespace of the query without its trailing blanks,
/// or nothing when that has no whitespace.
pub open spec fn without_previous_word(query: Seq<char>) -> Seq<char> {
    let t = trim_end(query);
    let k = last_space_before(t, t.len() as int);
    if k < 0 {
        Seq::empty()
    } else {
        t.take(k)
    }
}

proof fn lemma_trim_end_prefix(s: Seq<char>)
    ensures
        trim_end(s).len() <= s.len(),
        trim_end(s) == s.take(trim_end(s).len() as int),
    decreases s.len(),
{
    if s.len() > 0 && is_space(s.last()) {
        lemma_trim_end_prefix(s.drop_last());
        assert(s.drop_last().take(trim_end(s).len() as int) == s.take(trim_end(s).len() as int));
    } else {
        assert(s.take(s.len() as int) == s);
    }
}

proof fn lemma_last_space_bounds(s: Seq<char>, end: int)
    requires
        end <= s.len(),
    ensures
        -1 <= last_space_before(s, end) < end || (end <= 0 && last_space_before(s, end) == -1),
        last_space_before(s, end) >= 0 ==> is_space(s[last_space_before(s, end)]),
    decreases end,
{
    if end > 0 && !is_space(s[end - 1]) {
        lemma_last_space_bounds(s, end - 1);
    }
}

/// Removes the word before the end of `query` and the blanks after it, as
/// the usual "delete previous word" editing key does.
pub fn remove_previous_word(query: &mut String)
    ensures
        final(query)@ == without_previous_word(old(query)@),
{
    let chars = chars_of(query.as_str());
    let end = trim_end_len(chars.as_slice(), &CharClass::Whitespace);
    let ghost t = chars@.take(end as int);
    let mut k = end;
    while k > 0 && !is_whitespace(chars[k - 1])
        invariant
            k <= end <= chars@.len(),
            t == chars@.take(end as int),
            last_space_before(t, k as int) == last_space_before(t, end as int),
        decreases k,
    {
        k -= 1;
    }
    let new_length = if k == 0 {
        0
    } else {
        k - 1
    };
    proof {
        if k > 0 {
            assert(t[k - 1] == chars@[k - 1]);
        }
        assert(t.take(new_length as int) == chars@.subrange(0, new_length as int));
    }
    *query = string_of_range(chars.as_slice(), 0, new_length);
}

/// A previous-word deletion keeps a prefix of the query, and shortens every
/// query that is not blank.
pub proof fn law_previous_word_removal_shortens(query: Seq<char>)
    ensures
        without_previous_word(query) == query.take(without_previous_word(query).len() as int),
        trim(query).len() > 0 ==> without_previous_word(query).len() < trim_end(query).len(),
        trim(query).len() == 0 ==> without_previous_word(query).len() == 0,
{
    let t = trim_end(query);
    lemma_trim_end_prefix(query);
    lemma_last_space_bounds(t, t.len() as int);
    let k = last_space_before(t, t.len() as int);
    if k >= 0 {
        assert(t.take(k) == query.take(k));
    } else {
        assert(without_previous_word(query) == query.take(0));
    }
    if trim(query).len() == 0 {
        lemma_blank_has_empty_trim_end(query);
    }
}

proof fn lemma_trim_start_empty(s: Seq<char>)
    requires
        trim_start_by(s, CharClass::Whitespace).len() == 0,
    ensures
        forall|i: int| 0 <= i < s.len() ==> is_space(#[trigger] s[i]),
    decreases s.len(),
{
    if s.len() > 0 {
        lemma_trim_start_empty(s.drop_first());
        assert forall|i: int| 0 <= i < s.len() implies is_space(#[trigger] s[i]) by {
            if i > 0 {
                assert(s[i] == s.drop_first()[i - 1]);
            }
        }
    }
}

proof fn lemma_all_space_trim_end(s: Seq<char>)
    requires
        forall|i: int| 0 <= i < s.len() ==> is_space(#[trigger] s[i]),
    ensures
        trim_end(s).len() == 0,
    decreases s.len(),
{
    if s.len() > 0 {
        assert(is_space(s[s.len() - 1]));
        lemma_all_space_trim_end(s.drop_last());
    }
}

proof fn lemma_blank_has_empty_trim_end(s: Seq<char>)
    requires
        trim(s).len() == 0,
    ensures
        trim_end(s).len() == 0,
{
    lemma_trim_start_empty(trim_end(s));
    lemma_all_space_trim_end(trim_end(s));
    let t = trim_end(s);
    if t.len() > 0 {
        // the last character of the trimmed query is not blank
        assert(is_space(t[t.len() - 1]));
        lemma_trim_end_last(s);
    }
}

proof fn lemma_trim_end_last(s: Seq<char>)
    ensures
        trim_end(s).len() > 0 ==> !is_space(trim_end(s).last()),
    decreases s.len(),
{
    if s.len() > 0 && is_space(s.last()) {
        lemma_trim_end_last(s.drop_last());
    }
}

} // verus!
