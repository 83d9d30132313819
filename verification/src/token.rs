//! The shape of a single token: flag or action, and where a flag token
//! splits into its key and its optional value.

use vstd::prelude::*;

verus! {

/// A token is a flag when its first character is `-`.
pub open spec fn is_flag_token(t: Seq<char>) -> bool {
    t.len() > 0 && t[0] == '-'
}

/// A token is an action when it is non-empty and does not start with `-`.
/// An empty token is neither: it always fails classification.
pub open spec fn is_action_token(t: Seq<char>) -> bool {
    t.len() > 0 && t[0] != '-'
}

/// The position of the first `=` at or after index `i`, or `t.len()` when
/// no `=` stands there.
pub open spec fn first_eq_from(t: Seq<char>, i: int) -> int
    decreases t.len() - i,
{
    if i >= t.len() {
        t.len() as int
    } else if t[i] == '=' {
        i
    } else {
        first_eq_from(t, i + 1)
    }
}

/// The position of the first `=` in the token, or `t.len()` when the token
/// has none. The whole token is scanned, including the leading `-`.
pub open spec fn first_eq(t: Seq<char>) -> int {
    first_eq_from(t, 0)
}

/// The key part of a flag token: everything before the first `=`, or the
/// whole token when it has no `=`.
pub open spec fn flag_key_of(t: Seq<char>) -> Seq<char> {
    t.subrange(0, first_eq(t))
}

/// The value part of a flag token: everything after the first `=` (possibly
/// empty, with any later `=` kept verbatim), or absent when the token has
/// no `=`.
pub open spec fn flag_value_of(t: Seq<char>) -> Option<Seq<char>> {
    if first_eq(t) == t.len() {
        None
    } else {
        Some(t.subrange(first_eq(t) + 1, t.len() as int))
    }
}

proof fn lemma_first_eq_from_position(t: Seq<char>, i: int, p: int)
    requires
        0 <= i <= p <= t.len(),
        forall|k: int| i <= k < p ==> t[k] != '=',
        p == t.len() || t[p] == '=',
    ensures
        first_eq_from(t, i) == p,
    decreases p - i,
{
    if i < p {
        lemma_first_eq_from_position(t, i + 1, p);
    }
}

/// `first_eq` is the one position with an `=` and none before it; a token
/// without any `=` has `first_eq` equal to its length.
pub proof fn lemma_first_eq_position(t: Seq<char>, p: int)
    requires
        0 <= p <= t.len(),
        forall|k: int| 0 <= k < p ==> t[k] != '=',
        p == t.len() || t[p] == '=',
    ensures
        first_eq(t) == p,
{
    lemma_first_eq_from_position(t, 0, p);
}

/// A flag token without `=` keeps the whole token as its key and carries no
/// value.
pub proof fn lemma_flag_no_separator(t: Seq<char>)
    requires
        is_flag_token(t),
        forall|i: int| 0 <= i < t.len() ==> t[i] != '=',
    ensures
        flag_key_of(t) == t,
        flag_value_of(t) is None,
{
    lemma_first_eq_position(t, t.len() as int);
    assert(flag_key_of(t) =~= t);
}

/// When the first `=` of a flag token stands at position `p`, the key is
/// everything before it and the value everything after it — present even
/// when empty, and with any later `=` kept verbatim in the value.
pub proof fn lemma_flag_with_separator(t: Seq<char>, p: int)
    requires
        is_flag_token(t),
        0 <= p < t.len(),
        t[p] == '=',
        forall|i: int| 0 <= i < p ==> t[i] != '=',
    ensures
        flag_key_of(t) == t.subrange(0, p),
        flag_value_of(t) == Some(t.subrange(p + 1, t.len() as int)),
        flag_value_of(t).unwrap().len() == t.len() - p - 1,
        forall|j: int| p < j < t.len() ==> flag_value_of(t).unwrap()[j - p - 1] == #[trigger] t[j],
{
    lemma_first_eq_position(t, p);
}

/// Scan a token left to right for its first `=`.
pub(crate) fn find_first_eq(s: &str) -> (r: Option<usize>)
    ensures
        match r {
            Some(p) => p < s@.len() && first_eq(s@) == p as int,
            None => first_eq(s@) == s@.len(),
        },
{
    let len = s.unicode_len();
    let mut j: usize = 0;
    while j < len
        invariant
            j <= len,
            len == s@.len(),
            forall|k: int| 0 <= k < j ==> s@[k] != '=',
        decreases len - j,
    {
        if s.get_char(j) == '=' {
            proof {
                lemma_first_eq_position(s@, j as int);
            }
            return Some(j);
        }
        j += 1;
    }
    proof {
        lemma_first_eq_position(s@, len as int);
    }
    None
}

} // verus!
