//! The mathematical model of a whole parse: which token sequences classify
//! successfully, and the flags and actions a successful parse yields.

use vstd::prelude::*;

use crate::token::{flag_key_of, flag_value_of, is_action_token, is_flag_token};
use crate::{ArgumentType, Flag};

verus! {

/// The views of a sequence of string tokens.
pub open spec fn token_views(ts: Seq<&str>) -> Seq<Seq<char>> {
    ts.map_values(|s: &str| s@)
}

/// One token classifies successfully: a flag token whose key the flag
/// classifier recognizes, or an action token the action classifier
/// recognizes. An empty token always fails.
pub open spec fn token_ok<F: ArgumentType, A: ArgumentType>(t: Seq<char>) -> bool {
    if is_flag_token(t) {
        F::spec_from_str(flag_key_of(t)) is Some
    } else if is_action_token(t) {
        A::spec_from_str(t) is Some
    } else {
        false
    }
}

/// Every token of the sequence classifies successfully.
pub open spec fn tokens_ok<F: ArgumentType, A: ArgumentType>(ts: Seq<Seq<char>>) -> bool {
    forall|i: int| 0 <= i < ts.len() ==> token_ok::<F, A>(#[trigger] ts[i])
}

/// The classified key and the value a flag token carries.
pub open spec fn spec_flag_of<F: ArgumentType>(t: Seq<char>) -> (F, Option<Seq<char>>) {
    (F::spec_from_str(flag_key_of(t)).unwrap(), flag_value_of(t))
}

/// The flags a token sequence yields, in encounter order: one entry per
/// flag token, each a classified key with its optional value.
pub open spec fn spec_flags<F: ArgumentType>(ts: Seq<Seq<char>>) -> Seq<(F, Option<Seq<char>>)>
    decreases ts.len(),
{
    if ts.len() == 0 {
        Seq::empty()
    } else if is_flag_token(ts.last()) {
        spec_flags::<F>(ts.drop_last()).push(spec_flag_of::<F>(ts.last()))
    } else {
        spec_flags::<F>(ts.drop_last())
    }
}

/// The actions a token sequence yields, in encounter order: one entry per
/// action token.
pub open spec fn spec_actions<A: ArgumentType>(ts: Seq<Seq<char>>) -> Seq<A>
    decreases ts.len(),
{
    if ts.len() == 0 {
        Seq::empty()
    } else if is_action_token(ts.last()) {
        spec_actions::<A>(ts.drop_last()).push(A::spec_from_str(ts.last()).unwrap())
    } else {
        spec_actions::<A>(ts.drop_last())
    }
}

/// An executable flag agrees with its model entry: the same key, and a value
/// present exactly when the model's is, with the same characters.
pub open spec fn flag_matches<F: ArgumentType>(f: Flag<F>, m: (F, Option<Seq<char>>)) -> bool {
    &&& f.key == m.0
    &&& match f.value {
        Some(s) => m.1 is Some && s@ == m.1.unwrap(),
        None => m.1 is None,
    }
}

/// An executable flag list agrees with its model entry for entry.
pub open spec fn flags_match<F: ArgumentType>(
    fs: Seq<Flag<F>>,
    ms: Seq<(F, Option<Seq<char>>)>,
) -> bool {
    fs.len() == ms.len() && forall|i: int|
        0 <= i < fs.len() ==> flag_matches(#[trigger] fs[i], ms[i])
}

/// The flag tokens of a sequence, in encounter order.
pub open spec fn flag_tokens(ts: Seq<Seq<char>>) -> Seq<Seq<char>> {
    ts.filter(|t: Seq<char>| is_flag_token(t))
}

/// The action tokens of a sequence, in encounter order.
pub open spec fn action_tokens(ts: Seq<Seq<char>>) -> Seq<Seq<char>> {
    ts.filter(|t: Seq<char>| is_action_token(t))
}

/// The flag tokens of a sequence, each classified, in encounter order.
pub open spec fn classified_flag_tokens<F: ArgumentType>(ts: Seq<Seq<char>>) -> Seq<
    (F, Option<Seq<char>>),
> {
    flag_tokens(ts).map_values(|t: Seq<char>| spec_flag_of::<F>(t))
}

/// The action tokens of a sequence, each classified, in encounter order.
pub open spec fn classified_action_tokens<A: ArgumentType>(ts: Seq<Seq<char>>) -> Seq<A> {
    action_tokens(ts).map_values(|t: Seq<char>| A::spec_from_str(t).unwrap())
}

/// Order preservation: the flags of a token sequence are exactly its flag
/// tokens, classified, in the same relative order — and likewise the
/// actions, independent of how the two kinds interleave.
pub proof fn lemma_order_preserved<F: ArgumentType, A: ArgumentType>(ts: Seq<Seq<char>>)
    ensures
        spec_flags::<F>(ts) == classified_flag_tokens::<F>(ts),
        spec_actions::<A>(ts) == classified_action_tokens::<A>(ts),
    decreases ts.len(),
{
    reveal(Seq::filter);
    if ts.len() == 0 {
        assert(spec_flags::<F>(ts) =~= classified_flag_tokens::<F>(ts));
        assert(spec_actions::<A>(ts) =~= classified_action_tokens::<A>(ts));
    } else {
        let pre = ts.drop_last();
        let t = ts.last();
        lemma_order_preserved::<F, A>(pre);
        if is_flag_token(t) {
            assert(flag_tokens(ts) == flag_tokens(pre).push(t));
            assert(action_tokens(ts) == action_tokens(pre));
            assert(classified_flag_tokens::<F>(ts) =~= classified_flag_tokens::<F>(pre).push(
                spec_flag_of::<F>(t),
            ));
            assert(classified_action_tokens::<A>(ts) =~= classified_action_tokens::<A>(pre));
        } else if is_action_token(t) {
            assert(flag_tokens(ts) == flag_tokens(pre));
            assert(action_tokens(ts) == action_tokens(pre).push(t));
            assert(classified_flag_tokens::<F>(ts) =~= classified_flag_tokens::<F>(pre));
            assert(classified_action_tokens::<A>(ts) =~= classified_action_tokens::<A>(pre).push(
                A::spec_from_str(t).unwrap(),
            ));
        } else {
            assert(flag_tokens(ts) == flag_tokens(pre));
            assert(action_tokens(ts) == action_tokens(pre));
            assert(classified_flag_tokens::<F>(ts) =~= classified_flag_tokens::<F>(pre));
            assert(classified_action_tokens::<A>(ts) =~= classified_action_tokens::<A>(pre));
        }
    }
}

/// When every token is an action token its classifier accepts, the whole
/// sequence classifies: no flags come out, and one action per token, in
/// encounter order.
pub proof fn lemma_all_actions<F: ArgumentType, A: ArgumentType>(ts: Seq<Seq<char>>)
    requires
        forall|i: int|
            0 <= i < ts.len() ==> is_action_token(#[trigger] ts[i]) && A::spec_from_str(
                ts[i],
            ) is Some,
    ensures
        tokens_ok::<F, A>(ts),
        spec_flags::<F>(ts).len() == 0,
        spec_actions::<A>(ts).len() == ts.len(),
        forall|i: int|
            0 <= i < ts.len() ==> spec_actions::<A>(ts)[i] == A::spec_from_str(
                #[trigger] ts[i],
            ).unwrap(),
    decreases ts.len(),
{
    if ts.len() > 0 {
        let pre = ts.drop_last();
        let t = ts.last();
        assert forall|i: int|
            0 <= i < pre.len() implies is_action_token(#[trigger] pre[i]) && A::spec_from_str(
            pre[i],
        ) is Some by {
            assert(pre[i] == ts[i]);
        }
        lemma_all_actions::<F, A>(pre);
        assert(is_action_token(t));
        assert(!is_flag_token(t));
        assert(spec_actions::<A>(ts) == spec_actions::<A>(pre).push(A::spec_from_str(t).unwrap()));
        assert forall|i: int| 0 <= i < ts.len() implies spec_actions::<A>(ts)[i]
            == A::spec_from_str(#[trigger] ts[i]).unwrap() by {
            if i < ts.len() - 1 {
                assert(spec_actions::<A>(ts)[i] == spec_actions::<A>(pre)[i]);
                assert(pre[i] == ts[i]);
            }
        }
    }
}

/// Fail-fast: a sequence with one failing token fails classification as a
/// whole — the parser then hands back the supplied error value and no
/// partial result.
pub proof fn lemma_fail_fast<F: ArgumentType, A: ArgumentType>(ts: Seq<Seq<char>>, k: int)
    requires
        0 <= k < ts.len(),
        !token_ok::<F, A>(ts[k]),
    ensures
        !tokens_ok::<F, A>(ts),
{
}

/// Pushing a flag that agrees with a model entry keeps an agreeing list
/// agreeing.
pub proof fn lemma_flags_match_push<F: ArgumentType>(
    fs: Seq<Flag<F>>,
    ms: Seq<(F, Option<Seq<char>>)>,
    f: Flag<F>,
    m: (F, Option<Seq<char>>),
)
    requires
        flags_match(fs, ms),
        flag_matches(f, m),
    ensures
        flags_match(fs.push(f), ms.push(m)),
{
    assert forall|i: int| 0 <= i < fs.push(f).len() implies flag_matches(
        #[trigger] fs.push(f)[i],
        ms.push(m)[i],
    ) by {
        if i < fs.len() {
            assert(fs.push(f)[i] == fs[i]);
            assert(ms.push(m)[i] == ms[i]);
        } else {
            assert(fs.push(f)[i] == f);
            assert(ms.push(m)[i] == m);
        }
    }
}

/// Every token of a successfully classified sequence becomes exactly one
/// flag or one action: the two counts add up to the token count.
pub proof fn lemma_counts_total<F: ArgumentType, A: ArgumentType>(ts: Seq<Seq<char>>)
    requires
        tokens_ok::<F, A>(ts),
    ensures
        spec_flags::<F>(ts).len() + spec_actions::<A>(ts).len() == ts.len(),
    decreases ts.len(),
{
    if ts.len() > 0 {
        assert(token_ok::<F, A>(ts[ts.len() - 1]));
        assert(forall|i: int|
            0 <= i < ts.drop_last().len() ==> token_ok::<F, A>(#[trigger] ts.drop_last()[i]));
        lemma_counts_total::<F, A>(ts.drop_last());
    }
}

} // verus!
