//! A small library that classifies command-line tokens into caller-defined
//! flag and action types.
//!
//! A token whose first character is `-` is a flag; its first `=`, if any,
//! separates the flag key from an optional value. Any other non-empty token
//! is an action. The mapping from key strings to typed values is supplied by
//! the caller through the [`ArgumentType`] trait, and any token the caller's
//! mapping rejects aborts the whole parse with a caller-supplied error value.

use vstd::prelude::*;

pub mod model;
pub mod token;

use crate::model::{
    flags_match, lemma_counts_total, lemma_flags_match_push, spec_actions, spec_flag_of,
    spec_flags, token_ok, token_views, tokens_ok,
};
use crate::token::{find_first_eq, flag_key_of, flag_value_of, is_action_token, is_flag_token};

verus! {

/// The classification capability a caller supplies: a pure mapping from a
/// key string to a typed value, or to the caller's error value when the key
/// is not recognized. Implemented once for the caller's flag-key type and
/// once for its action-key type.
pub trait ArgumentType: Sized {
    /// What this type's classifier answers for a key: the typed value the
    /// key maps to, or `None` when the key is not recognized.
    spec fn spec_from_str(key: Seq<char>) -> Option<Self>;

    /// Classify one key string. On a recognized key the typed value comes
    /// back; on any other key the supplied error value comes back unchanged.
    fn from_str<E: Error>(key: &str, error: E) -> (r: Result<Self, E>)
        ensures
            match Self::spec_from_str(key@) {
                Some(v) => r == Ok::<Self, E>(v),
                None => r == Err::<Self, E>(error),
            },
    ;
}

/// The error capability a caller supplies. The parser only hands the value
/// back unchanged; what an error does or says is entirely the caller's
/// business.
pub trait Error {
    /// React to the error, as the caller sees fit.
    fn handle(&self);

    /// A caller-defined description of the error.
    fn as_str(&self) -> &str;
}

/// One parsed flag: the classified key and the optional value that stood
/// after the first `=` of the token.
#[derive(Debug)]
pub struct Flag<T: ArgumentType> {
    pub key: T,
    pub value: Option<String>,
}

/// The result of a successful parse: the classified flags and actions, each
/// collection in the order its source tokens appeared.
#[derive(Debug)]
pub struct Arguments<F: ArgumentType, A: ArgumentType> {
    /// The classified flags, in encounter order.
    pub flags: Vec<Flag<F>>,
    /// The classified actions, in encounter order.
    pub actions: Vec<A>,
}

impl<F: ArgumentType, A: ArgumentType> Arguments<F, A> {
    /// An empty result: no flags and no actions.
    pub fn new() -> (r: Self)
        ensures
            r.flags@.len() == 0,
            r.actions@.len() == 0,
    {
        Arguments { flags: Vec::new(), actions: Vec::new() }
    }

    /// Classify every token, in sequence order. A token whose first character
    /// is `-` is a flag: its first `=`, if any, separates the key (everything
    /// before it) from the value (everything after it, kept verbatim); the key
    /// goes to the flag classifier. Any other non-empty token goes whole to
    /// the action classifier. On success every token stands as exactly one
    /// flag or action, each collection in encounter order. The first token
    /// that fails classification — an empty token always does — aborts the
    /// whole parse, handing back the supplied error value and nothing else.
    pub fn parse<E: Error + Clone + Copy>(env_args: Vec<&str>, error: E) -> (r: Result<
        Arguments<F, A>,
        E,
    >)
        ensures
            match r {
                Ok(args) => {
                    &&& tokens_ok::<F, A>(token_views(env_args@))
                    &&& flags_match(args.flags@, spec_flags::<F>(token_views(env_args@)))
                    &&& args.actions@ == spec_actions::<A>(token_views(env_args@))
                    &&& args.flags@.len() + args.actions@.len() == env_args@.len()
                },
                Err(e) => {
                    &&& !tokens_ok::<F, A>(token_views(env_args@))
                    &&& e == error
                },
            },
    {
        let ghost ts = token_views(env_args@);
        let mut args = Arguments::<F, A>::new();
        proof {
            assert(ts.subrange(0, 0) =~= Seq::<Seq<char>>::empty());
            assert(args.flags@ =~= Seq::<Flag<F>>::empty());
            assert(args.actions@ =~= Seq::<A>::empty());
        }
        let n = env_args.len();
        let mut idx: usize = 0;
        while idx < n
            invariant
                idx <= n,
                n == env_args@.len(),
                ts == token_views(env_args@),
                forall|k: int| 0 <= k < idx ==> token_ok::<F, A>(#[trigger] ts[k]),
                flags_match(args.flags@, spec_flags::<F>(ts.subrange(0, idx as int))),
                args.actions@ == spec_actions::<A>(ts.subrange(0, idx as int)),
            decreases n - idx,
        {
            let arg: &str = env_args[idx];
            let ghost t = ts[idx as int];
            proof {
                assert(arg@ == t);
            }
            let len = arg.unicode_len();
            if len == 0 {
                proof {
                    assert(!token_ok::<F, A>(ts[idx as int]));
                }
                return Err(error);
            }
            if arg.get_char(0) == '-' {
                let ghost pre = ts.subrange(0, idx as int);
                let ghost pre2 = ts.subrange(0, idx as int + 1);
                proof {
                    assert(pre2.drop_last() =~= pre);
                    assert(pre2.last() == t);
                    assert(is_flag_token(t));
                }
                match find_first_eq(arg) {
                    None => {
                        proof {
                            assert(flag_key_of(t) =~= t);
                        }
                        match F::from_str(arg, error) {
                            Ok(k) => {
                                let ghost fs = args.flags@;
                                args.flags.push(Flag { key: k, value: None });
                                proof {
                                    assert(flag_value_of(t) is None);
                                    lemma_flags_match_push(
                                        fs,
                                        spec_flags::<F>(pre),
                                        (Flag { key: k, value: None }),
                                        spec_flag_of::<F>(t),
                                    );
                                    assert(spec_flags::<F>(pre2) == spec_flags::<F>(pre).push(
                                        spec_flag_of::<F>(t),
                                    ));
                                    assert(spec_actions::<A>(pre2) == spec_actions::<A>(pre));
                                }
                            },
                            Err(e) => {
                                proof {
                                    assert(!token_ok::<F, A>(ts[idx as int]));
                                }
                                return Err(e);
                            },
                        }
                    },
                    Some(p) => {
                        let key = arg.substring_char(0, p);
                        let val = arg.substring_char(p + 1, len);
                        proof {
                            assert(key@ == flag_key_of(t));
                            assert(flag_value_of(t) == Some(val@));
                        }
                        match F::from_str(key, error) {
                            Ok(k) => {
                                let ghost fs = args.flags@;
                                let value = val.to_owned();
                                args.flags.push(Flag { key: k, value: Some(value) });
                                proof {
                                    lemma_flags_match_push(
                                        fs,
                                        spec_flags::<F>(pre),
                                        args.flags@.last(),
                                        spec_flag_of::<F>(t),
                                    );
                                    assert(spec_flags::<F>(pre2) == spec_flags::<F>(pre).push(
                                        spec_flag_of::<F>(t),
                                    ));
                                    assert(spec_actions::<A>(pre2) == spec_actions::<A>(pre));
                                }
                            },
                            Err(e) => {
                                proof {
                                    assert(!token_ok::<F, A>(ts[idx as int]));
                                }
                                return Err(e);
                            },
                        }
                    },
                }
            } else {
                let ghost pre = ts.subrange(0, idx as int);
                let ghost pre2 = ts.subrange(0, idx as int + 1);
                proof {
                    assert(pre2.drop_last() =~= pre);
                    assert(pre2.last() == t);
                    assert(is_action_token(t));
                }
                match A::from_str(arg, error) {
                    Ok(a) => {
                        args.actions.push(a);
                        proof {
                            assert(spec_actions::<A>(pre2) == spec_actions::<A>(pre).push(
                                A::spec_from_str(t).unwrap(),
                            ));
                            assert(spec_flags::<F>(pre2) == spec_flags::<F>(pre));
                        }
                    },
                    Err(e) => {
                        proof {
                            assert(!token_ok::<F, A>(ts[idx as int]));
                        }
                        return Err(e);
                    },
                }
            }
            idx += 1;
        }
        proof {
            assert(ts.subrange(0, n as int) =~= ts);
            lemma_counts_total::<F, A>(ts);
        }
        Ok(args)
    }
}

} // verus!
