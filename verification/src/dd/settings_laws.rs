//! What holds of the settings on a command line.

use vstd::prelude::*;
use vstd::seq_lib::to_multiset_contains;

use crate::dd::argument_error;
use crate::dd::asks_for_help;
use crate::dd::early_end;
use crate::dd::requested;
use crate::dd::setting;
use crate::dd::settings;
use crate::text::split_at_equals;

verus! {

/// Whether two arguments are settings of the same key.
pub open spec fn same_key(a: Seq<char>, b: Seq<char>) -> bool {
    match (split_at_equals(a), split_at_equals(b)) {
        (Some((k, _)), Some((l, _))) => k == l,
        _ => false,
    }
}

/// Whether no two arguments are settings of the same key.
pub open spec fn keys_are_distinct(args: Seq<Seq<char>>) -> bool {
    forall|i: int, j: int|
        0 <= i < j < args.len() ==> !same_key(#[trigger] args[i], #[trigger] args[j])
}

/// Whether no argument asks for help.
pub open spec fn no_help_is_asked_for(args: Seq<Seq<char>>) -> bool {
    forall|i: int| 0 <= i < args.len() ==> !asks_for_help(#[trigger] args[i])
}

/// Whether an argument gives a value to a key.
pub open spec fn gives(arg: Seq<char>, key: Seq<char>, value: Seq<char>) -> bool {
    split_at_equals(arg) == Some((key, value))
}

/// A setting has the value that some argument gives; without one, no argument is of its key.
proof fn lemma_setting_is_given(args: Seq<Seq<char>>, n: int, key: Seq<char>)
    requires
        0 <= n <= args.len(),
    ensures
        setting(args, n, key) matches Some(value) ==> exists|i: int|
            0 <= i < n && gives(#[trigger] args[i], key, value),
        setting(args, n, key) is None ==> forall|i: int, value: Seq<char>|
            0 <= i < n ==> !#[trigger] gives(args[i], key, value),
    decreases n,
{
    if n > 0 {
        lemma_setting_is_given(args, n - 1, key);
        if let Some(value) = setting(args, n, key) {
            if split_at_equals(args[n - 1]) matches Some((k, v)) && k == key {
                assert(gives(args[n - 1], key, value));
            }
        }
    }
}

/// The arguments are read to the end exactly if none asks for help or cannot be taken.
pub proof fn lemma_read_to_the_end(args: Seq<Seq<char>>, n: int)
    requires
        0 <= n <= args.len(),
    ensures
        early_end(args, n) is None <==> forall|i: int|
            0 <= i < n ==> !asks_for_help(#[trigger] args[i]) && argument_error(args[i]) is None,
        no_help_is_asked_for(args) && early_end(args, n) is Some ==> early_end(args, n)->Some_0
            is Err,
    decreases n,
{
    if n > 0 {
        lemma_read_to_the_end(args, n - 1);
        if early_end(args, n) is None {
            assert forall|i: int| 0 <= i < n implies !asks_for_help(#[trigger] args[i])
                && argument_error(args[i]) is None by {}
        } else if early_end(args, n - 1) is None {
            assert(asks_for_help(args[n - 1]) || argument_error(args[n - 1]) is Some);
        }
    }
}

proof fn lemma_same_setting(args: Seq<Seq<char>>, other: Seq<Seq<char>>, key: Seq<char>)
    requires
        forall|arg: Seq<char>| args.contains(arg) <==> other.contains(arg),
        keys_are_distinct(args),
    ensures
        setting(args, args.len() as int, key) == setting(other, other.len() as int, key),
{
    let n = args.len() as int;
    let m = other.len() as int;
    lemma_setting_is_given(args, n, key);
    lemma_setting_is_given(other, m, key);
    if let Some(v) = setting(other, m, key) {
        let j = choose|j: int| 0 <= j < m && gives(#[trigger] other[j], key, v);
        assert(other.contains(other[j]));
        assert(args.contains(other[j]));
        let i = choose|i: int| 0 <= i < n && args[i] == other[j];
        assert(gives(args[i], key, v));
        if let Some(w) = setting(args, n, key) {
            let k = choose|k: int| 0 <= k < n && gives(#[trigger] args[k], key, w);
            if i < k {
                assert(!same_key(args[i], args[k]));
            } else if k < i {
                assert(!same_key(args[k], args[i]));
            }
        }
    }
    if let Some(w) = setting(args, n, key) {
        let k = choose|k: int| 0 <= k < n && gives(#[trigger] args[k], key, w);
        assert(args.contains(args[k]));
        assert(other.contains(args[k]));
        let j = choose|j: int| 0 <= j < m && other[j] == args[k];
        assert(gives(other[j], key, w));
    }
}

/// Settings with distinct keys ask for the same wherever they stand: command lines that hold the
/// same arguments, none of which asks for help, are both taken or both refused, and ask for the
/// same where they are taken.
pub proof fn law_settings_may_stand_anywhere(args: Seq<Seq<char>>, other: Seq<Seq<char>>)
    requires
        forall|arg: Seq<char>| args.contains(arg) <==> other.contains(arg),
        keys_are_distinct(args),
        no_help_is_asked_for(args),
    ensures
        requested(args) is Ok <==> requested(other) is Ok,
        requested(args) is Ok ==> requested(args) == requested(other),
{
    let n = args.len() as int;
    let m = other.len() as int;
    assert forall|j: int| 0 <= j < m implies !asks_for_help(#[trigger] other[j]) by {
        assert(other.contains(other[j]));
        assert(args.contains(other[j]));
    }
    lemma_read_to_the_end(args, n);
    lemma_read_to_the_end(other, m);
    if early_end(args, n) is None {
        assert forall|j: int| 0 <= j < m implies !asks_for_help(#[trigger] other[j])
            && argument_error(other[j]) is None by {
            assert(other.contains(other[j]));
            assert(args.contains(other[j]));
        }
    }
    if early_end(other, m) is None {
        assert forall|i: int| 0 <= i < n implies !asks_for_help(#[trigger] args[i])
            && argument_error(args[i]) is None by {
            assert(args.contains(args[i]));
            assert(other.contains(args[i]));
        }
    }
    lemma_same_setting(args, other, "if"@);
    lemma_same_setting(args, other, "of"@);
    lemma_same_setting(args, other, "bs"@);
    lemma_same_setting(args, other, "skip"@);
    lemma_same_setting(args, other, "count"@);
    lemma_same_setting(args, other, "bpt"@);
    lemma_same_setting(args, other, "timeout"@);
    lemma_same_setting(args, other, "pause"@);
    lemma_same_setting(args, other, "unlock"@);
    lemma_same_setting(args, other, "recovery"@);
    lemma_same_setting(args, other, "retries"@);
    lemma_same_setting(args, other, "verbose"@);
    assert(settings(args, n) == settings(other, m));
}

/// The order of settings with distinct keys does not matter: a command line and a permutation of
/// it, without a call for help, are both taken or both refused, and ask for the same where they
/// are taken.
pub proof fn law_order_of_settings_is_irrelevant(args: Seq<Seq<char>>, permuted: Seq<Seq<char>>)
    requires
        args.to_multiset() == permuted.to_multiset(),
        keys_are_distinct(args),
        no_help_is_asked_for(args),
    ensures
        requested(args) is Ok <==> requested(permuted) is Ok,
        requested(args) is Ok ==> requested(args) == requested(permuted),
{
    assert forall|arg: Seq<char>| args.contains(arg) <==> permuted.contains(arg) by {
        to_multiset_contains(args, arg);
        to_multiset_contains(permuted, arg);
    }
    law_settings_may_stand_anywhere(args, permuted);
}

} // verus!
