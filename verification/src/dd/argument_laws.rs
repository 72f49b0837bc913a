//! What the arguments of a run mean, one by one.

use vstd::prelude::*;

use crate::dd::argument_error;
use crate::dd::asks_for_help;
use crate::dd::early_end;
use crate::dd::flag_value;
use crate::dd::lemma_early_end_stays;
use crate::dd::number_limit;
use crate::dd::requested;
use crate::dd::setting;
use crate::dd::settings;
use crate::dd::settings_laws::lemma_read_to_the_end;
use crate::dd::Args;
use crate::dd::ArgsView;
use crate::dd::Request;
use crate::dd::RequestView;
use crate::text::parsed_unsigned;
use crate::text::split_at_equals;

verus! {

/// Four words mean yes, four mean no, and no other word means anything.
pub proof fn law_flags_are_eight_words(text: Seq<char>)
    ensures
        flag_value(text) == Some(true) <==> text == "1"@ || text == "true"@ || text == "yes"@
            || text == "on"@,
        flag_value(text) == Some(false) <==> text == "0"@ || text == "false"@ || text == "no"@
            || text == "off"@,
{
    reveal_strlit("1");
    reveal_strlit("true");
    reveal_strlit("yes");
    reveal_strlit("on");
    reveal_strlit("0");
    reveal_strlit("false");
    reveal_strlit("no");
    reveal_strlit("off");
    assert("1"@[0] == '1' && "0"@[0] == '0' && "on"@[0] == 'o' && "no"@[0] == 'n');
    assert("yes"@[0] == 'y' && "off"@[0] == 'o' && "true"@[0] == 't' && "false"@[0] == 'f');
    assert("on"@.len() == 2 && "off"@.len() == 3);
}

/// The largest number that a key takes.
pub open spec fn largest(key: Seq<char>) -> nat {
    if key == "bs"@ {
        usize::MAX as nat
    } else if key == "bpt"@ {
        0xffff
    } else if key == "pause"@ {
        0xffff_ffff_ffff_ffff
    } else if key == "verbose"@ {
        0xff
    } else {
        0xffff_ffff
    }
}

/// Whether a key is that of a number.
pub open spec fn is_number_key(key: Seq<char>) -> bool {
    key == "bs"@ || key == "skip"@ || key == "count"@ || key == "bpt"@ || key == "timeout"@ || key
        == "pause"@ || key == "retries"@ || key == "verbose"@
}

/// Whether a key is that of a flag.
pub open spec fn is_flag_key(key: Seq<char>) -> bool {
    key == "unlock"@ || key == "recovery"@
}

/// Whether an argument is a setting that can be taken: a text, a flag by one of its words, or a
/// number that fits.
pub open spec fn can_be_taken(arg: Seq<char>) -> bool {
    match split_at_equals(arg) {
        None => false,
        Some((key, value)) => {
            ||| key == "if"@ || key == "of"@
            ||| is_flag_key(key) && flag_value(value) is Some
            ||| is_number_key(key) && parsed_unsigned(value, largest(key)) is Some
        },
    }
}

proof fn lemma_keys_of_settings()
    ensures
        "if"@.len() == 2 && "if"@[0] == 'i',
        "of"@.len() == 2 && "of"@[0] == 'o',
        "bs"@.len() == 2 && "bs"@[0] == 'b',
        "bpt"@.len() == 3,
        "skip"@.len() == 4,
        "count"@.len() == 5 && "count"@[0] == 'c',
        "pause"@.len() == 5 && "pause"@[0] == 'p',
        "unlock"@.len() == 6,
        "timeout"@.len() == 7 && "timeout"@[0] == 't',
        "retries"@.len() == 7 && "retries"@[0] == 'r',
        "verbose"@.len() == 7 && "verbose"@[0] == 'v',
        "recovery"@.len() == 8,
{
    reveal_strlit("if");
    reveal_strlit("of");
    reveal_strlit("bs");
    reveal_strlit("bpt");
    reveal_strlit("skip");
    reveal_strlit("count");
    reveal_strlit("pause");
    reveal_strlit("unlock");
    reveal_strlit("timeout");
    reveal_strlit("retries");
    reveal_strlit("verbose");
    reveal_strlit("recovery");
}

proof fn lemma_taken(arg: Seq<char>)
    ensures
        argument_error(arg) is None <==> can_be_taken(arg),
{
    lemma_keys_of_settings();
}

/// The first argument that asks for help or cannot be taken decides what comes of a command line.
pub proof fn law_first_fault_decides(args: Seq<Seq<char>>, i: int)
    requires
        0 <= i < args.len(),
        forall|j: int|
            0 <= j < i ==> (#[trigger] args[j]) != "--help"@ && args[j] != "-h"@ && can_be_taken(
                args[j],
            ),
    ensures
        args[i] == "--help"@ || args[i] == "-h"@ ==> requested(args) == Ok::<
            RequestView,
            Seq<char>,
        >(RequestView::Help),
        args[i] != "--help"@ && args[i] != "-h"@ && split_at_equals(args[i]) is None ==> requested(
            args,
        ) == Err::<RequestView, Seq<char>>("expected key=value: "@ + args[i]),
        args[i] != "--help"@ && args[i] != "-h"@ ==> (split_at_equals(args[i]) matches Some(
            (key, value),
        ) ==> {
            &&& (is_flag_key(key) || is_number_key(key)) && !can_be_taken(args[i]) ==> requested(
                args,
            ) == Err::<RequestView, Seq<char>>("bad "@ + key + ": "@ + value)
            &&& key != "if"@ && key != "of"@ && !is_flag_key(key) && !is_number_key(key)
                ==> requested(args) == Err::<RequestView, Seq<char>>("unknown key: "@ + key)
        }),
{
    lemma_keys_of_settings();
    assert forall|j: int| 0 <= j < i implies !asks_for_help(#[trigger] args[j]) && argument_error(
        args[j],
    ) is None by {
        lemma_taken(args[j]);
    }
    lemma_read_to_the_end(args, i);
    lemma_taken(args[i]);
    if early_end(args, i + 1) is Some {
        lemma_early_end_stays(args, i + 1, args.len() as int);
    }
}

/// Whether an argument is the last one that gives a value to a key.
pub open spec fn gives_last(
    args: Seq<Seq<char>>,
    i: int,
    key: Seq<char>,
    value: Seq<char>,
) -> bool {
    &&& 0 <= i < args.len()
    &&& split_at_equals(args[i]) == Some((key, value))
    &&& forall|j: int| i < j < args.len() ==> !is_of_key(#[trigger] args[j], key)
}

/// Whether an argument gives a value to a key.
pub open spec fn is_of_key(arg: Seq<char>, key: Seq<char>) -> bool {
    split_at_equals(arg) matches Some((k, _)) && k == key
}

/// Whether no argument gives a value to a key.
pub open spec fn is_not_given(args: Seq<Seq<char>>, key: Seq<char>) -> bool {
    forall|i: int| 0 <= i < args.len() ==> !is_of_key(#[trigger] args[i], key)
}

proof fn lemma_last_setting(
    args: Seq<Seq<char>>,
    n: int,
    i: int,
    key: Seq<char>,
    value: Seq<char>,
)
    requires
        0 <= i < n <= args.len(),
        split_at_equals(args[i]) == Some((key, value)),
        forall|j: int| i < j < n ==> !is_of_key(#[trigger] args[j], key),
    ensures
        setting(args, n, key) == Some(value),
    decreases n,
{
    if i < n - 1 {
        assert(!is_of_key(args[n - 1], key));
        lemma_last_setting(args, n - 1, i, key, value);
    }
}

proof fn lemma_no_setting(args: Seq<Seq<char>>, n: int, key: Seq<char>)
    requires
        0 <= n <= args.len(),
        forall|i: int| 0 <= i < n ==> !is_of_key(#[trigger] args[i], key),
    ensures
        setting(args, n, key) is None,
    decreases n,
{
    if n > 0 {
        assert(!is_of_key(args[n - 1], key));
        lemma_no_setting(args, n - 1, key);
    }
}

proof fn lemma_taken_command_line(args: Seq<Seq<char>>, a: ArgsView)
    requires
        requested(args) == Ok::<RequestView, Seq<char>>(RequestView::Read(a)),
    ensures
        a == settings(args, args.len() as int),
        forall|i: int| 0 <= i < args.len() ==> argument_error(#[trigger] args[i]) is None,
{
    lemma_read_to_the_end(args, args.len() as int);
    lemma_no_read_early(args, args.len() as int);
}

proof fn lemma_no_read_early(args: Seq<Seq<char>>, n: int)
    requires
        0 <= n <= args.len(),
    ensures
        early_end(args, n) matches Some(Ok(request)) ==> request is Help,
    decreases n,
{
    if n > 0 {
        lemma_no_read_early(args, n - 1);
    }
}

/// In a run that is asked for, each setting has the last value that is given to its key: a text as
/// it stands, a number by its digits, and a flag by its word.
pub proof fn law_last_value_of_a_key_counts(
    args: Seq<Seq<char>>,
    a: ArgsView,
    i: int,
    value: Seq<char>,
)
    requires
        requested(args) == Ok::<RequestView, Seq<char>>(RequestView::Read(a)),
    ensures
        gives_last(args, i, "if"@, value) ==> a.input == value,
        gives_last(args, i, "of"@, value) ==> a.output == value,
        gives_last(args, i, "bs"@, value) ==> parsed_unsigned(value, usize::MAX as nat) == Some(
            a.bs,
        ),
        gives_last(args, i, "skip"@, value) ==> parsed_unsigned(value, 0xffff_ffff) == Some(a.skip),
        gives_last(args, i, "count"@, value) ==> parsed_unsigned(value, 0xffff_ffff) == Some(
            a.count,
        ),
        gives_last(args, i, "bpt"@, value) ==> parsed_unsigned(value, 0xffff) == Some(a.bpt),
        gives_last(args, i, "timeout"@, value) ==> parsed_unsigned(value, 0xffff_ffff) == Some(
            a.timeout_ms,
        ),
        gives_last(args, i, "pause"@, value) ==> parsed_unsigned(value, 0xffff_ffff_ffff_ffff)
            == Some(a.pause_ms),
        gives_last(args, i, "unlock"@, value) ==> flag_value(value) == Some(a.unlock),
        gives_last(args, i, "recovery"@, value) ==> flag_value(value) == Some(a.recovery),
        gives_last(args, i, "retries"@, value) ==> parsed_unsigned(value, 0xffff_ffff) == Some(
            a.retries,
        ),
        gives_last(args, i, "verbose"@, value) ==> parsed_unsigned(value, 0xff) == Some(a.verbose),
{
    lemma_keys_of_settings();
    lemma_taken_command_line(args, a);
    if 0 <= i < args.len() {
        assert(argument_error(args[i]) is None);
        if let Some((key, v)) = split_at_equals(args[i]) {
            if v == value && gives_last(args, i, key, value) {
                lemma_last_setting(args, args.len() as int, i, key, value);
                if is_number_key(key) {
                    assert(number_limit(key) == Some(largest(key)));
                }
            }
        }
    }
}

/// In a run that is asked for, a setting whose key is not given has its default; there is none for
/// the input.
pub proof fn law_settings_have_defaults(args: Seq<Seq<char>>, a: ArgsView)
    requires
        requested(args) == Ok::<RequestView, Seq<char>>(RequestView::Read(a)),
    ensures
        !is_not_given(args, "if"@),
        is_not_given(args, "of"@) ==> a.output == "/dev/null"@,
        is_not_given(args, "bs"@) ==> a.bs == 2048,
        is_not_given(args, "skip"@) ==> a.skip == 0,
        is_not_given(args, "count"@) ==> a.count == 256,
        is_not_given(args, "bpt"@) ==> a.bpt == 32,
        is_not_given(args, "timeout"@) ==> a.timeout_ms == 30_000,
        is_not_given(args, "pause"@) ==> a.pause_ms == 0,
        is_not_given(args, "unlock"@) ==> a.unlock,
        is_not_given(args, "recovery"@) ==> !a.recovery,
        is_not_given(args, "retries"@) ==> a.retries == 0,
        is_not_given(args, "verbose"@) ==> a.verbose == 1,
{
    let n = args.len() as int;
    lemma_taken_command_line(args, a);
    law_runs_can_be_made(args, a);
    if is_not_given(args, "if"@) {
        lemma_no_setting(args, n, "if"@);
    }
    if is_not_given(args, "of"@) {
        lemma_no_setting(args, n, "of"@);
    }
    if is_not_given(args, "bs"@) {
        lemma_no_setting(args, n, "bs"@);
    }
    if is_not_given(args, "skip"@) {
        lemma_no_setting(args, n, "skip"@);
    }
    if is_not_given(args, "count"@) {
        lemma_no_setting(args, n, "count"@);
    }
    if is_not_given(args, "bpt"@) {
        lemma_no_setting(args, n, "bpt"@);
    }
    if is_not_given(args, "timeout"@) {
        lemma_no_setting(args, n, "timeout"@);
    }
    if is_not_given(args, "pause"@) {
        lemma_no_setting(args, n, "pause"@);
    }
    if is_not_given(args, "unlock"@) {
        lemma_no_setting(args, n, "unlock"@);
    }
    if is_not_given(args, "recovery"@) {
        lemma_no_setting(args, n, "recovery"@);
    }
    if is_not_given(args, "retries"@) {
        lemma_no_setting(args, n, "retries"@);
    }
    if is_not_given(args, "verbose"@) {
        lemma_no_setting(args, n, "verbose"@);
    }
}

/// A command line whose arguments can all be taken asks for a run exactly if it gives an input,
/// leaves the sector size at 2048, and reads at least one sector at a time; otherwise the first of
/// these that does not hold is its error.
pub proof fn law_runs_need_an_input_and_a_block(args: Seq<Seq<char>>)
    requires
        forall|i: int|
            0 <= i < args.len() ==> (#[trigger] args[i]) != "--help"@ && args[i] != "-h"@
                && can_be_taken(args[i]),
    ensures
        ({
            let a = settings(args, args.len() as int);
            &&& a.input.len() == 0 ==> requested(args) == Err::<RequestView, Seq<char>>(
                "if=DEV is required"@,
            )
            &&& a.input.len() > 0 && a.bs != 2048 ==> requested(args) == Err::<
                RequestView,
                Seq<char>,
            >("only bs=2048 is supported (BD/UHD sector size)"@)
            &&& a.input.len() > 0 && a.bs == 2048 && a.bpt == 0 ==> requested(args) == Err::<
                RequestView,
                Seq<char>,
            >("bpt must be >= 1"@)
            &&& a.input.len() > 0 && a.bs == 2048 && a.bpt > 0 ==> requested(args) == Ok::<
                RequestView,
                Seq<char>,
            >(RequestView::Read(a))
        }),
        requested(args) matches Ok(request) ==> request is Read,
{
    assert forall|i: int| 0 <= i < args.len() implies !asks_for_help(#[trigger] args[i])
        && argument_error(args[i]) is None by {
        lemma_taken(args[i]);
    }
    lemma_read_to_the_end(args, args.len() as int);
}

/// A run that is asked for has an input, sectors of 2048 bytes and at least one of them in each
/// command.
pub proof fn law_runs_can_be_made(args: Seq<Seq<char>>, a: ArgsView)
    requires
        requested(args) == Ok::<RequestView, Seq<char>>(RequestView::Read(a)),
    ensures
        a.input.len() > 0,
        a.bs == 2048,
        a.bpt >= 1,
{
    lemma_taken_command_line(args, a);
    lemma_no_read_early(args, args.len() as int);
}

/// The settings of a run are shown as they are.
pub proof fn law_settings_are_shown(args: Args)
    ensures
        args@.input == args.input@,
        args@.output == args.output@,
        args@.bs == args.bs,
        args@.skip == args.skip,
        args@.count == args.count,
        args@.bpt == args.bpt,
        args@.timeout_ms == args.timeout_ms,
        args@.pause_ms == args.pause_ms,
        args@.unlock == args.unlock,
        args@.recovery == args.recovery,
        args@.retries == args.retries,
        args@.verbose == args.verbose,
        Request::Read(args)@ == RequestView::Read(args@),
        Request::Help@ == RequestView::Help,
{
}

} // verus!
