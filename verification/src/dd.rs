//! Raw sector reads: the command line, the commands that a run sends to the drive, and what is
//! counted of them.

pub mod argument_laws;
pub mod line_laws;
pub mod report;
pub mod settings_laws;
pub mod sweep;

use vstd::prelude::*;

use crate::text::parse_unsigned;
use crate::text::parsed_unsigned;
use crate::text::same_text;
use crate::text::split_at_equals;
use crate::text::split_key_value;
use crate::text::texts;

verus! {

/// How raw sector reads are used.
pub const HELP: &'static str = "freemkv-tools dd — raw sector reader via libfreemkv

Usage: freemkv-tools dd if=DEV [of=PATH] [skip=LBA] [count=N] [bpt=N]
                       [timeout=MS] [pause=MS] [unlock=0|1]
                       [recovery=0|1] [verbose=0..3]

  if=DEV          input device (/dev/sg* or /dev/sr*)
  of=PATH         output file; default /dev/null
  bs=2048         sector size; only 2048 supported
  skip=0          starting LBA
  count=256       total sectors
  bpt=32          sectors per SCSI READ command
  timeout=30000   per-CDB timeout (ms)
  pause=0         sleep between CDBs (ms)
  unlock=1        run Drive::init() to unlock LibreDrive
  recovery=0      pass recovery=true to Drive::read
  verbose=1       0=summary only; 1=per-CDB; 2=+sense; 3=+raw";

/// How raw sector reads are used.
pub fn help_text() -> (text: &'static str)
    ensures
        text@ == HELP@,
{
    HELP
}

/// The truth value that a flag's text stands for.
pub open spec fn flag_value(text: Seq<char>) -> Option<bool> {
    if text == "0"@ || text == "false"@ || text == "no"@ || text == "off"@ {
        Some(false)
    } else if text == "1"@ || text == "true"@ || text == "yes"@ || text == "on"@ {
        Some(true)
    } else {
        None
    }
}

/// Reads a flag.
pub fn bool_flag(v: &str) -> (flag: Result<bool, ()>)
    ensures
        flag is Ok <==> flag_value(v@) is Some,
        flag matches Ok(b) ==> flag_value(v@) == Some(b),
{
    if same_text(v, "0") || same_text(v, "false") || same_text(v, "no") || same_text(v, "off") {
        Ok(false)
    } else if same_text(v, "1") || same_text(v, "true") || same_text(v, "yes") || same_text(
        v,
        "on",
    ) {
        Ok(true)
    } else {
        Err(())
    }
}

/// What a run is asked to do.
pub struct Args {
    pub input: String,
    pub output: String,
    pub bs: usize,
    pub skip: u32,
    pub count: u32,
    pub bpt: u16,
    pub timeout_ms: u32,
    pub pause_ms: u64,
    pub unlock: bool,
    pub recovery: bool,
    pub retries: u32,
    pub verbose: u8,
}

/// What a run is asked to do.
pub struct ArgsView {
    pub input: Seq<char>,
    pub output: Seq<char>,
    pub bs: nat,
    pub skip: nat,
    pub count: nat,
    pub bpt: nat,
    pub timeout_ms: nat,
    pub pause_ms: nat,
    pub unlock: bool,
    pub recovery: bool,
    pub retries: nat,
    pub verbose: nat,
}

impl View for Args {
    type V = ArgsView;

    open spec fn view(&self) -> ArgsView {
        ArgsView {
            input: self.input@,
            output: self.output@,
            bs: self.bs as nat,
            skip: self.skip as nat,
            count: self.count as nat,
            bpt: self.bpt as nat,
            timeout_ms: self.timeout_ms as nat,
            pause_ms: self.pause_ms as nat,
            unlock: self.unlock,
            recovery: self.recovery,
            retries: self.retries as nat,
            verbose: self.verbose as nat,
        }
    }
}

/// What a command line asks for.
pub enum Request {
    Help,
    Read(Args),
}

/// What a command line asks for.
pub enum RequestView {
    Help,
    Read(ArgsView),
}

impl View for Request {
    type V = RequestView;

    open spec fn view(&self) -> RequestView {
        match self {
            Request::Help => RequestView::Help,
            Request::Read(args) => RequestView::Read(args@),
        }
    }
}

/// The largest number that a setting takes; none for a key that is not of a number.
pub open spec fn number_limit(key: Seq<char>) -> Option<nat> {
    if key == "bs"@ {
        Some(usize::MAX as nat)
    } else if key == "skip"@ || key == "count"@ || key == "timeout"@ || key == "retries"@ {
        Some(u32::MAX as nat)
    } else if key == "bpt"@ {
        Some(u16::MAX as nat)
    } else if key == "pause"@ {
        Some(u64::MAX as nat)
    } else if key == "verbose"@ {
        Some(u8::MAX as nat)
    } else {
        None
    }
}

/// The message on a value that a key does not take.
pub open spec fn bad_value(key: Seq<char>, value: Seq<char>) -> Seq<char> {
    "bad "@ + key + ": "@ + value
}

/// The message on a setting that cannot be taken.
pub open spec fn setting_error(key: Seq<char>, value: Seq<char>) -> Option<Seq<char>> {
    if key == "if"@ || key == "of"@ {
        None
    } else if key == "unlock"@ || key == "recovery"@ {
        if flag_value(value) is Some {
            None
        } else {
            Some(bad_value(key, value))
        }
    } else {
        match number_limit(key) {
            Some(limit) => if parsed_unsigned(value, limit) is Some {
                None
            } else {
                Some(bad_value(key, value))
            },
            None => Some("unknown key: "@ + key),
        }
    }
}

/// Whether an argument asks for help.
pub open spec fn asks_for_help(arg: Seq<char>) -> bool {
    arg == "--help"@ || arg == "-h"@
}

/// The message on an argument that cannot be taken.
pub open spec fn argument_error(arg: Seq<char>) -> Option<Seq<char>> {
    match split_at_equals(arg) {
        Some((key, value)) => setting_error(key, value),
        None => Some("expected key=value: "@ + arg),
    }
}

/// How the first of the first `n` arguments that asks for help or cannot be taken ends the reading;
/// none where there is no such argument.
pub open spec fn early_end(args: Seq<Seq<char>>, n: int) -> Option<Result<RequestView, Seq<char>>>
    decreases n,
{
    if n <= 0 {
        None
    } else if early_end(args, n - 1) is Some {
        early_end(args, n - 1)
    } else if asks_for_help(args[n - 1]) {
        Some(Ok(RequestView::Help))
    } else {
        match argument_error(args[n - 1]) {
            Some(message) => Some(Err(message)),
            None => None,
        }
    }
}

/// The last value given to a key among the first `n` arguments.
pub open spec fn setting(args: Seq<Seq<char>>, n: int, key: Seq<char>) -> Option<Seq<char>>
    decreases n,
{
    if n <= 0 {
        None
    } else {
        match split_at_equals(args[n - 1]) {
            Some((k, value)) => if k == key {
                Some(value)
            } else {
                setting(args, n - 1, key)
            },
            None => setting(args, n - 1, key),
        }
    }
}

/// A text setting.
pub open spec fn text_setting(
    args: Seq<Seq<char>>,
    n: int,
    key: Seq<char>,
    default: Seq<char>,
) -> Seq<char> {
    match setting(args, n, key) {
        Some(value) => value,
        None => default,
    }
}

/// A setting that is a number.
pub open spec fn number_setting(
    args: Seq<Seq<char>>,
    n: int,
    key: Seq<char>,
    default: nat,
) -> nat {
    match setting(args, n, key) {
        Some(value) => parsed_unsigned(value, number_limit(key)->Some_0)->Some_0,
        None => default,
    }
}

/// A setting that is a flag.
pub open spec fn flag_setting(
    args: Seq<Seq<char>>,
    n: int,
    key: Seq<char>,
    default: bool,
) -> bool {
    match setting(args, n, key) {
        Some(value) => flag_value(value)->Some_0,
        None => default,
    }
}

/// The settings of the first `n` arguments, the last of each key, over the defaults.
pub open spec fn settings(args: Seq<Seq<char>>, n: int) -> ArgsView {
    ArgsView {
        input: text_setting(args, n, "if"@, Seq::empty()),
        output: text_setting(args, n, "of"@, "/dev/null"@),
        bs: number_setting(args, n, "bs"@, 2048),
        skip: number_setting(args, n, "skip"@, 0),
        count: number_setting(args, n, "count"@, 256),
        bpt: number_setting(args, n, "bpt"@, 32),
        timeout_ms: number_setting(args, n, "timeout"@, 30000),
        pause_ms: number_setting(args, n, "pause"@, 0),
        unlock: flag_setting(args, n, "unlock"@, true),
        recovery: flag_setting(args, n, "recovery"@, false),
        retries: number_setting(args, n, "retries"@, 0),
        verbose: number_setting(args, n, "verbose"@, 1),
    }
}

/// What a command line asks for. The first argument that asks for help or cannot be taken decides;
/// where there is none, an input must be given, the sector size must be 2048, and a command must
/// read at least one sector.
pub open spec fn requested(args: Seq<Seq<char>>) -> Result<RequestView, Seq<char>> {
    let n = args.len() as int;
    match early_end(args, n) {
        Some(end) => end,
        None => {
            let a = settings(args, n);
            if a.input.len() == 0 {
                Err("if=DEV is required"@)
            } else if a.bs != 2048 {
                Err("only bs=2048 is supported (BD/UHD sector size)"@)
            } else if a.bpt == 0 {
                Err("bpt must be >= 1"@)
            } else {
                Ok(RequestView::Read(a))
            }
        },
    }
}

proof fn lemma_keys_differ()
    ensures
        "if"@.len() == 2 && "if"@[0] == 'i',
        "of"@.len() == 2 && "of"@[0] == 'o',
        "bs"@.len() == 2 && "bs"@[0] == 'b',
        "bpt"@.len() == 3,
        "skip"@.len() == 4,
        "count"@.len() == 5 && "count"@[0] == 'c',
        "pause"@.len() == 5 && "pause"@[0] == 'p',
        "unlock"@.len() == 6,
        "timeout"@.len() == 7 && "timeout"@[0] == 't',
        "retries"@.len() == 7 && "retries"@[0] == 'r',
        "verbose"@.len() == 7 && "verbose"@[0] == 'v',
        "recovery"@.len() == 8,
{
    reveal_strlit("if");
    reveal_strlit("of");
    reveal_strlit("bs");
    reveal_strlit("bpt");
    reveal_strlit("skip");
    reveal_strlit("count");
    reveal_strlit("pause");
    reveal_strlit("unlock");
    reveal_strlit("timeout");
    reveal_strlit("retries");
    reveal_strlit("verbose");
    reveal_strlit("recovery");
}

pub proof fn lemma_early_end_stays(args: Seq<Seq<char>>, m: int, n: int)
    requires
        0 <= m <= n,
        early_end(args, m) is Some,
    ensures
        early_end(args, n) == early_end(args, m),
    decreases n - m,
{
    if m < n {
        lemma_early_end_stays(args, m, n - 1);
    }
}

fn bad_value_text(key: &str, value: &str) -> (message: String)
    ensures
        message@ == bad_value(key@, value@),
{
    let mut message: String = "bad ".to_owned();
    message.append(key);
    message.append(": ");
    message.append(value);
    message
}

fn read_number(key: &str, value: &str, limit: u64) -> (number: Result<u64, String>)
    requires
        number_limit(key@) == Some(limit as nat),
    ensures
        number is Ok <==> parsed_unsigned(value@, limit as nat) is Some,
        number matches Ok(n) ==> parsed_unsigned(value@, limit as nat) == Some(n as nat) && n
            <= limit,
        number matches Err(message) ==> message@ == bad_value(key@, value@),
{
    match parse_unsigned(value, limit) {
        Some(n) => Ok(n),
        None => Err(bad_value_text(key, value)),
    }
}

fn read_flag(key: &str, value: &str) -> (flag: Result<bool, String>)
    ensures
        flag is Ok <==> flag_value(value@) is Some,
        flag matches Ok(b) ==> flag_value(value@) == Some(b),
        flag matches Err(message) ==> message@ == bad_value(key@, value@),
{
    match bool_flag(value) {
        Ok(b) => Ok(b),
        Err(_) => Err(bad_value_text(key, value)),
    }
}

/// Settings with one more taken over them.
pub open spec fn with_setting(a: ArgsView, key: Seq<char>, value: Seq<char>) -> ArgsView {
    let number = parsed_unsigned(value, number_limit(key)->Some_0)->Some_0;
    let flag = flag_value(value)->Some_0;
    if key == "if"@ {
        ArgsView { input: value, ..a }
    } else if key == "of"@ {
        ArgsView { output: value, ..a }
    } else if key == "bs"@ {
        ArgsView { bs: number, ..a }
    } else if key == "skip"@ {
        ArgsView { skip: number, ..a }
    } else if key == "count"@ {
        ArgsView { count: number, ..a }
    } else if key == "bpt"@ {
        ArgsView { bpt: number, ..a }
    } else if key == "timeout"@ {
        ArgsView { timeout_ms: number, ..a }
    } else if key == "pause"@ {
        ArgsView { pause_ms: number, ..a }
    } else if key == "unlock"@ {
        ArgsView { unlock: flag, ..a }
    } else if key == "recovery"@ {
        ArgsView { recovery: flag, ..a }
    } else if key == "retries"@ {
        ArgsView { retries: number, ..a }
    } else {
        ArgsView { verbose: number, ..a }
    }
}

proof fn lemma_settings_step(args: Seq<Seq<char>>, n: int)
    requires
        0 <= n < args.len(),
        split_at_equals(args[n]) matches Some((key, value)) && setting_error(key, value) is None,
    ensures
        settings(args, n + 1) == with_setting(
            settings(args, n),
            split_at_equals(args[n])->Some_0.0,
            split_at_equals(args[n])->Some_0.1,
        ),
{
    lemma_keys_differ();
}

impl Args {
    /// Takes one setting.
    fn set(&mut self, key: &str, value: &str) -> (taken: Result<(), String>)
        ensures
            taken is Ok <==> setting_error(key@, value@) is None,
            taken is Ok ==> final(self)@ == with_setting(old(self)@, key@, value@),
            taken matches Err(message) ==> setting_error(key@, value@) == Some(message@),
    {
        proof {
            lemma_keys_differ();
        }
        if same_text(key, "if") {
            self.input = value.to_owned();
        } else if same_text(key, "of") {
            self.output = value.to_owned();
        } else if same_text(key, "bs") {
            self.bs = read_number(key, value, usize::MAX as u64)? as usize;
        } else if same_text(key, "skip") {
            self.skip = read_number(key, value, u32::MAX as u64)? as u32;
        } else if same_text(key, "count") {
            self.count = read_number(key, value, u32::MAX as u64)? as u32;
        } else if same_text(key, "bpt") {
            self.bpt = read_number(key, value, u16::MAX as u64)? as u16;
        } else if same_text(key, "timeout") {
            self.timeout_ms = read_number(key, value, u32::MAX as u64)? as u32;
        } else if same_text(key, "pause") {
            self.pause_ms = read_number(key, value, u64::MAX)?;
        } else if same_text(key, "unlock") {
            self.unlock = read_flag(key, value)?;
        } else if same_text(key, "recovery") {
            self.recovery = read_flag(key, value)?;
        } else if same_text(key, "retries") {
            self.retries = read_number(key, value, u32::MAX as u64)? as u32;
        } else if same_text(key, "verbose") {
            self.verbose = read_number(key, value, u8::MAX as u64)? as u8;
        } else {
            let mut message: String = "unknown key: ".to_owned();
            message.append(key);
            return Err(message);
        }
        Ok(())
    }

    /// Reads the command line.
    pub fn parse(argv: &[String]) -> (request: Result<Request, String>)
        ensures
            match (request, requested(texts(argv@))) {
                (Ok(read), Ok(expected)) => read@ == expected,
                (Err(message), Err(expected)) => message@ == expected,
                _ => false,
            },
    {
        let ghost args = texts(argv@);
        let mut a = Args {
            input: String::new(),
            output: "/dev/null".to_owned(),
            bs: 2048,
            skip: 0,
            count: 256,
            bpt: 32,
            timeout_ms: 30_000,
            pause_ms: 0,
            unlock: true,
            recovery: false,
            retries: 0,
            verbose: 1,
        };
        let mut i: usize = 0;
        while i < argv.len()
            invariant
                i <= argv@.len(),
                args == texts(argv@),
                early_end(args, i as int) is None,
                a@ == settings(args, i as int),
            decreases argv@.len() - i,
        {
            let arg: &str = argv[i].as_str();
            assert(arg@ == args[i as int]);
            if same_text(arg, "--help") || same_text(arg, "-h") {
                proof {
                    lemma_early_end_stays(args, i + 1, args.len() as int);
                }
                return Ok(Request::Help);
            }
            match split_key_value(arg) {
                Some((key, value)) => {
                    match a.set(key, value) {
                        Ok(_) => {
                            proof {
                                lemma_settings_step(args, i as int);
                            }
                        },
                        Err(message) => {
                            proof {
                                lemma_early_end_stays(args, i + 1, args.len() as int);
                            }
                            return Err(message);
                        },
                    }
                },
                None => {
                    proof {
                        lemma_early_end_stays(args, i + 1, args.len() as int);
                    }
                    let mut message: String = "expected key=value: ".to_owned();
                    message.append(arg);
                    return Err(message);
                },
            }
            i = i + 1;
        }
        if a.input.as_str().is_empty() {
            return Err("if=DEV is required".to_owned());
        }
        if a.bs != 2048 {
            return Err("only bs=2048 is supported (BD/UHD sector size)".to_owned());
        }
        if a.bpt == 0 {
            return Err("bpt must be >= 1".to_owned());
        }
        Ok(Request::Read(a))
    }
}

} // verus!
