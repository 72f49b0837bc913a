//! The subcommands.

use vstd::prelude::*;

use crate::text::same_text;
use crate::text::texts;

verus! {

/// What a command line asks for.
pub enum Subcommand<'a> {
    Usage,
    Dd,
    LabelsAnalyze,
    LabelsCorpusCheck,
    LabelsExtract,
    Version,
    Unknown(&'a str),
}

/// What the first argument after the program's name asks for.
pub open spec fn names_subcommand(args: Seq<Seq<char>>, chosen: Subcommand) -> bool {
    if args.len() < 2 {
        chosen is Usage
    } else if args[1] == "dd"@ {
        chosen is Dd
    } else if args[1] == "labels-analyze"@ {
        chosen is LabelsAnalyze
    } else if args[1] == "labels-corpus-check"@ {
        chosen is LabelsCorpusCheck
    } else if args[1] == "labels-extract"@ {
        chosen is LabelsExtract
    } else if args[1] == "version"@ || args[1] == "--version"@ || args[1] == "-V"@ {
        chosen is Version
    } else if args[1] == "help"@ || args[1] == "--help"@ || args[1] == "-h"@ {
        chosen is Usage
    } else {
        chosen matches Subcommand::Unknown(name) && name@ == args[1]
    }
}

/// Chooses the subcommand of a command line that starts with the program's name.
pub fn choose_subcommand(args: &[String]) -> (chosen: Subcommand<'_>)
    ensures
        names_subcommand(texts(args@), chosen),
{
    if args.len() < 2 {
        return Subcommand::Usage;
    }
    assert(texts(args@)[1] == args@[1]@);
    let name: &str = args[1].as_str();
    if same_text(name, "dd") {
        Subcommand::Dd
    } else if same_text(name, "labels-analyze") {
        Subcommand::LabelsAnalyze
    } else if same_text(name, "labels-corpus-check") {
        Subcommand::LabelsCorpusCheck
    } else if same_text(name, "labels-extract") {
        Subcommand::LabelsExtract
    } else if same_text(name, "version") || same_text(name, "--version") || same_text(name, "-V") {
        Subcommand::Version
    } else if same_text(name, "help") || same_text(name, "--help") || same_text(name, "-h") {
        Subcommand::Usage
    } else {
        Subcommand::Unknown(name)
    }
}

/// What the toolkit offers.
pub open spec fn usage_of(version: Seq<char>) -> Seq<char> {
    "freemkv-tools "@ + version + "

operator + debug toolkit for libfreemkv (NOT for end users)

Subcommands:
  dd       raw sector read via libfreemkv (sg_dd-like)
  version  print crate version
  help     this message

Run a subcommand with --help for its arguments.
"@
}

/// What the toolkit offers, as text to print.
pub fn usage(version: &str) -> (text: String)
    ensures
        text@ == usage_of(version@),
{
    let mut text: String = "freemkv-tools ".to_owned();
    text.append(version);
    text.append(
        "

operator + debug toolkit for libfreemkv (NOT for end users)

Subcommands:
  dd       raw sector read via libfreemkv (sg_dd-like)
  version  print crate version
  help     this message

Run a subcommand with --help for its arguments.
",
    );
    text
}

/// The name of a subcommand chooses it, and no other name does. Without a name, or with one that
/// asks for help, the usage is chosen; any other name is handed back.
pub proof fn law_names_choose_subcommands(args: Seq<Seq<char>>, chosen: Subcommand)
    requires
        names_subcommand(args, chosen),
    ensures
        chosen is Dd <==> args.len() >= 2 && args[1] == "dd"@,
        chosen is LabelsAnalyze <==> args.len() >= 2 && args[1] == "labels-analyze"@,
        chosen is LabelsCorpusCheck <==> args.len() >= 2 && args[1] == "labels-corpus-check"@,
        chosen is LabelsExtract <==> args.len() >= 2 && args[1] == "labels-extract"@,
        chosen is Version <==> args.len() >= 2 && (args[1] == "version"@ || args[1] == "--version"@
            || args[1] == "-V"@),
        chosen is Usage <==> args.len() < 2 || args[1] == "help"@ || args[1] == "--help"@ || args[1]
            == "-h"@,
        chosen matches Subcommand::Unknown(name) ==> args.len() >= 2 && name@ == args[1],
{
    reveal_strlit("dd");
    reveal_strlit("labels-analyze");
    reveal_strlit("labels-corpus-check");
    reveal_strlit("labels-extract");
    reveal_strlit("version");
    reveal_strlit("--version");
    reveal_strlit("-V");
    reveal_strlit("help");
    reveal_strlit("--help");
    reveal_strlit("-h");
    assert("dd"@.len() == 2 && "dd"@[0] == 'd');
    assert("-V"@.len() == 2 && "-V"@[0] == '-' && "-V"@[1] == 'V');
    assert("-h"@.len() == 2 && "-h"@[0] == '-' && "-h"@[1] == 'h');
    assert("labels-analyze"@.len() == 14 && "labels-analyze"@[7] == 'a');
    assert("labels-extract"@.len() == 14 && "labels-extract"@[7] == 'e');
    assert("labels-corpus-check"@.len() == 19);
    assert("version"@.len() == 7);
    assert("--version"@.len() == 9);
    assert("help"@.len() == 4);
    assert("--help"@.len() == 6);
}

/// The usage starts with the name and the version, and says the same of every version.
pub proof fn law_usage_differs_in_the_version_only(version: Seq<char>, other: Seq<char>)
    ensures
        usage_of(version).take(14 + version.len() as int) == "freemkv-tools "@ + version,
        usage_of(version).skip(14 + version.len() as int) == usage_of(other).skip(
            14 + other.len() as int,
        ),
{
    reveal_strlit("freemkv-tools ");
    assert("freemkv-tools "@.len() == 14);
    assert(usage_of(version).take(14 + version.len() as int) =~= "freemkv-tools "@ + version);
    assert(usage_of(version).skip(14 + version.len() as int) =~= usage_of(other).skip(
        14 + other.len() as int,
    ));
}

} // verus!
