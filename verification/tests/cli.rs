use freemkv_tools::cli::choose_subcommand;
use freemkv_tools::cli::usage;
use freemkv_tools::cli::Subcommand;

fn line(words: &[&str]) -> Vec<String> {
    words.iter().map(|w| w.to_string()).collect()
}

#[test]
fn subcommands_are_chosen_by_name() {
    assert!(matches!(choose_subcommand(&line(&[])), Subcommand::Usage));
    assert!(matches!(choose_subcommand(&line(&["tools"])), Subcommand::Usage));
    assert!(matches!(choose_subcommand(&line(&["tools", "dd"])), Subcommand::Dd));
    assert!(matches!(
        choose_subcommand(&line(&["tools", "labels-analyze", "x"])),
        Subcommand::LabelsAnalyze
    ));
    assert!(matches!(
        choose_subcommand(&line(&["tools", "labels-corpus-check"])),
        Subcommand::LabelsCorpusCheck
    ));
    assert!(matches!(
        choose_subcommand(&line(&["tools", "labels-extract"])),
        Subcommand::LabelsExtract
    ));
    for word in ["version", "--version", "-V"] {
        assert!(matches!(choose_subcommand(&line(&["tools", word])), Subcommand::Version));
    }
    for word in ["help", "--help", "-h"] {
        assert!(matches!(choose_subcommand(&line(&["tools", word])), Subcommand::Usage));
    }
}

#[test]
fn an_unknown_subcommand_is_handed_back() {
    let args = line(&["tools", "rip", "dd"]);
    assert!(matches!(choose_subcommand(&args), Subcommand::Unknown("rip")));
}

#[test]
fn usage_names_the_version() {
    let text = usage("0.13.42");
    let lines: Vec<&str> = text.lines().collect();
    assert_eq!(
        lines,
        vec![
            "freemkv-tools 0.13.42",
            "",
            "operator + debug toolkit for libfreemkv (NOT for end users)",
            "",
            "Subcommands:",
            "  dd       raw sector read via libfreemkv (sg_dd-like)",
            "  version  print crate version",
            "  help     this message",
            "",
            "Run a subcommand with --help for its arguments.",
        ]
    );
    assert!(text.ends_with("arguments.\n"));
}
