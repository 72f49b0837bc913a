use freemkv_tools::dd::bool_flag;
use freemkv_tools::dd::help_text;
use freemkv_tools::dd::report::error_line;
use freemkv_tools::dd::report::ok_line;
use freemkv_tools::dd::report::opening_line;
use freemkv_tools::dd::report::scsi_error_line;
use freemkv_tools::dd::report::summary_line;
use freemkv_tools::dd::sweep::build_cdb;
use freemkv_tools::dd::sweep::Sweep;
use freemkv_tools::dd::Args;
use freemkv_tools::dd::Request;

fn line(words: &[&str]) -> Vec<String> {
    words.iter().map(|w| w.to_string()).collect()
}

fn args(words: &[&str]) -> Args {
    match Args::parse(&line(words)) {
        Ok(Request::Read(args)) => args,
        Ok(Request::Help) => panic!("help"),
        Err(message) => panic!("{}", message),
    }
}

fn error(words: &[&str]) -> String {
    match Args::parse(&line(words)) {
        Ok(_) => panic!("taken"),
        Err(message) => message,
    }
}

#[test]
fn settings_have_defaults() {
    let a = args(&["if=/dev/sg4"]);
    assert_eq!(a.input, "/dev/sg4");
    assert_eq!(a.output, "/dev/null");
    assert_eq!(a.bs, 2048);
    assert_eq!(a.skip, 0);
    assert_eq!(a.count, 256);
    assert_eq!(a.bpt, 32);
    assert_eq!(a.timeout_ms, 30000);
    assert_eq!(a.pause_ms, 0);
    assert!(a.unlock);
    assert!(!a.recovery);
    assert_eq!(a.retries, 0);
    assert_eq!(a.verbose, 1);
}

#[test]
fn every_setting_can_be_given() {
    let a = args(&[
        "if=/dev/sr0",
        "of=out=1.bin",
        "bs=2048",
        "skip=12500000",
        "count=2000",
        "bpt=+16",
        "timeout=60000",
        "pause=2000",
        "unlock=off",
        "recovery=yes",
        "retries=4294967295",
        "verbose=3",
    ]);
    assert_eq!(a.input, "/dev/sr0");
    assert_eq!(a.output, "out=1.bin");
    assert_eq!(a.skip, 12500000);
    assert_eq!(a.count, 2000);
    assert_eq!(a.bpt, 16);
    assert_eq!(a.timeout_ms, 60000);
    assert_eq!(a.pause_ms, 2000);
    assert!(!a.unlock);
    assert!(a.recovery);
    assert_eq!(a.retries, u32::MAX);
    assert_eq!(a.verbose, 3);
}

#[test]
fn the_last_of_two_settings_counts() {
    let a = args(&["if=a", "skip=1", "if=b", "skip=2"]);
    assert_eq!(a.input, "b");
    assert_eq!(a.skip, 2);
}

#[test]
fn help_comes_before_later_errors() {
    assert!(matches!(Args::parse(&line(&["--help", "nonsense"])), Ok(Request::Help)));
    assert!(matches!(Args::parse(&line(&["if=x", "-h"])), Ok(Request::Help)));
    assert_eq!(error(&["nonsense", "--help"]), "expected key=value: nonsense");
}

#[test]
fn bad_settings_are_refused() {
    assert_eq!(error(&[]), "if=DEV is required");
    assert_eq!(error(&["if="]), "if=DEV is required");
    assert_eq!(error(&["verbose"]), "expected key=value: verbose");
    assert_eq!(error(&["iff=x"]), "unknown key: iff");
    assert_eq!(error(&["=x"]), "unknown key: ");
    assert_eq!(error(&["bs=x"]), "bad bs: x");
    assert_eq!(error(&["skip=4294967296"]), "bad skip: 4294967296");
    assert_eq!(error(&["count=-1"]), "bad count: -1");
    assert_eq!(error(&["bpt=65536"]), "bad bpt: 65536");
    assert_eq!(error(&["timeout="]), "bad timeout: ");
    assert_eq!(error(&["pause=1s"]), "bad pause: 1s");
    assert_eq!(error(&["unlock=2"]), "bad unlock: 2");
    assert_eq!(error(&["recovery=TRUE"]), "bad recovery: TRUE");
    assert_eq!(error(&["retries= 1"]), "bad retries:  1");
    assert_eq!(error(&["verbose=256"]), "bad verbose: 256");
    assert_eq!(error(&["if=x", "bs=512"]), "only bs=2048 is supported (BD/UHD sector size)");
    assert_eq!(error(&["if=x", "bpt=0"]), "bpt must be >= 1");
}

#[test]
fn flags_have_four_words_each() {
    for word in ["0", "false", "no", "off"] {
        assert_eq!(bool_flag(word), Ok(false));
    }
    for word in ["1", "true", "yes", "on"] {
        assert_eq!(bool_flag(word), Ok(true));
    }
    for word in ["", "2", "True", "y"] {
        assert_eq!(bool_flag(word), Err(()));
    }
}

#[test]
fn read_help_names_every_line() {
    assert!(help_text().starts_with("freemkv-tools dd — raw sector reader via libfreemkv\n"));
    assert!(help_text().ends_with("0=summary only; 1=per-CDB; 2=+sense; 3=+raw"));
}

#[test]
fn a_command_carries_address_and_count() {
    assert_eq!(
        build_cdb(0x12345678, 0x9abc),
        [0x28, 0, 0x12, 0x34, 0x56, 0x78, 0, 0x9a, 0xbc, 0]
    );
    assert_eq!(build_cdb(0, 1), [0x28, 0, 0, 0, 0, 0, 0, 0, 1, 0]);
}

#[test]
fn a_sweep_reads_each_sector_once() {
    let mut sweep = Sweep::new(args(&["if=x", "skip=100", "count=70", "bpt=32", "pause=5"]));
    assert_eq!(sweep.cdbs, 3);
    let mut seen: Vec<(u32, u32, u16, usize)> = Vec::new();
    let mut pauses: Vec<Option<u64>> = Vec::new();
    while let Some(command) = sweep.next() {
        assert_eq!(command.cdb, build_cdb(command.lba, command.count));
        seen.push((command.index, command.lba, command.count, command.bytes));
        pauses.push(sweep.record(command.index != 1));
    }
    assert_eq!(seen, vec![(0, 100, 32, 65536), (1, 132, 32, 65536), (2, 164, 6, 12288)]);
    assert_eq!(pauses, vec![Some(5), Some(5), None]);
    assert_eq!(sweep.ok_cdbs, 2);
    assert_eq!(sweep.err_cdbs, 1);
    assert_eq!(sweep.sectors_ok, 38);
    assert_eq!(sweep.sectors_done, 70);
}

#[test]
fn a_sweep_of_whole_blocks_has_no_rest() {
    let sweep = Sweep::new(args(&["if=x", "count=64", "bpt=32"]));
    assert_eq!(sweep.cdbs, 2);
    let empty = Sweep::new(args(&["if=x", "count=0"]));
    assert_eq!(empty.cdbs, 0);
    assert!(empty.next().is_none());
    let all = Sweep::new(args(&["if=x", "count=4294967295", "bpt=65535"]));
    assert_eq!(all.cdbs, 65537);
}

#[test]
fn retries_hammer_the_same_sectors() {
    let mut sweep = Sweep::new(args(&["if=x", "skip=9", "count=1", "bpt=4", "retries=2"]));
    let mut seen: Vec<(u32, u16)> = Vec::new();
    while let Some(command) = sweep.next() {
        seen.push((command.lba, command.count));
        assert_eq!(sweep.record(true), None);
    }
    assert_eq!(seen, vec![(9, 4), (9, 4), (9, 4)]);
    assert_eq!(sweep.sectors_ok, 12);
    assert_eq!(sweep.sectors_done, 0);
}

#[test]
fn settings_may_come_in_any_order() {
    let a = args(&["if=x", "skip=5", "bpt=8", "unlock=0"]);
    let b = args(&["unlock=0", "bpt=8", "if=x", "skip=5"]);
    assert_eq!((a.input, a.skip, a.bpt, a.unlock), (b.input, b.skip, b.bpt, b.unlock));
    assert_eq!(error(&["bpt=0", "if=x"]), error(&["if=x", "bpt=0"]));
}

#[test]
fn sectors_of_retries_are_whole_blocks() {
    let mut sweep = Sweep::new(args(&["if=x", "bpt=4", "retries=3"]));
    for ok in [true, false, true] {
        sweep.record(ok);
        assert_eq!(sweep.sectors_ok, sweep.ok_cdbs * 4);
    }
    assert_eq!(sweep.sectors_ok, 8);
}

#[test]
fn a_run_is_opened_by_its_settings() {
    assert_eq!(
        opening_line(&args(&["if=/dev/sg4", "skip=7", "pause=10", "unlock=no"])),
        "freemkv-tools dd: if=/dev/sg4 of=/dev/null skip=7 count=256 bpt=32 timeout=30000ms \
         pause=10ms unlock=false recovery=false"
    );
}

#[test]
fn each_command_gets_a_padded_line() {
    let mut sweep = Sweep::new(args(&["if=x", "skip=12500000", "count=64"]));
    let command = sweep.next().unwrap();
    assert_eq!(ok_line(&command, 4), "[   0] lba=12500000 cnt=32 ok=32 elapsed=  4ms");
    assert_eq!(
        scsi_error_line(&command, 0x28, 2, 11, 37412),
        "[   0] lba=12500000 cnt=32 ERR opcode=0x28 status=0x02 sense_key=11 elapsed=37412ms"
    );
    assert_eq!(
        scsi_error_line(&command, 0xaf, 0, 3, 0),
        "[   0] lba=12500000 cnt=32 ERR opcode=0xaf status=0x00 sense_key= 3 elapsed=  0ms"
    );
    assert_eq!(
        error_line(&command, "Timeout", 30000),
        "[   0] lba=12500000 cnt=32 ERR Timeout elapsed=30000ms"
    );
    sweep.record(true);
    let command = sweep.next().unwrap();
    assert_eq!(ok_line(&command, 3), "[   1] lba=12500032 cnt=32 ok=32 elapsed=  3ms");
}

#[test]
fn a_command_carries_timeout_and_recovery() {
    let plain = Sweep::new(args(&["if=x"])).next().unwrap();
    assert_eq!((plain.timeout_ms, plain.recovery), (30000, false));
    let patient = Sweep::new(args(&["if=x", "timeout=60000", "recovery=1"])).next().unwrap();
    assert_eq!((patient.timeout_ms, patient.recovery), (60000, true));
}

#[test]
fn a_run_is_summed_up() {
    let mut sweep = Sweep::new(args(&["if=x", "count=256"]));
    for ok in [true, true, false, true, false, true, true, false] {
        sweep.record(ok);
    }
    assert_eq!(
        summary_line(&sweep, "112.4", "2.85"),
        "summary: cdbs=8 ok=5 err=3 sectors_ok=160 elapsed=112.4s rate=2.85 MB/s"
    );
}
