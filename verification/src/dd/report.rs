//! What is printed of a run: a line before it, a line for each command, and a line that sums it up.

use vstd::prelude::*;

use crate::dd::sweep::ReadCommand;
use crate::dd::sweep::Sweep;
use crate::dd::Args;
use crate::dd::ArgsView;
use crate::text::decimal;
use crate::text::decimal_text;
use crate::text::hex_byte;
use crate::text::hex_byte_text;
use crate::text::pad_left;
use crate::text::padded_left;

verus! {

/// How a truth value is written.
pub open spec fn truth_word(b: bool) -> Seq<char> {
    if b {
        "true"@
    } else {
        "false"@
    }
}

/// The line before a run, which says what it was asked to do.
pub open spec fn opening_line_of(args: ArgsView) -> Seq<char> {
    "freemkv-tools dd: if="@ + args.input + " of="@ + args.output + " skip="@ + decimal(args.skip)
        + " count="@ + decimal(args.count) + " bpt="@ + decimal(args.bpt) + " timeout="@ + decimal(
        args.timeout_ms,
    ) + "ms pause="@ + decimal(args.pause_ms) + "ms unlock="@ + truth_word(args.unlock)
        + " recovery="@ + truth_word(args.recovery)
}

/// The start of the line on a command: its index, its sector and its number of sectors.
pub open spec fn command_start(index: nat, lba: nat, count: nat) -> Seq<char> {
    "["@ + padded_left(decimal(index), 4) + "] lba="@ + decimal(lba) + " cnt="@ + decimal(count)
}

/// The end of the line on a command: how long it took.
pub open spec fn command_end(elapsed_ms: nat) -> Seq<char> {
    " elapsed="@ + padded_left(decimal(elapsed_ms), 3) + "ms"@
}

/// The line on a command that was read.
pub open spec fn ok_line_of(index: nat, lba: nat, count: nat, elapsed_ms: nat) -> Seq<char> {
    command_start(index, lba, count) + " ok="@ + decimal(count) + command_end(elapsed_ms)
}

/// The line on a command that the drive refused.
pub open spec fn scsi_error_line_of(
    index: nat,
    lba: nat,
    count: nat,
    opcode: nat,
    status: nat,
    sense_key: nat,
    elapsed_ms: nat,
) -> Seq<char> {
    command_start(index, lba, count) + " ERR opcode=0x"@ + hex_byte(opcode) + " status=0x"@
        + hex_byte(status) + " sense_key="@ + padded_left(decimal(sense_key), 2) + command_end(
        elapsed_ms,
    )
}

/// The line on a command that failed otherwise.
pub open spec fn error_line_of(
    index: nat,
    lba: nat,
    count: nat,
    error: Seq<char>,
    elapsed_ms: nat,
) -> Seq<char> {
    command_start(index, lba, count) + " ERR "@ + error + command_end(elapsed_ms)
}

/// The line that sums up a run, given the texts of the time that it took and of its rate.
pub open spec fn summary_line_of(
    sweep: Sweep,
    elapsed_secs: Seq<char>,
    rate: Seq<char>,
) -> Seq<char> {
    "summary: cdbs="@ + decimal(sweep.cdbs as nat) + " ok="@ + decimal(sweep.ok_cdbs as nat)
        + " err="@ + decimal(sweep.err_cdbs as nat) + " sectors_ok="@ + decimal(
        sweep.sectors_ok as nat,
    ) + " elapsed="@ + elapsed_secs + "s rate="@ + rate + " MB/s"@
}

fn truth_text(b: bool) -> (word: &'static str)
    ensures
        word@ == truth_word(b),
{
    if b {
        "true"
    } else {
        "false"
    }
}

/// Writes the line before a run.
pub fn opening_line(args: &Args) -> (line: String)
    ensures
        line@ == opening_line_of(args@),
{
    let mut line: String = "freemkv-tools dd: if=".to_owned();
    line.append(args.input.as_str());
    line.append(" of=");
    line.append(args.output.as_str());
    line.append(" skip=");
    line.append(decimal_text(args.skip as u64).as_str());
    line.append(" count=");
    line.append(decimal_text(args.count as u64).as_str());
    line.append(" bpt=");
    line.append(decimal_text(args.bpt as u64).as_str());
    line.append(" timeout=");
    line.append(decimal_text(args.timeout_ms as u64).as_str());
    line.append("ms pause=");
    line.append(decimal_text(args.pause_ms).as_str());
    line.append("ms unlock=");
    line.append(truth_text(args.unlock));
    line.append(" recovery=");
    line.append(truth_text(args.recovery));
    line
}

fn start_line(command: &ReadCommand) -> (line: String)
    ensures
        line@ == command_start(command.index as nat, command.lba as nat, command.count as nat),
{
    let mut line: String = "[".to_owned();
    line.append(pad_left(decimal_text(command.index as u64).as_str(), 4).as_str());
    line.append("] lba=");
    line.append(decimal_text(command.lba as u64).as_str());
    line.append(" cnt=");
    line.append(decimal_text(command.count as u64).as_str());
    line
}

fn end_line(line: &mut String, elapsed_ms: u64)
    ensures
        final(line)@ == old(line)@ + command_end(elapsed_ms as nat),
{
    let ghost before = line@;
    line.append(" elapsed=");
    line.append(pad_left(decimal_text(elapsed_ms).as_str(), 3).as_str());
    line.append("ms");
    assert(line@ =~= before + command_end(elapsed_ms as nat));
}

/// Writes the line on a command that was read.
pub fn ok_line(command: &ReadCommand, elapsed_ms: u64) -> (line: String)
    ensures
        line@ == ok_line_of(
            command.index as nat,
            command.lba as nat,
            command.count as nat,
            elapsed_ms as nat,
        ),
{
    let mut line: String = start_line(command);
    line.append(" ok=");
    line.append(decimal_text(command.count as u64).as_str());
    end_line(&mut line, elapsed_ms);
    line
}

/// Writes the line on a command that the drive refused.
pub fn scsi_error_line(
    command: &ReadCommand,
    opcode: u64,
    status: u64,
    sense_key: u64,
    elapsed_ms: u64,
) -> (line: String)
    ensures
        line@ == scsi_error_line_of(
            command.index as nat,
            command.lba as nat,
            command.count as nat,
            opcode as nat,
            status as nat,
            sense_key as nat,
            elapsed_ms as nat,
        ),
{
    let mut line: String = start_line(command);
    line.append(" ERR opcode=0x");
    line.append(hex_byte_text(opcode).as_str());
    line.append(" status=0x");
    line.append(hex_byte_text(status).as_str());
    line.append(" sense_key=");
    line.append(pad_left(decimal_text(sense_key).as_str(), 2).as_str());
    end_line(&mut line, elapsed_ms);
    line
}

/// Writes the line on a command that failed otherwise.
pub fn error_line(command: &ReadCommand, error: &str, elapsed_ms: u64) -> (line: String)
    ensures
        line@ == error_line_of(
            command.index as nat,
            command.lba as nat,
            command.count as nat,
            error@,
            elapsed_ms as nat,
        ),
{
    let mut line: String = start_line(command);
    line.append(" ERR ");
    line.append(error);
    end_line(&mut line, elapsed_ms);
    line
}

/// Writes the line that sums up a run.
pub fn summary_line(sweep: &Sweep, elapsed_secs: &str, rate: &str) -> (line: String)
    ensures
        line@ == summary_line_of(*sweep, elapsed_secs@, rate@),
{
    let mut line: String = "summary: cdbs=".to_owned();
    line.append(decimal_text(sweep.cdbs as u64).as_str());
    line.append(" ok=");
    line.append(decimal_text(sweep.ok_cdbs as u64).as_str());
    line.append(" err=");
    line.append(decimal_text(sweep.err_cdbs as u64).as_str());
    line.append(" sectors_ok=");
    line.append(decimal_text(sweep.sectors_ok as u64).as_str());
    line.append(" elapsed=");
    line.append(elapsed_secs);
    line.append("s rate=");
    line.append(rate);
    line.append(" MB/s");
    line
}

} // verus!
