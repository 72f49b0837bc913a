//! What the lines on a run say.

use vstd::prelude::*;

use crate::dd::report::error_line_of;
use crate::dd::report::ok_line_of;
use crate::dd::report::opening_line_of;
use crate::dd::report::scsi_error_line_of;
use crate::dd::report::summary_line_of;
use crate::dd::sweep::Sweep;
use crate::dd::ArgsView;
use crate::text::decimal;
use crate::text::hex_byte;
use crate::text::occurs;
use crate::text::padded_left;
use crate::text_laws::law_parts_occur;

verus! {

/// The line before a run says each setting under its key, a flag as `true` or `false`.
pub proof fn law_opening_line_says_each_setting(args: ArgsView)
    ensures
        opening_line_of(args) == "freemkv-tools dd: if="@ + args.input + " of="@ + args.output
            + " skip="@ + decimal(args.skip) + " count="@ + decimal(args.count) + " bpt="@
            + decimal(args.bpt) + " timeout="@ + decimal(args.timeout_ms) + "ms pause="@ + decimal(
            args.pause_ms,
        ) + "ms unlock="@ + (if args.unlock {
            "true"@
        } else {
            "false"@
        }) + " recovery="@ + (if args.recovery {
            "true"@
        } else {
            "false"@
        }),
{
}

/// The line on a command says which it is, where it starts and how many sectors it reads, and ends
/// with the time that it took; one that was read says how many sectors it read.
pub proof fn law_command_lines_say_what_was_read(
    index: nat,
    lba: nat,
    count: nat,
    elapsed_ms: nat,
)
    ensures
        ok_line_of(index, lba, count, elapsed_ms) == "["@ + padded_left(decimal(index), 4)
            + "] lba="@ + decimal(lba) + " cnt="@ + decimal(count) + " ok="@ + decimal(count)
            + " elapsed="@ + padded_left(decimal(elapsed_ms), 3) + "ms"@,
{
    assert(ok_line_of(index, lba, count, elapsed_ms) =~= "["@ + padded_left(decimal(index), 4)
        + "] lba="@ + decimal(lba) + " cnt="@ + decimal(count) + " ok="@ + decimal(count)
        + " elapsed="@ + padded_left(decimal(elapsed_ms), 3) + "ms"@);
}

/// The line on a command that failed says so, and gives what the drive answered or the error.
pub proof fn law_error_lines_give_the_error(
    index: nat,
    lba: nat,
    count: nat,
    opcode: nat,
    status: nat,
    sense_key: nat,
    error: Seq<char>,
    elapsed_ms: nat,
)
    ensures
        scsi_error_line_of(index, lba, count, opcode, status, sense_key, elapsed_ms) == "["@
            + padded_left(decimal(index), 4) + "] lba="@ + decimal(lba) + " cnt="@ + decimal(count)
            + " ERR opcode=0x"@ + hex_byte(opcode) + " status=0x"@ + hex_byte(status)
            + " sense_key="@ + padded_left(decimal(sense_key), 2) + " elapsed="@ + padded_left(
            decimal(elapsed_ms),
            3,
        ) + "ms"@,
        error_line_of(index, lba, count, error, elapsed_ms) == "["@ + padded_left(decimal(index), 4)
            + "] lba="@ + decimal(lba) + " cnt="@ + decimal(count) + " ERR "@ + error
            + " elapsed="@ + padded_left(decimal(elapsed_ms), 3) + "ms"@,
{
    assert(scsi_error_line_of(index, lba, count, opcode, status, sense_key, elapsed_ms) =~= "["@
        + padded_left(decimal(index), 4) + "] lba="@ + decimal(lba) + " cnt="@ + decimal(count)
        + " ERR opcode=0x"@ + hex_byte(opcode) + " status=0x"@ + hex_byte(status) + " sense_key="@
        + padded_left(decimal(sense_key), 2) + " elapsed="@ + padded_left(decimal(elapsed_ms), 3)
        + "ms"@);
    assert(error_line_of(index, lba, count, error, elapsed_ms) =~= "["@ + padded_left(
        decimal(index),
        4,
    ) + "] lba="@ + decimal(lba) + " cnt="@ + decimal(count) + " ERR "@ + error + " elapsed="@
        + padded_left(decimal(elapsed_ms), 3) + "ms"@);
}

/// The line that sums up a run gives how many commands were sent, read and failed, the sectors that
/// were read, the time and the rate.
pub proof fn law_summary_line_gives_each_count(
    sweep: Sweep,
    elapsed_secs: Seq<char>,
    rate: Seq<char>,
)
    ensures
        occurs(
            summary_line_of(sweep, elapsed_secs, rate),
            "summary: cdbs="@ + decimal(sweep.cdbs as nat) + " ok="@,
        ),
        occurs(
            summary_line_of(sweep, elapsed_secs, rate),
            " ok="@ + decimal(sweep.ok_cdbs as nat) + " err="@,
        ),
        occurs(
            summary_line_of(sweep, elapsed_secs, rate),
            " err="@ + decimal(sweep.err_cdbs as nat) + " sectors_ok="@,
        ),
        occurs(
            summary_line_of(sweep, elapsed_secs, rate),
            " sectors_ok="@ + decimal(sweep.sectors_ok as nat) + " elapsed="@,
        ),
        occurs(
            summary_line_of(sweep, elapsed_secs, rate),
            " elapsed="@ + elapsed_secs + "s rate="@,
        ),
        occurs(summary_line_of(sweep, elapsed_secs, rate), "s rate="@ + rate + " MB/s"@),
        summary_line_of(sweep, elapsed_secs, rate).len() == decimal(sweep.cdbs as nat).len()
            + decimal(sweep.ok_cdbs as nat).len() + decimal(sweep.err_cdbs as nat).len() + decimal(
            sweep.sectors_ok as nat,
        ).len() + elapsed_secs.len() + rate.len() + 56,
{
    reveal_strlit("summary: cdbs=");
    reveal_strlit(" ok=");
    reveal_strlit(" err=");
    reveal_strlit(" sectors_ok=");
    reveal_strlit(" elapsed=");
    reveal_strlit("s rate=");
    reveal_strlit(" MB/s");
    let text = summary_line_of(sweep, elapsed_secs, rate);
    let empty = Seq::<char>::empty();
    let n = decimal(sweep.cdbs as nat);
    let ok = decimal(sweep.ok_cdbs as nat);
    let err = decimal(sweep.err_cdbs as nat);
    let sectors = decimal(sweep.sectors_ok as nat);
    let a = "summary: cdbs="@ + n;
    let b = " ok="@ + ok;
    let c = " err="@ + err;
    let d = " sectors_ok="@ + sectors;
    let e = " elapsed="@ + elapsed_secs;
    let f = "s rate="@ + rate + " MB/s"@;
    assert(text =~= a + b + c + d + e + f);
    assert(text =~= empty + (a + " ok="@) + (ok + c + d + e + f));
    law_parts_occur(empty, a + " ok="@, ok + c + d + e + f);
    assert(text =~= a + (b + " err="@) + (err + d + e + f));
    law_parts_occur(a, b + " err="@, err + d + e + f);
    assert(text =~= (a + b) + (c + " sectors_ok="@) + (sectors + e + f));
    law_parts_occur(a + b, c + " sectors_ok="@, sectors + e + f);
    assert(text =~= (a + b + c) + (d + " elapsed="@) + (elapsed_secs + f));
    law_parts_occur(a + b + c, d + " elapsed="@, elapsed_secs + f);
    assert(text =~= (a + b + c + d) + (e + "s rate="@) + (rate + " MB/s"@));
    law_parts_occur(a + b + c + d, e + "s rate="@, rate + " MB/s"@);
    assert(text =~= (a + b + c + d + e) + f + empty);
    law_parts_occur(a + b + c + d + e, f, empty);
}

} // verus!
