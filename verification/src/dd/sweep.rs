//! The commands that a run sends to the drive, one after the other, and what is counted of them.

use vstd::arithmetic::div_mod::lemma_fundamental_div_mod;
use vstd::prelude::*;

use crate::dd::Args;
use crate::dd::ArgsView;

verus! {

/// The bytes of a sector.
pub const SECTOR_BYTES: usize = 2048;

/// A SCSI READ(10) command: the sector to start at and how many to read.
pub open spec fn read_cdb(lba: u32, count: u16) -> Seq<u8> {
    seq![
        0x28u8,
        0u8,
        (lba / 0x1000000) as u8,
        ((lba / 0x10000) % 0x100) as u8,
        ((lba / 0x100) % 0x100) as u8,
        (lba % 0x100) as u8,
        0u8,
        (count / 0x100) as u8,
        (count % 0x100) as u8,
        0u8,
    ]
}

/// Builds a SCSI READ(10) command.
pub fn build_cdb(lba: u32, count: u16) -> (cdb: [u8; 10])
    ensures
        cdb@ == read_cdb(lba, count),
{
    let cdb: [u8; 10] = [
        0x28,
        0x00,
        (lba / 0x1000000) as u8,
        ((lba / 0x10000) % 0x100) as u8,
        ((lba / 0x100) % 0x100) as u8,
        (lba % 0x100) as u8,
        0x00,
        (count / 0x100) as u8,
        (count % 0x100) as u8,
        0x00,
    ];
    assert(cdb@ =~= read_cdb(lba, count));
    cdb
}

/// The sector and the number of sectors can be read back from a command, most significant byte
/// first; the rest of it is the code of the command and zeros.
pub proof fn law_cdb_carries_address_and_count(lba: u32, count: u16)
    ensures
        read_cdb(lba, count).len() == 10,
        read_cdb(lba, count)[0] == 0x28,
        read_cdb(lba, count)[1] == 0,
        read_cdb(lba, count)[6] == 0,
        read_cdb(lba, count)[9] == 0,
        lba == read_cdb(lba, count)[2] * 0x1000000 + read_cdb(lba, count)[3] * 0x10000 + read_cdb(
            lba,
            count,
        )[4] * 0x100 + read_cdb(lba, count)[5],
        count == read_cdb(lba, count)[7] * 0x100 + read_cdb(lba, count)[8],
{
}

/// How many commands a run sends. With retries, the first attempt and each retry is one; without,
/// as many as it takes to read all sectors.
pub open spec fn command_total(args: ArgsView) -> nat {
    if args.retries > 0 {
        args.retries + 1
    } else {
        ((args.count + args.bpt - 1) / (args.bpt as int)) as nat
    }
}

/// The sector at which a command starts: the same for every command with retries, and where the
/// one before it ended without.
pub open spec fn command_lba(args: ArgsView, i: nat) -> nat {
    if args.retries > 0 {
        args.skip
    } else {
        args.skip + i * args.bpt
    }
}

/// How many sectors a command reads: a whole block, or what is left.
pub open spec fn command_count(args: ArgsView, i: nat) -> nat {
    if args.retries > 0 || args.count - i * args.bpt >= args.bpt {
        args.bpt
    } else {
        (args.count - i * args.bpt) as nat
    }
}

/// Whether a run can be asked for: a command reads at least one sector, of the one size that is
/// supported, and the commands can be counted.
pub open spec fn can_run(args: ArgsView) -> bool {
    args.bs == SECTOR_BYTES && args.bpt >= 1 && args.retries < u32::MAX
}

/// One command to send: which it is, what it reads, how long it may take, and whether the drive is
/// to try to recover what it cannot read at once.
pub struct ReadCommand {
    pub index: u32,
    pub lba: u32,
    pub count: u16,
    pub cdb: [u8; 10],
    pub bytes: usize,
    pub timeout_ms: u32,
    pub recovery: bool,
}

/// A run: what it was asked to do, and how far it is.
pub struct Sweep {
    pub args: Args,
    pub cdbs: u32,
    pub index: u32,
    pub sectors_done: u32,
    pub ok_cdbs: u32,
    pub err_cdbs: u32,
    pub sectors_ok: u32,
}

impl Sweep {
    /// Whether a run is in a state that it can be in: so many commands done, each counted as read
    /// or as failed, and every sector up to here attempted; with retries, a whole block for every
    /// command that was read.
    pub open spec fn is_sound(self) -> bool {
        &&& can_run(self.args@)
        &&& self.cdbs == command_total(self.args@)
        &&& self.index <= self.cdbs
        &&& self.ok_cdbs + self.err_cdbs == self.index
        &&& self.args.retries == 0 ==> self.sectors_done == (if self.index * self.args.bpt
            <= self.args.count {
            self.index * self.args.bpt
        } else {
            self.args.count as int
        })
        &&& self.args.retries == 0 ==> self.sectors_ok <= self.sectors_done
        &&& self.args.retries > 0 ==> self.sectors_done == 0 && self.sectors_ok == self.ok_cdbs
            * self.args.bpt
    }

    /// Starts a run.
    pub fn new(args: Args) -> (sweep: Sweep)
        requires
            can_run(args@),
        ensures
            sweep.is_sound(),
            sweep.args == args,
            sweep.cdbs == command_total(args@),
            sweep.index == 0,
            sweep.ok_cdbs == 0,
            sweep.err_cdbs == 0,
            sweep.sectors_ok == 0,
    {
        let cdbs: u32 = if args.retries > 0 {
            args.retries + 1
        } else {
            let bpt: u32 = args.bpt as u32;
            proof {
                lemma_blocks(args.count as int, args.bpt as int);
            }
            if args.count % bpt == 0 {
                args.count / bpt
            } else {
                args.count / bpt + 1
            }
        };
        Sweep { args, cdbs, index: 0, sectors_done: 0, ok_cdbs: 0, err_cdbs: 0, sectors_ok: 0 }
    }

    /// The command to send next; none when all are sent.
    pub fn next(&self) -> (command: Option<ReadCommand>)
        requires
            self.is_sound(),
            self.index < self.cdbs ==> command_lba(self.args@, self.index as nat) <= u32::MAX,
        ensures
            command is None <==> self.index == self.cdbs,
            command matches Some(c) ==> {
                &&& c.index == self.index
                &&& c.lba == command_lba(self.args@, self.index as nat)
                &&& c.count == command_count(self.args@, self.index as nat)
                &&& c.cdb@ == read_cdb(c.lba, c.count)
                &&& c.bytes == c.count * self.args.bs
                &&& c.timeout_ms == self.args.timeout_ms
                &&& c.recovery == self.args.recovery
            },
    {
        if self.index == self.cdbs {
            return None;
        }
        proof {
            lemma_before_last(self.args@, self.index as nat);
        }
        let lba: u32 = if self.args.retries > 0 {
            self.args.skip
        } else {
            self.args.skip + self.sectors_done
        };
        let count: u16 = self.next_count();
        let cdb: [u8; 10] = build_cdb(lba, count);
        Some(
            ReadCommand {
                index: self.index,
                lba,
                count,
                cdb,
                bytes: count as usize * SECTOR_BYTES,
                timeout_ms: self.args.timeout_ms,
                recovery: self.args.recovery,
            },
        )
    }

    /// How many sectors the next command reads.
    pub fn next_count(&self) -> (count: u16)
        requires
            self.is_sound(),
            self.index < self.cdbs,
        ensures
            count == command_count(self.args@, self.index as nat),
            self.args.retries == 0 ==> self.sectors_done == self.index * self.args.bpt
                && self.sectors_done + count <= self.args.count,
    {
        proof {
            lemma_before_last(self.args@, self.index as nat);
        }
        if self.args.retries > 0 {
            return self.args.bpt;
        }
        let remaining: u32 = self.args.count - self.sectors_done;
        if remaining >= self.args.bpt as u32 {
            self.args.bpt
        } else {
            remaining as u16
        }
    }

    /// Counts the command that was sent, as read or as failed, and says how long to wait before the
    /// next one, if at all.
    pub fn record(&mut self, ok: bool) -> (pause: Option<u64>)
        requires
            old(self).is_sound(),
            old(self).index < old(self).cdbs,
            ok ==> old(self).sectors_ok + command_count(old(self).args@, old(self).index as nat)
                <= u32::MAX,
        ensures
            final(self).is_sound(),
            final(self).args == old(self).args,
            final(self).cdbs == old(self).cdbs,
            final(self).index == old(self).index + 1,
            final(self).ok_cdbs == old(self).ok_cdbs + if ok {
                1int
            } else {
                0int
            },
            final(self).err_cdbs == old(self).err_cdbs + if ok {
                0int
            } else {
                1int
            },
            final(self).sectors_ok == old(self).sectors_ok + if ok {
                command_count(old(self).args@, old(self).index as nat) as int
            } else {
                0int
            },
            pause == (if old(self).args.pause_ms > 0 && old(self).index + 1 < old(self).cdbs {
                Some(old(self).args.pause_ms)
            } else {
                None
            }),
    {
        let count: u32 = self.next_count() as u32;
        if ok {
            proof {
                lemma_step(self.args@, self.ok_cdbs as nat);
            }
            self.ok_cdbs = self.ok_cdbs + 1;
            self.sectors_ok = self.sectors_ok + count;
        } else {
            self.err_cdbs = self.err_cdbs + 1;
        }
        if self.args.retries == 0 {
            proof {
                lemma_step(self.args@, self.index as nat);
            }
            self.sectors_done = self.sectors_done + count;
        }
        self.index = self.index + 1;
        if self.args.pause_ms > 0 && self.index < self.cdbs {
            Some(self.args.pause_ms)
        } else {
            None
        }
    }
}

proof fn lemma_blocks(count: int, bpt: int)
    requires
        0 <= count,
        1 <= bpt,
    ensures
        (count + bpt - 1) / bpt == (if count % bpt == 0 {
            count / bpt
        } else {
            count / bpt + 1
        }),
        0 <= count / bpt <= count,
        count % bpt != 0 ==> count / bpt < count,
{
    lemma_fundamental_div_mod(count, bpt);
    let q = count / bpt;
    let r = count % bpt;
    assert(0 <= q <= count) by (nonlinear_arith)
        requires
            count == bpt * q + r,
            0 <= r < bpt,
            0 <= count,
    ;
    assert(r != 0 ==> q < count) by (nonlinear_arith)
        requires
            count == bpt * q + r,
            0 <= r < bpt,
            0 <= q,
    ;
    if r == 0 {
        assert((count + bpt - 1) / bpt == q) by (nonlinear_arith)
            requires
                count == bpt * q,
                1 <= bpt,
        ;
    } else {
        assert((count + bpt - 1) / bpt == q + 1) by (nonlinear_arith)
            requires
                count == bpt * q + r,
                1 <= r < bpt,
        ;
    }
}

/// Before the last command, not all sectors have been attempted.
proof fn lemma_before_last(args: ArgsView, i: nat)
    requires
        args.bpt >= 1,
        args.retries == 0 ==> i < command_total(args),
    ensures
        args.retries == 0 ==> i * args.bpt < args.count,
{
    if args.retries == 0 {
        let count = args.count as int;
        let bpt = args.bpt as int;
        let total = (count + bpt - 1) / bpt;
        lemma_fundamental_div_mod(count + bpt - 1, bpt);
        let r = (count + bpt - 1) % bpt;
        assert(i * bpt < count) by (nonlinear_arith)
            requires
                i < total,
                count + bpt - 1 == bpt * total + r,
                0 <= r < bpt,
                1 <= bpt,
        ;
    }
}

proof fn lemma_step(args: ArgsView, i: nat)
    ensures
        (i + 1) * args.bpt == i * args.bpt + args.bpt,
{
    assert((i + 1) * args.bpt == i * args.bpt + args.bpt) by (nonlinear_arith);
}

/// Whether a command of a run reads a sector.
pub open spec fn reads_sector(args: ArgsView, i: nat, sector: nat) -> bool {
    command_lba(args, i) <= sector < command_lba(args, i) + command_count(args, i)
}

/// Every command reads at least one sector and at most a whole block.
pub proof fn law_command_is_never_empty(args: ArgsView, i: nat)
    requires
        args.bpt >= 1,
        i < command_total(args),
    ensures
        1 <= command_count(args, i) <= args.bpt,
{
    lemma_before_last(args, i);
}

/// With retries, the same sectors are read by every command, once more than there are retries.
pub proof fn law_retries_hammer_one_place(args: ArgsView, i: nat)
    requires
        args.retries > 0,
    ensures
        command_total(args) == args.retries + 1,
        command_lba(args, i) == args.skip,
        command_count(args, i) == args.bpt,
{
}

/// Without retries, the first command starts where the run is to start, each one where the one
/// before it ended, and the last one ends where the run is to end.
pub proof fn law_commands_follow_each_other(args: ArgsView, i: nat)
    requires
        args.bpt >= 1,
        args.retries == 0,
        i < command_total(args),
    ensures
        command_lba(args, 0) == args.skip,
        i + 1 < command_total(args) ==> command_lba(args, i + 1) == command_lba(args, i)
            + command_count(args, i),
        i + 1 == command_total(args) ==> command_lba(args, i) + command_count(args, i) == args.skip
            + args.count,
{
    lemma_before_last(args, i);
    lemma_step(args, i);
    if i + 1 < command_total(args) {
        lemma_before_last(args, i + 1);
    } else {
        let count = args.count as int;
        let bpt = args.bpt as int;
        let total = (count + bpt - 1) / bpt;
        lemma_fundamental_div_mod(count + bpt - 1, bpt);
        let r = (count + bpt - 1) % bpt;
        assert(total * bpt >= count) by (nonlinear_arith)
            requires
                count + bpt - 1 == bpt * total + r,
                0 <= r < bpt,
        ;
    }
}

/// Without retries, a sector is read by a command exactly if it is one of those asked for, and by
/// no more than one.
pub proof fn law_each_sector_is_read_once(args: ArgsView, sector: nat)
    requires
        args.bpt >= 1,
        args.retries == 0,
    ensures
        args.skip <= sector < args.skip + args.count <==> exists|i: nat|
            i < command_total(args) && #[trigger] reads_sector(args, i, sector),
        forall|i: nat, j: nat|
            i < command_total(args) && j < command_total(args) && #[trigger] reads_sector(
                args,
                i,
                sector,
            ) && #[trigger] reads_sector(args, j, sector) ==> i == j,
{
    let bpt = args.bpt as int;
    if args.skip <= sector < args.skip + args.count {
        let offset = sector - args.skip;
        let i = (offset / bpt) as nat;
        let r = offset % bpt;
        lemma_fundamental_div_mod(offset, bpt);
        assert(offset / bpt >= 0) by (nonlinear_arith)
            requires
                offset >= 0,
                bpt >= 1,
        ;
        assert(i * bpt == bpt * (offset / bpt)) by (nonlinear_arith)
            requires
                i == offset / bpt,
        ;
        let total = (args.count + bpt - 1) / bpt;
        lemma_fundamental_div_mod(args.count + bpt - 1, bpt);
        let rest = (args.count + bpt - 1) % bpt;
        assert(i < total) by (nonlinear_arith)
            requires
                i * bpt + r == offset,
                0 <= r,
                offset < args.count,
                args.count + bpt - 1 == bpt * total + rest,
                0 <= rest < bpt,
                bpt >= 1,
        ;
        assert(reads_sector(args, i, sector));
    }
    if exists|i: nat| i < command_total(args) && #[trigger] reads_sector(args, i, sector) {
        let i = choose|i: nat| i < command_total(args) && #[trigger] reads_sector(args, i, sector);
        lemma_before_last(args, i);
    }
    assert forall|i: nat, j: nat|
        i < command_total(args) && j < command_total(args) && #[trigger] reads_sector(
            args,
            i,
            sector,
        ) && #[trigger] reads_sector(args, j, sector) implies i == j by {
        lemma_before_last(args, i);
        lemma_before_last(args, j);
        let offset = sector - args.skip;
        assert(i == j) by (nonlinear_arith)
            requires
                i * bpt <= offset < i * bpt + bpt,
                j * bpt <= offset < j * bpt + bpt,
                bpt >= 1,
        ;
    }
}

/// When all commands are sent, each has been counted as read or as failed. Without retries, no more
/// sectors were read than were asked for; with retries, a whole block by each that was read.
pub proof fn law_run_is_accounted_for(sweep: Sweep)
    requires
        sweep.is_sound(),
        sweep.index == sweep.cdbs,
    ensures
        sweep.ok_cdbs + sweep.err_cdbs == command_total(sweep.args@),
        sweep.args.retries == 0 ==> sweep.sectors_ok <= sweep.args.count,
        sweep.args.retries > 0 ==> sweep.sectors_ok == sweep.ok_cdbs * sweep.args.bpt,
{
}

/// The sectors of the next command can be counted: always without retries, and with retries where
/// all attempts together can be.
pub proof fn law_next_sectors_can_be_counted(sweep: Sweep)
    requires
        sweep.is_sound(),
        sweep.index < sweep.cdbs,
        sweep.args.retries > 0 ==> command_total(sweep.args@) * sweep.args.bpt <= u32::MAX,
    ensures
        sweep.sectors_ok + command_count(sweep.args@, sweep.index as nat) <= u32::MAX,
{
    lemma_before_last(sweep.args@, sweep.index as nat);
    if sweep.args.retries > 0 {
        let bpt = sweep.args.bpt as int;
        let ok = sweep.ok_cdbs as int;
        let total = sweep.cdbs as int;
        assert(ok * bpt + bpt <= total * bpt) by (nonlinear_arith)
            requires
                0 <= ok,
                ok + 1 <= total,
                0 <= bpt,
        ;
    }
}

/// Without retries, every command but the last one reads a whole block, the last one what is left,
/// and there are no more commands than it takes.
pub proof fn law_blocks_are_whole_but_the_last(args: ArgsView, i: nat)
    requires
        args.bpt >= 1,
        args.retries == 0,
    ensures
        i + 1 < command_total(args) ==> command_count(args, i) == args.bpt,
        i + 1 == command_total(args) ==> command_count(args, i) == args.count - i * args.bpt,
        command_total(args) == 0 <==> args.count == 0,
        command_total(args) * args.bpt >= args.count,
        command_total(args) > 0 ==> (command_total(args) - 1) * args.bpt < args.count,
{
    let count = args.count as int;
    let bpt = args.bpt as int;
    let total = (count + bpt - 1) / bpt;
    lemma_fundamental_div_mod(count + bpt - 1, bpt);
    let r = (count + bpt - 1) % bpt;
    assert(0 <= total && total * bpt >= count) by (nonlinear_arith)
        requires
            count + bpt - 1 == bpt * total + r,
            0 <= r < bpt,
            0 <= count,
    ;
    assert(total == 0 <==> count == 0) by (nonlinear_arith)
        requires
            count + bpt - 1 == bpt * total + r,
            0 <= r < bpt,
            0 <= count,
            0 <= total,
            total * bpt >= count,
    ;
    if total > 0 {
        lemma_before_last(args, (total - 1) as nat);
    }
    if i + 1 < total {
        lemma_before_last(args, i);
        lemma_before_last(args, i + 1);
        lemma_step(args, i);
    }
    if i + 1 == total {
        lemma_before_last(args, i);
        lemma_step(args, i);
    }
}

} // verus!
