//! Regression harness for the label parsers: every disc capture of a corpus is analyzed again, and
//! the analysis is compared with the snapshot that was kept of it.

pub mod analysis;
pub mod analysis_laws;
pub mod brief_laws;
pub mod captures;
pub mod captures_laws;
pub mod diff;
pub mod diff_laws;
pub mod field_laws;
pub mod harness;
pub mod harness_laws;
pub mod label_laws;
pub mod listing_laws;
pub mod options;
pub mod options_laws;

use vstd::prelude::*;

verus! {

/// How the corpus check is used.
pub const HELP: &'static str = "freemkv-tools labels-corpus-check — regression harness for libfreemkv label parsers

Usage: freemkv-tools labels-corpus-check <corpus-dir> [options]

Walks <corpus-dir> recursively for *.bin and *.iso disc captures.
For each, runs the parser stack and either:
  - compares against <basename>.snapshot.json (default), or
  - blesses current output as the new snapshot (--update).

Options:
  --update          write/overwrite <basename>.snapshot.json with current output.
                    No diff is performed in this mode.
  --exact           strict byte-for-byte JSON comparison.
                    Default: structural diff (parser, counts, per-stream fields;
                    ignores jar_inventory and raw_codes which jitter).
  --filter <text>   only check captures whose filename contains <text>
                    (e.g. --filter disc-07).
  --help, -h        this message.

Exit code: 0 if all PASS, non-zero on any FAIL.

Examples:
  freemkv-tools labels-corpus-check /srv/autorip/labels-corpus/
  freemkv-tools labels-corpus-check /srv/autorip/labels-corpus/ --update
  freemkv-tools labels-corpus-check /srv/autorip/labels-corpus/ --filter dune";

/// How the corpus check is used.
pub fn help_text() -> (text: &'static str)
    ensures
        text@ == HELP@,
{
    HELP
}

} // verus!
