use vstd::prelude::*;
use crate::report::Detail;

verus! {

/// Collapses a paired override flag (`--foo`/`--no-foo`) to an optional
/// value: `None` when neither (or, defensively, both) was passed, `Some`
/// in the direction of whichever flag was given.
pub open spec fn spec_override_pair(set: bool, unset: bool) -> Option<bool> {
    if set && !unset {
        Some(true)
    } else if !set && unset {
        Some(false)
    } else {
        None
    }
}

pub fn override_pair(set: bool, unset: bool) -> (r: Option<bool>)
    ensures
        r == spec_override_pair(set, unset),
{
    match (set, unset) {
        (true, false) => Some(true),
        (false, true) => Some(false),
        _ => None,
    }
}

/// The command line: a subcommand plus the flags every subcommand
/// shares. Parsing the arguments is the binary's job; this is the
/// parsed shape the library works from.
#[derive(Debug, Clone)]
pub struct Cli {
    pub command: Command,
    /// Path to the config file.
    pub config: Option<String>,
    /// Log verbosity (`-v` info, `-vv` debug).
    pub verbose: u8,
    /// Emit machine-readable JSON instead of human-readable text.
    pub json: bool,
    /// Print only the closing summary line of each listing.
    pub summary: bool,
}

impl Cli {
    /// How much a human-readable listing shows: only the summary line
    /// under `--summary` (whatever the verbosity), everything under
    /// `-v`, the default listing otherwise.
    pub fn detail(&self) -> (d: Detail)
        ensures
            d == if self.summary { Detail::Summary } else if self.verbose > 0 { Detail::Verbose } else { Detail::Normal },
    {
        if self.summary {
            Detail::Summary
        } else if self.verbose > 0 {
            Detail::Verbose
        } else {
            Detail::Normal
        }
    }
}

#[derive(Debug, Clone)]
pub enum Command {
    /// Discover media via a profile and print the inventory; touches
    /// nothing.
    Scan {
        profile: String,
        source: Option<String>,
        overrides: OverrideFlags,
    },
    /// Scan and execute the import plan for a profile.
    Import {
        profile: String,
        source: Option<String>,
        dry_run: bool,
        delete_source: bool,
        no_delete_source: bool,
        yes: bool,
        quick_match: bool,
        reflink: bool,
        no_reflink: bool,
        quarantine: Option<String>,
        copy_quarantine: bool,
        no_copy_quarantine: bool,
        gopro_gps_lookup: bool,
        no_gopro_gps_lookup: bool,
        overrides: OverrideFlags,
    },
    /// Purge a profile's quarantine directory.
    Cleanup {
        profile: String,
        older_than: Option<String>,
        dry_run: bool,
        yes: bool,
    },
    /// Dump a single file's device metadata.
    Inspect {
        path: String,
    },
}

/// Plan-shaping override flags shared by `scan` and `import`.
#[derive(Debug, Clone, Copy, PartialEq, Eq, Structural)]
pub struct OverrideFlags {
    pub gopro_require_marker: bool,
    pub no_gopro_require_marker: bool,
}

/// Per-invocation profile overrides collapsed from paired flags; `None`
/// means "use the profile".
#[derive(Debug, Clone, PartialEq, Eq)]
pub struct Overrides {
    pub delete_source: Option<bool>,
    pub copy_quarantine: Option<bool>,
    pub gopro_require_marker: Option<bool>,
    pub quarantine: Option<String>,
    pub reflink: Option<bool>,
    pub gps_lookup: Option<bool>,
}

impl Default for Overrides {
    fn default() -> (o: Overrides)
        ensures
            o.delete_source is None,
            o.copy_quarantine is None,
            o.gopro_require_marker is None,
            o.quarantine is None,
            o.reflink is None,
            o.gps_lookup is None,
    {
        Overrides {
            delete_source: None,
            copy_quarantine: None,
            gopro_require_marker: None,
            quarantine: None,
            reflink: None,
            gps_lookup: None,
        }
    }
}

impl OverrideFlags {
    /// Collapses the flag pair into plain `Overrides`; every other
    /// override is left unset.
    pub fn to_overrides(&self) -> (o: Overrides)
        ensures
            o.gopro_require_marker == spec_override_pair(self.gopro_require_marker, self.no_gopro_require_marker),
            o.delete_source is None,
            o.copy_quarantine is None,
            o.quarantine is None,
            o.reflink is None,
            o.gps_lookup is None,
    {
        Overrides {
            delete_source: None,
            copy_quarantine: None,
            gopro_require_marker: override_pair(self.gopro_require_marker, self.no_gopro_require_marker),
            quarantine: None,
            reflink: None,
            gps_lookup: None,
        }
    }
}


/// The overrides of an `import` run: the shared flags, then each of the
/// import-only flag pairs collapsed (the later of a pair winning), and
/// `--quarantine`'s path as given.
pub fn import_overrides(
    shared: &OverrideFlags,
    delete_source: bool,
    no_delete_source: bool,
    reflink: bool,
    no_reflink: bool,
    quarantine: Option<String>,
    copy_quarantine: bool,
    no_copy_quarantine: bool,
    gps_lookup: bool,
    no_gps_lookup: bool,
) -> (o: Overrides)
    ensures
        o.gopro_require_marker == spec_override_pair(shared.gopro_require_marker, shared.no_gopro_require_marker),
        o.delete_source == spec_override_pair(delete_source, no_delete_source),
        o.reflink == spec_override_pair(reflink, no_reflink),
        o.quarantine == quarantine,
        o.copy_quarantine == spec_override_pair(copy_quarantine, no_copy_quarantine),
        o.gps_lookup == spec_override_pair(gps_lookup, no_gps_lookup),
{
    let mut o = shared.to_overrides();
    o.delete_source = override_pair(delete_source, no_delete_source);
    o.reflink = override_pair(reflink, no_reflink);
    o.quarantine = quarantine;
    o.copy_quarantine = override_pair(copy_quarantine, no_copy_quarantine);
    o.gps_lookup = override_pair(gps_lookup, no_gps_lookup);
    o
}
} // verus!
