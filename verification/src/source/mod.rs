//! What a device module decides about each group of media it finds,
//! and the device modules themselves.

pub mod gopro;
pub mod tesla;

use vstd::prelude::*;
use crate::clock::UtcInstant;
use crate::plan::{MediaFile, MediaGroup};
use crate::text::owned;

verus! {

/// What the pipeline should do with a group of media, decided by the
/// device implementation during a scan.
#[derive(Debug, Clone, PartialEq, Eq)]
pub enum Verdict {
    Keep,
    Quarantine,
    Ignore(String),
}

/// The plain-value model of a [`Verdict`].
pub ghost enum VerdictModel {
    Keep,
    Quarantine,
    Ignore(Seq<char>),
}

impl View for Verdict {
    type V = VerdictModel;

    open spec fn view(&self) -> VerdictModel {
        match self {
            Verdict::Keep => VerdictModel::Keep,
            Verdict::Quarantine => VerdictModel::Quarantine,
            Verdict::Ignore(m) => VerdictModel::Ignore(m@),
        }
    }
}

/// The device that never detects a card and never finds media: the
/// pipeline's stand-in for a profile with no device module yet.
pub struct GenericSource;

impl GenericSource {
    /// Whether `root` looks like a card this device produces: never.
    pub fn detect(&self, root: &str) -> (b: bool)
        ensures
            !b,
    {
        false
    }

    /// The groups this device finds under `root`: none.
    pub fn scan(&self, root: &str) -> (groups: Vec<(String, Verdict)>)
        ensures
            groups@.len() == 0,
    {
        Vec::new()
    }
}

/// The catch-all group of the stray files a device found beside its
/// media: ignored as unrecognized, at the epoch, with no markers, context
/// or sidecar.
pub fn unrecognized_group(files: Vec<MediaFile>) -> (r: (MediaGroup, Verdict))
    ensures
        r.0.name@ == "unrecognized"@,
        r.0.files == files,
        r.0.timestamp == (UtcInstant { secs: 0, nanos: 0 }),
        r.0.markers@.len() == 0,
        r.0.context@.len() == 0,
        r.0.sidecar is None,
        r.1@ == VerdictModel::Ignore(crate::report::unrecognized_reason()),
{
    let group = MediaGroup {
        name: owned("unrecognized"),
        files,
        timestamp: UtcInstant { secs: 0, nanos: 0 },
        markers: Vec::new(),
        context: Vec::new(),
        sidecar: None,
    };
    (group, Verdict::Ignore(owned("unrecognized file(s)")))
}

} // verus!
