//! Profile configuration: the device kinds, where a profile's footage
//! comes from and goes to, and how per-run overrides reshape a profile.
//! Reading the YAML file and compiling ignore globs is the binary's job;
//! what the values mean is decided here.

pub mod layout;

use vstd::prelude::*;
use crate::cli::Overrides;
use crate::error::Error;
use crate::source::tesla::{EventCategory, Reasons};
use crate::text::{owned, push_str};
use crate::order::views;
use layout::LayoutTemplate;

verus! {

/// Device-specific profile fields, chosen by the profile's `type`.
#[derive(Debug, Clone, PartialEq, Eq)]
pub enum SourceKind {
    Generic,
    Gopro { require_marker: bool, gps_lookup: bool },
    Tesla { events: Vec<EventCategory>, reasons: Option<Reasons> },
}

/// A GoPro profile keeps only sessions with a marker unless told
/// otherwise.
pub fn default_require_marker() -> (b: bool)
    ensures
        b,
{
    true
}

/// Quarantined footage is copied unless the profile says otherwise.
pub fn default_copy_quarantine() -> (b: bool)
    ensures
        b,
{
    true
}

/// A profile without `source:` probes the mount roots.
pub fn default_source() -> (s: String)
    ensures
        s@ == "auto"@,
{
    owned("auto")
}

/// A profile's `source:` field: `auto` (mount-root probing) or an
/// explicit path.
#[derive(Debug, Clone, PartialEq, Eq)]
pub enum SourceLocation {
    Auto,
    Path(String),
}

/// One named profile, validated: paths expanded, layout parsed. The
/// ignore patterns are kept as written; matching them is the caller's.
#[derive(Debug, Clone)]
pub struct Profile {
    pub kind: SourceKind,
    pub source: SourceLocation,
    pub destination: String,
    pub layout: LayoutTemplate,
    pub ignore: Vec<String>,
    pub quarantine: Option<String>,
    pub delete_source: bool,
    /// When false, quarantined groups are reported but never copied:
    /// their files stay where they are.
    pub copy_quarantine: bool,
    /// Whether files may be cloned (reflinked) rather than stream-copied.
    pub reflink: bool,
}

/// Whether `p` is an absolute path.
pub open spec fn is_absolute(p: Seq<char>) -> bool {
    p.len() > 0 && p[0] == '/'
}

/// `Path::join`: an absolute `rel` replaces `base`; otherwise `rel` is
/// appended with a separator unless `base` is empty or already ends in
/// one.
pub open spec fn join_of(base: Seq<char>, rel: Seq<char>) -> Seq<char> {
    if is_absolute(rel) {
        rel
    } else if base.len() == 0 || base.last() == '/' {
        base + rel
    } else {
        base + "/"@ + rel
    }
}

pub fn join_path(base: &str, rel: &str) -> (s: String)
    ensures
        s@ == join_of(base@, rel@),
{
    let b = crate::text::chars_of(base);
    let r = crate::text::chars_of(rel);
    if r.len() > 0 && r[0] == '/' {
        return owned(rel);
    }
    let mut s = owned(base);
    if !(b.len() == 0 || b[b.len() - 1] == '/') {
        push_str(&mut s, "/");
    }
    push_str(&mut s, rel);
    s
}

/// Where a profile's quarantined footage goes: its `quarantine`, or
/// `_quarantine` under its destination.
pub open spec fn quarantine_root_of(p: Profile) -> Seq<char> {
    match p.quarantine {
        Some(q) => q@,
        None => join_of(p.destination@, "_quarantine"@),
    }
}

impl Profile {
    pub fn quarantine_root(&self) -> (s: String)
        ensures
            s@ == quarantine_root_of(*self),
    {
        match &self.quarantine {
            Some(q) => q.clone(),
            None => join_path(self.destination.as_str(), "_quarantine"),
        }
    }
}

/// A GoPro profile's effective `gps_lookup`; `true` (a no-op) for every
/// other device.
pub fn effective_gps_lookup(kind: &SourceKind) -> (b: bool)
    ensures
        b == match *kind {
            SourceKind::Gopro { gps_lookup, .. } => gps_lookup,
            _ => true,
        },
{
    match kind {
        SourceKind::Gopro { gps_lookup, .. } => *gps_lookup,
        _ => true,
    }
}

/// `~` and `~/rest` expand against `home` when it is known; anything
/// else is taken as written.
pub open spec fn expanded(path: Seq<char>, home: Option<Seq<char>>) -> Seq<char> {
    match home {
        Some(h) => if path == "~"@ {
            join_of(h, Seq::empty())
        } else if path.len() >= 2 && path[0] == '~' && path[1] == '/' {
            join_of(h, path.subrange(2, path.len() as int))
        } else {
            path
        },
        None => path,
    }
}

pub fn expand_tilde(path: &str, home: Option<&str>) -> (s: String)
    ensures
        s@ == expanded(path@, match home { Some(h) => Some(h@), None => None }),
{
    let cs = crate::text::chars_of(path);
    match home {
        None => owned(path),
        Some(h) => {
            proof {
                reveal_strlit("~");
                reveal_strlit("");
            }
            if cs.len() == 1 && cs[0] == '~' {
                assert(path@ =~= "~"@);
                assert(""@ =~= Seq::<char>::empty());
                join_path(h, "")
            } else if cs.len() >= 2 && cs[0] == '~' && cs[1] == '/' {
                assert(path@.len() != 1);
                let rest = crate::text::string_of(&crate::text::sub_chars(&cs, 2, cs.len()));
                join_path(h, rest.as_str())
            } else {
                proof {
                    if path@ == "~"@ {
                        assert(path@[0] == '~');
                    }
                }
                owned(path)
            }
        },
    }
}

/// What applying per-run overrides to a profile fails with: a GoPro-only
/// override on another kind of profile.
pub open spec fn override_error(p: Profile, o: Overrides, name: Seq<char>) -> Option<Seq<char>> {
    if o.gopro_require_marker is Some && !(p.kind matches SourceKind::Gopro { .. }) {
        Some("profile '"@ + name + "': require_marker is only valid for profiles of type gopro"@)
    } else if o.gps_lookup is Some && !(p.kind matches SourceKind::Gopro { .. }) {
        Some("profile '"@ + name + "': gps_lookup is only valid for profiles of type gopro"@)
    } else {
        None
    }
}

/// Applies per-run overrides to a profile: each `Some` shadows the
/// profile's value; `--quarantine` also forces quarantine copying on
/// and resolves against the destination when relative; the GoPro-only
/// overrides fail on other profiles with the wording config loading
/// uses.
pub fn apply_overrides(profile: Profile, overrides: &Overrides, profile_name: &str) -> (r: Result<Profile, Error>)
    ensures
        match override_error(profile, *overrides, profile_name@) {
            Some(m) => r matches Err(Error::Config(x)) && x@ == m,
            None => r matches Ok(p) && {
                &&& p.delete_source == match overrides.delete_source { Some(v) => v, None => profile.delete_source }
                &&& p.reflink == match overrides.reflink { Some(v) => v, None => profile.reflink }
                &&& p.copy_quarantine == (overrides.quarantine is Some
                    || match overrides.copy_quarantine { Some(v) => v, None => profile.copy_quarantine })
                &&& crate::transfer::opt_view(p.quarantine) == match overrides.quarantine {
                    Some(q) => Some(join_of(profile.destination@, q@)),
                    None => crate::transfer::opt_view(profile.quarantine),
                }
                &&& p.kind == match profile.kind {
                    SourceKind::Gopro { require_marker, gps_lookup } => SourceKind::Gopro {
                        require_marker: match overrides.gopro_require_marker { Some(v) => v, None => require_marker },
                        gps_lookup: match overrides.gps_lookup { Some(v) => v, None => gps_lookup },
                    },
                    k => k,
                }
                &&& p.source == profile.source
                &&& p.destination == profile.destination
                &&& p.layout == profile.layout
                &&& p.ignore == profile.ignore
            },
        },
{
    let is_gopro = match &profile.kind { SourceKind::Gopro { .. } => true, _ => false };
    if overrides.gopro_require_marker.is_some() && !is_gopro {
        let mut m = owned("profile '");
        push_str(&mut m, profile_name);
        push_str(&mut m, "': require_marker is only valid for profiles of type gopro");
        return Err(Error::Config(m));
    }
    if overrides.gps_lookup.is_some() && !is_gopro {
        let mut m = owned("profile '");
        push_str(&mut m, profile_name);
        push_str(&mut m, "': gps_lookup is only valid for profiles of type gopro");
        return Err(Error::Config(m));
    }
    let delete_source = match overrides.delete_source { Some(v) => v, None => profile.delete_source };
    let reflink = match overrides.reflink { Some(v) => v, None => profile.reflink };
    let copy_quarantine = overrides.quarantine.is_some()
        || match overrides.copy_quarantine { Some(v) => v, None => profile.copy_quarantine };
    let quarantine = match &overrides.quarantine {
        Some(q) => Some(join_path(profile.destination.as_str(), q.as_str())),
        None => profile.quarantine.clone(),
    };
    let Profile { kind, source, destination, layout, ignore, .. } = profile;
    let kind = match kind {
        SourceKind::Gopro { require_marker, gps_lookup } => SourceKind::Gopro {
            require_marker: match overrides.gopro_require_marker { Some(v) => v, None => require_marker },
            gps_lookup: match overrides.gps_lookup { Some(v) => v, None => gps_lookup },
        },
        k => k,
    };
    Ok(Profile { kind, source, destination, layout, ignore, quarantine, delete_source, copy_quarantine, reflink })
}


/// A profile as the config file writes it, before validation.
#[derive(Debug, Clone)]
pub struct RawProfile {
    pub kind: SourceKind,
    pub source: String,
    pub destination: String,
    pub layout: String,
    pub ignore: Vec<String>,
    pub quarantine: Option<String>,
    pub delete_source: bool,
    pub copy_quarantine: bool,
    pub reflink: bool,
}

/// What compiling `patterns` into a `globset::GlobSet` reports (each
/// pattern by `Glob::new` with default options, added to a
/// `GlobSetBuilder`, then `build`): the text of the first error, or
/// nothing when the set compiles.
pub uninterp spec fn glob_set_error(patterns: Seq<Seq<char>>) -> Option<Seq<char>>;

/// Compiles the ignore patterns into a `globset::GlobSet` to learn
/// whether they form a valid set, and if not, the text of the error.
#[verifier::external_body]
fn glob_set_check(patterns: &Vec<String>) -> (r: Option<String>)
    ensures
        crate::transfer::opt_view(r) == glob_set_error(views(patterns@)),
{
    let mut builder = globset::GlobSetBuilder::new();
    for p in patterns.iter() {
        match globset::Glob::new(p) {
            Ok(g) => {
                builder.add(g);
            },
            Err(e) => return Some(e.to_string()),
        }
    }
    builder.build().err().map(|e| e.to_string())
}

/// Whether `globset` matches `path` against the set compiled from
/// `patterns` (each by `Glob::new`, default options): whether the path
/// is to be skipped.
pub uninterp spec fn glob_set_match(patterns: Seq<Seq<char>>, path: Seq<char>) -> bool;

/// `globset::GlobSetBuilder` over `Glob::new` of each pattern, then
/// `GlobSet::is_match` of each path: for every path whether the set
/// matches it, or the text of the error compiling the set gave.
#[verifier::external_body]
fn ignore_mask(patterns: &Vec<String>, paths: &Vec<String>) -> (r: Result<Vec<bool>, String>)
    ensures
        r is Ok <==> glob_set_error(views(patterns@)) is None,
        r matches Err(m) ==> glob_set_error(views(patterns@)) == Some(m@),
        r matches Ok(v) ==> v@.len() == paths@.len()
            && forall|i: int| 0 <= i < paths@.len() ==> v@[i] == glob_set_match(views(patterns@), #[trigger] paths@[i]@),
{
    let mut builder = globset::GlobSetBuilder::new();
    for p in patterns.iter() {
        builder.add(globset::Glob::new(p).map_err(|e| e.to_string())?);
    }
    let set = builder.build().map_err(|e| e.to_string())?;
    Ok(paths.iter().map(|p| set.is_match(p.as_str())).collect())
}

/// The paths the ignore patterns do not match, in order.
pub open spec fn unignored_paths(patterns: Seq<Seq<char>>, paths: Seq<Seq<char>>) -> Seq<Seq<char>>
    decreases paths.len(),
{
    if paths.len() == 0 {
        Seq::empty()
    } else {
        unignored_paths(patterns, paths.drop_last())
            + if glob_set_match(patterns, paths.last()) { Seq::empty() } else { seq![paths.last()] }
    }
}

/// The files a scan keeps of those it listed: every path the profile's
/// `ignore` patterns do not match, in order. A set that fails to compile
/// is a configuration error naming the field.
pub fn unignored(patterns: &Vec<String>, paths: &Vec<String>) -> (r: Result<Vec<String>, Error>)
    ensures
        r is Ok <==> glob_set_error(views(patterns@)) is None,
        r matches Ok(v) ==> views(v@) == unignored_paths(views(patterns@), views(paths@)),
        r matches Err(e) ==> e matches Error::Config(x) && glob_set_error(views(patterns@)) matches Some(m)
            && x@ == "ignore: "@ + m,
{
    let mask = match ignore_mask(patterns, paths) {
        Ok(m) => m,
        Err(m) => {
            let mut msg = owned("ignore: ");
            push_str(&mut msg, m.as_str());
            proof {
                reveal_strlit("ignore: ");
            }
            return Err(Error::Config(msg));
        },
    };
    let ghost pv = views(patterns@);
    let ghost all = views(paths@);
    let mut out: Vec<String> = Vec::new();
    let mut i: usize = 0;
    while i < paths.len()
        invariant
            i <= paths@.len() == mask@.len() == all.len(),
            all == views(paths@),
            pv == views(patterns@),
            forall|k: int| 0 <= k < paths@.len() ==> mask@[k] == glob_set_match(pv, #[trigger] paths@[k]@),
            views(out@) == unignored_paths(pv, all.subrange(0, i as int)),
        decreases paths@.len() - i,
    {
        assert(all.subrange(0, i + 1).drop_last() =~= all.subrange(0, i as int));
        assert(all[i as int] == paths@[i as int]@);
        if !mask[i] {
            out.push(paths[i].clone());
        }
        assert(views(out@) =~= unignored_paths(pv, all.subrange(0, i + 1)));
        i += 1;
    }
    assert(all.subrange(0, all.len() as int) =~= all);
    Ok(out)
}

/// Why a profile fails validation: its layout template first, then its
/// ignore patterns compiled as one set, each named with the profile and
/// the field.
pub open spec fn validate_error(name: Seq<char>, raw: RawProfile) -> Option<Seq<char>> {
    match layout::parse_tokens(raw.layout@, 0) {
        Err(m) => Some("profile '"@ + name + "': layout: template error: "@ + m),
        Ok(_) => match glob_set_error(views(raw.ignore@)) {
            Some(e) => Some("profile '"@ + name + "': ignore: "@ + e),
            None => None,
        },
    }
}

/// The profile validation makes of a raw one whose layout parsed to
/// `layout`: `auto` or an expanded source path, an expanded destination,
/// a quarantine expanded and resolved against the destination when
/// relative, everything else as written.
pub open spec fn validated(raw: RawProfile, home: Option<Seq<char>>, p: Profile) -> bool {
    &&& p.kind == raw.kind
    &&& if raw.source@ == "auto"@ {
        p.source == SourceLocation::Auto
    } else {
        p.source matches SourceLocation::Path(s) && s@ == expanded(raw.source@, home)
    }
    &&& p.destination@ == expanded(raw.destination@, home)
    &&& crate::transfer::opt_view(p.quarantine) == match raw.quarantine {
        Some(q) => Some(join_of(expanded(raw.destination@, home), expanded(q@, home))),
        None => None,
    }
    &&& layout::parse_tokens(raw.layout@, 0) == Ok::<Seq<layout::TokenModel>, Seq<char>>(p.layout.tokens())
    &&& crate::order::views(p.ignore@) == crate::order::views(raw.ignore@)
    &&& p.delete_source == raw.delete_source
    &&& p.copy_quarantine == raw.copy_quarantine
    &&& p.reflink == raw.reflink
}

/// Validates one profile of the config file: parses its layout and
/// compiles its ignore patterns into one set (failing with the profile
/// and field named), and expands its paths against `home`.
pub fn validate_profile(name: &str, raw: RawProfile, home: Option<&str>) -> (r: Result<Profile, Error>)
    ensures
        match validate_error(name@, raw) {
            Some(m) => r matches Err(Error::Config(x)) && x@ == m,
            None => r matches Ok(p) && validated(raw, match home { Some(h) => Some(h@), None => None }, p),
        },
{
    let layout = match LayoutTemplate::parse(raw.layout.as_str()) {
        Ok(t) => t,
        Err(e) => {
            let mut m = owned("profile '");
            push_str(&mut m, name);
            push_str(&mut m, "': layout: template error: ");
            let ghost pm = layout::parse_tokens(raw.layout@, 0)->Err_0;
            assert(layout::parse_tokens(raw.layout@, 0) is Err);
            assert(e is Template);
            match &e {
                Error::Template(x) => {
                    assert(x@ == pm);
                    push_str(&mut m, x.as_str());
                },
                _ => {},
            }
            return Err(Error::Config(m));
        },
    };
    match glob_set_check(&raw.ignore) {
        Some(e) => {
            let mut m = owned("profile '");
            push_str(&mut m, name);
            push_str(&mut m, "': ignore: ");
            push_str(&mut m, e.as_str());
            assert(crate::transfer::opt_view(Some(e)) == Some(e@));
            assert(m@ =~= validate_error(name@, raw)->Some_0);
            return Err(Error::Config(m));
        },
        None => {},
    }
    proof {
        reveal_strlit("auto");
    }
    let source = if crate::text::same_text(raw.source.as_str(), "auto") {
        SourceLocation::Auto
    } else {
        SourceLocation::Path(expand_tilde(raw.source.as_str(), home))
    };
    let destination = expand_tilde(raw.destination.as_str(), home);
    let quarantine = match &raw.quarantine {
        Some(q) => {
            let e = expand_tilde(q.as_str(), home);
            Some(join_path(destination.as_str(), e.as_str()))
        },
        None => None,
    };
    Ok(Profile {
        kind: raw.kind,
        source,
        destination,
        layout,
        ignore: raw.ignore,
        quarantine,
        delete_source: raw.delete_source,
        copy_quarantine: raw.copy_quarantine,
        reflink: raw.reflink,
    })
}

/// Why a profile's fields do not fit its type: `require_marker` on a
/// profile that is not GoPro, `events`/`reasons` on one that is not
/// Tesla.
pub open spec fn field_error(name: Seq<char>, kind: SourceKind, has_require_marker: bool, has_tesla_field: bool) -> Option<Seq<char>> {
    if has_require_marker && !(kind matches SourceKind::Gopro { .. }) {
        Some("profile '"@ + name + "': require_marker is only valid for profiles of type gopro"@)
    } else if has_tesla_field && !(kind matches SourceKind::Tesla { .. }) {
        Some("profile '"@ + name + "': events/reasons are only valid for profiles of type tesla"@)
    } else {
        None
    }
}

/// Checks that the fields a profile wrote fit its type.
pub fn check_profile_fields(name: &str, kind: &SourceKind, has_require_marker: bool, has_tesla_field: bool) -> (r: Result<(), Error>)
    ensures
        match field_error(name@, *kind, has_require_marker, has_tesla_field) {
            Some(m) => r matches Err(Error::Config(x)) && x@ == m,
            None => r is Ok,
        },
{
    let gopro = match kind {
        SourceKind::Gopro { .. } => true,
        _ => false,
    };
    let tesla = match kind {
        SourceKind::Tesla { .. } => true,
        _ => false,
    };
    if has_require_marker && !gopro {
        let mut m = owned("profile '");
        push_str(&mut m, name);
        push_str(&mut m, "': require_marker is only valid for profiles of type gopro");
        return Err(Error::Config(m));
    }
    if has_tesla_field && !tesla {
        let mut m = owned("profile '");
        push_str(&mut m, name);
        push_str(&mut m, "': events/reasons are only valid for profiles of type tesla");
        return Err(Error::Config(m));
    }
    Ok(())
}

/// The source path a run uses without probing drives: `--source` when
/// given, else the profile's own path; none for `source: auto`.
pub open spec fn explicit_source_of(source: SourceLocation, cli_source: Option<Seq<char>>) -> Option<Seq<char>> {
    match cli_source {
        Some(s) => Some(s),
        None => match source {
            SourceLocation::Path(p) => Some(p@),
            SourceLocation::Auto => None,
        },
    }
}

pub fn explicit_source(profile: &Profile, cli_source: Option<&str>) -> (r: Option<String>)
    ensures
        crate::transfer::opt_view(r) == explicit_source_of(profile.source, match cli_source { Some(s) => Some(s@), None => None }),
{
    match cli_source {
        Some(s) => Some(owned(s)),
        None => match &profile.source {
            SourceLocation::Path(p) => Some(p.clone()),
            SourceLocation::Auto => None,
        },
    }
}

/// A loaded configuration: the validated profiles by name, the roots
/// under which drives are looked for, and the zone times are shown in.
#[derive(Debug)]
pub struct Config {
    pub profiles: Vec<(String, Profile)>,
    pub mount_roots: Vec<String>,
    pub timezone: jiff::tz::TimeZone,
}

/// Where the profile named `name` stands, if any profile has that name.
pub open spec fn profile_index(ps: Seq<(String, Profile)>, name: Seq<char>) -> Option<int>
    decreases ps.len(),
{
    if ps.len() == 0 {
        None
    } else if ps[0].0@ == name {
        Some(0)
    } else {
        match profile_index(ps.drop_first(), name) {
            Some(i) => Some(i + 1),
            None => None,
        }
    }
}

proof fn lemma_profile_index(ps: Seq<(String, Profile)>, name: Seq<char>)
    ensures
        profile_index(ps, name) matches Some(i) ==> 0 <= i < ps.len() && ps[i].0@ == name,
    decreases ps.len(),
{
    if ps.len() > 0 {
        lemma_profile_index(ps.drop_first(), name);
    }
}

/// The error naming a profile the configuration does not have.
pub open spec fn unknown_profile_text(name: Seq<char>) -> Seq<char> {
    "unknown profile '"@ + name + "'"@
}

fn find_profile(ps: &Vec<(String, Profile)>, name: &str) -> (r: Option<usize>)
    ensures
        r matches Some(k) ==> profile_index(ps@, name@) == Some(k as int) && k < ps@.len(),
        r is None ==> profile_index(ps@, name@) is None,
{
    let mut i: usize = 0;
    assert(ps@.subrange(0, ps@.len() as int) =~= ps@);
    while i < ps.len()
        invariant
            i <= ps@.len(),
            profile_index(ps@, name@) == match profile_index(ps@.subrange(i as int, ps@.len() as int), name@) {
                Some(k) => Some(k + i),
                None => None::<int>,
            },
        decreases ps@.len() - i,
    {
        let ghost rest = ps@.subrange(i as int, ps@.len() as int);
        assert(rest.drop_first() =~= ps@.subrange(i + 1, ps@.len() as int));
        assert(rest[0] == ps@[i as int]);
        if crate::text::same_text(ps[i].0.as_str(), name) {
            return Some(i);
        }
        i += 1;
    }
    None
}

fn unknown_profile(name: &str) -> (e: Error)
    ensures
        e matches Error::Config(m) && m@ == unknown_profile_text(name@),
{
    let mut m = owned("unknown profile '");
    push_str(&mut m, name);
    push_str(&mut m, "'");
    Error::Config(m)
}

/// The profile named `name`, or a configuration error naming it.
pub fn get_profile<'a>(cfg: &'a Config, name: &str) -> (r: Result<&'a Profile, Error>)
    ensures
        match profile_index(cfg.profiles@, name@) {
            Some(i) => r matches Ok(p) && *p == cfg.profiles@[i].1,
            None => r matches Err(Error::Config(m)) && m@ == unknown_profile_text(name@),
        },
{
    proof {
        lemma_profile_index(cfg.profiles@, name@);
    }
    match find_profile(&cfg.profiles, name) {
        Some(i) => {
            assert(profile_index(cfg.profiles@, name@) == Some(i as int));
            Ok(&cfg.profiles[i].1)
        },
        None => Err(unknown_profile(name)),
    }
}

/// The effective profile of a run: the profile named `name`, taken out
/// of the loaded ones, with the run's overrides applied.
pub fn resolve_profile(profiles: Vec<(String, Profile)>, name: &str, overrides: &Overrides) -> (r: Result<Profile, Error>)
    ensures
        match profile_index(profiles@, name@) {
            Some(i) => match override_error(profiles@[i].1, *overrides, name@) {
                Some(m) => r matches Err(Error::Config(x)) && x@ == m,
                None => r is Ok,
            },
            None => r matches Err(Error::Config(m)) && m@ == unknown_profile_text(name@),
        },
{
    proof {
        lemma_profile_index(profiles@, name@);
    }
    let mut profiles = profiles;
    match find_profile(&profiles, name) {
        Some(i) => {
            let (_, profile) = profiles.remove(i);
            apply_overrides(profile, overrides, name)
        },
        None => Err(unknown_profile(name)),
    }
}
} // verus!
