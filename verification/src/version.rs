//! The version of the editor that the relay goes by.

use crate::json::{is_record, slot, string_field, Json, JsonV};
use crate::kiro_request::{maybe_text, read_maybe};
use crate::state::opt_text;
use crate::text;
use crate::text::blank;
use vstd::prelude::*;

verus! {

/// The latest version that is known, where one is.
#[derive(Debug)]
pub struct VersionCell {
    pub latest: Option<String>,
}

/// A description of releases, as far as the relay reads it.
#[derive(Debug)]
pub struct Metadata {
    pub current_release: Option<String>,
}

/// The version to go by.
pub open spec fn version_or(latest: Option<Seq<char>>, fallback: Seq<char>) -> Seq<char> {
    match latest {
        Some(version) => version,
        None => fallback,
    }
}

impl VersionCell {
    /// A cell without a version.
    pub fn new() -> (r: VersionCell)
        ensures
            r.latest is None,
    {
        VersionCell { latest: None }
    }

    /// Keeps a version, and tells whether it is another than before.
    pub fn store(&mut self, version: String) -> (r: bool)
        ensures
            opt_text(final(self).latest) == Some(version@),
            r == (opt_text(old(self).latest) != Some(version@)),
    {
        let changed = match &self.latest {
            Some(known) => !text::same(known.as_str(), version.as_str()),
            None => true,
        };
        self.latest = Some(version);
        changed
    }
}

/// The latest version that is known.
pub fn cached(cell: &VersionCell) -> (r: Option<String>)
    ensures
        opt_text(r) == opt_text(cell.latest),
{
    match &cell.latest {
        Some(version) => Some(version.clone()),
        None => None,
    }
}

/// The version to go by: the latest that is known, or else the one given.
pub fn effective(cell: &VersionCell, fallback: &str) -> (r: String)
    ensures
        r@ == version_or(opt_text(cell.latest), fallback@),
{
    match cached(cell) {
        Some(version) => version,
        None => fallback.to_owned(),
    }
}

/// The current release that a description names; a blank name is none.
pub open spec fn named_release(release: Option<Seq<char>>) -> Option<Seq<char>> {
    match release {
        Some(version) => if blank(version) {
            None
        } else {
            Some(version)
        },
        None => None,
    }
}

/// The current release as a value states it; none where the value describes no releases.
pub open spec fn stated_release(v: JsonV) -> Option<Option<Seq<char>>> {
    if is_record(v, 1) {
        maybe_text(slot(v, "currentRelease"@, 0))
    } else {
        None
    }
}

impl Metadata {
    /// Reads a description of releases, from an object or from the list of its one field; fields
    /// of an object that it does not know are passed over.
    pub fn from_json(v: &Json) -> (r: Option<Metadata>)
        ensures
            r is Some <==> stated_release(v.view()) is Some,
            r matches Some(m) ==> stated_release(v.view()) == Some(opt_text(m.current_release)),
    {
        if !v.is_record(1) {
            return None;
        }
        match read_maybe(v.slot("currentRelease", 0)) {
            Some(current_release) => Some(Metadata { current_release }),
            None => None,
        }
    }

    /// The current release; an error message where none is named.
    pub fn into_release(self) -> (r: Result<String, String>)
        ensures
            r is Ok <==> named_release(opt_text(self.current_release)) is Some,
            r matches Ok(v) ==> named_release(opt_text(self.current_release)) == Some(v@),
            r matches Err(e) ==> e@ == "元数据缺少 currentRelease"@,
    {
        match self.current_release {
            Some(version) => if text::is_blank(version.as_str()) {
                Err("元数据缺少 currentRelease".to_owned())
            } else {
                Ok(version)
            },
            None => Err("元数据缺少 currentRelease".to_owned()),
        }
    }
}

/// The version that was kept last is the one to go by, whatever else is given; as long as none was
/// kept, it is the one given. Keeping a version tells whether it is another than before.
pub proof fn law_kept_version_holds(
    fresh: VersionCell,
    fallback: &str,
    unset: String,
    cell: &mut VersionCell,
    version: String,
    changed: bool,
    other: &str,
    set: String,
    known: Option<String>,
)
    requires
        call_ensures(VersionCell::new, (), fresh),
        call_ensures(effective, (&fresh, fallback), unset),
        call_ensures(VersionCell::store, (cell, version), changed),
        call_ensures(effective, (&*final(cell), other), set),
        call_ensures(cached, (&*final(cell),), known),
    ensures
        unset@ == fallback@,
        set@ == version@,
        known matches Some(v) && v@ == version@,
        changed <==> !(old(cell).latest matches Some(v) && v@ == version@),
{
}

/// A description of releases names its current release; a blank name is none, and a description
/// without a name is an error.
pub proof fn law_current_release_is_named(
    v: Json,
    m: Metadata,
    r: Result<String, String>,
)
    requires
        call_ensures(Metadata::from_json, (&v,), Some(m)),
        call_ensures(Metadata::into_release, (m,), r),
        v.view() is Object,
    ensures
        r is Ok <==> (string_field(v.view(), "currentRelease"@) matches Some(name) && !blank(name)),
        r matches Ok(release) ==> string_field(v.view(), "currentRelease"@) == Some(release@),
{
}

} // verus!
