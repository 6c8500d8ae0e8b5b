//! The registry's side of a check: where to ask for a package, what an answer
//! means, and how the answers for many packages are gathered, a failed lookup
//! leaving no trace.

use vstd::prelude::*;
use vstd::string::*;
use crate::error::CcuError;
use crate::semantic::{identifiers_ok, SemVer, SemVerView};

verus! {

/// Why a text is not a semantic version.
#[verifier::external_type_specification]
#[verifier::external_body]
pub struct ExSemverError(semver::Error);

/// The version that `text` writes in the full grammar of semantic versions,
/// pre-release and build identifiers included; `None` where it writes none.
pub uninterp spec fn semver_parse(text: Seq<char>) -> Option<SemVerView>;

/// Calls `semver::Version::parse` and copies the fields of the version it
/// returns. Taken on trust: whether it succeeds, and the version it gives,
/// depend on the text alone; and the pre-release and build identifiers of a
/// version it accepts hold nothing but ASCII letters, digits, hyphens and dots.
#[verifier::external_body]
pub(crate) fn parse_version(text: &str) -> (r: Result<SemVer, semver::Error>)
    ensures
        r is Ok <==> semver_parse(text@) is Some,
        r is Ok ==> r->Ok_0@ == semver_parse(text@).unwrap(),
        r is Ok ==> identifiers_ok(r->Ok_0@),
{
    let v = semver::Version::parse(text)?;
    Ok(
        SemVer {
            major: v.major,
            minor: v.minor,
            patch: v.patch,
            pre: v.pre.as_str().to_string(),
            build: v.build.as_str().to_string(),
        },
    )
}

/// The view of the outcome of a lookup.
pub open spec fn outcome_view(outcome: Result<SemVer, CcuError>) -> Result<SemVerView, CcuError> {
    match outcome {
        Ok(v) => Ok(v@),
        Err(e) => Err(e),
    }
}

/// The outcome of a lookup whose answer named a version, once that version
/// text has been read: the version, or `RegistryError` where it is none.
pub fn version_from(parsed: Result<SemVer, semver::Error>) -> (r: Result<SemVer, CcuError>)
    ensures
        parsed is Ok ==> r is Ok && r->Ok_0@ == parsed->Ok_0@,
        parsed is Err ==> r is Err && r->Err_0 == CcuError::RegistryError,
{
    match parsed {
        Ok(v) => Ok(v),
        Err(_) => Err(CcuError::RegistryError),
    }
}

/// What an answer of the registry means: `success` tells whether the request
/// succeeded, `newest` is the newest version the answer names, if its body
/// could be read. Anything but a success that names a version is a
/// `RegistryError`.
pub open spec fn response_spec(success: bool, newest: Option<Seq<char>>) -> Result<
    SemVerView,
    CcuError,
> {
    if !success || newest is None {
        Err(CcuError::RegistryError)
    } else {
        match semver_parse(newest.unwrap()) {
            Some(v) => Ok(v),
            None => Err(CcuError::RegistryError),
        }
    }
}

/// The view of a text that may be absent.
pub open spec fn text_view(text: Option<&str>) -> Option<Seq<char>> {
    match text {
        Some(t) => Some(t@),
        None => None,
    }
}

/// Reads the newest version out of an answer of the registry.
pub fn latest_from_response(success: bool, newest_version: Option<&str>) -> (r: Result<
    SemVer,
    CcuError,
>)
    ensures
        outcome_view(r) == response_spec(success, text_view(newest_version)),
        r is Ok ==> identifiers_ok(r->Ok_0@),
{
    if !success {
        return Err(CcuError::RegistryError);
    }
    match newest_version {
        Some(text) => version_from(parse_version(text)),
        None => Err(CcuError::RegistryError),
    }
}

/// The address at which the registry answers for the package `name`.
pub open spec fn crate_url_spec(name: Seq<char>) -> Seq<char> {
    "https://crates.io/api/v1"@ + "/crates/"@ + name
}

/// The address to ask for the package `name`.
pub fn crate_url(name: &str) -> (url: String)
    ensures
        url@ == crate_url_spec(name@),
{
    String::from_str("https://crates.io/api/v1").concat("/crates/").concat(name)
}

/// A package and the outcome of looking it up.
#[derive(Debug)]
pub struct Lookup {
    pub name: String,
    pub outcome: Result<SemVer, CcuError>,
}

/// What a `Lookup` stands for in contracts.
pub struct LookupView {
    pub name: Seq<char>,
    pub outcome: Result<SemVerView, CcuError>,
}

impl View for Lookup {
    type V = LookupView;

    open spec fn view(&self) -> LookupView {
        LookupView { name: self.name@, outcome: outcome_view(self.outcome) }
    }
}

/// The views of a list of lookups.
pub open spec fn lookup_views(list: Seq<Lookup>) -> Seq<LookupView> {
    Seq::new(list.len(), |i: int| list[i]@)
}

/// What `known` holds after one more lookup: the version under the name where
/// the lookup succeeded, and what it held before where it failed.
pub open spec fn record_spec(known: Map<Seq<char>, SemVerView>, lookup: LookupView) -> Map<
    Seq<char>,
    SemVerView,
> {
    match lookup.outcome {
        Ok(v) => known.insert(lookup.name, v),
        Err(_) => known,
    }
}

/// The newest versions that a run of lookups gives: each success under its
/// name, a later one replacing an earlier one of the same name.
pub open spec fn aggregate_spec(lookups: Seq<LookupView>) -> Map<Seq<char>, SemVerView>
    decreases lookups.len(),
{
    if lookups.len() == 0 {
        Map::empty()
    } else {
        record_spec(aggregate_spec(lookups.drop_last()), lookups.last())
    }
}

/// A package is among the gathered versions exactly when one of its lookups
/// succeeded: a failure neither adds a package nor removes one.
pub proof fn lemma_aggregate_keys(lookups: Seq<LookupView>, name: Seq<char>)
    ensures
        aggregate_spec(lookups).contains_key(name) <==> exists|i: int|
            0 <= i < lookups.len() && (#[trigger] lookups[i]).name == name && lookups[i].outcome
                is Ok,
    decreases lookups.len(),
{
    if lookups.len() > 0 {
        let init = lookups.drop_last();
        lemma_aggregate_keys(init, name);
        if aggregate_spec(init).contains_key(name) {
            let i = choose|i: int|
                0 <= i < init.len() && (#[trigger] init[i]).name == name && init[i].outcome
                    is Ok;
            assert(lookups[i] == init[i]);
        }
        if exists|i: int|
            0 <= i < lookups.len() && (#[trigger] lookups[i]).name == name && lookups[i].outcome
                is Ok {
            let i = choose|i: int|
                0 <= i < lookups.len() && (#[trigger] lookups[i]).name == name
                    && lookups[i].outcome is Ok;
            if i < init.len() {
                assert(init[i] == lookups[i]);
            }
        }
    }
}

/// One known version.
#[derive(Debug)]
struct Known {
    name: String,
    version: SemVer,
}

/// The version last stored under `name`.
spec fn lookup(entries: Seq<Known>, name: Seq<char>) -> Option<SemVerView>
    decreases entries.len(),
{
    if entries.len() == 0 {
        None
    } else if entries.last().name@ == name {
        Some(entries.last().version@)
    } else {
        lookup(entries.drop_last(), name)
    }
}

/// The newest version of each package that the registry answered for.
#[derive(Debug)]
pub struct LatestVersions {
    entries: Vec<Known>,
}

impl View for LatestVersions {
    type V = Map<Seq<char>, SemVerView>;

    closed spec fn view(&self) -> Map<Seq<char>, SemVerView> {
        Map::new(
            |name: Seq<char>| lookup(self.entries@, name) is Some,
            |name: Seq<char>| lookup(self.entries@, name).unwrap(),
        )
    }
}

impl LatestVersions {
    /// No versions.
    pub fn new() -> (known: LatestVersions)
        ensures
            known@ == Map::<Seq<char>, SemVerView>::empty(),
    {
        let known = LatestVersions { entries: Vec::new() };
        assert(known@ =~= Map::<Seq<char>, SemVerView>::empty());
        known
    }

    /// Stores `version` under `name`, in place of what was there.
    pub fn insert(&mut self, name: String, version: SemVer)
        ensures
            final(self)@ == old(self)@.insert(name@, version@),
    {
        let ghost before = self.entries@;
        let ghost key = name@;
        let ghost value = version@;
        self.entries.push(Known { name, version });
        proof {
            assert(self.entries@.drop_last() =~= before);
            assert forall|k: Seq<char>| lookup(self.entries@, k) == (if k == key {
                Some(value)
            } else {
                lookup(before, k)
            }) by {}
            assert(self@ =~= old(self)@.insert(key, value));
        }
    }

    /// The version stored under `name`.
    pub fn get(&self, name: &str) -> (r: Option<SemVer>)
        ensures
            r is Some <==> self@.contains_key(name@),
            r is Some ==> r.unwrap()@ == self@[name@],
    {
        let wanted = String::from_str(name);
        let mut i: usize = self.entries.len();
        assert(self.entries@.subrange(0, i as int) =~= self.entries@);
        while i > 0
            invariant
                i <= self.entries.len(),
                wanted@ == name@,
                lookup(self.entries@, name@) == lookup(self.entries@.subrange(0, i as int), name@),
            decreases i,
        {
            let ghost front = self.entries@.subrange(0, i as int);
            assert(front.last() == self.entries@[i as int - 1]);
            assert(front.drop_last() =~= self.entries@.subrange(0, i as int - 1));
            if self.entries[i - 1].name == wanted {
                return Some(self.entries[i - 1].version.clone());
            }
            i = i - 1;
        }
        None
    }

    /// Takes one more lookup in: a success is stored under its name, a failure
    /// changes nothing.
    pub fn record(&mut self, lookup: Lookup)
        ensures
            final(self)@ == record_spec(old(self)@, lookup@),
    {
        match lookup.outcome {
            Ok(version) => self.insert(lookup.name, version),
            Err(_) => {},
        }
    }
}

/// Gathers the outcomes of many lookups. Every success is in the result under
/// its name; a failure is left out and does not disturb the others.
pub fn aggregate(lookups: Vec<Lookup>) -> (known: LatestVersions)
    ensures
        known@ == aggregate_spec(lookup_views(lookups@)),
{
    let ghost views = lookup_views(lookups@);
    let mut known = LatestVersions::new();
    let mut i: usize = 0;
    assert(views.subrange(0, 0) =~= Seq::<LookupView>::empty());
    while i < lookups.len()
        invariant
            i <= lookups.len(),
            views == lookup_views(lookups@),
            known@ == aggregate_spec(views.subrange(0, i as int)),
        decreases lookups.len() - i,
    {
        let item = &lookups[i];
        proof {
            let next = views.subrange(0, i as int + 1);
            assert(next.drop_last() =~= views.subrange(0, i as int));
            assert(next.last() == item@);
        }
        match &item.outcome {
            Ok(version) => known.insert(item.name.clone(), version.clone()),
            Err(_) => {},
        }
        i = i + 1;
    }
    assert(views.subrange(0, lookups.len() as int) =~= views);
    known
}

} // verus!
