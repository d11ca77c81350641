//! From the records of the release history to a build: which record is
//! answered by a build of the catalog, and which file of that build is the
//! archive to unpack.

use vstd::prelude::*;
use vstd::string::*;
use crate::builds::{in_window, is_nearest, ChromiumBuilds, GoogleApiStorageObject};
use crate::history::{position_of, records, answering, ChromiumDepsInfo, ChromiumHistory, ChromiumHistoryInfo};
use crate::platform::{prefix_of, Platform};
use crate::text::{ends_with, to_chars};

verus! {

/// Why no build could be named for a version.
#[derive(Debug, Clone, PartialEq, Eq)]
pub enum FetchError {
    /// The request to this address failed on the network.
    Transport(String),
    /// The answer from this address did not have the expected shape.
    Format(String),
    /// No record of the version is answered by a build within the tolerance.
    NotFound,
}

/// A build that answers a release.
#[derive(Debug, Clone, PartialEq, Eq)]
pub struct ChromiumReleaseItem {
    /// The folder of the build in the object store.
    pub rev_prefix: String,
    /// The full version of the release.
    pub version: String,
}

/// Whether some build of `listing` answers the release that `deps` records:
/// the record has a commit position that reads as a number, and a build of
/// `platform` lies within the tolerance of it.
pub open spec fn resolves(listing: Seq<Seq<char>>, platform: Seq<char>, deps: ChromiumDepsInfo) -> bool {
    &&& position_of(deps.chromium_base_position) is Some
    &&& exists|i: int| in_window(listing, platform, position_of(deps.chromium_base_position)->0, i)
}

/// Whether `item` is the answer to the release that `deps` records: the
/// nearest build at or after its commit position, within the tolerance, under
/// the full version of the release.
pub open spec fn answers(
    listing: Seq<Seq<char>>,
    platform: Seq<char>,
    deps: ChromiumDepsInfo,
    item: ChromiumReleaseItem,
) -> bool {
    let position = position_of(deps.chromium_base_position)->0;
    &&& position_of(deps.chromium_base_position) is Some
    &&& item.version@ == deps.chromium_version@
    &&& exists|i: int|
        #![trigger is_nearest(listing, platform, position, i)]
        is_nearest(listing, platform, position, i) && in_window(listing, platform, position, i)
            && item.rev_prefix@ == listing[i]
}

/// The release history and the build catalog of one platform.
#[derive(Debug)]
pub struct ChromiumReleases {
    pub platform: Platform,
    pub history: ChromiumHistory,
    pub builds: ChromiumBuilds,
}

impl ChromiumReleases {
    /// The build that answers the release that `deps` records, if there is
    /// one. A record without a commit position, or with one that does not
    /// read as a number, has no answer; nor has one with no build within the
    /// tolerance.
    pub fn locate(&self, deps: &ChromiumDepsInfo) -> (item: Option<ChromiumReleaseItem>)
        ensures
            item is Some <==> resolves(self.builds@, prefix_of(self.platform), *deps),
            item is Some ==> answers(self.builds@, prefix_of(self.platform), *deps, item->0),
    {
        match deps.position() {
            Some(position) => {
                match self.builds.find(position, self.platform.prefix()) {
                    Some(prefix) => Some(
                        ChromiumReleaseItem {
                            rev_prefix: prefix.clone(),
                            version: deps.chromium_version.clone(),
                        },
                    ),
                    None => None,
                }
            },
            None => None,
        }
    }

    /// The build for the first of `candidates` that has an answer, taken in
    /// the order given. Candidates without an answer are passed over; only
    /// when none has one is nothing found.
    pub fn resolve(&self, candidates: &Vec<ChromiumDepsInfo>) -> (found: Result<
        ChromiumReleaseItem,
        FetchError,
    >)
        ensures
            found is Err <==> forall|k: int|
                0 <= k < candidates@.len() ==> !resolves(
                    self.builds@,
                    prefix_of(self.platform),
                    #[trigger] candidates@[k],
                ),
            found is Err ==> found->Err_0 == FetchError::NotFound,
            found is Ok ==> exists|k: int|
                #![trigger candidates@[k]]
                {
                    &&& 0 <= k < candidates@.len()
                    &&& answers(self.builds@, prefix_of(self.platform), candidates@[k], found->Ok_0)
                    &&& forall|j: int|
                        0 <= j < k ==> !resolves(
                            self.builds@,
                            prefix_of(self.platform),
                            #[trigger] candidates@[j],
                        )
                },
    {
        let mut k: usize = 0;
        while k < candidates.len()
            invariant
                k <= candidates.len(),
                forall|j: int|
                    0 <= j < k ==> !resolves(
                        self.builds@,
                        prefix_of(self.platform),
                        #[trigger] candidates@[j],
                    ),
            decreases candidates.len() - k,
        {
            match self.locate(&candidates[k]) {
                Some(item) => {
                    return Ok(item);
                },
                None => {},
            }
            k += 1;
        }
        Err(FetchError::NotFound)
    }

    /// The search for a build among the records that answer a request for
    /// `version`, in the order of the history.
    pub fn match_version<'r>(&'r self, version: &str) -> (matches: ChromiumReleaseMatches<'r>)
        ensures
            matches.remaining() == self.history.0@.filter(answering(version@)),
            matches.listing() == self.builds@,
            matches.platform() == prefix_of(self.platform),
    {
        ChromiumReleaseMatches::new(self, self.history.find(version))
    }
}

/// A search for a build among records of the release history, one record at
/// a time.
///
/// What each release was built from is not part of the history and has to be
/// fetched. The caller asks which record is pending, fetches what it was built
/// from, and offers it; this goes on until an offer is answered with a build
/// or no record is pending.
#[derive(Debug)]
pub struct ChromiumReleaseMatches<'r> {
    items: Vec<&'r ChromiumHistoryInfo>,
    at: usize,
    releases: &'r ChromiumReleases,
}

impl<'r> ChromiumReleaseMatches<'r> {
    /// The records that have not been offered for yet, the pending one first.
    pub closed spec fn remaining(&self) -> Seq<ChromiumHistoryInfo> {
        if self.at <= self.items@.len() {
            records(self.items@.skip(self.at as int))
        } else {
            Seq::empty()
        }
    }

    /// The catalog in which the search looks for builds.
    pub closed spec fn listing(&self) -> Seq<Seq<char>> {
        self.releases.builds@
    }

    /// The tag of the platform whose builds the search looks for.
    pub closed spec fn platform(&self) -> Seq<char> {
        prefix_of(self.releases.platform)
    }

    /// A search among `items`, in the order given, for a build of `releases`.
    pub fn new(releases: &'r ChromiumReleases, items: Vec<&'r ChromiumHistoryInfo>) -> (matches: Self)
        ensures
            matches.remaining() == records(items@),
            matches.listing() == releases.builds@,
            matches.platform() == prefix_of(releases.platform),
    {
        proof {
            assert(items@.skip(0) == items@);
        }
        ChromiumReleaseMatches { items, at: 0, releases }
    }

    /// The record for which the caller has to fetch what it was built from,
    /// or nothing when every record has been offered for.
    pub fn pending(&self) -> (record: Option<&'r ChromiumHistoryInfo>)
        ensures
            record is Some <==> self.remaining().len() > 0,
            record is Some ==> *record->0 == self.remaining()[0],
    {
        if self.at < self.items.len() {
            Some(self.items[self.at])
        } else {
            None
        }
    }

    /// Takes what the pending record was built from, and answers with the
    /// build for it if there is one. Either way the record is done with, and
    /// the next one is pending. With no record pending nothing changes and
    /// nothing is answered.
    pub fn offer(&mut self, deps: &ChromiumDepsInfo) -> (item: Option<ChromiumReleaseItem>)
        ensures
            final(self).listing() == old(self).listing(),
            final(self).platform() == old(self).platform(),
            old(self).remaining().len() == 0 ==> item is None && final(self).remaining() == old(
                self,
            ).remaining(),
            old(self).remaining().len() > 0 ==> {
                &&& final(self).remaining() == old(self).remaining().drop_first()
                &&& item is Some <==> resolves(old(self).listing(), old(self).platform(), *deps)
                &&& item is Some ==> answers(
                    old(self).listing(),
                    old(self).platform(),
                    *deps,
                    item->0,
                )
            },
    {
        if self.at < self.items.len() {
            proof {
                assert(records(self.items@.skip(self.at as int)).drop_first() == records(
                    self.items@.skip(self.at + 1),
                ));
            }
            self.at = self.at + 1;
            self.releases.locate(deps)
        } else {
            None
        }
    }
}

/// The names under which a build holds its archive, in the order in which
/// they are looked for.
pub open spec fn archive_names() -> Seq<Seq<char>> {
    seq!["chrome-win.zip"@, "chrome-win32.zip"@, "chrome-mac.zip"@, "chrome-linux.zip"@]
}

/// Whether file `i` of `files` is the archive of the build, found under
/// archive name `k`: it is the first file whose name ends with that name, and
/// no file ends with an archive name that is looked for earlier.
pub open spec fn is_archive(files: Seq<GoogleApiStorageObject>, k: int, i: int) -> bool {
    &&& 0 <= k < archive_names().len()
    &&& 0 <= i < files.len()
    &&& archive_names()[k].is_suffix_of(files[i].name@)
    &&& forall|j: int| 0 <= j < i ==> !archive_names()[k].is_suffix_of(#[trigger] files[j].name@)
    &&& forall|e: int, j: int|
        0 <= e < k && 0 <= j < files.len() ==> !(#[trigger] archive_names()[e]).is_suffix_of(
            #[trigger] files[j].name@,
        )
}

/// Whether the name of some file of `files` ends with some archive name.
pub open spec fn has_archive(files: Seq<GoogleApiStorageObject>) -> bool {
    exists|k: int, j: int|
        0 <= k < archive_names().len() && 0 <= j < files.len() && (
        #[trigger] archive_names()[k]).is_suffix_of(#[trigger] files[j].name@)
}

/// The archive name that is looked for in place `k`.
fn archive_name(k: usize) -> (name: &'static str)
    requires
        k < 4,
    ensures
        name@ == archive_names()[k as int],
{
    if k == 0 {
        "chrome-win.zip"
    } else if k == 1 {
        "chrome-win32.zip"
    } else if k == 2 {
        "chrome-mac.zip"
    } else {
        "chrome-linux.zip"
    }
}

/// The file of a build that is its archive: the archive names are tried in
/// their order, and for the first name that any file ends with, the first
/// such file is taken.
pub fn pick_archive(files: &Vec<GoogleApiStorageObject>) -> (picked: Option<&GoogleApiStorageObject>)
    ensures
        picked is Some <==> has_archive(files@),
        picked is Some ==> exists|k: int, i: int|
            #![trigger is_archive(files@, k, i)]
            is_archive(files@, k, i) && *picked->0 == files@[i],
{
    let mut k: usize = 0;
    while k < 4
        invariant
            k <= 4,
            archive_names().len() == 4,
            forall|e: int, j: int|
                0 <= e < k && 0 <= j < files@.len() ==> !(#[trigger] archive_names()[e]).is_suffix_of(
                    #[trigger] files@[j].name@,
                ),
        decreases 4 - k,
    {
        let suffix = to_chars(archive_name(k));
        let mut i: usize = 0;
        while i < files.len()
            invariant
                i <= files.len(),
                k < 4,
                archive_names().len() == 4,
                suffix@ == archive_names()[k as int],
                forall|j: int|
                    0 <= j < i ==> !archive_names()[k as int].is_suffix_of(#[trigger] files@[j].name@),
                forall|e: int, j: int|
                    0 <= e < k && 0 <= j < files@.len() ==> !(
                    #[trigger] archive_names()[e]).is_suffix_of(#[trigger] files@[j].name@),
            decreases files.len() - i,
        {
            let name = to_chars(files[i].name.as_str());
            if ends_with(&name, &suffix) {
                assert(is_archive(files@, k as int, i as int));
                return Some(&files[i]);
            }
            i += 1;
        }
        k += 1;
    }
    None
}

/// The name of the folder into which the build for version `version` is
/// unpacked.
pub open spec fn folder_name(version: Seq<char>) -> Seq<char> {
    "chromium-"@ + version
}

impl ChromiumReleaseItem {
    /// The address from which the files of the build are listed.
    pub fn detail_request(&self) -> (url: String)
        ensures
            url@ == crate::builds::detail_url(self.rev_prefix@),
    {
        crate::builds::build_detail_request(self.rev_prefix.as_str())
    }

    /// The name of the folder into which the build is unpacked.
    pub fn folder(&self) -> (name: String)
        ensures
            name@ == folder_name(self.version@),
    {
        let mut name = String::from_str("chromium-");
        name.append(self.version.as_str());
        name
    }
}

} // verus!
