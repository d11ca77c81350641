//! The release history of one platform and channel, and the records of it
//! that a requested version selects.

use vstd::prelude::*;
use vstd::string::*;
use crate::text::{parse_unsigned, parse_usize, same_chars, starts_with, to_chars};

verus! {

/// One release, as the release history records it.
#[derive(Debug, Clone)]
pub struct ChromiumHistoryInfo {
    pub channel: String,
    pub os: String,
    pub timestamp: String,
    /// The version of the release: numbers with dots between them.
    pub version: String,
}

/// What one release was built from.
#[derive(Debug, Clone)]
pub struct ChromiumDepsInfo {
    pub chromium_base_commit: Option<String>,
    /// The commit position of the release, written as a number. A release
    /// without one cannot be traced to a build.
    pub chromium_base_position: Option<String>,
    pub chromium_branch: Option<String>,
    pub chromium_commit: String,
    /// The full version of the release.
    pub chromium_version: String,
    pub skia_commit: String,
    pub v8_commit: String,
    pub v8_position: String,
    pub v8_version: String,
}

/// The commit position that `text` gives: the number it writes, if it is
/// there and writes one.
pub open spec fn position_of(text: Option<String>) -> Option<nat> {
    match text {
        Some(written) => parse_unsigned(written@, usize::MAX as nat),
        None => None,
    }
}

impl ChromiumDepsInfo {
    /// The commit position of the release, if the record has one that reads
    /// as a number.
    pub fn position(&self) -> (position: Option<usize>)
        ensures
            position is Some <==> position_of(self.chromium_base_position) is Some,
            position is Some ==> position->0 as nat == position_of(self.chromium_base_position)->0,
    {
        match &self.chromium_base_position {
            Some(written) => {
                let chars = to_chars(written.as_str());
                parse_usize(&chars)
            },
            None => None,
        }
    }
}

/// Whether a release of version `version` answers a request for `query`.
///
/// It does when the two are the same, or when `version` goes on after
/// `query` with a dot: `11` asks for `11` and for `11.0.1`, and neither for
/// `110` nor for `115.0.0.1`.
pub open spec fn version_matches(version: Seq<char>, query: Seq<char>) -> bool {
    version == query || (query.is_prefix_of(version) && version.len() > query.len()
        && version[query.len() as int] == '.')
}

/// Whether a release of version `version` answers a request for `query`.
pub fn matches_version(version: &str, query: &str) -> (answers: bool)
    ensures
        answers == version_matches(version@, query@),
{
    let have = to_chars(version);
    let want = to_chars(query);
    if same_chars(&have, &want) {
        true
    } else {
        starts_with(&have, &want) && have.len() > want.len() && have[want.len()] == '.'
    }
}

/// The records that answer a request for `query`.
pub open spec fn answering(query: Seq<char>) -> spec_fn(ChromiumHistoryInfo) -> bool {
    |info: ChromiumHistoryInfo| version_matches(info.version@, query)
}

/// The records that a sequence of references points to.
pub open spec fn records(found: Seq<&ChromiumHistoryInfo>) -> Seq<ChromiumHistoryInfo> {
    found.map_values(|info: &ChromiumHistoryInfo| *info)
}

/// The release history of one platform and channel, in the order in which
/// it was loaded.
#[derive(Debug)]
pub struct ChromiumHistory(pub Vec<ChromiumHistoryInfo>);

impl ChromiumHistory {
    /// The records whose version answers a request for `version`, in the
    /// order of the history.
    pub fn find<'a>(&'a self, version: &str) -> (found: Vec<&'a ChromiumHistoryInfo>)
        ensures
            records(found@) == self.0@.filter(answering(version@)),
    {
        let mut found: Vec<&'a ChromiumHistoryInfo> = Vec::new();
        let mut i: usize = 0;
        proof {
            assert(self.0@.take(0).filter(answering(version@)) == Seq::<
                ChromiumHistoryInfo,
            >::empty()) by {
                reveal(Seq::filter);
            }
        }
        while i < self.0.len()
            invariant
                i <= self.0.len(),
                records(found@) == self.0@.take(i as int).filter(answering(version@)),
            decreases self.0.len() - i,
        {
            let info = &self.0[i];
            let ghost before = found@;
            proof {
                assert(self.0@.take(i + 1) == self.0@.take(i as int).push(*info));
                self.0@.take(i as int).lemma_filter_push(*info, answering(version@));
            }
            if matches_version(info.version.as_str(), version) {
                found.push(info);
                assert(records(found@) == records(before).push(*info));
            }
            i += 1;
        }
        proof {
            assert(self.0@.take(self.0.len() as int) == self.0@);
        }
        found
    }
}

/// The address of the release history of a platform on a channel.
pub open spec fn history_url(os_arg: Seq<char>, channel: Seq<char>) -> Seq<char> {
    "https://omahaproxy.appspot.com/history.json?os="@ + os_arg + "&channel="@ + channel
}

/// The address of the release history of the platform that the history
/// knows as `os_arg`, on the channel that it knows as `channel`.
pub fn history_request(os_arg: &str, channel: &str) -> (url: String)
    ensures
        url@ == history_url(os_arg@, channel@),
{
    let mut url = String::from_str("https://omahaproxy.appspot.com/history.json?os=");
    url.append(os_arg);
    url.append("&channel=");
    url.append(channel);
    url
}

/// The address of what the release of version `version` was built from.
pub open spec fn deps_url(version: Seq<char>) -> Seq<char> {
    "https://omahaproxy.appspot.com/deps.json?version="@ + version
}

impl ChromiumHistoryInfo {
    /// The address of the record of what this release was built from.
    pub fn deps_request(&self) -> (url: String)
        ensures
            url@ == deps_url(self.version@),
    {
        let mut url = String::from_str("https://omahaproxy.appspot.com/deps.json?version=");
        url.append(self.version.as_str());
        url
    }
}

} // verus!
