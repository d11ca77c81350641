//! The catalog of snapshot builds of one platform: which entries of the
//! remote listing count as builds, and which build answers a commit position.

use vstd::prelude::*;
use vstd::seq_lib::{to_multiset_build, to_multiset_insert};
use vstd::string::*;
use crate::text::{join, lemma_join_split, names, parse_unsigned, parse_usize, same_chars, split, split_on, to_chars};

verus! {

/// How far past a commit position a build may lie and still answer for it.
/// Snapshots are not built for every revision; beyond this window the nearest
/// build says nothing reliable about the position asked for.
pub const BUILD_TOLERANCE: usize = 120;

/// The revision of a listing entry that names a build of `platform`.
///
/// An entry names a build when `/` splits it into exactly three segments: the
/// platform tag, a revision that reads as an unsigned number, and nothing
/// after the closing separator. Every other shape names no build.
pub open spec fn accepted_revision(entry: Seq<char>, platform: Seq<char>) -> Option<nat> {
    let parts = split_on(entry, '/');
    if parts.len() == 3 && parts[0] == platform && parts[2].len() == 0 {
        parse_unsigned(parts[1], usize::MAX as nat)
    } else {
        None
    }
}

/// Whether entry `i` of `listing` is a build of `platform` at or after `target`.
pub open spec fn reaches(listing: Seq<Seq<char>>, platform: Seq<char>, target: nat, i: int) -> bool {
    &&& 0 <= i < listing.len()
    &&& accepted_revision(listing[i], platform) is Some
    &&& accepted_revision(listing[i], platform)->0 >= target
}

/// Whether entry `i` of `listing` is the build of `platform` with the least
/// revision at or after `target`; of several with that revision, the first.
pub open spec fn is_nearest(listing: Seq<Seq<char>>, platform: Seq<char>, target: nat, i: int) -> bool {
    &&& reaches(listing, platform, target, i)
    &&& forall|j: int| #[trigger]
        reaches(listing, platform, target, j) ==> {
            let here = accepted_revision(listing[i], platform)->0;
            let there = accepted_revision(listing[j], platform)->0;
            there > here || (there == here && j >= i)
        }
}

/// Whether entry `i` of `listing` is a build of `platform` in the window
/// from `target` to `target + BUILD_TOLERANCE`, both ends included.
pub open spec fn in_window(listing: Seq<Seq<char>>, platform: Seq<char>, target: nat, i: int) -> bool {
    &&& reaches(listing, platform, target, i)
    &&& accepted_revision(listing[i], platform)->0 - target <= BUILD_TOLERANCE
}

/// The revision of `entry` if it names a build of `platform`.
pub fn revision_of(entry: &str, platform: &Vec<char>) -> (revision: Option<usize>)
    ensures
        revision is Some <==> accepted_revision(entry@, platform@) is Some,
        revision is Some ==> revision->0 as nat == accepted_revision(entry@, platform@)->0,
{
    let chars = to_chars(entry);
    let parts = split(&chars, '/');
    if parts.len() == 3 && same_chars(&parts[0], platform) && parts[2].len() == 0 {
        parse_usize(&parts[1])
    } else {
        None
    }
}

/// The entries of the remote listing for one platform, as they were listed.
#[derive(Debug)]
pub struct ChromiumBuilds(pub Vec<String>);

impl View for ChromiumBuilds {
    type V = Seq<Seq<char>>;

    open spec fn view(&self) -> Seq<Seq<char>> {
        names(self.0@)
    }
}

impl ChromiumBuilds {
    /// The build that answers the commit position `find_pos` on the platform
    /// tagged `os_prefix`: the one with the least revision at or after the
    /// position, provided it lies within the tolerance. Entries that name no
    /// build of that platform are passed over.
    pub fn find<'a>(&'a self, find_pos: usize, os_prefix: &str) -> (found: Option<&'a String>)
        ensures
            found is None <==> forall|i: int| !in_window(self@, os_prefix@, find_pos as nat, i),
            found is Some ==> exists|i: int|
                #![trigger is_nearest(self@, os_prefix@, find_pos as nat, i)]
                is_nearest(self@, os_prefix@, find_pos as nat, i) && in_window(
                    self@,
                    os_prefix@,
                    find_pos as nat,
                    i,
                ) && *found->0 == self.0@[i],
    {
        let platform = to_chars(os_prefix);
        let ghost listing = self@;
        let ghost target = find_pos as nat;
        let mut best: Option<(usize, usize)> = None;
        let mut i: usize = 0;
        while i < self.0.len()
            invariant
                i <= self.0.len(),
                listing == self@,
                target == find_pos as nat,
                platform@ == os_prefix@,
                best is None ==> forall|j: int| 0 <= j < i ==> !reaches(listing, platform@, target, j),
                best is Some ==> {
                    let (at, revision) = best->0;
                    &&& at < i
                    &&& reaches(listing, platform@, target, at as int)
                    &&& accepted_revision(listing[at as int], platform@)->0 == revision as nat
                    &&& forall|j: int|
                        0 <= j < i && #[trigger] reaches(listing, platform@, target, j) ==> {
                            let there = accepted_revision(listing[j], platform@)->0;
                            there > revision || (there == revision && j >= at)
                        }
                },
            decreases self.0.len() - i,
        {
            let entry = &self.0[i];
            assert(listing[i as int] == entry@);
            match revision_of(entry.as_str(), &platform) {
                Some(revision) => {
                    if revision >= find_pos {
                        match best {
                            Some((_, least)) => {
                                if revision < least {
                                    best = Some((i, revision));
                                }
                            },
                            None => {
                                best = Some((i, revision));
                            },
                        }
                    }
                },
                None => {},
            }
            i += 1;
        }
        match best {
            Some((at, revision)) => {
                if revision - find_pos <= BUILD_TOLERANCE {
                    assert(is_nearest(listing, os_prefix@, target, at as int));
                    assert(in_window(listing, os_prefix@, target, at as int));
                    Some(&self.0[at])
                } else {
                    assert forall|j: int| !in_window(listing, os_prefix@, target, j) by {
                        if reaches(listing, os_prefix@, target, j) {
                        }
                    }
                    None
                }
            },
            None => None,
        }
    }
}

/// The views of a sequence of pages of entries.
pub open spec fn page_names(pages: Seq<Vec<String>>) -> Seq<Seq<Seq<char>>> {
    pages.map_values(|page: Vec<String>| names(page@))
}

impl ChromiumBuilds {
    /// The catalog that holds the entries of `pages`, page after page, in the
    /// order in which each page lists them.
    pub fn from_pages(pages: Vec<Vec<String>>) -> (builds: Self)
        ensures
            builds@ == page_names(pages@).flatten(),
    {
        broadcast use Seq::lemma_flatten_push;

        let mut all: Vec<String> = Vec::new();
        let mut i: usize = 0;
        while i < pages.len()
            invariant
                i <= pages.len(),
                names(all@) == page_names(pages@.take(i as int)).flatten(),
            decreases pages.len() - i,
        {
            let page = &pages[i];
            let ghost done = names(all@);
            let mut j: usize = 0;
            while j < page.len()
                invariant
                    j <= page.len(),
                    i < pages.len(),
                    *page == pages@[i as int],
                    done == page_names(pages@.take(i as int)).flatten(),
                    names(all@) == done + names(page@.take(j as int)),
                decreases page.len() - j,
            {
                let ghost before = all@;
                all.push(page[j].clone());
                proof {
                    assert(page@.take(j + 1) == page@.take(j as int).push(page@[j as int]));
                    assert(names(all@) == names(before).push(page@[j as int]@));
                    assert(names(page@.take(j + 1)) == names(page@.take(j as int)).push(
                        page@[j as int]@,
                    ));
                }
                j += 1;
            }
            proof {
                assert(page@.take(page.len() as int) == page@);
                assert(pages@.take(i + 1) == pages@.take(i as int).push(*page));
                assert(page_names(pages@.take(i + 1)) == page_names(pages@.take(i as int)).push(
                    names(page@),
                ));
                page_names(pages@.take(i as int)).lemma_flatten_push(names(page@));
            }
            i += 1;
        }
        proof {
            assert(pages@.take(pages.len() as int) == pages@);
        }
        ChromiumBuilds(all)
    }
}

/// One file of a build, as the object store describes it.
#[derive(Debug, Clone)]
pub struct GoogleApiStorageObject {
    pub kind: String,
    pub media_link: String,
    pub name: String,
    pub size: String,
    pub updated: String,
}

/// One page of the remote listing.
#[derive(Debug, Clone)]
pub struct ChromiumBuildPage {
    pub kind: String,
    /// Where the listing goes on; absent on its last page.
    pub next_page_token: Option<String>,
    /// The folders that the page lists, one per revision.
    pub prefixes: Vec<String>,
    /// The files that the page lists.
    pub items: Vec<GoogleApiStorageObject>,
}

/// The view of an optional string.
pub open spec fn token_view(token: Option<String>) -> Option<Seq<char>> {
    match token {
        Some(t) => Some(t@),
        None => None,
    }
}

/// The address of the listing of everything below `prefix`.
pub open spec fn detail_url(prefix: Seq<char>) -> Seq<char> {
    "https://www.googleapis.com/storage/v1/b/chromium-browser-snapshots/o?delimiter=/&prefix="@
        + prefix
        + "&fields=items(kind,mediaLink,metadata,name,size,updated),kind,prefixes,nextPageToken"@
}

/// The address of one page of the listing of the builds of `platform`: the
/// first page without a token, a later page with the token that the page
/// before it gave.
pub open spec fn listing_url(platform: Seq<char>, token: Option<Seq<char>>) -> Seq<char> {
    let first = detail_url(platform + "/"@);
    match token {
        Some(t) => first + "&pageToken="@ + t,
        None => first,
    }
}

/// The address from which the files of the build at `prefix` are listed.
pub fn build_detail_request(prefix: &str) -> (url: String)
    ensures
        url@ == detail_url(prefix@),
{
    let mut url = String::from_str(
        "https://www.googleapis.com/storage/v1/b/chromium-browser-snapshots/o?delimiter=/&prefix=",
    );
    url.append(prefix);
    url.append(
        "&fields=items(kind,mediaLink,metadata,name,size,updated),kind,prefixes,nextPageToken",
    );
    url
}

/// Where an enumeration of the listing stands.
pub struct PagerState {
    /// The tag of the platform whose builds are listed.
    pub platform: Seq<char>,
    /// The token that the last page gave, if it gave one.
    pub token: Option<Seq<char>>,
    /// Whether the enumeration has ended.
    pub done: bool,
}

/// Where an enumeration stands after a page that carried `token` and
/// listed no folder (`empty`) or some.
///
/// A page without a token is the last one. A page that lists nothing ends the
/// enumeration too, whatever token it carries. Once ended, it stays ended.
pub open spec fn after_page(state: PagerState, token: Option<Seq<char>>, empty: bool) -> PagerState {
    if state.done {
        state
    } else {
        PagerState { platform: state.platform, token, done: token is None || empty }
    }
}

/// Where an enumeration stands after the pages `pages`, each given by its
/// token and by whether it listed nothing.
pub open spec fn after_pages(state: PagerState, pages: Seq<(Option<Seq<char>>, bool)>) -> PagerState
    decreases pages.len(),
{
    if pages.len() == 0 {
        state
    } else {
        let (token, empty) = pages.last();
        after_page(after_pages(state, pages.drop_last()), token, empty)
    }
}

/// An enumeration has ended after any run of pages whose last page carries no
/// token, whatever the pages before it listed.
pub proof fn lemma_last_page_ends(state: PagerState, pages: Seq<(Option<Seq<char>>, bool)>)
    requires
        pages.len() > 0,
        pages.last().0 is None,
    ensures
        after_pages(state, pages).done,
{
}

/// An enumeration has ended after any run of pages that holds a page which
/// lists nothing.
pub proof fn lemma_empty_page_ends(
    state: PagerState,
    pages: Seq<(Option<Seq<char>>, bool)>,
    k: int,
)
    requires
        0 <= k < pages.len(),
        pages[k].1,
    ensures
        after_pages(state, pages).done,
    decreases pages.len(),
{
    if k < pages.len() - 1 {
        lemma_empty_page_ends(state, pages.drop_last(), k);
    }
}

/// An enumeration that has ended is not moved by further pages.
pub proof fn lemma_ended_stays(state: PagerState, pages: Seq<(Option<Seq<char>>, bool)>)
    requires
        state.done,
    ensures
        after_pages(state, pages) == state,
    decreases pages.len(),
{
    if pages.len() > 0 {
        lemma_ended_stays(state, pages.drop_last());
    }
}

/// The enumeration of the listing of one platform, page by page.
///
/// The caller asks for the address of the next page, fetches it, and hands
/// the page back; this goes on until no address is given.
#[derive(Debug, Clone)]
pub struct ChromiumBuildsPage {
    prefix: &'static str,
    next_page_token: Option<String>,
    done: bool,
}

impl View for ChromiumBuildsPage {
    type V = PagerState;

    closed spec fn view(&self) -> PagerState {
        PagerState {
            platform: self.prefix@,
            token: token_view(self.next_page_token),
            done: self.done,
        }
    }
}

impl ChromiumBuildsPage {
    /// An enumeration of the builds of the platform tagged `prefix` that has
    /// not asked for any page yet.
    pub fn new(prefix: &'static str) -> (pager: Self)
        ensures
            pager@ == (PagerState { platform: prefix@, token: None, done: false }),
    {
        ChromiumBuildsPage { prefix, next_page_token: None, done: false }
    }

    /// Whether the enumeration has ended.
    pub fn is_done(&self) -> (done: bool)
        ensures
            done == self@.done,
    {
        self.done
    }

    /// The address of the page to fetch next, or nothing once the enumeration
    /// has ended. The token is part of the address only when the last page
    /// gave one.
    pub fn request(&self) -> (url: Option<String>)
        ensures
            url is None <==> self@.done,
            url is Some ==> url->0@ == listing_url(self@.platform, self@.token),
    {
        if self.done {
            return None;
        }
        let mut folder = String::from_str(self.prefix);
        folder.append("/");
        let mut url = build_detail_request(folder.as_str());
        match &self.next_page_token {
            Some(token) => {
                url.append("&pageToken=");
                url.append(token.as_str());
                assert(url@ == listing_url(self@.platform, self@.token));
            },
            None => {},
        }
        Some(url)
    }

    /// Takes the page that was fetched from the address last given, and hands
    /// out the folders it lists.
    ///
    /// Nothing is handed out by a page that lists nothing, nor once the
    /// enumeration has ended.
    pub fn accept(&mut self, page: ChromiumBuildPage) -> (listed: Option<Vec<String>>)
        ensures
            final(self)@ == after_page(
                old(self)@,
                token_view(page.next_page_token),
                page.prefixes@.len() == 0,
            ),
            listed is None <==> old(self)@.done || page.prefixes@.len() == 0,
            listed is Some ==> listed->0 == page.prefixes,
    {
        if self.done {
            return None;
        }
        let empty = page.prefixes.len() == 0;
        self.done = page.next_page_token.is_none() || empty;
        self.next_page_token = page.next_page_token;
        if empty {
            None
        } else {
            Some(page.prefixes)
        }
    }
}

/// An accepted entry has one shape and no other: the platform tag, a
/// separator, a revision that reads as an unsigned number, and a closing
/// separator. An entry that splits into another number of segments, that
/// goes on after the closing separator, or whose revision reads as no number,
/// is never accepted.
pub proof fn lemma_accepted_shape(entry: Seq<char>, platform: Seq<char>)
    ensures
        accepted_revision(entry, platform) is Some <==> {
            let parts = split_on(entry, '/');
            &&& parts.len() == 3
            &&& parts[0] == platform
            &&& parts[2].len() == 0
            &&& parse_unsigned(parts[1], usize::MAX as nat) is Some
        },
        accepted_revision(entry, platform) is Some ==> {
            let revision = split_on(entry, '/')[1];
            &&& entry == platform + seq!['/'] + revision + seq!['/']
            &&& accepted_revision(entry, platform) == parse_unsigned(revision, usize::MAX as nat)
        },
{
    if accepted_revision(entry, platform) is Some {
        let parts = split_on(entry, '/');
        lemma_join_split(entry, '/');
        assert(parts.drop_last().drop_last() == seq![parts[0]]);
        assert(join(parts.drop_last().drop_last(), '/') == parts[0]);
        assert(join(parts.drop_last(), '/') == parts[0] + seq!['/'] + parts[1]);
        assert(join(parts, '/') == parts[0] + seq!['/'] + parts[1] + seq!['/'] + parts[2]);
        assert(parts[0] + seq!['/'] + parts[1] + seq!['/'] + parts[2] == parts[0] + seq!['/']
            + parts[1] + seq!['/']);
    }
}

/// The first kept element of a sequence that begins with a wanted one is
/// that one.
proof fn lemma_filter_head(s: Seq<Seq<char>>, wanted: spec_fn(Seq<char>) -> bool)
    requires
        s.len() > 0,
        wanted(s[0]),
    ensures
        s.filter(wanted).len() > 0,
        s.filter(wanted)[0] == s[0],
    decreases s.len(),
{
    reveal(Seq::filter);
    if s.len() > 1 {
        lemma_filter_head(s.drop_last(), wanted);
    }
}

/// The first kept element of a sequence is its first wanted one.
proof fn lemma_filter_first(s: Seq<Seq<char>>, wanted: spec_fn(Seq<char>) -> bool, i: int)
    requires
        0 <= i < s.len(),
        wanted(s[i]),
        forall|j: int| 0 <= j < i ==> !wanted(#[trigger] s[j]),
    ensures
        s.filter(wanted).len() > 0,
        s.filter(wanted)[0] == s[i],
{
    lemma_filter_split(s, i, wanted);
    lemma_filter_none(s.take(i), wanted);
    lemma_filter_head(s.skip(i), wanted);
}

/// One build of the catalog: the folder that holds it, and its revision.
#[derive(Debug, Clone, PartialEq, Eq)]
pub struct BuildEntry {
    /// The folder of the build in the object store.
    pub prefix: String,
    /// The revision that the folder is named after.
    pub revision: usize,
}

/// The entries that name a build of `platform`.
pub open spec fn names_a_build(platform: Seq<char>) -> spec_fn(Seq<char>) -> bool {
    |entry: Seq<char>| accepted_revision(entry, platform) is Some
}

/// The entries that name a build of `platform` at `revision`.
pub open spec fn at_revision(platform: Seq<char>, revision: nat) -> spec_fn(Seq<char>) -> bool {
    |entry: Seq<char>| accepted_revision(entry, platform) == Some(revision)
}

/// Of a sequence in which nothing is wanted, nothing is kept.
proof fn lemma_filter_none(s: Seq<Seq<char>>, wanted: spec_fn(Seq<char>) -> bool)
    requires
        forall|k: int| 0 <= k < s.len() ==> !wanted(#[trigger] s[k]),
    ensures
        s.filter(wanted) == Seq::<Seq<char>>::empty(),
    decreases s.len(),
{
    reveal(Seq::filter);
    if s.len() > 0 {
        lemma_filter_none(s.drop_last(), wanted);
    }
}

/// What is kept of a sequence is what is kept of its two parts.
proof fn lemma_filter_split(s: Seq<Seq<char>>, at: int, wanted: spec_fn(Seq<char>) -> bool)
    requires
        0 <= at <= s.len(),
    ensures
        s.filter(wanted) == s.take(at).filter(wanted) + s.skip(at).filter(wanted),
{
    assert(s == s.take(at) + s.skip(at));
    Seq::filter_distributes_over_add(s.take(at), s.skip(at), wanted);
}

/// What is kept of a sequence with one more element put in is what is kept
/// before that place, the element if it is wanted, and what is kept after.
proof fn lemma_filter_insert(
    s: Seq<Seq<char>>,
    at: int,
    entry: Seq<char>,
    wanted: spec_fn(Seq<char>) -> bool,
)
    requires
        0 <= at <= s.len(),
    ensures
        s.insert(at, entry).filter(wanted) == s.take(at).filter(wanted) + (if wanted(entry) {
            seq![entry]
        } else {
            Seq::<Seq<char>>::empty()
        }) + s.skip(at).filter(wanted),
{
    assert(s.insert(at, entry) == s.take(at).push(entry) + s.skip(at));
    Seq::filter_distributes_over_add(s.take(at).push(entry), s.skip(at), wanted);
    s.take(at).lemma_filter_push(entry, wanted);
    if wanted(entry) {
        assert(s.take(at).filter(wanted).push(entry) == s.take(at).filter(wanted) + seq![entry]);
    } else {
        assert(s.take(at).filter(wanted) + Seq::<Seq<char>>::empty() == s.take(at).filter(wanted));
    }
}

/// The folders of a sequence of builds.
pub open spec fn prefixes(builds: Seq<BuildEntry>) -> Seq<Seq<char>> {
    builds.map_values(|build: BuildEntry| build.prefix@)
}

/// Whether `catalog` is the catalog of the builds of `platform` in `listing`:
/// every build in it is named by its folder and carries the revision of that
/// name, the revisions ascend, and the builds of each revision are the
/// entries of the listing that name that revision, in the order of the
/// listing.
pub open spec fn is_catalog(
    listing: Seq<Seq<char>>,
    platform: Seq<char>,
    catalog: Seq<BuildEntry>,
) -> bool {
    &&& forall|k: int|
        0 <= k < catalog.len() ==> accepted_revision((#[trigger] catalog[k]).prefix@, platform)
            == Some(catalog[k].revision as nat)
    &&& forall|i: int, j: int|
        0 <= i < j < catalog.len() ==> (#[trigger] catalog[i]).revision <= (
        #[trigger] catalog[j]).revision
    &&& forall|revision: nat| #[trigger]
        prefixes(catalog).filter(at_revision(platform, revision)) == listing.filter(
            at_revision(platform, revision),
        )
    &&& prefixes(catalog).to_multiset() == listing.filter(names_a_build(platform)).to_multiset()
}

/// What is kept of a sequence holds nothing twice where the sequence holds
/// nothing wanted twice.
proof fn lemma_filter_unique(s: Seq<Seq<char>>, wanted: spec_fn(Seq<char>) -> bool)
    requires
        forall|i: int, j: int| 0 <= i < j < s.len() && wanted(s[i]) ==> s[i] != s[j],
    ensures
        s.filter(wanted).no_duplicates(),
    decreases s.len(),
{
    reveal(Seq::filter);
    if s.len() > 0 {
        let rest = s.drop_last();
        let kept = rest.filter(wanted);
        lemma_filter_unique(rest, wanted);
        if wanted(s.last()) {
            if kept.contains(s.last()) {
                rest.lemma_filter_contains_rev(wanted, s.last());
                let i = choose|i: int| 0 <= i < rest.len() && rest[i] == s.last();
                assert(s[i] == s[s.len() - 1]);
                assert(wanted(s[i]));
                assert(false);
            }
            assert forall|x: int, y: int|
                0 <= x < kept.push(s.last()).len() && 0 <= y < kept.push(s.last()).len() && x
                    != y implies kept.push(s.last())[x] != kept.push(s.last())[y] by {
                if x < kept.len() && y < kept.len() {
                    assert(kept[x] != kept[y]);
                } else if x < kept.len() {
                    assert(kept.contains(kept[x]));
                } else {
                    assert(kept.contains(kept[y]));
                }
            }
        }
    }
}

/// A catalog is unique by folder wherever the listing is: if the listing
/// names no build of the platform twice, no folder stands twice in the
/// catalog. A listing that does name a build twice has it twice in the
/// catalog too, as `is_catalog` says.
pub proof fn lemma_catalog_is_unique_by_prefix(
    listing: Seq<Seq<char>>,
    platform: Seq<char>,
    catalog: Seq<BuildEntry>,
)
    requires
        is_catalog(listing, platform, catalog),
        forall|i: int, j: int|
            0 <= i < j < listing.len() && accepted_revision(listing[i], platform) is Some
                ==> listing[i] != listing[j],
    ensures
        prefixes(catalog).no_duplicates(),
{
    let builds = listing.filter(names_a_build(platform));
    lemma_filter_unique(listing, names_a_build(platform));
    builds.lemma_multiset_has_no_duplicates();
    prefixes(catalog).lemma_multiset_has_no_duplicates_conv();
}

/// The nearest build is found by walking the catalog in its order: the build
/// that answers a position is the first build of the catalog whose revision
/// is at or after the position.
pub proof fn lemma_nearest_is_first_in_catalog(
    listing: Seq<Seq<char>>,
    platform: Seq<char>,
    catalog: Seq<BuildEntry>,
    target: nat,
    i: int,
    k: int,
)
    requires
        is_catalog(listing, platform, catalog),
        is_nearest(listing, platform, target, i),
        0 <= k < catalog.len(),
        catalog[k].revision >= target,
        forall|j: int| 0 <= j < k ==> (#[trigger] catalog[j]).revision < target,
    ensures
        catalog[k].prefix@ == listing[i],
        catalog[k].revision as nat == accepted_revision(listing[i], platform)->0,
{
    let folders = prefixes(catalog);
    let least = accepted_revision(listing[i], platform)->0;
    let here = catalog[k].revision as nat;
    let of_least = at_revision(platform, least);
    let of_here = at_revision(platform, here);
    // The build at place k is an entry of the listing, so it is not nearer
    // than the nearest.
    assert(of_here(folders[k]));
    folders.lemma_filter_contains(of_here, k);
    listing.lemma_filter_contains_rev(of_here, folders[k]);
    let j = choose|j: int| 0 <= j < listing.len() && listing[j] == folders[k];
    assert(reaches(listing, platform, target, j));
    assert(here >= least);
    // The nearest entry is a build of the catalog, at place k or later.
    assert(of_least(listing[i]));
    listing.lemma_filter_contains(of_least, i);
    folders.lemma_filter_contains_rev(of_least, listing[i]);
    let m = choose|m: int| 0 <= m < folders.len() && folders[m] == listing[i];
    assert(catalog[m].revision as nat == least);
    assert(m >= k);
    assert(here == least);
    // Both are the first of their revision.
    assert forall|e: int| 0 <= e < i implies !of_least(#[trigger] listing[e]) by {
        if of_least(listing[e]) {
            assert(reaches(listing, platform, target, e));
        }
    }
    lemma_filter_first(listing, of_least, i);
    assert forall|e: int| 0 <= e < k implies !of_least(#[trigger] folders[e]) by {
        assert(catalog[e].revision < target);
    }
    lemma_filter_first(folders, of_least, k);
}

impl ChromiumBuilds {
    /// The builds of the platform tagged `os_prefix`, by ascending revision.
    ///
    /// Every entry of the listing that names a build of the platform is
    /// there, as often as it is listed, with the revision that it is named
    /// after; no other entry is. Builds of one revision keep the order in
    /// which they are listed.
    pub fn entries(&self, os_prefix: &str) -> (catalog: Vec<BuildEntry>)
        ensures
            is_catalog(self@, os_prefix@, catalog@),
    {
        let platform = to_chars(os_prefix);
        let mut catalog: Vec<BuildEntry> = Vec::new();
        let mut i: usize = 0;
        proof {
            assert(self@.take(0).filter(names_a_build(os_prefix@)) == Seq::<Seq<char>>::empty()) by {
                reveal(Seq::filter);
            }
            assert(prefixes(catalog@) == Seq::<Seq<char>>::empty());
            assert forall|revision: nat| #[trigger]
                prefixes(catalog@).filter(at_revision(os_prefix@, revision)) == self@.take(
                    0,
                ).filter(at_revision(os_prefix@, revision)) by {
                reveal(Seq::filter);
            }
        }
        while i < self.0.len()
            invariant
                i <= self.0.len(),
                platform@ == os_prefix@,
                forall|revision: nat| #[trigger]
                    prefixes(catalog@).filter(at_revision(os_prefix@, revision)) == self@.take(
                        i as int,
                    ).filter(at_revision(os_prefix@, revision)),
                forall|k: int|
                    0 <= k < catalog@.len() ==> accepted_revision(
                        (#[trigger] catalog@[k]).prefix@,
                        os_prefix@,
                    ) == Some(catalog@[k].revision as nat),
                forall|x: int, y: int|
                    0 <= x < y < catalog@.len() ==> (#[trigger] catalog@[x]).revision <= (
                    #[trigger] catalog@[y]).revision,
                prefixes(catalog@).to_multiset() == self@.take(i as int).filter(
                    names_a_build(os_prefix@),
                ).to_multiset(),
            decreases self.0.len() - i,
        {
            let entry = &self.0[i];
            proof {
                assert(self@.take(i + 1) == self@.take(i as int).push(entry@));
                self@.take(i as int).lemma_filter_push(entry@, names_a_build(os_prefix@));
                assert forall|revision: nat|
                    (#[trigger] self@.take(i + 1).filter(at_revision(os_prefix@, revision)))
                        == if at_revision(os_prefix@, revision)(entry@) {
                        self@.take(i as int).filter(at_revision(os_prefix@, revision)).push(entry@)
                    } else {
                        self@.take(i as int).filter(at_revision(os_prefix@, revision))
                    } by {
                    self@.take(i as int).lemma_filter_push(
                        entry@,
                        at_revision(os_prefix@, revision),
                    );
                }
            }
            match revision_of(entry.as_str(), &platform) {
                Some(revision) => {
                    let ghost before = catalog@;
                    let mut at: usize = catalog.len();
                    while at > 0 && catalog[at - 1].revision > revision
                        invariant
                            at <= catalog@.len(),
                            catalog@ == before,
                            forall|k: int|
                                at <= k < catalog@.len() ==> (#[trigger] catalog@[k]).revision
                                    > revision,
                        decreases at,
                    {
                        at -= 1;
                    }
                    let build = BuildEntry { prefix: entry.clone(), revision };
                    catalog.insert(at, build);
                    proof {
                        assert(prefixes(catalog@) == prefixes(before).insert(at as int, entry@));
                        assert(prefixes(catalog@).to_multiset() == self@.take(i + 1).filter(
                            names_a_build(os_prefix@),
                        ).to_multiset()) by {
                            to_multiset_insert(prefixes(before), at as int, entry@);
                            to_multiset_build(
                                self@.take(i as int).filter(names_a_build(os_prefix@)),
                                entry@,
                            );
                        }
                        assert forall|r: nat| #[trigger]
                            prefixes(catalog@).filter(at_revision(os_prefix@, r)) == self@.take(
                                i + 1,
                            ).filter(at_revision(os_prefix@, r)) by {
                            let wanted = at_revision(os_prefix@, r);
                            let folders = prefixes(before);
                            lemma_filter_insert(folders, at as int, entry@, wanted);
                            if wanted(entry@) {
                                assert forall|k: int| 0 <= k < folders.skip(at as int).len() implies !wanted(
                                    #[trigger] folders.skip(at as int)[k],
                                ) by {
                                    assert(folders.skip(at as int)[k] == before[at + k].prefix@);
                                }
                                lemma_filter_none(folders.skip(at as int), wanted);
                            }
                            lemma_filter_split(folders, at as int, wanted);
                        }
                        assert forall|k: int| 0 <= k < catalog@.len() implies accepted_revision(
                            (#[trigger] catalog@[k]).prefix@,
                            os_prefix@,
                        ) == Some(catalog@[k].revision as nat) by {
                            if k < at {
                                assert(catalog@[k] == before[k]);
                            } else if k > at {
                                assert(catalog@[k] == before[k - 1]);
                            }
                        }
                        assert forall|x: int, y: int| 0 <= x < y < catalog@.len() implies (
                        #[trigger] catalog@[x]).revision <= (#[trigger] catalog@[y]).revision by {
                            if x < at {
                                assert(catalog@[x] == before[x]);
                            } else if x > at {
                                assert(catalog@[x] == before[x - 1]);
                            }
                            if y < at {
                                assert(catalog@[y] == before[y]);
                            } else if y > at {
                                assert(catalog@[y] == before[y - 1]);
                            }
                        }
                    }
                },
                None => {},
            }
            i += 1;
        }
        proof {
            assert(self@.take(self.0.len() as int) == self@);
        }
        catalog
    }
}

} // verus!
