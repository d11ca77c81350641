use fetchchromium::builds::{
    build_detail_request, revision_of, BuildEntry, ChromiumBuildPage, ChromiumBuilds,
    ChromiumBuildsPage, BUILD_TOLERANCE,
};
use fetchchromium::text::to_chars;

fn catalog(entries: &[&str]) -> ChromiumBuilds {
    ChromiumBuilds(entries.iter().map(|e| e.to_string()).collect())
}

fn page(prefixes: &[&str], token: Option<&str>) -> ChromiumBuildPage {
    ChromiumBuildPage {
        kind: "storage#objects".to_string(),
        next_page_token: token.map(|t| t.to_string()),
        prefixes: prefixes.iter().map(|p| p.to_string()).collect(),
        items: Vec::new(),
    }
}

#[test]
fn find_takes_the_least_revision_at_or_after_the_position() {
    let builds = catalog(&["Win/100/", "Win/250/", "Win/400/"]);
    assert_eq!(builds.find(200, "Win"), Some(&"Win/250/".to_string()));
    assert_eq!(builds.find(50, "Win"), Some(&"Win/100/".to_string()));
    assert_eq!(builds.find(1000, "Win"), None);
}

#[test]
fn find_keeps_to_the_tolerance() {
    let builds = catalog(&["Win/100/", "Win/250/", "Win/400/"]);
    assert_eq!(builds.find(130, "Win"), Some(&"Win/250/".to_string()));
    assert_eq!(builds.find(129, "Win"), None);
    assert_eq!(builds.find(250, "Win"), Some(&"Win/250/".to_string()));
    assert_eq!(builds.find(251, "Win"), None);
    assert_eq!(builds.find(280, "Win"), Some(&"Win/400/".to_string()));
}

#[test]
fn find_does_not_depend_on_the_order_of_the_listing() {
    let builds = catalog(&["Win/400/", "Win/100/", "Win/250/"]);
    assert_eq!(builds.find(200, "Win"), Some(&"Win/250/".to_string()));
    assert_eq!(builds.find(0, "Win"), Some(&"Win/100/".to_string()));
}

#[test]
fn find_takes_the_first_of_two_entries_with_one_revision() {
    let builds = catalog(&["Win/0250/", "Win/250/"]);
    assert_eq!(builds.find(200, "Win"), Some(&"Win/0250/".to_string()));
}

#[test]
fn find_passes_over_what_names_no_build() {
    let builds = catalog(&[
        "Win/201",
        "Win/202/x/",
        "Win_x64/203/",
        "Win/abc/",
        "Win//",
        "/204/",
        "Win/-205/",
        "Win/2 06/",
        "Win/250/",
    ]);
    assert_eq!(builds.find(200, "Win"), Some(&"Win/250/".to_string()));
    assert_eq!(catalog(&[]).find(0, "Win"), None);
}

#[test]
fn find_on_the_largest_position_does_not_overflow() {
    let top = format!("Win/{}/", usize::MAX);
    let builds = catalog(&[&top, "Win/7/"]);
    assert_eq!(builds.find(usize::MAX, "Win"), Some(&top));
    assert_eq!(builds.find(usize::MAX - 120, "Win"), Some(&top));
    assert_eq!(builds.find(usize::MAX - 121, "Win"), None);
}

#[test]
fn revision_of_reads_what_the_standard_parse_reads() {
    let win = to_chars("Win");
    for middle in ["7", "007", "+7", "", "+", "++7", "-7", "7a", " 7", "18446744073709551615",
        "18446744073709551616", "99999999999999999999999"]
    {
        let entry = format!("Win/{}/", middle);
        assert_eq!(revision_of(&entry, &win), middle.parse::<usize>().ok(), "{}", entry);
    }
    assert_eq!(revision_of("Win/7/", &to_chars("Mac")), None);
    assert_eq!(revision_of("Win/7", &win), None);
    assert_eq!(revision_of("Win/7//", &win), None);
}

#[test]
fn from_pages_keeps_the_order_of_the_pages() {
    let pages = vec![
        vec!["Win/1/".to_string(), "Win/2/".to_string()],
        vec![],
        vec!["Win/3/".to_string()],
    ];
    let builds = ChromiumBuilds::from_pages(pages);
    assert_eq!(builds.0, vec!["Win/1/".to_string(), "Win/2/".to_string(), "Win/3/".to_string()]);
    assert_eq!(ChromiumBuilds::from_pages(Vec::new()).0, Vec::<String>::new());
}

#[test]
fn pager_asks_without_a_token_first_and_with_it_later() {
    let mut pager = ChromiumBuildsPage::new("Win_x64");
    assert_eq!(
        pager.request(),
        Some("https://www.googleapis.com/storage/v1/b/chromium-browser-snapshots/o?delimiter=/&prefix=Win_x64/&fields=items(kind,mediaLink,metadata,name,size,updated),kind,prefixes,nextPageToken".to_string())
    );
    let listed = pager.accept(page(&["Win_x64/1/"], Some("abc")));
    assert_eq!(listed, Some(vec!["Win_x64/1/".to_string()]));
    assert!(!pager.is_done());
    assert_eq!(
        pager.request(),
        Some("https://www.googleapis.com/storage/v1/b/chromium-browser-snapshots/o?delimiter=/&prefix=Win_x64/&fields=items(kind,mediaLink,metadata,name,size,updated),kind,prefixes,nextPageToken&pageToken=abc".to_string())
    );
}

#[test]
fn pager_ends_after_the_page_without_a_token() {
    let mut pager = ChromiumBuildsPage::new("Mac");
    assert_eq!(pager.accept(page(&["Mac/1/", "Mac/2/"], Some("t1"))).map(|p| p.len()), Some(2));
    assert_eq!(pager.accept(page(&["Mac/3/"], Some("t2"))).map(|p| p.len()), Some(1));
    assert_eq!(pager.accept(page(&["Mac/4/"], None)), Some(vec!["Mac/4/".to_string()]));
    assert!(pager.is_done());
    assert_eq!(pager.request(), None);
    assert_eq!(pager.accept(page(&["Mac/5/"], Some("t3"))), None);
    assert!(pager.is_done());
    assert_eq!(pager.request(), None);
}

#[test]
fn pager_ends_on_a_page_that_lists_nothing() {
    let mut pager = ChromiumBuildsPage::new("Mac");
    assert_eq!(pager.accept(page(&[], None)), None);
    assert!(pager.is_done());
    assert_eq!(pager.request(), None);

    let mut pager = ChromiumBuildsPage::new("Mac");
    assert_eq!(pager.accept(page(&[], Some("more"))), None);
    assert!(pager.is_done());
    assert_eq!(pager.request(), None);
}

#[test]
fn the_tolerance_is_one_hundred_and_twenty() {
    assert_eq!(BUILD_TOLERANCE, 120);
}

#[test]
fn entries_are_the_builds_of_the_platform_by_revision() {
    let builds = catalog(&[
        "Win/400/",
        "Win/abc/",
        "Mac/5/",
        "Win/100/",
        "Win/250",
        "Win/0250/",
        "Win/250/",
        "Win/7/extra/",
    ]);
    let entry = |prefix: &str, revision: usize| BuildEntry { prefix: prefix.to_string(), revision };
    assert_eq!(
        builds.entries("Win"),
        vec![entry("Win/100/", 100), entry("Win/0250/", 250), entry("Win/250/", 250), entry("Win/400/", 400)]
    );
    assert_eq!(builds.entries("Mac"), vec![entry("Mac/5/", 5)]);
    assert_eq!(builds.entries("Linux"), vec![]);
}

#[test]
fn every_entry_of_the_catalog_splits_into_tag_revision_and_nothing() {
    let builds = catalog(&["Win/3/", "Win/x/", "Win/2", "Win//", "Win/1/", "/4/", "Win/5/6/"]);
    for entry in builds.entries("Win") {
        let parts: Vec<&str> = entry.prefix.split('/').collect();
        assert_eq!(parts.len(), 3);
        assert_eq!(parts[0], "Win");
        assert_eq!(parts[1].parse::<usize>(), Ok(entry.revision));
        assert_eq!(parts[2], "");
    }
    assert_eq!(builds.entries("Win").len(), 2);
}

#[test]
fn find_agrees_with_the_catalog_in_order() {
    let builds = catalog(&["Win/900/", "Win/100/", "Win/530/", "Win/x/", "Win/250/", "Win/400/"]);
    let sorted = builds.entries("Win");
    for position in [0usize, 99, 100, 101, 130, 250, 251, 279, 280, 400, 410, 411, 530, 779, 780, 900, 901] {
        let want = sorted
            .iter()
            .find(|e| e.revision >= position)
            .filter(|e| e.revision - position <= BUILD_TOLERANCE)
            .map(|e| &e.prefix);
        assert_eq!(builds.find(position, "Win"), want, "{}", position);
    }
}

#[test]
fn the_address_of_the_files_of_a_build() {
    assert_eq!(
        build_detail_request("Mac/12/"),
        "https://www.googleapis.com/storage/v1/b/chromium-browser-snapshots/o?delimiter=/&prefix=Mac/12/&fields=items(kind,mediaLink,metadata,name,size,updated),kind,prefixes,nextPageToken"
    );
}
