use fetchchromium::builds::ChromiumBuilds;
use fetchchromium::chromium::{
    pick_archive, ChromiumReleaseItem, ChromiumReleaseMatches, ChromiumReleases, FetchError,
};
use fetchchromium::builds::GoogleApiStorageObject;
use fetchchromium::history::{
    history_request, matches_version, ChromiumDepsInfo, ChromiumHistory, ChromiumHistoryInfo,
};
use fetchchromium::platform::{Arch, Os, Platform};

fn record(version: &str) -> ChromiumHistoryInfo {
    ChromiumHistoryInfo {
        channel: "stable".to_string(),
        os: "win64".to_string(),
        timestamp: "2023-01-01 00:00:00".to_string(),
        version: version.to_string(),
    }
}

fn deps(version: &str, position: Option<&str>) -> ChromiumDepsInfo {
    ChromiumDepsInfo {
        chromium_base_commit: None,
        chromium_base_position: position.map(|p| p.to_string()),
        chromium_branch: None,
        chromium_commit: "c".to_string(),
        chromium_version: version.to_string(),
        skia_commit: "s".to_string(),
        v8_commit: "v".to_string(),
        v8_position: "1".to_string(),
        v8_version: "1.2".to_string(),
    }
}

fn releases(history: &[&str], builds: &[&str]) -> ChromiumReleases {
    ChromiumReleases {
        platform: Platform::new(Os::Windows, Arch::X86_64),
        history: ChromiumHistory(history.iter().map(|v| record(v)).collect()),
        builds: ChromiumBuilds(builds.iter().map(|b| b.to_string()).collect()),
    }
}

fn object(name: &str) -> GoogleApiStorageObject {
    GoogleApiStorageObject {
        kind: "storage#object".to_string(),
        media_link: format!("https://example.invalid/{}", name),
        name: name.to_string(),
        size: "1".to_string(),
        updated: "now".to_string(),
    }
}

#[test]
fn a_request_selects_the_version_itself_and_what_goes_on_with_a_dot() {
    let history = ChromiumHistory(vec![
        record("115.0.0.1"),
        record("11"),
        record("110"),
        record("11.0.1"),
        record("1"),
        record("11."),
        record(".11"),
    ]);
    let found: Vec<&str> = history.find("11").iter().map(|r| r.version.as_str()).collect();
    assert_eq!(found, vec!["11", "11.0.1", "11."]);
}

#[test]
fn matches_version_on_single_cases() {
    assert!(matches_version("11", "11"));
    assert!(matches_version("11.0.1", "11"));
    assert!(!matches_version("115.0.0.1", "11"));
    assert!(!matches_version("110", "11"));
    assert!(!matches_version("1", "11"));
    assert!(matches_version("", ""));
    assert!(matches_version(".5", ""));
    assert!(!matches_version("5", ""));
    assert!(matches_version("114.0.5735.90", "114.0.5735"));
    assert!(!matches_version("114.0.5735.90", "114.0.573"));
}

#[test]
fn find_keeps_the_order_of_the_history_and_every_copy() {
    let history = ChromiumHistory(vec![record("2.1"), record("3.0"), record("2.0"), record("2.1")]);
    let found: Vec<&str> = history.find("2").iter().map(|r| r.version.as_str()).collect();
    assert_eq!(found, vec!["2.1", "2.0", "2.1"]);
    assert!(history.find("4").is_empty());
}

#[test]
fn addresses_of_history_and_deps() {
    assert_eq!(
        history_request("win64", "stable"),
        "https://omahaproxy.appspot.com/history.json?os=win64&channel=stable"
    );
    assert_eq!(
        record("114.0.5735.90").deps_request(),
        "https://omahaproxy.appspot.com/deps.json?version=114.0.5735.90"
    );
}

#[test]
fn position_reads_a_number_or_nothing() {
    assert_eq!(deps("1.0.0.0", Some("1135570")).position(), Some(1135570));
    assert_eq!(deps("1.0.0.0", Some("+7")).position(), Some(7));
    assert_eq!(deps("1.0.0.0", Some("")).position(), None);
    assert_eq!(deps("1.0.0.0", Some("12a")).position(), None);
    assert_eq!(deps("1.0.0.0", Some("-3")).position(), None);
    assert_eq!(deps("1.0.0.0", None).position(), None);
}

#[test]
fn resolve_passes_over_candidates_without_a_position() {
    let releases = releases(&[], &["Win_x64/100/", "Win_x64/250/", "Win_x64/400/"]);
    let candidates = vec![
        deps("3.0.0.0", None),
        deps("2.0.0.0", None),
        deps("1.0.0.0", Some("200")),
    ];
    assert_eq!(
        releases.resolve(&candidates),
        Ok(ChromiumReleaseItem {
            rev_prefix: "Win_x64/250/".to_string(),
            version: "1.0.0.0".to_string(),
        })
    );
}

#[test]
fn resolve_passes_over_unreadable_positions_and_misses() {
    let releases = releases(&[], &["Win_x64/100/", "Win_x64/250/", "Win_x64/400/"]);
    let candidates = vec![
        deps("5.0.0.0", Some("two hundred")),
        deps("4.0.0.0", Some("1000")),
        deps("3.0.0.0", Some("129")),
        deps("2.0.0.0", Some("390")),
        deps("1.0.0.0", Some("100")),
    ];
    assert_eq!(
        releases.resolve(&candidates),
        Ok(ChromiumReleaseItem {
            rev_prefix: "Win_x64/400/".to_string(),
            version: "2.0.0.0".to_string(),
        })
    );
}

#[test]
fn resolve_finds_nothing_when_no_candidate_has_a_build() {
    let releases = releases(&[], &["Win_x64/100/", "Win/250/"]);
    assert_eq!(releases.resolve(&vec![]), Err(FetchError::NotFound));
    assert_eq!(
        releases.resolve(&vec![deps("1.0.0.0", None), deps("2.0.0.0", Some("200"))]),
        Err(FetchError::NotFound)
    );
}

#[test]
fn locate_answers_with_the_nearest_build_and_the_full_version() {
    let releases = releases(&[], &["Win_x64/300/", "Win_x64/210/", "Linux_x64/205/"]);
    assert_eq!(
        releases.locate(&deps("9.8.7.6", Some("200"))),
        Some(ChromiumReleaseItem {
            rev_prefix: "Win_x64/210/".to_string(),
            version: "9.8.7.6".to_string(),
        })
    );
    assert_eq!(releases.locate(&deps("9.8.7.6", Some("301"))), None);
}

#[test]
fn the_search_goes_through_the_records_one_at_a_time() {
    let releases = releases(
        &["115.0.1.0", "114.0.3.0", "114.0.2.0", "114.0.1.0", "113.0.0.1"],
        &["Win_x64/100/", "Win_x64/250/"],
    );
    let mut matches = releases.match_version("114");
    assert_eq!(matches.pending().map(|r| r.version.as_str()), Some("114.0.3.0"));
    assert_eq!(matches.offer(&deps("114.0.3.0", None)), None);
    assert_eq!(matches.pending().map(|r| r.version.as_str()), Some("114.0.2.0"));
    assert_eq!(
        matches.offer(&deps("114.0.2.0", Some("240"))),
        Some(ChromiumReleaseItem {
            rev_prefix: "Win_x64/250/".to_string(),
            version: "114.0.2.0".to_string(),
        })
    );
    assert_eq!(matches.pending().map(|r| r.version.as_str()), Some("114.0.1.0"));
    assert_eq!(matches.offer(&deps("114.0.1.0", Some("900"))), None);
    assert!(matches.pending().is_none());
    assert_eq!(matches.offer(&deps("114.0.1.0", Some("240"))), None);
    assert!(matches.pending().is_none());
}

#[test]
fn a_search_over_no_record_has_nothing_pending() {
    let releases = releases(&["1.0.0.0"], &["Win_x64/100/"]);
    let mut matches = ChromiumReleaseMatches::new(&releases, Vec::new());
    assert!(matches.pending().is_none());
    assert_eq!(matches.offer(&deps("1.0.0.0", Some("100"))), None);
}

#[test]
fn pick_archive_goes_by_the_order_of_the_names_first() {
    let files = vec![
        object("Win_x64/1/chrome-linux.zip"),
        object("Win_x64/1/pnacl.zip"),
        object("Win_x64/1/chrome-win32.zip"),
        object("Win_x64/1/chrome-win.zip"),
        object("Win_x64/1/again/chrome-win.zip"),
    ];
    assert_eq!(pick_archive(&files).map(|f| f.name.as_str()), Some("Win_x64/1/chrome-win.zip"));
    let files = vec![object("Mac/1/chrome-mac.zip.sig"), object("Mac/1/chrome-mac.zip")];
    assert_eq!(pick_archive(&files).map(|f| f.name.as_str()), Some("Mac/1/chrome-mac.zip"));
    assert!(pick_archive(&vec![object("Mac/1/REVISIONS"), object("zip")]).is_none());
    assert!(pick_archive(&vec![]).is_none());
}

#[test]
fn the_folder_and_the_detail_address_of_a_build() {
    let item = ChromiumReleaseItem {
        rev_prefix: "Win_x64/1135570/".to_string(),
        version: "114.0.5735.90".to_string(),
    };
    assert_eq!(item.folder(), "chromium-114.0.5735.90");
    assert_eq!(
        item.detail_request(),
        "https://www.googleapis.com/storage/v1/b/chromium-browser-snapshots/o?delimiter=/&prefix=Win_x64/1135570/&fields=items(kind,mediaLink,metadata,name,size,updated),kind,prefixes,nextPageToken"
    );
}
