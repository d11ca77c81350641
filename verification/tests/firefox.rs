use bytes::Bytes;
use fetchchromium::firefox::{
    embedded_archive, installer_request, is_valid_version, FirefoxVersionSpider,
    LISTING_STACK_PER_CHAR, MAX_LISTING_CHARS,
};
use fetchchromium::utils::find_sequence;

fn spider(names: &[&str]) -> FirefoxVersionSpider {
    FirefoxVersionSpider(names.iter().map(|n| n.to_string()).collect())
}

fn found(spider: &FirefoxVersionSpider, query: &str) -> Vec<String> {
    spider.find(query).into_iter().cloned().collect()
}

#[test]
fn is_valid_version_wants_two_numbers_first() {
    assert!(is_valid_version("1.0"));
    assert!(is_valid_version("115.0.2"));
    assert!(is_valid_version("3.6.1b.x"));
    assert!(!is_valid_version("3.6b1.x"));
    assert!(is_valid_version("4294967295.0"));
    assert!(is_valid_version("+1.+2"));
    assert!(!is_valid_version("4294967296.0"));
    assert!(!is_valid_version("1"));
    assert!(!is_valid_version(""));
    assert!(!is_valid_version("1."));
    assert!(!is_valid_version(".1"));
    assert!(!is_valid_version("1.0b1"));
    assert!(!is_valid_version("latest.1"));
    assert!(!is_valid_version("-1.0"));
}

#[test]
fn from_links_trims_the_slashes_and_keeps_the_versions() {
    let links: Vec<String> = ["..", "0.10/", "1.0rc1/", "115.0/", "115.0.1//", "latest/", "custom-updates/", "3.5"]
        .iter()
        .map(|l| l.to_string())
        .collect();
    assert_eq!(FirefoxVersionSpider::from_links(&links).0, vec!["0.10", "115.0", "115.0.1", "3.5"]);
    assert_eq!(FirefoxVersionSpider::from_links(&Vec::new()).0, Vec::<String>::new());
}

#[test]
fn from_listing_reads_the_links_in_the_cells_of_the_table() {
    let html = "<html><body><h1>Index</h1><a href=\"/top/\">9.9/</a><table>\
        <tr><th><a href=\"?sort\">7.7/</a></th></tr>\
        <tr><td>Dir</td><td><a href=\"/pub/firefox/releases/\">..</a></td></tr>\
        <tr><td>Dir</td><td><a href=\"0.10/\">0.10/</a></td></tr>\
        <tr><td>Dir</td><td><a href=\"115.0/\">115.<b>0</b>/</a></td></tr>\
        <tr><td>Dir</td><td><a href=\"latest/\">latest/</a></td></tr>\
        <tr><td>Dir</td><td>116.0/</td></tr>\
        </table></body></html>";
    let read = |page: &str| FirefoxVersionSpider::from_listing(page).map(|spider| spider.0);
    assert_eq!(read(html), Some(vec!["0.10".to_string(), "115.0".to_string()]));
    assert_eq!(read(""), Some(Vec::new()));
    assert_ne!(read(html), Some(vec![html.to_string()]));
}

#[test]
fn from_listing_reads_a_page_up_to_the_bound_and_none_beyond_it() {
    assert_eq!(MAX_LISTING_CHARS, 524_288);
    let row = "<table><tr><td><a>116.0/</a></td></tr></table>";
    let mut at_bound = "é".repeat(MAX_LISTING_CHARS - row.len());
    at_bound.push_str(row);
    assert_eq!(at_bound.chars().count(), MAX_LISTING_CHARS);
    assert!(at_bound.len() > MAX_LISTING_CHARS);
    assert_eq!(
        FirefoxVersionSpider::from_listing(&at_bound).map(|spider| spider.0),
        Some(vec!["116.0".to_string()])
    );
    let mut beyond = String::from("x");
    beyond.push_str(&at_bound);
    assert!(FirefoxVersionSpider::from_listing(&beyond).is_none());
    let nested = "<i>".repeat(MAX_LISTING_CHARS / 3 + 1);
    assert!(FirefoxVersionSpider::from_listing(&nested).is_none());
}

#[test]
fn from_listing_reads_a_nested_page_on_the_stack_it_asks_for() {
    let mut page = "<i>".repeat(150);
    page.push_str("<table><tr><td><a>117.0/</a></td></tr></table>");
    let default_stack_of_a_thread = 2 * 1024 * 1024;
    assert!(page.chars().count() * LISTING_STACK_PER_CHAR <= default_stack_of_a_thread);
    assert_eq!(
        FirefoxVersionSpider::from_listing(&page).map(|spider| spider.0),
        Some(vec!["117.0".to_string()])
    );
}

#[test]
fn find_selects_what_does_not_go_on_with_a_number() {
    let spider = spider(&["110.0", "11.0", "11", "1.5", "11b1", "115.0.1", "11.0.1"]);
    assert_eq!(found(&spider, "11"), vec!["11", "11.0", "11.0.1", "11b1"]);
    assert_eq!(found(&spider, "12"), Vec::<String>::new());
    assert_eq!(found(&spider, "11.0"), vec!["11.0", "11.0.1"]);
}

#[test]
fn find_lists_plain_versions_before_the_others() {
    let spider = spider(&["3.6rc1", "3.6.9", "3.6b2", "3.6", "3.6.10", "3.6-real"]);
    assert_eq!(found(&spider, "3.6"), vec!["3.6", "3.6.10", "3.6.9", "3.6-real", "3.6b2", "3.6rc1"]);
}

#[test]
fn find_keeps_every_copy() {
    let spider = spider(&["2.0", "2.0", "2.0a", "2.0"]);
    assert_eq!(found(&spider, "2"), vec!["2.0", "2.0", "2.0", "2.0a"]);
}

#[test]
fn find_orders_as_the_strings_are_ordered() {
    let names = ["7.0", "7.0.1", "7.0b3", "7.0é", "7.0-z", "7.0.10", "7.0 a", "7.0", "7.0٣"];
    let spider = spider(&names);
    let got = found(&spider, "7.0");
    let plain = |s: &String| s.chars().all(|c| c == '.' || c.is_numeric());
    let mut want: Vec<String> = names
        .iter()
        .map(|n| n.to_string())
        .filter(|n| match n.chars().nth(3) {
            None => true,
            Some(c) => !c.is_numeric(),
        })
        .collect();
    want.sort_by(|a, b| match (plain(a), plain(b)) {
        (true, false) => std::cmp::Ordering::Less,
        (false, true) => std::cmp::Ordering::Greater,
        _ => a.cmp(b),
    });
    assert_eq!(got, want);
    assert!(!got.contains(&"7.0٣".to_string()));
}

#[test]
fn the_address_of_an_installer() {
    assert_eq!(
        installer_request("115.0.2", "win64"),
        "https://ftp.mozilla.org/pub/firefox/releases/115.0.2/win64/zh-CN/Firefox%20Setup%20115.0.2.exe"
    );
}

#[test]
fn find_sequence_gives_the_first_place() {
    assert_eq!(find_sequence(b"abcabc", b"bc"), Some(1));
    assert_eq!(find_sequence(b"abcabc", b"abcabc"), Some(0));
    assert_eq!(find_sequence(b"abcabc", b"c"), Some(2));
    assert_eq!(find_sequence(b"abcabc", b"cb"), None);
    assert_eq!(find_sequence(b"abc", b"abcd"), None);
    assert_eq!(find_sequence(b"abc", b""), Some(0));
    assert_eq!(find_sequence(b"", b""), Some(0));
    assert_eq!(find_sequence(b"", b"a"), None);
    assert_eq!(find_sequence(b"aab", b"ab"), Some(1));
}

#[test]
fn embedded_archive_begins_at_the_first_signature() {
    let mut installer = b"MZ stub 7z".to_vec();
    installer.extend_from_slice(b"7z\xbc\xaf\x27\x1c first 7z\xbc\xaf\x27\x1c second");
    let archive = embedded_archive(&Bytes::from(installer)).expect("the signature is there");
    assert_eq!(&archive[..], &b"7z\xbc\xaf\x27\x1c first 7z\xbc\xaf\x27\x1c second"[..]);
}

#[test]
fn embedded_archive_may_be_the_whole_or_the_end() {
    let whole = Bytes::from_static(b"7z\xbc\xaf\x27\x1c");
    assert_eq!(embedded_archive(&whole), Some(whole.clone()));
    let at_end = Bytes::from_static(b"xx7z\xbc\xaf\x27\x1c");
    assert_eq!(embedded_archive(&at_end).map(|a| a.len()), Some(6));
}

#[test]
fn an_installer_without_the_signature_holds_no_archive() {
    assert_eq!(embedded_archive(&Bytes::from_static(b"MZ 7z\xbc\xaf\x27 nothing")), None);
    assert_eq!(embedded_archive(&Bytes::new()), None);
}
