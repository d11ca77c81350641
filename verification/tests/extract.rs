use fetchchromium::extract::{
    ArchiveEntry, ArchiveExtractor, ExtractAction, ExtractError, ExtractPlan,
};

fn dir(name: &str) -> ArchiveEntry {
    ArchiveEntry { name: name.to_string(), is_dir: true }
}

fn file(name: &str) -> ArchiveEntry {
    ArchiveEntry { name: name.to_string(), is_dir: false }
}

#[test]
fn a_file_as_first_entry_is_refused_before_any_action() {
    let mut extractor = ArchiveExtractor::new();
    assert_eq!(extractor.step("root/a.txt", false), Err(ExtractError::MalformedLayout));
    assert_eq!(extractor.root(), None);

    let plan = ArchiveExtractor::plan(&vec![file("root/a.txt"), dir("root/")]);
    assert_eq!(plan, ExtractPlan { actions: vec![], failure: Some(ExtractError::MalformedLayout) });
}

#[test]
fn an_entry_outside_the_root_is_refused_after_the_earlier_ones_were_taken() {
    let mut extractor = ArchiveExtractor::new();
    assert_eq!(extractor.step("root/", true), Ok(ExtractAction::CreateDir(String::new())));
    assert_eq!(
        extractor.step("root/a.txt", false),
        Ok(ExtractAction::WriteFile("a.txt".to_string()))
    );
    assert_eq!(extractor.step("other/b.txt", false), Err(ExtractError::MalformedLayout));
    assert_eq!(extractor.root(), Some(&"root/".to_string()));

    let plan = ArchiveExtractor::plan(&vec![dir("root/"), file("root/a.txt"), file("other/b.txt")]);
    assert_eq!(
        plan,
        ExtractPlan {
            actions: vec![
                ExtractAction::CreateDir(String::new()),
                ExtractAction::WriteFile("a.txt".to_string()),
            ],
            failure: Some(ExtractError::MalformedLayout),
        }
    );
}

#[test]
fn the_root_is_stripped_and_the_structure_below_it_is_kept() {
    let plan = ArchiveExtractor::plan(&vec![dir("root/"), dir("root/sub/"), file("root/sub/f.txt")]);
    assert_eq!(
        plan,
        ExtractPlan {
            actions: vec![
                ExtractAction::CreateDir(String::new()),
                ExtractAction::CreateDir("sub/".to_string()),
                ExtractAction::WriteFile("sub/f.txt".to_string()),
            ],
            failure: None,
        }
    );
    for action in &plan.actions {
        let path = match action {
            ExtractAction::CreateDir(path) => path,
            ExtractAction::WriteFile(path) => path,
        };
        assert!(!path.starts_with("root"));
    }
}

#[test]
fn the_root_stays_what_the_first_entry_set() {
    let mut extractor = ArchiveExtractor::new();
    assert_eq!(extractor.root(), None);
    assert!(extractor.step("chrome-win/", true).is_ok());
    assert_eq!(extractor.root(), Some(&"chrome-win/".to_string()));
    assert!(extractor.step("chrome-win/locales/", true).is_ok());
    assert_eq!(extractor.root(), Some(&"chrome-win/".to_string()));
    assert!(extractor.step("elsewhere/", true).is_err());
    assert_eq!(extractor.root(), Some(&"chrome-win/".to_string()));
    assert_eq!(
        extractor.step("chrome-win/chrome.exe", false),
        Ok(ExtractAction::WriteFile("chrome.exe".to_string()))
    );
}

#[test]
fn an_empty_stream_asks_for_nothing() {
    assert_eq!(ArchiveExtractor::plan(&vec![]), ExtractPlan { actions: vec![], failure: None });
}

#[test]
fn a_second_entry_for_the_root_stands_for_the_destination() {
    let mut extractor = ArchiveExtractor::new();
    assert!(extractor.step("top/", true).is_ok());
    assert_eq!(extractor.step("top/", true), Ok(ExtractAction::CreateDir(String::new())));
    assert_eq!(extractor.step("top", false), Err(ExtractError::MalformedLayout));
    assert_eq!(extractor.step("to/p/", true), Err(ExtractError::MalformedLayout));
}

#[test]
fn names_with_characters_of_several_bytes_are_cut_at_characters() {
    let mut extractor = ArchiveExtractor::new();
    assert!(extractor.step("récolte/", true).is_ok());
    assert_eq!(
        extractor.step("récolte/blé/été.txt", false),
        Ok(ExtractAction::WriteFile("blé/été.txt".to_string()))
    );
}
