use docsearch::search_match::{ParseErrorKind, SearchMatch};
use docsearch::search_status::SearchStatus;
use docsearch::searcher::SearchHandler;

#[test]
fn just_created() {
    let status = SearchStatus::new();
    assert_eq!(SearchStatus::NotSearched, status)
}

#[test]
fn search_test() {
    let mut sh = SearchHandler::new("test_assets/test.*", "subheading");
    let stdout = "test_assets/test.pdf:2:Page 1: This is a subheading - Test\n--\ntest_assets/other.pdf:7:Page 2: Another subheading here\n";
    let result = sh.search(true, true, stdout).unwrap();
    let expected_result = SearchStatus::Found;
    assert_eq!(result, expected_result);
    assert_eq!(sh.search_status, SearchStatus::Found);
    assert_eq!(sh.search_matches.unwrap().len(), 2);
}

#[test]
fn handler_keeps_glob_and_term() {
    let sh = SearchHandler::new("test_assets/*.pdf", "needle");
    assert_eq!(sh.glob().as_str(), "test_assets/*.pdf");
    assert_eq!(sh.search_term().as_str(), "needle");
}

#[test]
fn outcome_classification() {
    assert_eq!(SearchStatus::from_outcome(false, true, true), SearchStatus::NoFilesFound);
    assert_eq!(SearchStatus::from_outcome(true, false, false), SearchStatus::NoFilesFound);
    assert_eq!(SearchStatus::from_outcome(true, true, true), SearchStatus::NoMatchesFound);
    assert_eq!(SearchStatus::from_outcome(true, true, false), SearchStatus::Found);
}

#[test]
fn search_without_matches_leaves_records_unset() {
    let mut sh = SearchHandler::new("g", "t");
    assert_eq!(sh.search(true, true, "").unwrap(), SearchStatus::NoMatchesFound);
    assert_eq!(sh.search_status, SearchStatus::NoMatchesFound);
    assert!(sh.search_matches.is_none());
}

#[test]
fn search_surfaces_parse_error() {
    let mut sh = SearchHandler::new("g", "t");
    let err = sh.search(true, true, "not a block").unwrap_err();
    assert_eq!(err.kind, ParseErrorKind::MissingMatchLine);
    assert_eq!(sh.search_status, SearchStatus::NotSearched);
    assert!(sh.search_matches.is_none());
}

#[test]
fn handle_search_hits_stores_records() {
    let mut sh = SearchHandler::new("g", "t");
    sh.handle_search_hits("a.pdf:1:Page 1: hit").unwrap();
    assert_eq!(sh.search_matches.as_ref().unwrap().len(), 1);
    assert_eq!(sh.search_status, SearchStatus::NotSearched);
}

#[test]
fn status_strings() {
    assert_eq!(SearchStatus::Found.get_status_string(), "Found matches:");
    assert_eq!(
        SearchStatus::NoFilesFound.get_status_string(),
        "No files found, make sure your glob pattern is correct."
    );
    assert_eq!(
        SearchStatus::NoMatchesFound.get_status_string(),
        "No matches for your search term has been found"
    );
    assert_eq!(SearchStatus::NotSearched.get_status_string(), "The search has not been run");
}

#[test]
fn pretty_formatted_groups_contiguous_runs() {
    let mut sh = SearchHandler::new("*", "hit");
    let stdout = "a.pdf:1:Page 1: one\n--\na.pdf:2:Page 1: two\n--\nb.pdf:3:Page 1: three\n--\na.pdf:4:Page 1: four\n";
    sh.search(true, true, stdout).unwrap();
    let text = sh.pretty_formatted();
    assert_eq!(text, "Found matches:\na.pdf:\none\ntwo\n\nb.pdf:\nthree\n\na.pdf:\nfour\n");
}

#[test]
fn pretty_formatted_no_matches() {
    let mut sh = SearchHandler::new("g", "t");
    sh.search(true, true, "").unwrap();
    assert_eq!(sh.pretty_formatted(), "No matches for your search term has been found");
}

#[test]
fn fuzzy_display_format() {
    let sm = SearchMatch::new(
        "dir/file.pdf".to_string(),
        12,
        3,
        "Some text".to_string(),
        "Some text".to_string(),
    );
    assert_eq!(sm.fuzzy_display(), "dir/file.pdf : 12 : Some text");
}
