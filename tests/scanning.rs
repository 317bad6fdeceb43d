use demver::checker::Checker;
use demver::ini_source::ResolveError;
use demver::syntax::{DemverTag, TagError, TokenizedTag};
use demver::tag_checker::{CheckError, TagChecker};
use demver::tag_scanner::{ReadError, TagFailure, TagScanner, scan_file};

fn parsed(text: &str, origin: &str) -> DemverTag {
    DemverTag::parse(&TokenizedTag::tokenize_one(origin, text).unwrap()).unwrap()
}

#[test]
fn scan_keeps_good_and_bad_tags() {
    let text = "x [demver(^1.0.0)|file(v.ini)|a] 1.0.0 @ t\ny [demver(^^1)|file(v.ini)|b] 1.0.0 @ t\n";
    let fv = scan_file("f.txt", Ok(text.to_owned())).unwrap();
    assert_eq!(fv.tag_version_results.len(), 2);
    let tag = &fv.tag_version_results[0].as_ref().unwrap().tag;
    assert_eq!(tag.identifier, "a");
    assert_eq!(tag.semver.as_str(), "^1.0.0");
    assert_eq!(tag.current_version.as_str(), "1.0.0");
    assert_eq!(tag.timestamp, "t");
    assert_eq!(tag.tokenized_tag.idx_start, 2);
    let err = fv.tag_version_results[1].as_ref().unwrap_err();
    assert_eq!(err.filename, "f.txt");
    assert!(matches!(err.failure, TagFailure::Parse(TagError::InvalidConstraint(_))));
}

#[test]
fn scan_batch_survives_unreadable_file() {
    let scanner = TagScanner::new(vec!["missing.txt".to_owned(), "ok.txt".to_owned()]);
    let contents = vec![
        Err(ReadError::Open),
        Ok("[demver(^1)|file(v.ini)|id] 1.0.0 @ now".to_owned()),
    ];
    let infos = scanner.do_scan(contents);
    assert_eq!(infos.len(), 2);
    assert_eq!(infos[0].filename, "missing.txt");
    assert!(matches!(infos[0].version_result, Err(ReadError::Open)));
    assert_eq!(infos[1].filename, "ok.txt");
    let fv = infos[1].version_result.as_ref().unwrap();
    assert_eq!(fv.tag_version_results.len(), 1);
    assert!(fv.tag_version_results[0].is_ok());
}

#[test]
fn checker_checks_each_file() {
    let checker = Checker::new(vec!["a".to_owned(), "b".to_owned(), "c".to_owned()]);
    assert_eq!(checker.files().len(), 3);
    let infos = checker.do_check(vec![
        Ok(String::new()),
        Err(ReadError::NotText),
        Ok("[demver(^1)|file(v.ini)|i] 1.0.0 @ t [demver(^1)|nope|j] 1.0.0 @ t".to_owned()),
    ]);
    assert_eq!(infos.len(), 3);
    assert_eq!(infos[0].version_result.as_ref().unwrap().tag_version_results.len(), 0);
    assert!(matches!(infos[1].version_result, Err(ReadError::NotText)));
    let results = &infos[2].version_result.as_ref().unwrap().tag_version_results;
    assert_eq!(results.len(), 2);
    assert!(results[0].is_ok());
    assert!(results[1].is_err());
}

#[test]
fn catalog_path_is_relative_to_tag_file() {
    let tag = parsed("[demver(^1)|file(versions.ini)|app] 1.0.0 @ t", "project/sub/file.txt");
    assert_eq!(TagChecker::catalog_path(&tag), Ok("project/sub/versions.ini".to_owned()));
    let tag = parsed("[demver(^1)|file(versions.ini)|app] 1.0.0 @ t", "file.txt");
    assert_eq!(TagChecker::catalog_path(&tag), Ok("versions.ini".to_owned()));
    let tag = parsed("[demver(^1)|file(versions.toml)|app] 1.0.0 @ t", "file.txt");
    assert_eq!(TagChecker::catalog_path(&tag), Err(CheckError::UnsupportedSourceFile));
    let tag = parsed("[demver(^1)|file(versions.ini)|app] 1.0.0 @ t", "/");
    assert_eq!(TagChecker::catalog_path(&tag), Err(CheckError::NoParentDirectory));
}

#[test]
fn tag_resolves_against_catalog_text() {
    let catalog = "[app]\n1.0.0 = a\n1.5.0 = b\n2.0.0 = c\n";
    let tag = parsed("[demver(^1.0.0)|file(versions.ini)|app] 1.0.0 @ t", "dir/f.txt");
    let v = TagChecker::get_current_version_from_source(&tag, catalog).unwrap();
    assert_eq!(v.raw_version(), "1.5.0");
    assert_eq!(v.get_hash(), "b");
    let tag = parsed("[demver(^1.0.0)|file(versions.ini)|other] 1.0.0 @ t", "dir/f.txt");
    assert_eq!(
        TagChecker::get_current_version_from_source(&tag, catalog).unwrap_err(),
        CheckError::Resolve(ResolveError::NoSection)
    );
    let tag = parsed("[demver(^1.0.0)|file(v.txt)|app] 1.0.0 @ t", "dir/f.txt");
    assert_eq!(
        TagChecker::get_current_version_from_source(&tag, catalog).unwrap_err(),
        CheckError::UnsupportedSourceFile
    );
}

#[test]
fn scan_reports_each_kind_of_refusal() {
    let text = "[demver(^1)|zip(a)|a] 1.0.0 @ t [demver(^1)|file(a.ini)|b] 1.0 @ t";
    let fv = scan_file("g.txt", Ok(text.to_owned())).unwrap();
    assert_eq!(fv.tag_version_results.len(), 2);
    for r in &fv.tag_version_results {
        assert_eq!(r.as_ref().unwrap_err().filename, "g.txt");
    }
    assert!(matches!(
        fv.tag_version_results[0].as_ref().unwrap_err().failure,
        TagFailure::Parse(TagError::InvalidSource(_))
    ));
    assert!(matches!(
        fv.tag_version_results[1].as_ref().unwrap_err().failure,
        TagFailure::Parse(TagError::InvalidVersion(_))
    ));
}
