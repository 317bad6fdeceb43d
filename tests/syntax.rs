use demver::syntax::{DemverTag, FileSourceTag, SourceError, SourceTag, TagError, TokenizedTag};

const TEST_STRING: &str =
    "# [demver(^1.0.0)|file(versions.ini)|testapp] 1.0.0 @ 2020-12-05T18-18-09";
const TEST_FILENAME: &str = "foobarfile.txt";

#[test]
fn tokenize_one_clean() {
    let sut = TokenizedTag::tokenize_one(TEST_FILENAME, TEST_STRING).unwrap();

    assert_eq!(sut.version_req, "^1.0.0");
    assert_eq!(sut.version_source, "file(versions.ini)");
    assert_eq!(sut.identifier, "testapp");
    assert_eq!(sut.current_version, "1.0.0");
    assert_eq!(sut.timestamp, "2020-12-05T18-18-09");
    assert_eq!(sut.idx_start, 2);
    assert_eq!(sut.idx_end, TEST_STRING.len());
}

#[test]
fn tokenize_one_prefix_postfix() {
    let sut = TokenizedTag::tokenize_one(
        TEST_FILENAME,
        &("foo bar ".to_owned() + TEST_STRING + " bla bla"),
    )
    .unwrap();

    assert_eq!(sut.version_req, "^1.0.0");
    assert_eq!(sut.version_source, "file(versions.ini)");
    assert_eq!(sut.identifier, "testapp");
    assert_eq!(sut.current_version, "1.0.0");
    assert_eq!(sut.timestamp, "2020-12-05T18-18-09");
    assert_eq!(sut.idx_start, "foo bar ".len() + 2);
    assert_eq!(sut.idx_end, "foo bar ".len() + TEST_STRING.len());
}

#[test]
fn tokenize_one_multiple_first() {
    let sut = TokenizedTag::tokenize_one(
        TEST_FILENAME,
        &("foo bar ".to_owned() + TEST_STRING + " bla bla " + TEST_STRING),
    )
    .unwrap();

    assert_eq!(sut.version_req, "^1.0.0");
    assert_eq!(sut.version_source, "file(versions.ini)");
    assert_eq!(sut.identifier, "testapp");
    assert_eq!(sut.current_version, "1.0.0");
    assert_eq!(sut.timestamp, "2020-12-05T18-18-09");
    assert_eq!(sut.idx_start, "foo bar ".len() + 2);
    assert_eq!(sut.idx_end, "foo bar ".len() + TEST_STRING.len());
}

#[test]
fn tokenize_all_clean() {
    let sut = TokenizedTag::tokenize_all(
        TEST_FILENAME,
        &("foo bar ".to_owned() + TEST_STRING + " bla bla " + TEST_STRING),
        0,
    );

    assert_eq!(sut.len(), 2);

    for tag in &sut {
        let unwrapped = tag.as_ref().unwrap();
        assert_eq!(unwrapped.version_req, "^1.0.0");
        assert_eq!(unwrapped.version_source, "file(versions.ini)");
        assert_eq!(unwrapped.identifier, "testapp");
        assert_eq!(unwrapped.current_version, "1.0.0");
        assert_eq!(unwrapped.timestamp, "2020-12-05T18-18-09");
    }

    let sut1 = &sut[0].as_ref().unwrap();
    let sut2 = &sut[1].as_ref().unwrap();
    assert_eq!(sut1.idx_start, "foo bar ".len() + 2);
    assert_eq!(sut1.idx_end, "foo bar ".len() + TEST_STRING.len());
    assert_eq!(
        sut2.idx_start,
        "foo bar ".len() + TEST_STRING.len() + " bla bla ".len() + 2
    );
    assert_eq!(
        sut2.idx_end,
        "foo bar ".len() + TEST_STRING.len() + " bla bla ".len() + TEST_STRING.len()
    );
}

#[test]
fn parse_demver_tag() {
    let version_req = "^1.0.0";
    let version_source = "file(versions.ini)";
    let identifier = "testapp";
    let current_version = "1.0.0";
    let timestamp = "2020-12-05T18-18-09";
    let _sut = DemverTag::parse(&TokenizedTag::new(
        version_req,
        version_source,
        identifier,
        current_version,
        timestamp,
        0,
        0,
        TEST_FILENAME,
    ))
    .unwrap();
}

#[test]
fn parse_file_source() {
    let version_source = "file(versions.ini)";

    let file_source = SourceTag::parse(version_source).unwrap();

    assert_eq!(
        file_source,
        SourceTag::File(FileSourceTag {
            filename: "versions.ini".to_owned()
        })
    )
}

#[test]
fn parse_file_source_empty() {
    assert!(SourceTag::parse("file()").is_err());
}

#[test]
fn parse_file_source_missing_attr() {
    assert!(SourceTag::parse("file").is_err());
}

#[test]
fn tokenize_single_tag_reproduces_fields_and_span() {
    let text = "[demver(>=1.2, <2)|file(cat.ini)|comp] 1.2.3-rc.1 @ t0";
    let tags = TokenizedTag::tokenize_all("f", text, 0);
    assert_eq!(tags.len(), 1);
    let t = tags[0].as_ref().unwrap();
    assert_eq!(t.version_req, ">=1.2, <2");
    assert_eq!(t.version_source, "file(cat.ini)");
    assert_eq!(t.identifier, "comp");
    assert_eq!(t.current_version, "1.2.3-rc.1");
    assert_eq!(t.timestamp, "t0");
    assert_eq!(t.idx_start, 0);
    assert_eq!(t.idx_end, text.len());
    assert_eq!(t.origin_filename, "f");
}

#[test]
fn tokenize_text_without_tags_is_empty() {
    assert!(TokenizedTag::tokenize_all("f", "", 0).is_empty());
    assert!(TokenizedTag::tokenize_all("f", "no tags [demver(x) here", 0).is_empty());
    assert_eq!(TokenizedTag::tokenize_one("f", "plain text").unwrap_err(), "no match was found");
}

#[test]
fn tokenize_three_tags_in_order() {
    let text = "a [demver(1)|s|x] 1 @ t1\nb [demver(2)|s|y] 2 @ t2 c [demver(3)|s|z] 3 @ t3";
    let tags = TokenizedTag::tokenize_all("f", text, 0);
    assert_eq!(tags.len(), 3);
    let ids: Vec<&str> = tags.iter().map(|t| t.as_ref().unwrap().identifier.as_str()).collect();
    assert_eq!(ids, vec!["x", "y", "z"]);
    let mut last_end = 0;
    for t in &tags {
        let t = t.as_ref().unwrap();
        assert!(t.idx_start >= last_end);
        assert_eq!(&text[t.idx_start..t.idx_start + 8], "[demver(");
        last_end = t.idx_end;
    }
}

#[test]
fn tokenize_respects_limit() {
    let text = "[demver(1)|s|x] 1 @ a [demver(2)|s|y] 2 @ b [demver(3)|s|z] 3 @ c";
    assert_eq!(TokenizedTag::tokenize_all("f", text, 2).len(), 2);
    assert_eq!(TokenizedTag::tokenize_all("f", text, 5).len(), 3);
    assert_eq!(TokenizedTag::tokenize_all("f", text, 0).len(), 3);
}

#[test]
fn tokenize_counts_bytes_of_multibyte_text() {
    let text = "é€😀 [demver(^1)|file(a.ini)|id] 1.0.0 @ now";
    let t = TokenizedTag::tokenize_one("f", text).unwrap();
    assert_eq!(t.idx_start, "é€😀 ".len());
    assert_eq!(t.idx_start, 10);
    assert_eq!(t.idx_end, text.len());
}

#[test]
fn tokenize_rejects_delimiter_inside_field() {
    let text = "[demver(^1)x)|s|i] 1 @ t";
    assert!(TokenizedTag::tokenize_all("f", text, 0).is_empty());
}

#[test]
fn tokenize_timestamp_stops_at_whitespace() {
    let t = TokenizedTag::tokenize_one("f", "[demver(^1)|s|i] 1.0.0 @ 2020\tmore").unwrap();
    assert_eq!(t.timestamp, "2020");
    assert_eq!(t.idx_end, "[demver(^1)|s|i] 1.0.0 @ 2020".len());
}

#[test]
fn parse_invalid_constraint_is_constraint_error() {
    let raw = TokenizedTag::new("^x.y", "file(a.ini)", "id", "1.0.0", "t", 0, 0, "f");
    assert!(matches!(DemverTag::parse(&raw), Err(TagError::InvalidConstraint(_))));
    let raw = TokenizedTag::new("@1.0.0", "bogus", "id", "nope", "t", 0, 0, "f");
    assert!(matches!(DemverTag::parse(&raw), Err(TagError::InvalidConstraint(_))));
}

#[test]
fn parse_reports_source_then_version_errors() {
    let raw = TokenizedTag::new("^1.0.0", "http(x)", "id", "nope", "t", 0, 0, "f");
    match DemverTag::parse(&raw) {
        Err(TagError::InvalidSource(SourceError::UnknownSourceKind(k))) => assert_eq!(k, "http"),
        other => panic!("unexpected {:?}", other),
    }
    let raw = TokenizedTag::new("^1.0.0", "file(a.ini)", "id", "1.0", "t", 0, 0, "f");
    assert!(matches!(DemverTag::parse(&raw), Err(TagError::InvalidVersion(_))));
}

#[test]
fn parse_keeps_fields() {
    let raw = TokenizedTag::new("~1.2", "file(v.ini)", "", "1.2.3", "ts", 4, 9, "dir/f.txt");
    let tag = DemverTag::parse(&raw).unwrap();
    assert_eq!(tag.semver.as_str(), "~1.2");
    assert_eq!(tag.version_source, SourceTag::File(FileSourceTag { filename: "v.ini".to_owned() }));
    assert_eq!(tag.identifier, "");
    assert_eq!(tag.get_current_version().as_str(), "1.2.3");
    assert_eq!(tag.get_timestamp(), "ts");
    assert_eq!(tag.get_raw_version_req(), "~1.2");
    assert_eq!(tag.get_raw_source(), "file(v.ini)");
    assert_eq!(tag.get_origin_filename(), "dir/f.txt");
}

#[test]
fn source_reference_forms() {
    assert_eq!(SourceTag::parse(""), Err(SourceError::Unparsable));
    assert_eq!(SourceTag::parse("(x)"), Err(SourceError::Unparsable));
    assert_eq!(SourceTag::parse("file()"), Err(SourceError::MissingFilename));
    assert_eq!(SourceTag::parse("file"), Err(SourceError::MissingFilename));
    assert_eq!(
        SourceTag::parse("registry(x)"),
        Err(SourceError::UnknownSourceKind("registry".to_owned()))
    );
    assert_eq!(
        SourceTag::parse("file(a(b).ini))"),
        Ok(SourceTag::File(FileSourceTag { filename: "a(b).ini)".to_owned() }))
    );
    assert_eq!(FileSourceTag::parse(""), Err(SourceError::MissingFilename));
    assert_eq!(
        FileSourceTag::parse("x.ini"),
        Ok(FileSourceTag { filename: "x.ini".to_owned() })
    );
}
