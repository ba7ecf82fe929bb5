use edit_prediction_context::mention::selection_name;
use edit_prediction_context::mention::parse_line_range;
use edit_prediction_context::mention::MentionUri;
use edit_prediction_context::mention::MentionUriError;

#[test]
fn test_parse_file_uri() {
    let file_uri = "file:///path/to/file.rs";
    let parsed = MentionUri::parse(file_uri).unwrap();
    match &parsed {
        MentionUri::File(path) => assert_eq!(path.as_str(), "/path/to/file.rs"),
        _ => panic!("Expected File variant"),
    }
    assert_eq!(parsed.to_uri(), file_uri);
}

#[test]
fn test_parse_symbol_uri() {
    let symbol_uri = "file:///path/to/file.rs?symbol=MySymbol#L10:20";
    let parsed = MentionUri::parse(symbol_uri).unwrap();
    match &parsed {
        MentionUri::Symbol {
            path,
            name,
            line_range,
        } => {
            assert_eq!(path.as_str(), "/path/to/file.rs");
            assert_eq!(name, "MySymbol");
            assert_eq!(line_range.start, 9);
            assert_eq!(line_range.end, 19);
        }
        _ => panic!("Expected Symbol variant"),
    }
    assert_eq!(parsed.to_uri(), symbol_uri);
}

#[test]
fn test_parse_selection_uri() {
    let selection_uri = "file:///path/to/file.rs#L5:15";
    let parsed = MentionUri::parse(selection_uri).unwrap();
    match &parsed {
        MentionUri::Selection { path, line_range } => {
            assert_eq!(path.as_str(), "/path/to/file.rs");
            assert_eq!(line_range.start, 4);
            assert_eq!(line_range.end, 14);
        }
        _ => panic!("Expected Selection variant"),
    }
    assert_eq!(parsed.to_uri(), selection_uri);
}

#[test]
fn test_parse_thread_uri() {
    let thread_uri = "zed:///agent/thread/session123";
    let parsed = MentionUri::parse(thread_uri).unwrap();
    match &parsed {
        MentionUri::Thread(thread_id) => assert_eq!(thread_id, "session123"),
        _ => panic!("Expected Thread variant"),
    }
    assert_eq!(parsed.to_uri(), thread_uri);
}

#[test]
fn test_parse_rule_uri() {
    let rule_uri = "zed:///agent/rule/my_rule";
    let parsed = MentionUri::parse(rule_uri).unwrap();
    match &parsed {
        MentionUri::Rule(rule) => assert_eq!(rule, "my_rule"),
        _ => panic!("Expected Rule variant"),
    }
    assert_eq!(parsed.to_uri(), rule_uri);
}

#[test]
fn test_invalid_scheme() {
    assert!(MentionUri::parse("http://example.com").is_err());
    assert!(MentionUri::parse("https://example.com").is_err());
    assert!(MentionUri::parse("ftp://example.com").is_err());
}

#[test]
fn test_invalid_zed_path() {
    assert!(MentionUri::parse("zed:///invalid/path").is_err());
    assert!(MentionUri::parse("zed:///agent/unknown/test").is_err());
}

#[test]
fn test_invalid_line_range_format() {
    // Missing L prefix
    assert!(MentionUri::parse("file:///path/to/file.rs#10:20").is_err());

    // Missing colon separator
    assert!(MentionUri::parse("file:///path/to/file.rs#L1020").is_err());

    // Invalid numbers
    assert!(MentionUri::parse("file:///path/to/file.rs#L10:abc").is_err());
    assert!(MentionUri::parse("file:///path/to/file.rs#Labc:20").is_err());
}

#[test]
fn test_invalid_query_parameters() {
    // Invalid query parameter name
    assert!(MentionUri::parse("file:///path/to/file.rs#L10:20?invalid=test").is_err());

    // Too many query parameters
    assert!(
        MentionUri::parse("file:///path/to/file.rs#L10:20?symbol=test&another=param").is_err()
    );
}

#[test]
fn test_zero_based_line_numbers() {
    // Test that 0-based line numbers are rejected (should be 1-based)
    assert!(MentionUri::parse("file:///path/to/file.rs#L0:10").is_err());
    assert!(MentionUri::parse("file:///path/to/file.rs#L1:0").is_err());
    assert!(MentionUri::parse("file:///path/to/file.rs#L0:0").is_err());
}

#[test]
fn parse_errors_are_told_apart() {
    assert_eq!(MentionUri::parse("not a url"), Err(MentionUriError::InvalidUrl));
    assert_eq!(
        MentionUri::parse("http://example.com"),
        Err(MentionUriError::UnrecognizedScheme)
    );
    assert_eq!(
        MentionUri::parse("zed:///invalid/path"),
        Err(MentionUriError::InvalidZedUrl)
    );
    assert_eq!(
        MentionUri::parse("file:///f.rs#10:20"),
        Err(MentionUriError::MissingLinePrefix)
    );
    assert_eq!(
        MentionUri::parse("file:///f.rs#L1020"),
        Err(MentionUriError::MissingLineSeparator)
    );
    assert_eq!(
        MentionUri::parse("file:///f.rs#Labc:20"),
        Err(MentionUriError::InvalidLineStart)
    );
    assert_eq!(
        MentionUri::parse("file:///f.rs#L10:abc"),
        Err(MentionUriError::InvalidLineEnd)
    );
    assert_eq!(
        MentionUri::parse("file:///f.rs#L0:10"),
        Err(MentionUriError::LineNumberZero)
    );
    assert_eq!(
        MentionUri::parse("file:///f.rs#L1:0"),
        Err(MentionUriError::LineNumberZero)
    );
    assert_eq!(
        MentionUri::parse("file:///f.rs?other=x#L1:2"),
        Err(MentionUriError::InvalidQueryParameter)
    );
    assert_eq!(
        MentionUri::parse("file:///f.rs?symbol=x&other=y#L1:2"),
        Err(MentionUriError::TooManyQueryPairs)
    );
}

#[test]
fn query_values_are_decoded() {
    let parsed = MentionUri::parse("file:///f.rs?symbol=My%20Symbol#L1:2").unwrap();
    assert_eq!(
        parsed,
        MentionUri::Symbol {
            path: "/f.rs".to_string(),
            name: "My Symbol".to_string(),
            line_range: 0..1,
        }
    );
}

#[test]
fn from_url_parts_decides_on_the_parts() {
    let no_pairs: Vec<(String, String)> = Vec::new();
    assert_eq!(
        MentionUri::from_url_parts("file", "/a/b.rs", None, &no_pairs),
        Ok(MentionUri::File("/a/b.rs".to_string()))
    );
    assert_eq!(
        MentionUri::from_url_parts("file", "/a/b.rs", Some("L3:7"), &no_pairs),
        Ok(MentionUri::Selection {
            path: "/a/b.rs".to_string(),
            line_range: 2..6,
        })
    );
    let symbol = vec![("symbol".to_string(), "main".to_string())];
    assert_eq!(
        MentionUri::from_url_parts("file", "/a/b.rs", Some("L3:7"), &symbol),
        Ok(MentionUri::Symbol {
            path: "/a/b.rs".to_string(),
            name: "main".to_string(),
            line_range: 2..6,
        })
    );
    assert_eq!(
        MentionUri::from_url_parts("zed", "/agent/thread/t1", None, &no_pairs),
        Ok(MentionUri::Thread("t1".to_string()))
    );
    assert_eq!(
        MentionUri::from_url_parts("zed", "/agent/rule/r1", None, &no_pairs),
        Ok(MentionUri::Rule("r1".to_string()))
    );
    assert_eq!(
        MentionUri::from_url_parts("mailto", "x", None, &no_pairs),
        Err(MentionUriError::UnrecognizedScheme)
    );
}

#[test]
fn line_ranges_are_read_as_std_reads_numbers() {
    assert_eq!(parse_line_range("L1:1"), Ok(0..0));
    assert_eq!(parse_line_range("L+5:007"), Ok(4..6));
    assert_eq!(parse_line_range("L4294967295:1"), Ok(4294967294..0));
    assert_eq!(
        parse_line_range("L4294967296:1"),
        Err(MentionUriError::InvalidLineStart)
    );
    assert_eq!(parse_line_range("L:1"), Err(MentionUriError::InvalidLineStart));
    assert_eq!(parse_line_range("L1:"), Err(MentionUriError::InvalidLineEnd));
    assert_eq!(parse_line_range("L-1:2"), Err(MentionUriError::InvalidLineStart));
    assert_eq!(parse_line_range("L1:2:3"), Err(MentionUriError::InvalidLineEnd));
    assert_eq!(parse_line_range(""), Err(MentionUriError::MissingLinePrefix));
}

#[test]
fn names_of_mentions() {
    assert_eq!(MentionUri::File("/path/to/file.rs".to_string()).name(), "file.rs");
    assert_eq!(MentionUri::File("/path/to/dir/".to_string()).name(), "dir");
    assert_eq!(MentionUri::File("/path/to/dir/.".to_string()).name(), "dir");
    assert_eq!(MentionUri::File("/path/to/..".to_string()).name(), "");
    assert_eq!(MentionUri::File("/".to_string()).name(), "");
    assert_eq!(MentionUri::File("".to_string()).name(), "");
    assert_eq!(MentionUri::File("file.rs".to_string()).name(), "file.rs");
    assert_eq!(
        MentionUri::Symbol {
            path: "/a.rs".to_string(),
            name: "MySymbol".to_string(),
            line_range: 1..2,
        }
        .name(),
        "MySymbol"
    );
    assert_eq!(MentionUri::Thread("session123".to_string()).name(), "session123");
    assert_eq!(
        MentionUri::TextThread("/threads/one.json".to_string()).name(),
        "/threads/one.json"
    );
    assert_eq!(MentionUri::Rule("my_rule".to_string()).name(), "my_rule");
    assert_eq!(
        MentionUri::Selection {
            path: "/path/to/file.rs".to_string(),
            line_range: 4..14,
        }
        .name(),
        "file.rs (5:15)"
    );
}

#[test]
fn selection_name_counts_lines_from_one() {
    assert_eq!(selection_name("/a/b/c.txt", &(0..0)), "c.txt (1:1)");
    assert_eq!(selection_name("c.txt", &(9..99)), "c.txt (10:100)");
    assert_eq!(
        selection_name("/x", &(4294967295..4294967295)),
        "x (4294967296:4294967296)"
    );
}

#[test]
fn uris_of_mentions() {
    assert_eq!(
        MentionUri::TextThread("/threads/one.json".to_string()).to_uri(),
        "zed:///agent/text-thread//threads/one.json"
    );
    assert_eq!(
        MentionUri::Selection {
            path: "/f.rs".to_string(),
            line_range: 0..4294967295,
        }
        .to_uri(),
        "file:///f.rs#L1:4294967296"
    );
}

#[test]
fn links_of_mentions() {
    assert_eq!(
        MentionUri::File("/path/to/file.rs".to_string()).to_link(),
        "[file.rs](file:///path/to/file.rs)"
    );
    assert_eq!(
        MentionUri::Selection {
            path: "/path/to/file.rs".to_string(),
            line_range: 4..14,
        }
        .to_link(),
        "[file.rs (5:15)](file:///path/to/file.rs#L5:15)"
    );
    assert_eq!(
        MentionUri::Rule("my_rule".to_string()).to_link(),
        "[my_rule](zed:///agent/rule/my_rule)"
    );
}
