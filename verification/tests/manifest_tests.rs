use ova_verify::manifest::{parse_line, parse_mf, ChecksumType, Manifest, ManifestItem, ParseError};

fn sha1_item(name: &str, checksum: &str) -> ManifestItem {
    ManifestItem {
        name: name.to_string(),
        checksum_type: ChecksumType::SHA1,
        checksum: checksum.to_string(),
    }
}

fn malformed(line: &str) -> ParseError {
    ParseError::MalformedManifestLine(line.to_string())
}

#[test]
fn test_parse_mf() {
    let got = parse_mf("SHA1(filename.ext)= 7302647992be1de77d6fc6a6b6395c87c4325ead\nSHA1(filename-(2).ext)= 8fcb142e98dc83b470291fe0820629fe1e1f05b1\n".to_string()).unwrap();
    let expected: Vec<ManifestItem> = vec![
        ManifestItem {
            name: "filename.ext".to_string(),
            checksum_type: ChecksumType::SHA1,
            checksum: "7302647992be1de77d6fc6a6b6395c87c4325ead".to_string(),
        },
        ManifestItem {
            name: "filename-(2).ext".to_string(),
            checksum_type: ChecksumType::SHA1,
            checksum: "8fcb142e98dc83b470291fe0820629fe1e1f05b1".to_string(),
        },
    ];
    assert_eq!(got, expected);
}

#[test]
fn parse_line_plain_record() {
    let got = parse_line("SHA1(filename.ext)= 7302647992be1de77d6fc6a6b6395c87c4325ead");
    assert_eq!(
        got,
        Ok(sha1_item("filename.ext", "7302647992be1de77d6fc6a6b6395c87c4325ead"))
    );
}

#[test]
fn parse_line_name_with_embedded_parentheses() {
    let got = parse_line("SHA1(filename-(2).ext)= 8fcb142e98dc83b470291fe0820629fe1e1f05b1");
    assert_eq!(
        got,
        Ok(sha1_item("filename-(2).ext", "8fcb142e98dc83b470291fe0820629fe1e1f05b1"))
    );
}

#[test]
fn parse_line_name_ending_in_parenthesis() {
    assert_eq!(parse_line("SHA1(disk(1))= 0a1b"), Ok(sha1_item("disk(1)", "0a1b")));
}

#[test]
fn parse_line_name_wrapped_in_parentheses() {
    assert_eq!(parse_line("SHA1((x))= 0a1b"), Ok(sha1_item("(x)", "0a1b")));
}

#[test]
fn parse_line_name_may_hold_separator_characters() {
    assert_eq!(parse_line("SHA1(a = b)= 0a1b"), Ok(sha1_item("a = b", "0a1b")));
}

#[test]
fn parse_line_missing_open_parenthesis_is_malformed() {
    let line = "SHA1 filename.ext)= 7302647992be1de77d6fc6a6b6395c87c4325ead";
    assert_eq!(parse_line(line), Err(malformed(line)));
}

#[test]
fn parse_mf_missing_open_parenthesis_yields_no_records() {
    let good = "SHA1(filename.ext)= 7302647992be1de77d6fc6a6b6395c87c4325ead";
    let bad = "SHA1 filename.ext)= 8fcb142e98dc83b470291fe0820629fe1e1f05b1";
    let got = parse_mf(format!("{}\nSHA1 other= 00ff\n", good));
    assert_eq!(got, Err(malformed("SHA1 other= 00ff")));
    let got = parse_mf(format!("{}\n{}\n", bad, good));
    assert_eq!(got, Err(malformed(bad)));
}

#[test]
fn parse_line_without_checksum_is_malformed() {
    assert_eq!(parse_line("SHA1(file)= "), Err(malformed("SHA1(file)= ")));
    assert_eq!(parse_line("SHA1(file)"), Err(malformed("SHA1(file)")));
    assert_eq!(parse_line("SHA1(file)= xyz"), Err(malformed("SHA1(file)= xyz")));
}

#[test]
fn parse_line_with_empty_name_is_malformed() {
    assert_eq!(parse_line("SHA1()= 0a1b"), Err(malformed("SHA1()= 0a1b")));
}

#[test]
fn parse_line_without_closing_parenthesis_is_malformed() {
    assert_eq!(parse_line("SHA1(file= 0a1b"), Err(malformed("SHA1(file= 0a1b")));
    assert_eq!(parse_line("SHA1(file) x= 0a1b"), Err(malformed("SHA1(file) x= 0a1b")));
}

#[test]
fn parse_line_empty_is_malformed() {
    assert_eq!(parse_line(""), Err(malformed("")));
}

#[test]
fn parse_line_tolerates_trailing_white_space() {
    assert_eq!(parse_line("SHA1(file)= 0a1b \t\r"), Ok(sha1_item("file", "0a1b")));
}

#[test]
fn parse_line_tolerates_any_separator_spelling() {
    assert_eq!(parse_line("SHA1(file)=0a1b"), Ok(sha1_item("file", "0a1b")));
    assert_eq!(parse_line("SHA1(file)  =  0a1b"), Ok(sha1_item("file", "0a1b")));
    assert_eq!(parse_line("SHA1(file)0a1b"), Ok(sha1_item("file", "0a1b")));
}

#[test]
fn parse_line_trims_the_tag() {
    assert_eq!(parse_line("  SHA1 (file)= 0a1b"), Ok(sha1_item("file", "0a1b")));
}

#[test]
fn parse_line_keeps_an_unrecognized_tag() {
    let got = parse_line("SHA256(file)= 0a1b");
    let expected = ManifestItem {
        name: "file".to_string(),
        checksum_type: ChecksumType::Unrecognized("SHA256".to_string()),
        checksum: "0a1b".to_string(),
    };
    assert_eq!(got, Ok(expected));
}

#[test]
fn parse_line_tag_is_case_sensitive() {
    let got = parse_line("sha1(file)= 0a1b").unwrap();
    assert_eq!(got.checksum_type, ChecksumType::Unrecognized("sha1".to_string()));
}

#[test]
fn parse_line_empty_tag_is_unrecognized() {
    let got = parse_line("(file)= 0a1b").unwrap();
    assert_eq!(got.checksum_type, ChecksumType::Unrecognized(String::new()));
    assert_eq!(got.name, "file");
}

#[test]
fn parse_line_keeps_the_checksum_in_lower_case() {
    assert_eq!(parse_line("SHA1(file)= 0A1B"), Ok(sha1_item("file", "0a1b")));
    assert_eq!(
        parse_line("SHA1(file)= 0123456789aAbBcCdDeEfF"),
        Ok(sha1_item("file", "0123456789aabbccddeeff"))
    );
    assert_eq!(
        parse_line("SHA1(FILE-\u{c9})= ABCDEF"),
        Ok(sha1_item("FILE-\u{c9}", "abcdef"))
    );
}

#[test]
fn parse_line_name_outside_ascii() {
    assert_eq!(
        parse_line("SHA1(plat\u{e9}-\u{1f4be}.vmdk)= 0a1b"),
        Ok(sha1_item("plat\u{e9}-\u{1f4be}.vmdk", "0a1b"))
    );
}

#[test]
fn parse_line_checksum_is_the_last_hex_run_only() {
    assert_eq!(parse_line("SHA1(file)= ff 0a1b"), Err(malformed("SHA1(file)= ff 0a1b")));
}

#[test]
fn parse_mf_empty_text_has_no_records() {
    assert_eq!(parse_mf(String::new()), Ok(vec![]));
}

#[test]
fn parse_mf_passes_over_blank_lines() {
    let got = parse_mf("\nSHA1(a)= 0a\n\n  \t\nSHA1(b)= 0b\n\n\n".to_string());
    assert_eq!(got, Ok(vec![sha1_item("a", "0a"), sha1_item("b", "0b")]));
}

#[test]
fn parse_mf_accepts_carriage_returns() {
    let got = parse_mf("SHA1(a)= 0a\r\nSHA1(b)= 0b\r\n\r\n".to_string());
    assert_eq!(got, Ok(vec![sha1_item("a", "0a"), sha1_item("b", "0b")]));
}

#[test]
fn parse_mf_without_final_line_feed() {
    let got = parse_mf("SHA1(a)= 0a\nSHA1(b)= 0b".to_string());
    assert_eq!(got, Ok(vec![sha1_item("a", "0a"), sha1_item("b", "0b")]));
}

#[test]
fn parse_mf_keeps_the_order_of_the_lines() {
    let got = parse_mf("SHA1(z)= 03\nSHA1(a)= 01\nSHA1(m)= 02\n".to_string()).unwrap();
    let names: Vec<&str> = got.iter().map(|item| item.name.as_str()).collect();
    assert_eq!(names, vec!["z", "a", "m"]);
}

#[test]
fn parse_mf_fails_with_the_first_malformed_line() {
    let got = parse_mf("SHA1(a)= 0a\nfirst bad\nSHA1(b)= 0b\nsecond bad\n".to_string());
    assert_eq!(got, Err(malformed("first bad")));
}

#[test]
fn render_spells_the_usual_line() {
    let item = sha1_item("filename-(2).ext", "8fcb142e98dc83b470291fe0820629fe1e1f05b1");
    assert_eq!(
        item.render(),
        "SHA1(filename-(2).ext)= 8fcb142e98dc83b470291fe0820629fe1e1f05b1"
    );
    let other = ManifestItem {
        name: "a".to_string(),
        checksum_type: ChecksumType::Unrecognized("MD5".to_string()),
        checksum: "00".to_string(),
    };
    assert_eq!(other.render(), "MD5(a)= 00");
}

#[test]
fn parsing_a_rendered_record_gives_it_back() {
    let items = vec![
        sha1_item("filename.ext", "7302647992be1de77d6fc6a6b6395c87c4325ead"),
        sha1_item("filename-(2).ext", "8fcb142e98dc83b470291fe0820629fe1e1f05b1"),
        sha1_item(")(", "abcdef0123456789"),
        sha1_item(" spaced name ", "0"),
        ManifestItem {
            name: "disk=1".to_string(),
            checksum_type: ChecksumType::Unrecognized("SHA 256".to_string()),
            checksum: "beef".to_string(),
        },
        ManifestItem {
            name: "x".to_string(),
            checksum_type: ChecksumType::Unrecognized(String::new()),
            checksum: "1".to_string(),
        },
    ];
    for item in items {
        assert_eq!(parse_line(&item.render()), Ok(item));
    }
}

#[test]
fn rendering_a_parsed_line_normalises_the_spelling() {
    let item = parse_line("  SHA1  (file)  =   0A1b  ").unwrap();
    assert_eq!(item.render(), "SHA1(file)= 0a1b");
    assert_eq!(parse_line(&item.render()), Ok(item));
}

#[test]
fn manifest_item_duplicate() {
    let item = sha1_item("a", "0a");
    assert_eq!(item.duplicate(), item);
}

#[test]
fn checksum_type_tag() {
    assert_eq!(ChecksumType::SHA1.tag(), "SHA1");
    assert_eq!(ChecksumType::Unrecognized("MD5".to_string()).tag(), "MD5");
    assert_eq!(ChecksumType::SHA1.duplicate(), ChecksumType::SHA1);
    assert_eq!(
        ChecksumType::Unrecognized("MD5".to_string()).duplicate(),
        ChecksumType::Unrecognized("MD5".to_string())
    );
}

#[test]
fn manifest_empty_has_no_path_and_no_records() {
    let m = Manifest::empty();
    assert_eq!(m.name, "");
    assert!(m.contents.is_empty());
}

#[test]
fn manifest_load_keeps_path_and_records() {
    let m = Manifest::load("appliance.mf", "SHA1(a)= 0a\nSHA1(b)= 0b\n").unwrap();
    assert_eq!(m.name, "appliance.mf");
    assert_eq!(m.contents, vec![sha1_item("a", "0a"), sha1_item("b", "0b")]);
}

#[test]
fn manifest_load_fails_on_a_malformed_line() {
    assert_eq!(Manifest::load("appliance.mf", "SHA1(a)= 0a\noops\n"), Err(malformed("oops")));
}
