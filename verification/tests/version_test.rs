use cargo_check_updates::error::CcuError;
use cargo_check_updates::number::{parse_numeric, render_number};
use cargo_check_updates::semantic::{classify_severity, SemVer, Severity};
use cargo_check_updates::text::{chars_of, is_whitespace, string_of, trim};
use cargo_check_updates::version::{
    apply_operator, extract_operator, normalize_version, preserve_version_operator,
    split_at_dots, strip_version_operator, to_comparable,
};

fn chars(s: &str) -> Vec<char> {
    s.chars().collect()
}

#[test]
fn extract_operator_finds_each_operator() {
    assert_eq!(extract_operator("^1.2.3"), "^");
    assert_eq!(extract_operator("~1.2"), "~");
    assert_eq!(extract_operator(">=0.5"), ">=");
    assert_eq!(extract_operator("<=2"), "<=");
    assert_eq!(extract_operator(">1"), ">");
    assert_eq!(extract_operator("<1"), "<");
    assert_eq!(extract_operator("=1.0.0"), "=");
}

#[test]
fn extract_operator_of_bare_version_is_empty() {
    assert_eq!(extract_operator("1.2.3"), "");
    assert_eq!(extract_operator(""), "");
    assert_eq!(extract_operator(" ^1"), "");
}

#[test]
fn extract_operator_takes_the_longest() {
    assert_eq!(extract_operator(">="), ">=");
    assert_eq!(extract_operator(">"), ">");
    assert_eq!(extract_operator("=>1"), "=");
    assert_eq!(extract_operator("^=1"), "^");
}

#[test]
fn apply_operator_concatenates() {
    assert_eq!(apply_operator("^", "2.0.0"), "^2.0.0");
    assert_eq!(apply_operator("", "2.0.0"), "2.0.0");
    assert_eq!(apply_operator(">=", ""), ">=");
}

#[test]
fn rewriting_keeps_the_operator() {
    assert_eq!(preserve_version_operator("^1.2.3", "2.0.0"), "^2.0.0");
    assert_eq!(preserve_version_operator("1.2.3", "2.0.0"), "2.0.0");
    assert_eq!(preserve_version_operator(">=0.5", "2.0.0"), ">=2.0.0");
    assert_eq!(preserve_version_operator("~0.5", "0.6.1"), "~0.6.1");
    assert_eq!(preserve_version_operator("<=0.5", "0.6.1"), "<=0.6.1");
}

#[test]
fn strip_version_operator_trims_then_strips() {
    assert_eq!(strip_version_operator("^1.2.3"), "1.2.3");
    assert_eq!(strip_version_operator("  >=0.5 "), "0.5");
    assert_eq!(strip_version_operator("1.0"), "1.0");
    assert_eq!(strip_version_operator("\t~2\n"), "2");
    assert_eq!(strip_version_operator("^ 1"), " 1");
    assert_eq!(strip_version_operator(""), "");
}

#[test]
fn normalize_pads_missing_components() {
    assert_eq!(normalize_version("2"), "2.0.0");
    assert_eq!(normalize_version("0.21"), "0.21.0");
    assert_eq!(normalize_version("1.2.3"), "1.2.3");
    assert_eq!(normalize_version("1.2.3.4"), "1.2.3.4");
    assert_eq!(normalize_version(""), ".0.0");
    assert_eq!(normalize_version("1."), "1..0");
}

#[test]
fn to_comparable_normalizes() {
    assert_eq!(to_comparable("2"), Ok(SemVer::new(2, 0, 0)));
    assert_eq!(to_comparable("0.21"), Ok(SemVer::new(0, 21, 0)));
    assert_eq!(to_comparable("1.2.3"), Ok(SemVer::new(1, 2, 3)));
    assert_eq!(to_comparable("abc"), Err(CcuError::InvalidVersion));
}

#[test]
fn to_comparable_text_of_result() {
    assert_eq!(to_comparable("2").unwrap().to_string(), "2.0.0");
    assert_eq!(to_comparable("0.21").unwrap().to_string(), "0.21.0");
    assert_eq!(to_comparable("1.2.3").unwrap().to_string(), "1.2.3");
}

#[test]
fn to_comparable_strips_operator_and_whitespace() {
    assert_eq!(to_comparable("^1.2.3"), Ok(SemVer::new(1, 2, 3)));
    assert_eq!(to_comparable(">=0.5"), Ok(SemVer::new(0, 5, 0)));
    assert_eq!(to_comparable(" ~7 "), Ok(SemVer::new(7, 0, 0)));
    assert_eq!(to_comparable("=10.20.30"), Ok(SemVer::new(10, 20, 30)));
}

#[test]
fn to_comparable_rejects_what_is_not_dotted_numeric() {
    let bad = [
        "", "^", "1.", ".1", "1..2", "1.2.3.4", "1.x", "*", "1.2.3-alpha", "1.2.3+build",
        ">=1.0, <2.0", "^ 1.0", "01.2.3", "1.02", "1.2.03", "-1", "1.2.a", "٣",
    ];
    for range in bad {
        assert_eq!(to_comparable(range), Err(CcuError::InvalidVersion), "{}", range);
    }
}

#[test]
fn to_comparable_bounds_of_a_component() {
    assert_eq!(
        to_comparable("18446744073709551615.0.0"),
        Ok(SemVer::new(u64::MAX, 0, 0))
    );
    assert_eq!(to_comparable("18446744073709551616"), Err(CcuError::InvalidVersion));
    assert_eq!(to_comparable("99999999999999999999999"), Err(CcuError::InvalidVersion));
    assert_eq!(to_comparable("0.0.0"), Ok(SemVer::new(0, 0, 0)));
    assert_eq!(to_comparable("0"), Ok(SemVer::new(0, 0, 0)));
}

#[test]
fn split_at_dots_keeps_empty_pieces() {
    assert_eq!(split_at_dots(&chars("1.2.3")), vec![chars("1"), chars("2"), chars("3")]);
    assert_eq!(split_at_dots(&chars("")), vec![chars("")]);
    assert_eq!(split_at_dots(&chars(".")), vec![chars(""), chars("")]);
    assert_eq!(split_at_dots(&chars("a..b")), vec![chars("a"), chars(""), chars("b")]);
}

#[test]
fn parse_numeric_reads_decimal() {
    assert_eq!(parse_numeric(&chars("0")), Some(0));
    assert_eq!(parse_numeric(&chars("42")), Some(42));
    assert_eq!(parse_numeric(&chars("18446744073709551615")), Some(u64::MAX));
    assert_eq!(parse_numeric(&chars("18446744073709551616")), None);
    assert_eq!(parse_numeric(&chars("")), None);
    assert_eq!(parse_numeric(&chars("007")), None);
    assert_eq!(parse_numeric(&chars("4a")), None);
    assert_eq!(parse_numeric(&chars("+4")), None);
}

#[test]
fn render_number_writes_decimal() {
    assert_eq!(render_number(0), chars("0"));
    assert_eq!(render_number(9), chars("9"));
    assert_eq!(render_number(10), chars("10"));
    assert_eq!(render_number(1234567890), chars("1234567890"));
    assert_eq!(render_number(u64::MAX), chars("18446744073709551615"));
}

#[test]
fn number_round_trip() {
    for n in [0u64, 1, 9, 10, 99, 100, 12345, u64::MAX - 1, u64::MAX] {
        assert_eq!(parse_numeric(&render_number(n)), Some(n));
    }
}

#[test]
fn trim_removes_surrounding_whitespace_only() {
    assert_eq!(trim(&chars("  a b  ")), chars("a b"));
    assert_eq!(trim(&chars("\t\n x\r\n")), chars("x"));
    assert_eq!(trim(&chars("   ")), chars(""));
    assert_eq!(trim(&chars("")), chars(""));
    assert_eq!(trim(&chars("\u{a0}1.0\u{2003}")), chars("1.0"));
}

#[test]
fn chars_and_strings_convert_both_ways() {
    assert_eq!(chars_of("héllo→"), chars("héllo→"));
    assert_eq!(string_of(&chars("héllo→")), "héllo→");
    assert_eq!(string_of(&chars_of("")), "");
}

#[test]
fn semver_text() {
    assert_eq!(SemVer::new(1, 2, 3).to_string(), "1.2.3");
    assert_eq!(SemVer::new(0, 0, 0).to_string(), "0.0.0");
    assert_eq!(SemVer::new(10, 200, 3000).to_string(), "10.200.3000");
    let pre = SemVer {
        major: 1,
        minor: 0,
        patch: 0,
        pre: "rc.1".to_string(),
        build: String::new(),
    };
    assert_eq!(pre.to_string(), "1.0.0-rc.1");
    let both = SemVer {
        major: 1,
        minor: 0,
        patch: 0,
        pre: "rc.1".to_string(),
        build: "5".to_string(),
    };
    assert_eq!(both.to_string(), "1.0.0-rc.1+5");
    let build = SemVer {
        major: 1,
        minor: 0,
        patch: 0,
        pre: String::new(),
        build: "5".to_string(),
    };
    assert_eq!(build.to_string(), "1.0.0+5");
}

#[test]
fn semver_text_reads_back() {
    for v in [SemVer::new(0, 0, 0), SemVer::new(1, 2, 3), SemVer::new(u64::MAX, 0, 7)] {
        assert_eq!(to_comparable(&v.to_string()), Ok(v.clone()));
    }
}

#[test]
fn newer_compares_major_then_minor_then_patch() {
    assert!(SemVer::new(2, 0, 0).is_newer_than(&SemVer::new(1, 9, 9)));
    assert!(SemVer::new(1, 3, 0).is_newer_than(&SemVer::new(1, 2, 9)));
    assert!(SemVer::new(1, 2, 4).is_newer_than(&SemVer::new(1, 2, 3)));
    assert!(!SemVer::new(1, 2, 3).is_newer_than(&SemVer::new(1, 2, 3)));
    assert!(!SemVer::new(1, 2, 3).is_newer_than(&SemVer::new(1, 2, 4)));
    assert!(!SemVer::new(1, 9, 9).is_newer_than(&SemVer::new(2, 0, 0)));
    assert!(!SemVer::new(0, 9, 0).is_newer_than(&SemVer::new(1, 0, 0)));
}

#[test]
fn newer_ignores_further_identifiers() {
    let build = SemVer {
        major: 1,
        minor: 0,
        patch: 0,
        pre: String::new(),
        build: "5".to_string(),
    };
    assert!(!build.is_newer_than(&SemVer::new(1, 0, 0)));
    assert!(!SemVer::new(1, 0, 0).is_newer_than(&build));
}

#[test]
fn severity_of_a_step() {
    assert_eq!(
        classify_severity(&SemVer::new(1, 2, 3), &SemVer::new(2, 0, 0)),
        Severity::Major
    );
    assert_eq!(
        classify_severity(&SemVer::new(1, 2, 3), &SemVer::new(1, 3, 0)),
        Severity::Minor
    );
    assert_eq!(
        classify_severity(&SemVer::new(1, 2, 3), &SemVer::new(1, 2, 4)),
        Severity::Patch
    );
    assert_eq!(
        classify_severity(&SemVer::new(1, 2, 3), &SemVer::new(1, 2, 3)),
        Severity::Patch
    );
    assert_eq!(
        classify_severity(&SemVer::new(1, 2, 3), &SemVer::new(2, 9, 9)),
        Severity::Major
    );
}

#[test]
fn error_messages() {
    assert_eq!(CcuError::ParseError.message(), "Failed to parse Cargo.toml");
    assert_eq!(CcuError::UnsupportedFormat.message(), "Unsupported dependency format");
    assert_eq!(CcuError::NotFound.message(), "Dependency not found");
    assert_eq!(CcuError::RegistryError.message(), "Failed to query crates.io");
    assert_eq!(CcuError::InvalidVersion.message(), "Invalid version");
}

#[test]
fn whitespace_is_the_white_space_property() {
    for n in 0..=0x10ffffu32 {
        if let Some(c) = char::from_u32(n) {
            assert_eq!(is_whitespace(c), c.is_whitespace(), "{:x}", n);
        }
    }
}

#[test]
fn whitespace_on_chosen_characters() {
    for c in [' ', '\t', '\n', '\u{b}', '\u{c}', '\r', '\u{85}', '\u{a0}', '\u{3000}'] {
        assert!(is_whitespace(c));
    }
    for c in ['0', '9', '.', '^', '~', '=', '<', '>', 'a', '\u{8}', '\u{e}', '\u{180e}', '\u{200b}'] {
        assert!(!is_whitespace(c));
    }
}
