use cargo_check_updates::error::CcuError;
use cargo_check_updates::manifest::{
    escape, CargoTomlParser, Dependency, DependencySection, Entry,
};
use cargo_check_updates::planner::{compute_updates, Update};
use cargo_check_updates::registry::LatestVersions;
use cargo_check_updates::semantic::{SemVer, Severity};
use cargo_check_updates::source::{ItemShape, Literal};
use cargo_check_updates::writer::{apply_one, apply_plan, upgraded_range};

const SAMPLE: &str = r#"# A manifest with every form of entry — and a few that have none.
[package]
name = "sample"   # not a dependency
version = "0.1.0"

[dependencies]
plain = "1.0.0"            # trailing comment
caret = "^0.21"
inline = { version = "~2", features = ["derive"] }
local = { path = "../local" }
inherited = { workspace = true }
literal = '>=3.1'
dotted.version = "0.5"
number = 7

[dependencies.nested]
version = "1.2"
default-features = false

[dependencies.gitdep]
git = "https://example.com/gitdep"

[dev-dependencies]
plain = "=0.9.0"

[build-dependencies]
cc = "<=1.0"
"#;

fn load(text: &str) -> CargoTomlParser {
    CargoTomlParser::from_text("Cargo.toml", text).unwrap()
}

fn text_of(doc: &CargoTomlParser) -> String {
    String::from_utf8(doc.serialize()).unwrap()
}

fn dep(name: &str, version: &str, section: DependencySection) -> Dependency {
    Dependency { name: name.to_string(), version: version.to_string(), section }
}

fn update(name: &str, version: &str, section: DependencySection, latest: SemVer) -> Update {
    Update {
        dependency: dep(name, version, section),
        current_version: SemVer::new(0, 0, 0),
        latest_version: latest,
        severity: Severity::Major,
    }
}

#[test]
fn serialize_gives_the_text_back() {
    for text in [
        "",
        "\n",
        "# only a comment",
        "[dependencies]\nfoo = \"1.0.0\"",
        "[dependencies]\r\nfoo = \"1.0.0\"\r\n",
        "[dependencies]\n\n\n   foo   =    \"1.0.0\"   # spaced \n",
        "[[bin]]\nname = \"a\"\n[dependencies]\na = \"1\"\n[[bin]]\nname = \"b\"\n",
        "b.c = 1\na = 2\nb.d = 3\n",
        "[dependencies]\n\"ünï\" = \"1\" # ✓\n",
        SAMPLE,
    ] {
        let doc = load(text);
        assert_eq!(doc.serialize(), text.as_bytes());
    }
}

#[test]
fn malformed_text_is_a_parse_error() {
    for text in [
        "[dependencies",
        "foo = ",
        "a = 1\na = 2\n",
        "[dependencies]\nfoo = \"1.0",
        "[dependencies]\nünï = \"1\"\n",
    ] {
        assert_eq!(
            CargoTomlParser::from_text("Cargo.toml", text).err(),
            Some(CcuError::ParseError)
        );
    }
}

#[test]
fn path_is_kept() {
    let doc = CargoTomlParser::from_text("some/dir/Cargo.toml", "").unwrap();
    assert_eq!(doc.path(), "some/dir/Cargo.toml");
}

#[test]
fn reads_every_form_of_entry() {
    let doc = load(SAMPLE);
    let runtime = DependencySection::Dependencies;
    assert_eq!(
        doc.get_all_dependencies(),
        vec![
            dep("plain", "1.0.0", runtime),
            dep("caret", "^0.21", runtime),
            dep("inline", "~2", runtime),
            dep("literal", ">=3.1", runtime),
            dep("dotted", "0.5", runtime),
            dep("nested", "1.2", runtime),
            dep("plain", "=0.9.0", DependencySection::DevDependencies),
            dep("cc", "<=1.0", DependencySection::BuildDependencies),
        ]
    );
}

#[test]
fn reads_one_section() {
    let doc = load(SAMPLE);
    assert_eq!(
        doc.get_dependencies_from_section(DependencySection::DevDependencies),
        vec![dep("plain", "=0.9.0", DependencySection::DevDependencies)]
    );
    assert_eq!(
        doc.get_dependencies_from_section(DependencySection::BuildDependencies),
        vec![dep("cc", "<=1.0", DependencySection::BuildDependencies)]
    );
    assert_eq!(doc.get_dependencies_from_section(DependencySection::Dependencies).len(), 6);
}

#[test]
fn manifest_without_sections_has_no_dependencies() {
    assert!(load("").get_all_dependencies().is_empty());
    assert!(load("[package]\nname = \"x\"\n").get_all_dependencies().is_empty());
    assert!(load("dependencies = 3\n").get_all_dependencies().is_empty());
    assert!(load("dependencies = { a = \"1\" }\n").get_all_dependencies().is_empty());
    assert!(load("[dependencies]\n").get_all_dependencies().is_empty());
}

#[test]
fn empty_version_declares_no_dependency_and_can_be_set() {
    let runtime = DependencySection::Dependencies;
    let mut doc = load("[dependencies]\na = \"\"\nb = { version = \"\" }\n");
    assert!(doc.get_all_dependencies().is_empty());
    assert!(doc.get_dependencies_from_section(runtime).is_empty());
    assert_eq!(doc.version_of("a", runtime), Some(String::new()));
    assert_eq!(doc.set_dependency_version("a", &runtime, "1"), Ok(()));
    assert_eq!(doc.update_dependency("b", &runtime, "2.0.0"), Ok(()));
    assert_eq!(text_of(&doc), "[dependencies]\na = \"1\"\nb = { version = \"2.0.0\" }\n");
    assert_eq!(
        doc.get_all_dependencies(),
        vec![dep("a", "1", runtime), dep("b", "2.0.0", runtime)]
    );
}

#[test]
fn version_is_the_member_called_version() {
    let runtime = DependencySection::Dependencies;
    let text = "[dependencies]\na = { package = \"renamed\", version = \"1.5\" }\nb = { package = \"other\" }\nc = { Version = \"2\" }\n";
    let mut doc = load(text);
    assert_eq!(doc.get_all_dependencies(), vec![dep("a", "1.5", runtime)]);
    assert_eq!(doc.set_dependency_version("a", &runtime, "1.6"), Ok(()));
    assert_eq!(text_of(&doc), text.replace("\"1.5\"", "\"1.6\""));
    assert_eq!(
        doc.set_dependency_version("b", &runtime, "1"),
        Err(CcuError::UnsupportedFormat)
    );
    assert_eq!(
        doc.set_dependency_version("c", &runtime, "1"),
        Err(CcuError::UnsupportedFormat)
    );
}

#[test]
fn section_names_and_their_text() {
    assert_eq!(DependencySection::Dependencies.as_str(), "dependencies");
    assert_eq!(DependencySection::DevDependencies.as_str(), "dev-dependencies");
    assert_eq!(DependencySection::BuildDependencies.as_str(), "build-dependencies");
}

#[test]
fn version_of_an_entry() {
    let doc = load(SAMPLE);
    let runtime = DependencySection::Dependencies;
    assert_eq!(doc.version_of("caret", runtime), Some("^0.21".to_string()));
    assert_eq!(doc.version_of("plain", DependencySection::DevDependencies), Some("=0.9.0".to_string()));
    assert_eq!(doc.version_of("local", runtime), None);
    assert_eq!(doc.version_of("absent", runtime), None);
    assert_eq!(doc.version_of("cc", runtime), None);
}

#[test]
fn set_rewrites_only_the_literal() {
    let mut doc = load(SAMPLE);
    let runtime = DependencySection::Dependencies;
    assert_eq!(doc.set_dependency_version("plain", &runtime, "1.5.0-longer"), Ok(()));
    assert_eq!(
        text_of(&doc),
        SAMPLE.replace("plain = \"1.0.0\" ", "plain = \"1.5.0-longer\" ")
    );
    assert_eq!(doc.version_of("plain", runtime), Some("1.5.0-longer".to_string()));
    assert_eq!(
        doc.version_of("plain", DependencySection::DevDependencies),
        Some("=0.9.0".to_string())
    );
}

#[test]
fn set_rewrites_each_form() {
    let runtime = DependencySection::Dependencies;
    let cases = [
        ("caret", "caret = \"^0.21\"", "caret = \"^9\""),
        ("inline", "{ version = \"~2\", features", "{ version = \"^9\", features"),
        ("literal", "literal = '>=3.1'", "literal = \"^9\""),
        ("dotted", "dotted.version = \"0.5\"", "dotted.version = \"^9\""),
        ("nested", "version = \"1.2\"\ndefault", "version = \"^9\"\ndefault"),
    ];
    for (name, before, after) in cases {
        let mut doc = load(SAMPLE);
        assert_eq!(doc.set_dependency_version(name, &runtime, "^9"), Ok(()), "{}", name);
        assert_eq!(text_of(&doc), SAMPLE.replace(before, after), "{}", name);
        assert_eq!(doc.version_of(name, runtime), Some("^9".to_string()));
    }
}

#[test]
fn set_in_other_sections() {
    let mut doc = load(SAMPLE);
    assert_eq!(
        doc.set_dependency_version("plain", &DependencySection::DevDependencies, "=1.0.0"),
        Ok(())
    );
    assert_eq!(
        doc.set_dependency_version("cc", &DependencySection::BuildDependencies, "<=2"),
        Ok(())
    );
    assert_eq!(
        text_of(&doc),
        SAMPLE.replace("plain = \"=0.9.0\"", "plain = \"=1.0.0\"").replace("cc = \"<=1.0\"", "cc = \"<=2\"")
    );
}

#[test]
fn later_literals_are_found_again_after_a_rewrite() {
    let mut doc = load(SAMPLE);
    let runtime = DependencySection::Dependencies;
    assert_eq!(doc.set_dependency_version("plain", &runtime, "100.200.300"), Ok(()));
    assert_eq!(doc.set_dependency_version("nested", &runtime, "2"), Ok(()));
    assert_eq!(doc.set_dependency_version("caret", &runtime, "^1"), Ok(()));
    assert_eq!(doc.set_dependency_version("plain", &runtime, "3"), Ok(()));
    assert_eq!(
        doc.set_dependency_version("cc", &DependencySection::BuildDependencies, "<=1.0.999"),
        Ok(())
    );
    let expected = SAMPLE
        .replace("plain = \"1.0.0\" ", "plain = \"3\" ")
        .replace("caret = \"^0.21\"", "caret = \"^1\"")
        .replace("version = \"1.2\"", "version = \"2\"")
        .replace("cc = \"<=1.0\"", "cc = \"<=1.0.999\"");
    assert_eq!(text_of(&doc), expected);
    let reread = load(&expected);
    assert_eq!(doc.get_all_dependencies(), reread.get_all_dependencies());
}

#[test]
fn set_fails_with_not_found() {
    let mut doc = load(SAMPLE);
    assert_eq!(
        doc.set_dependency_version("absent", &DependencySection::Dependencies, "1"),
        Err(CcuError::NotFound)
    );
    assert_eq!(
        doc.set_dependency_version("cc", &DependencySection::DevDependencies, "1"),
        Err(CcuError::NotFound)
    );
    let mut bare = load("[package]\nname = \"x\"\n");
    assert_eq!(
        bare.set_dependency_version("x", &DependencySection::Dependencies, "1"),
        Err(CcuError::NotFound)
    );
    assert_eq!(text_of(&doc), SAMPLE);
}

#[test]
fn set_fails_with_unsupported_format() {
    let mut doc = load(SAMPLE);
    for name in ["local", "inherited", "gitdep", "number"] {
        assert_eq!(
            doc.set_dependency_version(name, &DependencySection::Dependencies, "1"),
            Err(CcuError::UnsupportedFormat),
            "{}",
            name
        );
    }
    assert_eq!(text_of(&doc), SAMPLE);
}

#[test]
fn set_succeeds_on_every_range() {
    let runtime = DependencySection::Dependencies;
    let ranges = [
        "",
        "1\"0",
        "1\\0",
        "1\n0",
        "\u{7f}",
        "\t\r\u{8}\u{c}\u{0}\u{1f}",
        "\"\"\"",
        "\\",
        "é ☂ 1.0",
        "'1'",
    ];
    for range in ranges {
        let mut doc = load(SAMPLE);
        assert_eq!(doc.set_dependency_version("plain", &runtime, range), Ok(()), "{:?}", range);
        assert_eq!(doc.version_of("plain", runtime), Some(range.to_string()));
        let reread = load(&text_of(&doc));
        assert_eq!(reread.version_of("plain", runtime), Some(range.to_string()), "{:?}", range);
        assert_eq!(reread.version_of("caret", runtime), Some("^0.21".to_string()));
        assert_eq!(reread.version_of("cc", DependencySection::BuildDependencies), Some("<=1.0".to_string()));
    }
}

#[test]
fn set_writes_escapes_where_needed() {
    let runtime = DependencySection::Dependencies;
    let mut doc = load("[dependencies]\na = \"1\" # c\nb = \"2\"\n");
    assert_eq!(doc.set_dependency_version("a", &runtime, "x\"y\\z\n"), Ok(()));
    assert_eq!(text_of(&doc), "[dependencies]\na = \"x\\\"y\\\\z\\n\" # c\nb = \"2\"\n");
    assert_eq!(doc.set_dependency_version("b", &runtime, "3"), Ok(()));
    assert_eq!(text_of(&doc), "[dependencies]\na = \"x\\\"y\\\\z\\n\" # c\nb = \"3\"\n");
    assert_eq!(doc.set_dependency_version("a", &runtime, ""), Ok(()));
    assert_eq!(text_of(&doc), "[dependencies]\na = \"\" # c\nb = \"3\"\n");
    assert_eq!(doc.get_all_dependencies(), vec![dep("b", "3", runtime)]);
}

#[test]
fn escape_of_each_kind_of_byte() {
    assert_eq!(escape(&b"1.2.3".to_vec()), b"1.2.3");
    assert_eq!(escape(&b"".to_vec()), b"");
    assert_eq!(escape(&b"a\"b".to_vec()), b"a\\\"b");
    assert_eq!(escape(&b"a\\b".to_vec()), b"a\\\\b");
    assert_eq!(escape(&vec![0x08, 0x09, 0x0a, 0x0c, 0x0d]), b"\\b\\t\\n\\f\\r");
    assert_eq!(escape(&vec![0x00, 0x01, 0x0b, 0x1f, 0x7f]), b"\\u0000\\u0001\\u000B\\u001F\\u007F");
    assert_eq!(escape(&vec![0x20, 0x7e, 0x80, 0xc3, 0xa9, 0xff]), vec![0x20, 0x7e, 0x80, 0xc3, 0xa9, 0xff]);
}

#[test]
fn with_dependency_version_leaves_self_alone() {
    let doc = load(SAMPLE);
    let next = doc
        .with_dependency_version("caret", DependencySection::Dependencies, "^0.22")
        .unwrap();
    assert_eq!(text_of(&doc), SAMPLE);
    assert_eq!(text_of(&next), SAMPLE.replace("\"^0.21\"", "\"^0.22\""));
    assert_eq!(next.path(), "Cargo.toml");
}

#[test]
fn update_keeps_the_operator_of_the_manifest() {
    let mut doc = load(SAMPLE);
    let runtime = DependencySection::Dependencies;
    assert_eq!(doc.update_dependency("caret", &runtime, "2.0.0"), Ok(()));
    assert_eq!(doc.update_dependency("plain", &runtime, "2.0.0"), Ok(()));
    assert_eq!(doc.update_dependency("literal", &runtime, "2.0.0"), Ok(()));
    assert_eq!(doc.update_dependency("inline", &runtime, "2.0.0"), Ok(()));
    assert_eq!(doc.version_of("caret", runtime), Some("^2.0.0".to_string()));
    assert_eq!(doc.version_of("plain", runtime), Some("2.0.0".to_string()));
    assert_eq!(doc.version_of("literal", runtime), Some(">=2.0.0".to_string()));
    assert_eq!(doc.version_of("inline", runtime), Some("~2.0.0".to_string()));
    assert_eq!(doc.update_dependency("absent", &runtime, "2.0.0"), Err(CcuError::NotFound));
    assert_eq!(
        doc.update_dependency("local", &runtime, "2.0.0"),
        Err(CcuError::UnsupportedFormat)
    );
}

#[test]
fn upgraded_range_wraps_the_newest_version() {
    let runtime = DependencySection::Dependencies;
    assert_eq!(upgraded_range(&update("a", "^1.2.3", runtime, SemVer::new(2, 0, 0))), "^2.0.0");
    assert_eq!(upgraded_range(&update("a", "1.2.3", runtime, SemVer::new(2, 0, 0))), "2.0.0");
    assert_eq!(upgraded_range(&update("a", ">=0.5", runtime, SemVer::new(2, 0, 0))), ">=2.0.0");
}

#[test]
fn apply_one_writes_one_update() {
    let doc = load(SAMPLE);
    let next = apply_one(
        &doc,
        &update("caret", "^0.21", DependencySection::Dependencies, SemVer::new(0, 22, 1)),
    )
    .unwrap();
    assert_eq!(text_of(&next), SAMPLE.replace("\"^0.21\"", "\"^0.22.1\""));
}

#[test]
fn apply_plan_writes_every_update() {
    let mut doc = load(SAMPLE);
    let plan = vec![
        update("cc", "<=1.0", DependencySection::BuildDependencies, SemVer::new(1, 1, 0)),
        update("plain", "1.0.0", DependencySection::Dependencies, SemVer::new(1, 0, 1)),
        update("nested", "1.2", DependencySection::Dependencies, SemVer::new(10, 0, 0)),
    ];
    assert_eq!(apply_plan(&mut doc, &plan), Ok(()));
    let expected = SAMPLE
        .replace("plain = \"1.0.0\" ", "plain = \"1.0.1\" ")
        .replace("version = \"1.2\"", "version = \"10.0.0\"")
        .replace("cc = \"<=1.0\"", "cc = \"<=1.1.0\"");
    assert_eq!(text_of(&doc), expected);
}

#[test]
fn apply_plan_of_nothing_changes_nothing() {
    let mut doc = load(SAMPLE);
    assert_eq!(apply_plan(&mut doc, &vec![]), Ok(()));
    assert_eq!(text_of(&doc), SAMPLE);
}

#[test]
fn apply_plan_fails_as_a_whole() {
    let mut doc = load(SAMPLE);
    let plan = vec![
        update("plain", "1.0.0", DependencySection::Dependencies, SemVer::new(1, 0, 1)),
        update("local", "1", DependencySection::Dependencies, SemVer::new(2, 0, 0)),
        update("absent", "1", DependencySection::Dependencies, SemVer::new(2, 0, 0)),
    ];
    assert_eq!(apply_plan(&mut doc, &plan), Err(CcuError::UnsupportedFormat));
    assert_eq!(text_of(&doc), SAMPLE);
    assert_eq!(doc.version_of("plain", DependencySection::Dependencies), Some("1.0.0".to_string()));
    let plan = vec![
        update("absent", "1", DependencySection::Dependencies, SemVer::new(2, 0, 0)),
        update("local", "1", DependencySection::Dependencies, SemVer::new(2, 0, 0)),
    ];
    assert_eq!(apply_plan(&mut doc, &plan), Err(CcuError::NotFound));
    assert_eq!(text_of(&doc), SAMPLE);
}

#[test]
fn end_to_end() {
    let mut doc = load("[dependencies]\nfoo = \"1.0.0\"");
    let deps = doc.get_all_dependencies();
    let mut latest = LatestVersions::new();
    latest.insert("foo".to_string(), SemVer::new(1, 2, 0));
    let plan = compute_updates(&deps, &latest, &vec![], &vec![]);
    assert_eq!(
        plan,
        vec![Update {
            dependency: dep("foo", "1.0.0", DependencySection::Dependencies),
            current_version: SemVer::new(1, 0, 0),
            latest_version: SemVer::new(1, 2, 0),
            severity: Severity::Minor,
        }]
    );
    assert_eq!(apply_plan(&mut doc, &plan), Ok(()));
    assert_eq!(text_of(&doc), "[dependencies]\nfoo = \"1.2.0\"");
}

#[test]
fn end_to_end_with_operators_and_comments() {
    let text = "[dependencies] # ☂\na = \"^1.2\" # keep\nb = { version = \">=0.5\", optional = true }\nc = \"3\"\n";
    let mut doc = load(text);
    let deps = doc.get_all_dependencies();
    let mut latest = LatestVersions::new();
    latest.insert("a".to_string(), SemVer::new(2, 0, 0));
    latest.insert("b".to_string(), SemVer::new(0, 5, 1));
    latest.insert("c".to_string(), SemVer::new(3, 0, 0));
    let plan = compute_updates(&deps, &latest, &vec![], &vec![]);
    assert_eq!(plan.len(), 2);
    assert_eq!(apply_plan(&mut doc, &plan), Ok(()));
    assert_eq!(
        text_of(&doc),
        "[dependencies] # ☂\na = \"^2.0.0\" # keep\nb = { version = \">=0.5.1\", optional = true }\nc = \"3\"\n"
    );
}

fn literal(value: &str, start: usize, end: usize) -> Option<Literal> {
    Some(Literal { value: value.to_string(), start, end })
}

fn entry(name: &str, section: DependencySection, version: Option<Literal>) -> Entry {
    Entry { name: name.to_string(), section, shape: ItemShape::Text, version }
}

#[test]
fn entry_is_classified_by_its_shape() {
    let runtime = DependencySection::Dependencies;
    let made = |shape| {
        Entry::from_item("a".to_string(), runtime, shape, literal("1", 4, 7), literal("2", 9, 12))
    };
    assert_eq!(made(ItemShape::Text).version.map(|l| (l.value, l.start, l.end)), Some(("1".to_string(), 4, 7)));
    assert_eq!(made(ItemShape::Inline).version.map(|l| (l.value, l.start, l.end)), Some(("2".to_string(), 9, 12)));
    assert_eq!(made(ItemShape::Table).version.map(|l| (l.value, l.start, l.end)), Some(("2".to_string(), 9, 12)));
    assert!(made(ItemShape::Other).version.is_none());
    let empty = Entry::from_item("a".to_string(), runtime, ItemShape::Text, literal("", 4, 6), None);
    assert_eq!(empty.version.map(|l| (l.value, l.start, l.end)), Some((String::new(), 4, 6)));
    let missing = Entry::from_item("a".to_string(), runtime, ItemShape::Inline, literal("1", 4, 7), None);
    assert!(missing.version.is_none());
    assert_eq!(missing.name, "a");
    assert_eq!(missing.shape, ItemShape::Inline);
}

#[test]
fn from_parts_takes_entries_that_fit() {
    let runtime = DependencySection::Dependencies;
    let text = b"a='1' b='22' c".to_vec();
    let mut doc = CargoTomlParser::from_parts(
        "x.toml",
        text,
        vec![
            entry("b", runtime, literal("22", 8, 12)),
            entry("a", runtime, literal("1", 2, 5)),
            entry("c", runtime, None),
        ],
    )
    .unwrap();
    assert_eq!(doc.path(), "x.toml");
    assert_eq!(doc.set_dependency_version("a", &runtime, "1000"), Ok(()));
    assert_eq!(text_of(&doc), "a=\"1000\" b='22' c");
    assert_eq!(doc.set_dependency_version("b", &runtime, "3"), Ok(()));
    assert_eq!(text_of(&doc), "a=\"1000\" b=\"3\" c");
    assert_eq!(doc.set_dependency_version("a", &runtime, "2"), Ok(()));
    assert_eq!(text_of(&doc), "a=\"2\" b=\"3\" c");
    assert_eq!(doc.set_dependency_version("c", &runtime, "2"), Err(CcuError::UnsupportedFormat));
}

#[test]
fn from_parts_refuses_entries_that_do_not_fit() {
    let runtime = DependencySection::Dependencies;
    let dev = DependencySection::DevDependencies;
    let text = || b"0123456789".to_vec();
    let refused = |entries| CargoTomlParser::from_parts("p", text(), entries).err();
    assert_eq!(refused(vec![entry("a", runtime, literal("1", 8, 11))]), Some(CcuError::ParseError));
    assert_eq!(refused(vec![entry("a", runtime, literal("1", 5, 5))]), Some(CcuError::ParseError));
    assert_eq!(refused(vec![entry("a", runtime, literal("1", 6, 5))]), Some(CcuError::ParseError));
    assert_eq!(refused(vec![entry("a", runtime, literal("", 5, 7))]), None);
    assert_eq!(
        refused(vec![entry("a", runtime, literal("1", 0, 5)), entry("b", runtime, literal("1", 4, 8))]),
        Some(CcuError::ParseError)
    );
    assert_eq!(
        refused(vec![entry("a", runtime, literal("1", 0, 3)), entry("a", runtime, literal("1", 4, 8))]),
        Some(CcuError::ParseError)
    );
    assert_eq!(
        refused(vec![entry("a", runtime, None), entry("a", runtime, None)]),
        Some(CcuError::ParseError)
    );
    assert_eq!(
        refused(vec![entry("a", runtime, literal("1", 0, 5)), entry("a", dev, literal("1", 5, 10))]),
        None
    );
    assert_eq!(refused(vec![]), None);
}
