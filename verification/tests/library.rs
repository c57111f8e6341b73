use memctl::date::Date;
use memctl::supersede::SupersedeError;
use memctl::schema::{Frontmatter, MemoryFile, MemoryType, SchemaError};
use memctl::{dedupe, gc, index, migrate, schema, show, stale, supersede, text, validate};
use std::collections::HashMap;

fn day(y: i32, m: u32, d: u32) -> Date {
    Date::new(y, m, d).unwrap()
}

fn memory(
    file: &str,
    name: &str,
    description: &str,
    kind: MemoryType,
    superseded_by: Option<&str>,
    valid_until: Option<Date>,
    tags: &[&str],
) -> MemoryFile {
    MemoryFile {
        file_name: file.to_string(),
        frontmatter: Frontmatter {
            name: name.to_string(),
            description: description.to_string(),
            memory_type: kind,
            superseded_by: superseded_by.map(|s| s.to_string()),
            valid_until,
            tags: tags.iter().map(|t| t.to_string()).collect(),
            extra: HashMap::new(),
        },
        body: "\nSome body text.\n\n".to_string(),
    }
}

/// The memories of the original's `valid` fixture directory.
fn fixture() -> Vec<MemoryFile> {
    vec![
        memory("expired_memory.md", "Sprint deadline", "Sprint ends on Friday", MemoryType::Project, None, Some(day(2020, 1, 1)), &[]),
        memory("feedback_testing.md", "Testing preferences", "Always use integration tests over mocks", MemoryType::Feedback, None, None, &["testing", "workflow"]),
        memory("project_launch.md", "Product launch", "Launch planned for next quarter", MemoryType::Project, None, Some(day(2099, 12, 31)), &[]),
        memory("reference_api.md", "API documentation site", "Where the API docs live", MemoryType::Reference, None, None, &[]),
        memory("superseded_old.md", "Old auth setup", "Auth used to go through the proxy", MemoryType::Project, Some("feedback_testing.md"), None, &[]),
        memory("user_alice.md", "Alice", "Alice is the team lead", MemoryType::User, None, None, &[]),
    ]
}

fn today() -> Date {
    day(2025, 6, 1)
}

// --- dates ---

#[test]
fn date_validity_follows_the_calendar() {
    assert!(Date::new(2015, 3, 14).is_some());
    assert!(Date::new(2015, 0, 14).is_none());
    assert!(Date::new(2015, 2, 29).is_none());
    assert!(Date::new(2024, 2, 29).is_some());
    assert!(Date::new(1900, 2, 29).is_none());
    assert!(Date::new(2000, 2, 29).is_some());
    assert!(Date::new(-4, 2, 29).is_some());
    assert!(Date::new(2023, 4, 31).is_none());
    assert!(Date::new(400000, 1, 1).is_none());
    assert!(Date::new(-400000, 1, 1).is_none());
}

#[test]
fn date_text_is_iso() {
    assert_eq!(day(2024, 1, 5).to_text(), "2024-01-05");
    assert_eq!(day(7, 11, 30).to_text(), "0007-11-30");
    assert_eq!(day(12345, 6, 7).to_text(), "+12345-06-07");
    assert_eq!(day(-1, 1, 1).to_text(), "-0001-01-01");
}

#[test]
fn date_order_is_chronological() {
    assert!(day(2024, 1, 5).is_on_or_before(&day(2024, 1, 5)));
    assert!(day(2024, 1, 5).is_on_or_before(&day(2024, 1, 6)));
    assert!(day(2023, 12, 31).is_on_or_before(&day(2024, 1, 1)));
    assert!(!day(2024, 2, 1).is_on_or_before(&day(2024, 1, 31)));
}

// --- text ---

#[test]
fn compare_text_uses_code_points() {
    let t = |s: &str| text::chars_of(s);
    assert_eq!(text::compare_text(&t("abc"), &t("abd")), -1);
    assert_eq!(text::compare_text(&t("abc"), &t("abc")), 0);
    assert_eq!(text::compare_text(&t("abc"), &t("ab")), 1);
    assert_eq!(text::compare_text(&t("Zeta"), &t("alpha")), -1);
    assert_eq!(text::compare_text(&t(""), &t("a")), -1);
}

#[test]
fn trim_removes_unicode_white_space() {
    assert_eq!(text::trim("  hello world \n\t"), "hello world");
    assert_eq!(text::trim("\u{3000}\u{a0}x\u{2029}"), "x");
    assert_eq!(text::trim(" \n "), "");
    assert_eq!(text::trim("a b"), "a b");
}

#[test]
fn contains_text_finds_infixes() {
    let t = |s: &str| text::chars_of(s);
    assert!(text::contains_text(&t("alice smith"), &t("smith")));
    assert!(text::contains_text(&t("alice"), &t("")));
    assert!(!text::contains_text(&t("alice"), &t("bob")));
    assert!(!text::contains_text(&t("al"), &t("alice")));
}

#[test]
fn join_texts_puts_separators_between() {
    let parts = vec!["a".to_string(), "b".to_string(), "c".to_string()];
    assert_eq!(text::join_texts(&parts, ", "), "a, b, c");
    assert_eq!(text::join_texts(&Vec::new(), ", "), "");
}

#[test]
fn show_lowercases_unicode() {
    let ms = vec![memory("Über.md", "ÄRGER Notes", "d", MemoryType::User, None, None, &[])];
    assert_eq!(show::find(&ms, "ärger"), Some(0));
    assert_eq!(show::find(&ms, "ÜBER"), Some(0));
    assert_eq!(show::find(&ms, "uber"), None);
}

// --- schema ---

#[test]
fn memory_type_labels() {
    assert_eq!(MemoryType::User.label(), "user");
    assert_eq!(MemoryType::Feedback.label(), "feedback");
    assert_eq!(MemoryType::Project.label(), "project");
    assert_eq!(MemoryType::Reference.label(), "reference");
}

#[test]
fn split_document_separates_front_matter() {
    let raw = "---\nname: Alice\ntype: user\n---\n\nAlice leads the team.\n";
    let doc = schema::split_document(raw).unwrap();
    assert_eq!(doc.front_matter, "name: Alice\ntype: user");
    assert_eq!(doc.body, "Alice leads the team.");
}

#[test]
fn split_document_without_front_matter_fails() {
    assert!(matches!(schema::split_document("just text\n"), Err(SchemaError::MissingFrontmatter)));
    assert!(matches!(schema::split_document("---\n   \n---\nbody"), Err(SchemaError::MissingFrontmatter)));
    assert!(matches!(schema::split_document(""), Err(SchemaError::MissingFrontmatter)));
}

#[test]
fn document_from_parts_trims_front_matter() {
    let doc = schema::document_from_parts("  a: 1 \n", "body".to_string()).unwrap();
    assert_eq!(doc.front_matter, "a: 1");
    assert_eq!(doc.body, "body");
    assert!(schema::document_from_parts(" \n\t", String::new()).is_err());
}

#[test]
fn memory_file_names() {
    assert!(schema::memory_file_name("user_alice.md"));
    assert!(schema::memory_file_name("..md"));
    assert!(!schema::memory_file_name("MEMORY.md"));
    assert!(!schema::memory_file_name(".md"));
    assert!(!schema::memory_file_name("notes.txt"));
    assert!(!schema::memory_file_name("readme.MD"));
}

#[test]
fn discover_filters_and_sorts() {
    let names: Vec<String> = ["b.md", "MEMORY.md", "a.md", "notes.txt", "B.md", "archive"]
        .iter()
        .map(|s| s.to_string())
        .collect();
    assert_eq!(schema::discover(&names), vec!["B.md", "a.md", "b.md"]);
}

#[test]
fn render_document_frames_front_matter() {
    assert_eq!(
        schema::render_document("name: x\n", "\n  body line\n\n"),
        "---\nname: x\n---\n\nbody line\n"
    );
}

// --- index ---

#[test]
fn index_generates_memory_md() {
    let content = index::generate_on(&fixture(), &today());
    assert!(!content.contains("Old auth setup"), "superseded entry should be excluded");
    assert!(!content.contains("Sprint deadline"), "expired entry should be excluded");
    assert!(content.contains("Alice"));
    assert!(content.contains("Testing preferences"));
    assert!(content.contains("API documentation site"));
    assert!(content.contains("#testing"));
}

#[test]
fn index_sorted_by_type_then_name() {
    let content = index::generate_on(&fixture(), &today());
    let lines: Vec<&str> = content.lines().collect();
    let feedback_pos = lines.iter().position(|l| l.contains("Testing preferences"));
    let project_pos = lines.iter().position(|l| l.contains("Product launch"));
    let reference_pos = lines.iter().position(|l| l.contains("API documentation"));
    let user_pos = lines.iter().position(|l| l.contains("Alice"));
    assert!(feedback_pos < project_pos, "feedback should come before project");
    assert!(project_pos < reference_pos, "project should come before reference");
    assert!(reference_pos < user_pos, "reference should come before user");
}

#[test]
fn index_text_is_exact() {
    let content = index::generate_on(&fixture(), &today());
    assert_eq!(
        content,
        "- [Testing preferences](feedback_testing.md) \u{2014} Always use integration tests over mocks #testing #workflow\n\
         - [Product launch](project_launch.md) \u{2014} Launch planned for next quarter\n\
         - [API documentation site](reference_api.md) \u{2014} Where the API docs live\n\
         - [Alice](user_alice.md) \u{2014} Alice is the team lead"
    );
}

#[test]
fn index_orders_names_within_a_kind_and_keeps_ties() {
    let ms = vec![
        memory("z.md", "Zed", "d", MemoryType::User, None, None, &[]),
        memory("b.md", "Bob", "d", MemoryType::User, None, None, &[]),
        memory("b2.md", "Bob", "d", MemoryType::User, None, None, &[]),
        memory("a.md", "alice", "d", MemoryType::User, None, None, &[]),
        memory("p.md", "Plan", "d", MemoryType::Project, None, None, &[]),
    ];
    assert_eq!(index::index_order(&ms, &today()), vec![4, 1, 2, 0, 3]);
}

#[test]
fn index_expiry_is_inclusive_of_today() {
    let ms = vec![
        memory("a.md", "A", "d", MemoryType::User, None, Some(day(2025, 6, 1)), &[]),
        memory("b.md", "B", "d", MemoryType::User, None, Some(day(2025, 6, 2)), &[]),
    ];
    assert_eq!(index::index_order(&ms, &today()), vec![1]);
}

#[test]
fn index_of_nothing_is_empty() {
    assert_eq!(index::generate_on(&Vec::new(), &today()), "");
}

#[test]
fn long_descriptions_are_cut_at_97_bytes() {
    let long = "x".repeat(150);
    let shown = index::shorten_description(&long);
    assert_eq!(shown, format!("{}...", "x".repeat(97)));
    assert_eq!(shown.len(), 100);
    let exact = "y".repeat(100);
    assert_eq!(index::shorten_description(&exact), exact);
    let wide = "é".repeat(60);
    assert_eq!(index::shorten_description(&wide), format!("{}...", "é".repeat(48)));
    let mixed = format!("{}{}", "a".repeat(96), "日本語日本語");
    assert_eq!(index::shorten_description(&mixed), format!("{}...", "a".repeat(96)));
}

#[test]
fn tag_suffix_marks_each_tag() {
    let tags = vec!["a".to_string(), "b c".to_string()];
    assert_eq!(index::tag_suffix(&tags), " #a #b c");
    assert_eq!(index::tag_suffix(&Vec::new()), "");
}

// --- stale and gc ---

#[test]
fn stale_finds_expired() {
    let lines = stale::report_on(&fixture(), &today());
    assert_eq!(lines, vec!["expired_memory.md (expired 2020-01-01)"]);
    assert_eq!(stale::expired_on(&fixture(), &today()), vec![0]);
}

#[test]
fn gc_dry_run_does_not_delete() {
    let ms = fixture();
    let picked = gc::candidates_on(&ms, &today());
    let names: Vec<&str> = picked.iter().map(|&i| ms[i].file_name.as_str()).collect();
    assert_eq!(names, vec!["expired_memory.md", "superseded_old.md"]);
}

#[test]
fn gc_and_index_split_the_memories() {
    let ms = fixture();
    let listed = index::index_order(&ms, &today());
    let archived = gc::candidates_on(&ms, &today());
    for i in 0..ms.len() {
        assert_ne!(listed.contains(&i), archived.contains(&i));
    }
}

// --- validate ---

#[test]
fn validate_valid_files() {
    let ms = fixture();
    let exists = vec![true; ms.len()];
    let diags = validate::check_on(&ms, &exists, &today());
    assert!(validate::passes(0, &diags));
    assert_eq!(diags.len(), 1);
    assert!(!diags[0].is_error);
    assert_eq!(diags[0].message, "warn: expired_memory.md: valid_until 2020-01-01 is in the past");
}

#[test]
fn validate_invalid_files_exits_1() {
    let ms = vec![
        memory("self.md", "S", "d", MemoryType::User, Some("self.md"), None, &[]),
        memory("gone.md", "G", "d", MemoryType::User, Some("missing.md"), None, &[]),
    ];
    let diags = validate::check_on(&ms, &vec![true, false], &today());
    assert!(!validate::passes(0, &diags));
    let messages: Vec<&str> = diags.iter().map(|d| d.message.as_str()).collect();
    assert_eq!(
        messages,
        vec![
            "self.md: superseded_by references itself",
            "gone.md: superseded_by target 'missing.md' does not exist",
        ]
    );
    assert!(!validate::passes(1, &Vec::new()));
}

// --- show ---

#[test]
fn show_by_name() {
    let ms = fixture();
    let i = show::find(&ms, "alice").unwrap();
    assert_eq!(ms[i].file_name, "user_alice.md");
    let text = show::render(&ms[i]);
    assert!(text.contains("Alice"));
    assert!(text.contains("user"));
    assert_eq!(
        text,
        "name: Alice\ntype: user\ndescription: Alice is the team lead\n---\nSome body text.\n"
    );
}

#[test]
fn show_not_found_exits_2() {
    assert_eq!(show::find(&fixture(), "nonexistent"), None);
}

#[test]
fn show_matches_file_names_case_insensitively() {
    let ms = fixture();
    assert_eq!(show::find(&ms, "REFERENCE_API"), Some(3));
    assert_eq!(show::find(&ms, "Reference_Api.MD"), Some(3));
    assert_eq!(show::find(&ms, "launch"), Some(2));
}

#[test]
fn show_lists_optional_fields() {
    let m = memory("t.md", "T", "desc", MemoryType::Feedback, Some("u.md"), Some(day(2030, 2, 3)), &["a", "b"]);
    assert_eq!(
        show::render(&m),
        "name: T\ntype: feedback\ndescription: desc\nsuperseded_by: u.md\nvalid_until: 2030-02-03\ntags: a, b\n---\nSome body text.\n"
    );
}

// --- supersede and migrate ---

#[test]
fn supersede_updates_frontmatter() {
    let ms = fixture();
    let alice = ms.into_iter().nth(5).unwrap();
    let marked = supersede::mark(alice.frontmatter, "feedback_testing.md");
    assert_eq!(marked.superseded_by.as_deref(), Some("feedback_testing.md"));
    assert_eq!(marked.name, "Alice");
}

#[test]
fn supersede_refusals() {
    assert_eq!(supersede::check_request("a.md", "a.md", false, false), Err(SupersedeError::SelfSupersession));
    assert_eq!(supersede::check_request("a.md", "b.md", false, true), Err(SupersedeError::OldMissing));
    assert_eq!(supersede::check_request("a.md", "b.md", true, false), Err(SupersedeError::NewMissing));
    assert_eq!(supersede::check_request("a.md", "b.md", true, true), Ok(()));
}

#[test]
fn migrate_dry_run() {
    let same = "---\nname: x\n---\n\nbody\n";
    assert_eq!(migrate::rewrite("name: x\n", "body", same), None);
    assert_eq!(
        migrate::rewrite("name: x\ntags: []\n", "body", same),
        Some("---\nname: x\ntags: []\n---\n\nbody\n".to_string())
    );
}

// --- dedupe ---

#[test]
fn dedupe_pairs_each_once() {
    assert_eq!(dedupe::pairs(0), vec![]);
    assert_eq!(dedupe::pairs(1), vec![]);
    assert_eq!(dedupe::pairs(4), vec![(0, 1), (0, 2), (0, 3), (1, 2), (1, 3), (2, 3)]);
}

// --- operations that read the clock, on memories that no date affects ---

#[test]
fn clock_based_operations_on_undated_memories() {
    let ms = vec![
        memory("u.md", "U", "user memory", MemoryType::User, None, None, &["x"]),
        memory("old.md", "Old", "replaced", MemoryType::Feedback, Some("u.md"), None, &[]),
    ];
    assert_eq!(index::generate(&ms), "- [U](u.md) \u{2014} user memory #x");
    assert!(stale::run(&ms).is_empty());
    assert_eq!(gc::run(&ms), vec![1]);
    let diags = validate::run(&ms, &vec![false, true]);
    assert!(validate::passes(0, &diags));
    assert!(diags.is_empty());
}

// --- laws on concrete values ---

#[test]
fn index_is_deterministic() {
    let a = index::generate_on(&fixture(), &today());
    let b = index::generate_on(&fixture(), &today());
    assert_eq!(a, b);
}

#[test]
fn stale_memories_are_archived() {
    let ms = fixture();
    let archived = gc::candidates_on(&ms, &today());
    for i in stale::expired_on(&ms, &today()) {
        assert!(archived.contains(&i));
    }
}

#[test]
fn superseding_moves_a_memory_from_index_to_archive() {
    let mut ms = fixture();
    let alice = ms.remove(5);
    let marked = supersede::mark(alice.frontmatter, "feedback_testing.md");
    ms.push(MemoryFile { file_name: alice.file_name, frontmatter: marked, body: alice.body });
    let last = ms.len() - 1;
    assert!(!index::index_order(&ms, &today()).contains(&last));
    assert!(gc::candidates_on(&ms, &today()).contains(&last));
    assert!(!index::generate_on(&ms, &today()).contains("Alice"));
}

#[test]
fn shown_descriptions_fit_in_100_bytes() {
    for n in 0..130 {
        let d = "ü".repeat(n);
        let shown = index::shorten_description(&d);
        assert!(shown.len() <= 100);
        if d.len() <= 100 {
            assert_eq!(shown, d);
        } else {
            assert!(shown.ends_with("..."));
            assert!(d.starts_with(&shown[..shown.len() - 3]));
        }
    }
}
