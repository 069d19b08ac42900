use webgit::object::ObjectId;
use webgit::render::commits_table::{CommitRow, RefLabelKind};
use webgit::render::in_order::InOrder;
use webgit::render::query::{
    apply_decorations, branch_targets, collect_refs, commit_body, commit_first_line, commit_row,
    commit_rows, decoration_map, found_ref_rows, head_branch_name, mapped_ident, ref_row,
    tag_targets, walk_report, CommitInfo, RefEntry, RefName, RefTarget,
};
use webgit::render::time::{CivilDate, Moment};

/// Resolve `order` (a permutation of slot indices) and collect what was
/// emitted, as `(index, value)` pairs in emission order.
fn reveal_sequence(len: usize, order: &[usize]) -> Vec<(usize, usize)> {
    let mut emitted = Vec::new();
    let mut reveal = InOrder::new(len);
    for &i in order {
        emitted.extend(reveal.resolve(i, Some(i * 10)));
    }
    emitted
}

#[test]
fn in_order_emits_in_index_order_however_it_resolves() {
    // Reverse, then a scrambled order: emission is by index either way.
    let expected: Vec<(usize, usize)> = (0..4).map(|i| (i, i * 10)).collect();
    assert_eq!(reveal_sequence(4, &[3, 2, 1, 0]), expected);
    assert_eq!(reveal_sequence(4, &[1, 3, 0, 2]), expected);
    assert_eq!(reveal_sequence(4, &[0, 1, 2, 3]), expected);
}

#[test]
fn in_order_holds_values_behind_an_unresolved_slot() {
    // Slot 0 outstanding: nothing may be emitted, however many land after it.
    let mut emitted = Vec::new();
    let mut reveal = InOrder::new(3);

    emitted.extend(reveal.resolve(2, Some(20)));
    emitted.extend(reveal.resolve(1, Some(10)));
    assert!(emitted.is_empty(), "nothing precedes slot 0");

    // Slot 0 landing releases the whole run at once.
    emitted.extend(reveal.resolve(0, Some(0)));
    assert_eq!(emitted, vec![(0, 0), (1, 10), (2, 20)]);
}

#[test]
fn in_order_skips_unresolvable_values_without_stalling() {
    // A ref whose commit doesn't resolve consumes its slot silently; the
    // rows after it must still come through.
    let mut emitted = Vec::new();
    let mut reveal = InOrder::new(3);

    emitted.extend(reveal.resolve(1, Some(10)));
    emitted.extend(reveal.resolve(0, None));
    assert_eq!(emitted, vec![(1, 10)]);

    emitted.extend(reveal.resolve(2, Some(20)));
    assert_eq!(emitted, vec![(1, 10), (2, 20)]);
}

#[test]
fn test_commit_first_line() {
    assert_eq!(
        commit_first_line(b"Fix bug\n\nLonger description\n"),
        "Fix bug"
    );
    assert_eq!(commit_first_line(b"Single line"), "Single line");
    assert_eq!(commit_first_line(b"trailing newline\n"), "trailing newline");
    assert_eq!(commit_first_line(b""), "");
    // Invalid UTF-8 is replaced, not dropped.
    assert_eq!(
        commit_first_line(b"caf\xc3\xa9 \xff fix"),
        "caf\u{e9} \u{fffd} fix"
    );
}

#[test]
fn test_commit_body() {
    assert_eq!(
        commit_body(b"Fix bug\n\nLonger description\n"),
        "Longer description"
    );
    // Paragraphs and trailers inside the body are kept as written; only the
    // separator above and the whitespace below come off.
    assert_eq!(
        commit_body(b"Fix bug\n\nWhy\n\nSigned-off-by: A <a@example.org>\n\n"),
        "Why\n\nSigned-off-by: A <a@example.org>"
    );
    // Indentation is part of the body, not leading whitespace to trim.
    assert_eq!(commit_body(b"Fix bug\n\n    code\n"), "    code");
    // Nothing after the subject is no body at all, not an empty row.
    assert_eq!(commit_body(b"Single line"), "");
    assert_eq!(commit_body(b"trailing newline\n"), "");
    assert_eq!(commit_body(b""), "");
}

/// A subject that ends in `\r\n` ends in front of both.
#[test]
fn subject_stops_in_front_of_a_carriage_return() {
    assert_eq!(commit_first_line(b"Fix\r\n\r\nWhy\r\n"), "Fix");
    assert_eq!(commit_first_line(b"a\rb\nc"), "a\rb");
}

fn id(hex: &str) -> ObjectId {
    let mut padded = hex.as_bytes().to_vec();
    padded.resize(40, b'0');
    ObjectId::from_hex(&padded).unwrap()
}

fn entry(hex: &str) -> RefEntry {
    RefEntry { target: id(hex), peeled: None }
}

fn moment(unix_ms: i64) -> Moment {
    Moment {
        unix_ms,
        date: CivilDate { year: 2001, month: 2, day: 3 },
        hour: 4,
        minute: 5,
        second: 6,
        offset_seconds: 0,
    }
}

fn commit(hex: &str, message: &str) -> CommitInfo {
    CommitInfo {
        id: id(hex),
        message: message.as_bytes().to_vec(),
        author_name: b"A U Thor".to_vec(),
        author_date: moment(1_000),
    }
}

#[test]
fn refs_are_split_by_folder() {
    let refs = vec![
        (RefName::Head, entry("00")),
        (RefName::Ref(b"heads/main".to_vec()), entry("aa")),
        (RefName::Ref(b"notes/commits".to_vec()), entry("bb")),
        (RefName::Ref(b"tags/v1/rc".to_vec()), entry("cc")),
        (RefName::Ref(b"heads/caf\xff".to_vec()), entry("dd")),
    ];
    let (branches, tags) = collect_refs(&refs);
    let names: Vec<&str> = branches.iter().map(|b| b.0.as_str()).collect();
    assert_eq!(names, ["main", "caf\u{fffd}"]);
    assert_eq!(tags.len(), 1);
    assert_eq!(tags[0].0, "v1/rc");
    assert_eq!(tags[0].1.target, id("cc"));
}

#[test]
fn tags_point_at_what_is_recorded_or_found() {
    let recorded = RefEntry { target: id("aa"), peeled: Some(id("bb")) };
    let tags = vec![
        ("v1".to_string(), recorded),
        ("v2".to_string(), entry("cc")),
        ("v3".to_string(), entry("dd")),
    ];
    let targets = tag_targets(&tags, &vec![Some(id("ee")), Some(id("ff")), None]);
    let expected = [("v1", Some(id("bb"))), ("v2", Some(id("ff"))), ("v3", None)];
    assert_eq!(targets.len(), 3);
    for (target, (name, commit)) in targets.iter().zip(expected) {
        assert_eq!(target.0, name);
        assert_eq!(target.1, commit);
    }
}

#[test]
fn head_is_on_a_branch_or_on_none() {
    let on = |name: &[u8]| head_branch_name(&RefTarget::Symbolic(RefName::Ref(name.to_vec())));
    assert_eq!(on(b"heads/main").as_deref(), Some("main"));
    assert_eq!(on(b"heads/feature/x").as_deref(), Some("feature/x"));
    assert_eq!(on(b"heads/").as_deref(), Some(""));
    assert_eq!(on(b"tags/v1"), None);
    assert_eq!(on(b"head"), None);
    assert_eq!(head_branch_name(&RefTarget::Symbolic(RefName::Head)), None);
    assert_eq!(head_branch_name(&RefTarget::Direct(id("aa"))), None);
}

#[test]
fn ref_without_a_recorded_peel_is_looked_for_at_its_target() {
    assert_eq!(entry("aa").commit_target(), id("aa"));
    let peeled = RefEntry { target: id("aa"), peeled: Some(id("bb")) };
    assert_eq!(peeled.commit_target(), id("bb"));
}

#[test]
fn commit_is_turned_into_a_row() {
    let row = commit_row(&commit("0123abcd", "Fix\n\nWhy\n"), 61_999);
    assert_eq!(row.short_hash, "0123abcd");
    assert_eq!(row.message, "Fix");
    assert_eq!(row.body, "Why");
    assert_eq!(row.author, "A U Thor");
    assert_eq!(row.age.secs(), 60);
    assert_eq!(row.href(), "#!/commit/0123abcd00000000000000000000000000000000");
    assert!(row.refs.is_empty());
    assert!(row.shows_body(true));
    assert!(!row.shows_body(false));
    // A clock that runs behind makes a commit no younger than now.
    assert_eq!(commit_row(&commit("01", "x"), 0).age.secs(), 0);
    assert_eq!(commit_rows(&vec![commit("01", "a"), commit("02", "b")], 0)[1].message, "b");
}

#[test]
fn ref_whose_commit_is_missing_has_no_row() {
    let refs = vec![
        ("a".to_string(), entry("aa")),
        ("b".to_string(), entry("bb")),
        ("c".to_string(), entry("cc")),
    ];
    let commits = vec![Some(commit("aa", "A")), None, Some(commit("cc", "C"))];
    let rows = found_ref_rows(&refs, &commits, 0);
    let names: Vec<&str> = rows.iter().map(|r| r.name.as_str()).collect();
    assert_eq!(names, ["a", "c"]);
    let row = ref_row("a".to_string(), &commit("aa", "A\nmore"), 0);
    assert_eq!(row.meta.unwrap().message, "A");
}

/// Branches come first, then tags, each in the order of the listing; a tag
/// whose commit is not known decorates nothing.
#[test]
fn labels_are_gathered_by_commit() {
    let branches = vec![
        ("main".to_string(), entry("aa")),
        ("old".to_string(), entry("bb")),
        ("copy".to_string(), entry("aa")),
    ];
    let tags = vec![
        ("v2".to_string(), Some(id("aa"))),
        ("lost".to_string(), None),
        ("v1".to_string(), Some(id("cc"))),
    ];
    let map = decoration_map(&branch_targets(&branches), &tags);
    let of = |hex: &str| -> Vec<(String, RefLabelKind)> {
        map.iter()
            .filter(|e| e.0 == id(hex))
            .flat_map(|e| e.1.iter().map(|l| (l.name.clone(), l.kind)))
            .collect()
    };
    assert_eq!(
        of("aa"),
        [
            ("main".to_string(), RefLabelKind::Branch),
            ("copy".to_string(), RefLabelKind::Branch),
            ("v2".to_string(), RefLabelKind::Tag),
        ]
    );
    assert_eq!(of("bb").len(), 1);
    assert_eq!(of("cc"), [("v1".to_string(), RefLabelKind::Tag)]);

    let mut rows: Vec<CommitRow> = commit_rows(&vec![commit("bb", "x"), commit("dd", "y")], 0);
    apply_decorations(&mut rows, &map);
    assert_eq!(rows[0].refs.len(), 1);
    assert_eq!(rows[0].refs[0].href(), "#!/log?h=old");
    assert_eq!(rows[0].refs[0].class(), "ref-label branch");
    assert!(rows[1].refs.is_empty());
    assert_eq!(map.iter().find(|e| e.0 == id("cc")).unwrap().1[0].href(), "#!/refs/tags/v1");
}

/// What the mailmap gave for a contact is shown as text, both halves of it.
#[test]
fn ident_is_shown_as_a_pair() {
    assert_eq!(
        mapped_ident(b"Proper Name", b"proper@example.org"),
        ("Proper Name".to_string(), "proper@example.org".to_string())
    );
}

#[test]
fn walk_is_reported_to_the_console() {
    assert_eq!(
        walk_report(None, "3 read", 2, false),
        "webgit: log walk: 3 read, showing 2 rows"
    );
    assert_eq!(
        walk_report(Some("src"), "3 read", 50, true),
        "webgit: log walk [src]: 3 read, showing 50 rows (more pages)"
    );
}
