use blue_ide::git::tag::{sort_tags, TagInfo};
use blue_ide::git::ui::{holds_path, split_changes};
use blue_ide::git::{default_remote, is_index_status, map_status, FileStatus, StatusFlags};

fn flags() -> StatusFlags {
    StatusFlags {
        conflicted: false,
        index_new: false,
        index_modified: false,
        index_deleted: false,
        index_renamed: false,
        wt_new: false,
        wt_modified: false,
        wt_deleted: false,
        wt_renamed: false,
    }
}

#[test]
fn file_status_follows_the_flag_precedence() {
    assert_eq!(map_status(flags()), FileStatus::Unmodified);
    assert_eq!(map_status(StatusFlags { wt_new: true, ..flags() }), FileStatus::Untracked);
    assert_eq!(map_status(StatusFlags { index_new: true, ..flags() }), FileStatus::Added);
    assert_eq!(
        map_status(StatusFlags { index_new: true, wt_modified: true, ..flags() }),
        FileStatus::Modified
    );
    assert_eq!(
        map_status(StatusFlags { conflicted: true, wt_modified: true, ..flags() }),
        FileStatus::Conflicted
    );
    assert_eq!(map_status(StatusFlags { wt_deleted: true, ..flags() }), FileStatus::Deleted);
    assert_eq!(map_status(StatusFlags { index_renamed: true, ..flags() }), FileStatus::Renamed);
    assert!(is_index_status(StatusFlags { index_deleted: true, ..flags() }));
    assert!(!is_index_status(StatusFlags { wt_modified: true, ..flags() }));
}

#[test]
fn default_remote_is_the_first_or_origin() {
    assert_eq!(default_remote(&Vec::new()), "origin");
    assert_eq!(default_remote(&vec!["upstream".to_owned(), "origin".to_owned()]), "upstream");
}

fn tag(name: &str, oid: &str) -> TagInfo {
    TagInfo { name: name.to_owned(), short_oid: oid.to_owned(), message: String::new() }
}

#[test]
fn tags_are_sorted_by_name_keeping_equal_names_in_order() {
    let sorted = sort_tags(vec![tag("v2.0", "a"), tag("v1.0", "b"), tag("V3", "c"), tag("v1.0", "d")]);
    let names: Vec<(&str, &str)> =
        sorted.iter().map(|t| (t.name.as_str(), t.short_oid.as_str())).collect();
    assert_eq!(names, vec![("V3", "c"), ("v1.0", "b"), ("v1.0", "d"), ("v2.0", "a")]);
    assert!(sort_tags(Vec::new()).is_empty());
}

#[test]
fn changes_split_into_staged_and_unstaged() {
    let statuses = vec![
        ("/r/a.rs".to_owned(), FileStatus::Modified),
        ("/r/b.rs".to_owned(), FileStatus::Unmodified),
        ("/r/c.rs".to_owned(), FileStatus::Added),
        ("/r/d.rs".to_owned(), FileStatus::Untracked),
    ];
    let staged = vec!["/r/c.rs".to_owned(), "/r/b.rs".to_owned()];
    assert!(holds_path(&staged, &"/r/b.rs".to_owned()));
    assert!(!holds_path(&staged, &"/r/a.rs".to_owned()));
    let (ins, outs) = split_changes(&statuses, &staged);
    assert_eq!(ins, vec![("/r/c.rs".to_owned(), FileStatus::Added)]);
    assert_eq!(
        outs,
        vec![
            ("/r/a.rs".to_owned(), FileStatus::Modified),
            ("/r/d.rs".to_owned(), FileStatus::Untracked),
        ]
    );
    let (none_in, none_out) = split_changes(&Vec::new(), &staged);
    assert!(none_in.is_empty() && none_out.is_empty());
}
