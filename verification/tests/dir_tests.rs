use rcore_os::dir::{CreateAction, CreateStep};
use rcore_os::{DirEntry, Directory};

fn dir(entries: &[(&str, u32)]) -> Directory {
    Directory {
        entries: entries
            .iter()
            .map(|(n, id)| DirEntry { name: n.to_string(), inode_id: *id })
            .collect(),
    }
}

fn names(d: &Directory) -> Vec<String> {
    d.ls()
}

fn ids(d: &Directory) -> Vec<u32> {
    d.entries.iter().map(|e| e.inode_id).collect()
}

#[test]
fn find_inode_id_gives_first_match() {
    let d = dir(&[("a", 1), ("b", 2), ("a", 3)]);
    assert_eq!(d.find_inode_id("a"), Some(1));
    assert_eq!(d.find_inode_id("b"), Some(2));
    assert_eq!(d.find_inode_id("c"), None);
}

#[test]
fn nlink_counts_entries_of_an_inode() {
    let d = dir(&[("a", 1), ("b", 2), ("c", 1)]);
    assert_eq!(d.nlink(1), 2);
    assert_eq!(d.nlink(2), 1);
    assert_eq!(d.nlink(9), 0);
}

#[test]
fn create_adds_entry_once() {
    let mut d = dir(&[("a", 1)]);
    assert_eq!(d.create("b", CreateStep::Request), CreateAction::AllocateInode);
    assert_eq!(names(&d), vec!["a".to_string()]);
    assert_eq!(d.create("b", CreateStep::Allocated(7)), CreateAction::Done(Some(7)));
    assert_eq!(names(&d), vec!["a".to_string(), "b".to_string()]);
    assert_eq!(d.find_inode_id("b"), Some(7));
    assert_eq!(d.create("b", CreateStep::Request), CreateAction::Done(None));
    assert_eq!(ids(&d), vec![1, 7]);
}

#[test]
fn unlink_undoes_create() {
    let mut d = dir(&[("a", 1), ("b", 2)]);
    assert_eq!(d.create("new", CreateStep::Request), CreateAction::AllocateInode);
    assert_eq!(d.create("new", CreateStep::Allocated(9)), CreateAction::Done(Some(9)));
    assert_eq!(d.unlinkat("new"), (0, Some(9)));
    assert_eq!(names(&d), vec!["a".to_string(), "b".to_string()]);
    assert_eq!(ids(&d), vec![1, 2]);
}

#[test]
fn linkat_adds_a_link_to_the_same_inode() {
    let mut d = dir(&[("a", 1), ("b", 2)]);
    d.linkat("a", "a2");
    assert_eq!(d.find_inode_id("a2"), Some(1));
    assert_eq!(d.nlink(1), 2);
    d.linkat("missing", "x");
    assert_eq!(names(&d), vec!["a".to_string(), "b".to_string(), "a2".to_string()]);
}

#[test]
fn unlinkat_missing_name_returns_minus_one() {
    let mut d = dir(&[("a", 1)]);
    assert_eq!(d.unlinkat("z"), (-1, None));
    assert_eq!(ids(&d), vec![1]);
}

#[test]
fn unlinkat_moves_last_entry_into_the_gap() {
    let mut d = dir(&[("a", 1), ("b", 2), ("c", 3), ("d", 1)]);
    assert_eq!(d.unlinkat("a"), (1, None));
    assert_eq!(names(&d), vec!["d".to_string(), "b".to_string(), "c".to_string()]);
    assert_eq!(d.unlinkat("b"), (0, Some(2)));
    assert_eq!(names(&d), vec!["d".to_string(), "c".to_string()]);
    assert_eq!(d.unlinkat("c"), (0, Some(3)));
    assert_eq!(names(&d), vec!["d".to_string()]);
}

#[test]
fn unlink_undoes_link() {
    let mut d = dir(&[("a", 1), ("b", 2)]);
    d.linkat("a", "hard");
    assert_eq!(d.unlinkat("hard"), (1, None));
    assert_eq!(names(&d), vec!["a".to_string(), "b".to_string()]);
    assert_eq!(ids(&d), vec![1, 2]);
}

#[test]
fn ls_lists_names_in_order() {
    let d = dir(&[("x", 1), ("y", 2)]);
    assert_eq!(d.ls(), vec!["x".to_string(), "y".to_string()]);
    assert!(dir(&[]).ls().is_empty());
}
