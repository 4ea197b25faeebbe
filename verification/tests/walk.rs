use imgdup::index::Recursive;
use imgdup::walk::{Entry, Group, Walk};

fn file(dir: &str, name: &str) -> Entry {
    Entry { path: format!("{}/{}", dir, name), name: name.to_string(), is_dir: false }
}

fn dir(parent: &str, name: &str) -> Entry {
    Entry { path: format!("{}/{}", parent, name), name: name.to_string(), is_dir: true }
}

/// A small tree: root holds r1.png, notes.txt and the directories a and b;
/// a holds a1.png, a2.jpg and the directory deep; deep holds d1.jpeg;
/// b holds b1.png; anything else cannot be read.
fn listing(path: &str) -> Option<Vec<Entry>> {
    match path {
        "root" => Some(vec![
            file("root", "r1.png"),
            dir("root", "a"),
            file("root", "notes.txt"),
            dir("root", "b"),
        ]),
        "root/a" => Some(vec![file("root/a", "a1.png"), dir("root/a", "deep"), file("root/a", "a2.jpg")]),
        "root/a/deep" => Some(vec![file("root/a/deep", "d1.jpeg")]),
        "root/b" => Some(vec![file("root/b", "b1.png")]),
        _ => None,
    }
}

fn run(mode: Recursive, depth: u32) -> (Vec<String>, Vec<(String, Vec<String>)>, Vec<String>) {
    let mut walk = Walk::new("root".to_string(), mode, depth);
    let mut read = Vec::new();
    loop {
        let next = match walk.next_dir() {
            None => break,
            Some(d) => d.clone(),
        };
        read.push(next.clone());
        match listing(&next) {
            Some(entries) => walk = walk.visit(&entries),
            None => walk = walk.fail(),
        }
    }
    let unreadable = walk.unreadable().clone();
    let groups = walk.into_groups().into_iter().map(|g| (g.key, g.files)).collect();
    (read, groups, unreadable)
}

fn strings(items: &[&str]) -> Vec<String> {
    items.iter().map(|s| s.to_string()).collect()
}

#[test]
fn without_recursion_only_the_root_is_read() {
    for depth in [0, 1, 2, 7] {
        let (read, groups, unreadable) = run(Recursive::Non, depth);
        assert_eq!(read, strings(&["root"]));
        assert_eq!(groups, vec![("root".to_string(), strings(&["root/r1.png"]))]);
        assert!(unreadable.is_empty());
    }
}

#[test]
fn depth_counts_the_levels_that_are_read() {
    let (read, _, _) = run(Recursive::Segmented, 0);
    assert_eq!(read, strings(&["root"]));
    let (read, _, _) = run(Recursive::Segmented, 1);
    assert_eq!(read, strings(&["root"]));
    let (read, _, _) = run(Recursive::Segmented, 2);
    assert_eq!(read, strings(&["root", "root/a", "root/b"]));
    let (read, _, _) = run(Recursive::Segmented, 3);
    assert_eq!(read, strings(&["root", "root/a", "root/a/deep", "root/b"]));
    let (read, _, _) = run(Recursive::Flat, 2);
    assert_eq!(read, strings(&["root", "root/a", "root/b"]));
    let (read, _, _) = run(Recursive::Flat, 100);
    assert_eq!(read, strings(&["root", "root/a", "root/a/deep", "root/b"]));
}

#[test]
fn segmented_keeps_each_directory_apart() {
    let (_, groups, unreadable) = run(Recursive::Segmented, 3);
    assert_eq!(
        groups,
        vec![
            ("root".to_string(), strings(&["root/r1.png"])),
            ("root/a".to_string(), strings(&["root/a/a1.png", "root/a/a2.jpg"])),
            ("root/a/deep".to_string(), strings(&["root/a/deep/d1.jpeg"])),
            ("root/b".to_string(), strings(&["root/b/b1.png"])),
        ]
    );
    assert!(unreadable.is_empty());
    for (key, files) in &groups {
        for f in files {
            let parent = &f[..f.rfind('/').unwrap()];
            assert_eq!(parent, key);
        }
    }
}

#[test]
fn flat_merges_all_directories_under_the_root() {
    let (_, groups, unreadable) = run(Recursive::Flat, 3);
    assert_eq!(
        groups,
        vec![(
            "root".to_string(),
            strings(&[
                "root/r1.png",
                "root/a/a1.png",
                "root/a/a2.jpg",
                "root/a/deep/d1.jpeg",
                "root/b/b1.png"
            ])
        )]
    );
    assert!(unreadable.is_empty());
    let (_, groups, _) = run(Recursive::Flat, 2);
    assert_eq!(
        groups,
        vec![("root".to_string(), strings(&["root/r1.png", "root/a/a1.png", "root/a/a2.jpg", "root/b/b1.png"]))]
    );
}

#[test]
fn a_directory_that_cannot_be_read_is_recorded() {
    let mut walk = Walk::new("root".to_string(), Recursive::Segmented, 2);
    walk = walk.visit(&vec![dir("root", "gone"), dir("root", "b"), file("root", "x.png")]);
    assert_eq!(walk.next_dir(), Some(&"root/gone".to_string()));
    walk = walk.fail();
    assert_eq!(walk.unreadable(), &strings(&["root/gone"]));
    assert_eq!(walk.next_dir(), Some(&"root/b".to_string()));
    walk = walk.visit(&listing("root/b").unwrap());
    assert_eq!(walk.next_dir(), None);
    assert_eq!(walk.unreadable(), &strings(&["root/gone"]));
    let keys: Vec<String> = walk.into_groups().into_iter().map(|g| g.key).collect();
    assert_eq!(keys, strings(&["root", "root/b"]));
}

#[test]
fn an_unreadable_root_leaves_nothing_to_do() {
    let mut walk = Walk::new("nowhere".to_string(), Recursive::Flat, 5);
    assert_eq!(walk.next_dir(), Some(&"nowhere".to_string()));
    walk = walk.fail();
    assert_eq!(walk.next_dir(), None);
    assert_eq!(walk.unreadable(), &strings(&["nowhere"]));
    let groups = walk.into_groups();
    assert_eq!(groups.len(), 1);
    assert_eq!(groups[0].key, "nowhere");
    assert!(groups[0].files.is_empty());
}

#[test]
fn a_walk_that_is_over_ignores_what_it_is_told() {
    let mut walk = Walk::new("root".to_string(), Recursive::Segmented, 1);
    walk = walk.visit(&vec![file("root", "x.png"), dir("root", "a")]);
    assert_eq!(walk.next_dir(), None);
    walk = walk.visit(&vec![file("else", "y.png"), dir("else", "b")]);
    walk = walk.fail();
    assert_eq!(walk.next_dir(), None);
    assert!(walk.unreadable().is_empty());
    let groups: Vec<(String, Vec<String>)> =
        walk.into_groups().into_iter().map(|g| (g.key, g.files)).collect();
    assert_eq!(groups, vec![("root".to_string(), strings(&["root/x.png"]))]);
}

#[test]
fn a_directory_named_like_an_image_is_both_listed_and_read() {
    let mut walk = Walk::new("root".to_string(), Recursive::Segmented, 2);
    walk = walk.visit(&vec![dir("root", "album.png"), file("root", "x.png")]);
    assert_eq!(walk.next_dir(), Some(&"root/album.png".to_string()));
    let groups = walk.into_groups();
    assert_eq!(groups[0].files, strings(&["root/album.png", "root/x.png"]));
}

#[test]
fn a_group_of_one_file_is_not_comparable() {
    let none = Group { key: "d".to_string(), files: vec![] };
    let one = Group { key: "d".to_string(), files: strings(&["d/a.png"]) };
    let two = Group { key: "d".to_string(), files: strings(&["d/a.png", "d/b.png"]) };
    assert!(!none.is_comparable());
    assert!(!one.is_comparable());
    assert!(two.is_comparable());
}

#[test]
fn one_image_beside_a_text_file_is_not_comparable() {
    let mut walk = Walk::new("d".to_string(), Recursive::Non, 0);
    walk = walk.visit(&vec![file("d", "img1.png"), file("d", "notes.txt")]);
    let groups = walk.into_groups();
    assert_eq!(groups.len(), 1);
    assert_eq!(groups[0].files, strings(&["d/img1.png"]));
    assert!(!groups[0].is_comparable());
}

#[test]
fn two_images_are_both_included() {
    let mut walk = Walk::new("d".to_string(), Recursive::Non, 0);
    walk = walk.visit(&vec![file("d", "img1.png"), file("d", "img2.png")]);
    let groups = walk.into_groups();
    assert_eq!(groups[0].files, strings(&["d/img1.png", "d/img2.png"]));
    assert!(groups[0].is_comparable());
}

#[test]
fn a_directory_read_twice_keeps_one_group() {
    let mut walk = Walk::new("root".to_string(), Recursive::Segmented, 2);
    walk = walk.visit(&vec![Entry { path: "root".to_string(), name: "again".to_string(), is_dir: true }, dir("root", "b"), file("root", "old.png")]);
    assert_eq!(walk.next_dir(), Some(&"root".to_string()));
    walk = walk.visit(&vec![file("root", "new1.png"), file("root", "new2.png")]);
    assert_eq!(walk.next_dir(), Some(&"root/b".to_string()));
    walk = walk.visit(&vec![file("root/b", "b1.png")]);
    assert_eq!(walk.next_dir(), None);
    let groups: Vec<(String, Vec<String>)> =
        walk.into_groups().into_iter().map(|g| (g.key, g.files)).collect();
    assert_eq!(
        groups,
        vec![
            ("root".to_string(), strings(&["root/new1.png", "root/new2.png"])),
            ("root/b".to_string(), strings(&["root/b/b1.png"])),
        ]
    );
}

#[test]
fn no_two_groups_bear_one_name() {
    for mode in [Recursive::Non, Recursive::Segmented, Recursive::Flat] {
        let mut walk = Walk::new("r".to_string(), mode, 3);
        let twice = Entry { path: "r/a".to_string(), name: "a".to_string(), is_dir: true };
        let again = Entry { path: "r/a".to_string(), name: "a".to_string(), is_dir: true };
        walk = walk.visit(&vec![twice, again, file("r", "x.png")]);
        walk = walk.visit(&vec![file("r/a", "one.png")]);
        walk = walk.visit(&vec![file("r/a", "two.png")]);
        let keys: Vec<String> = walk.into_groups().into_iter().map(|g| g.key).collect();
        let mut unique = keys.clone();
        unique.sort();
        unique.dedup();
        assert_eq!(unique.len(), keys.len());
    }
}
