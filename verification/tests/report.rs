use imgdup::matcher::find_duplicates;
use imgdup::pic::Pic;
use imgdup::report::{discard, exit_status, outcome, process_pics, removals, report, Outcome};

fn pic(name: &str, hash: &str, size: u64) -> Pic {
    Pic { name: name.to_string(), hash: hash.to_string(), size }
}

#[test]
fn the_smaller_file_is_given_up() {
    let small = pic("small.png", "1111", 100);
    let large = pic("large.png", "1111", 200);
    assert_eq!(discard(&small, &large).name, "small.png");
    assert_eq!(discard(&large, &small).name, "small.png");
}

#[test]
fn of_two_files_of_one_size_the_second_is_given_up() {
    let a = pic("a.png", "1111", 100);
    let b = pic("b.png", "1111", 100);
    assert_eq!(discard(&a, &b).name, "b.png");
    assert_eq!(discard(&b, &a).name, "a.png");
}

#[test]
fn removals_name_the_victim_of_each_pair() {
    let pairs = vec![
        (pic("a", "0", 100), pic("b", "0", 200)),
        (pic("c", "0", 300), pic("d", "0", 200)),
        (pic("e", "0", 7), pic("f", "0", 7)),
        (pic("a", "0", 100), pic("g", "0", 101)),
    ];
    assert_eq!(removals(&pairs), vec!["a", "d", "f", "a"]);
    assert!(removals(&vec![]).is_empty());
}

#[test]
fn report_of_nothing_found() {
    assert_eq!(report("\"./pics\"", &vec![]), "\"./pics\": no duplicates found");
    assert_eq!(report("", &vec![]), ": no duplicates found");
}

#[test]
fn report_lists_each_pair_on_a_line() {
    let pairs = vec![
        (pic("img1.png", "0", 100), pic("img2.png", "0", 2048)),
        (pic("img1.png", "0", 100), pic("img3.png", "0", 3 * 1024 * 1024)),
    ];
    assert_eq!(
        report("\"./\"", &pairs),
        "\"./\":\n\timg1.png, 100b -- img2.png, 2kb\n\timg1.png, 100b -- img3.png, 3mb"
    );
    assert_eq!(report("g", &pairs[..1].to_vec()), "g:\n\timg1.png, 100b -- img2.png, 2kb");
}

#[test]
fn identical_copies_are_reported_as_one_pair() {
    let pics = vec![
        Some(pic("img1.png", "1010101010101010", 100)),
        Some(pic("img2.png", "1010101010101010", 200)),
    ];
    let done = process_pics("dir", &pics, false);
    assert_eq!(done.pairs.len(), 1);
    assert_eq!(done.pairs[0].0.name, "img1.png");
    assert_eq!(done.pairs[0].1.name, "img2.png");
    assert_eq!(done.report, "dir:\n\timg1.png, 100b -- img2.png, 200b");
    assert!(done.removals.is_empty());
}

#[test]
fn removal_takes_the_file_of_100_bytes_and_leaves_that_of_200() {
    let pics = vec![
        Some(pic("img1.png", "1010101010101010", 100)),
        Some(pic("img2.png", "1010101010101010", 200)),
    ];
    let done = process_pics("dir", &pics, true);
    assert_eq!(done.removals, vec!["img1.png"]);
    let swapped = vec![pics[1].clone(), pics[0].clone()];
    let done = process_pics("dir", &swapped, true);
    assert_eq!(done.removals, vec!["img1.png"]);
}

#[test]
fn a_group_without_duplicates_is_reported_so() {
    let pics = vec![Some(pic("a.png", "0000", 1)), None, Some(pic("b.png", "1111", 1))];
    let done = process_pics("\"d\"", &pics, true);
    assert!(done.pairs.is_empty());
    assert!(done.removals.is_empty());
    assert_eq!(done.report, "\"d\": no duplicates found");
}

#[test]
fn process_pics_reports_what_find_duplicates_finds() {
    let pics = vec![
        Some(pic("a", "0000", 10)),
        Some(pic("b", "0001", 20)),
        None,
        Some(pic("c", "0011", 5)),
    ];
    let found = find_duplicates(&pics);
    let done = process_pics("g", &pics, true);
    assert_eq!(done.pairs.len(), found.len());
    assert_eq!(done.report, report("g", &found));
    assert_eq!(done.removals, removals(&found));
    assert_eq!(done.removals, vec!["a", "c", "c"]);
}

#[test]
fn the_three_outcomes() {
    assert_eq!(outcome(0, 0), Outcome::Clean);
    assert_eq!(outcome(3, 0), Outcome::Duplicates);
    assert_eq!(outcome(0, 1), Outcome::Aborted);
    assert_eq!(outcome(3, 2), Outcome::Aborted);
}

#[test]
fn each_outcome_has_its_own_exit_status() {
    assert_eq!(exit_status(Outcome::Clean), 0);
    assert_eq!(exit_status(Outcome::Duplicates), 1);
    assert_eq!(exit_status(Outcome::Aborted), 2);
}
