use mini_coreutils::calendar::CalendarTime;
use mini_coreutils::ls::args::LsArgs;
use mini_coreutils::ls::entry::Entry;
use mini_coreutils::ls::entry::MetadataSnapshot;
use mini_coreutils::ls::entry::ModifiedTime;
use mini_coreutils::ls::merge::can_rank_all;
use mini_coreutils::ls::merge::merge_runs;
use mini_coreutils::ls::merge::sort_run;
use mini_coreutils::ls::order::entry_before;
use mini_coreutils::ls::sort::arrange;
use mini_coreutils::ls::sort::sort_by_insertion;
use mini_coreutils::ls::sort::sort_entries;
use std::cmp::Ordering;

struct Dice(u64);

impl Dice {
    fn roll(&mut self, sides: u64) -> u64 {
        self.0 ^= self.0 << 13;
        self.0 ^= self.0 >> 7;
        self.0 ^= self.0 << 17;
        self.0 % sides
    }
}

fn configuration(bits: u64) -> LsArgs {
    LsArgs {
        all: false,
        long: false,
        human_readable: false,
        reverse: bits & 1 != 0,
        sort_time: bits & 2 != 0,
        sort_size: bits & 4 != 0,
        recursive: false,
        path: ".".to_string(),
    }
}

fn some_entry(dice: &mut Dice, serial: usize, unreadable_one_in: u64) -> Entry {
    let names = [".", "..", "a", "b", "ab", "B", "é", "", "z", ".z"];
    let metadata = if unreadable_one_in > 0 && dice.roll(unreadable_one_in) == 0 {
        None
    } else {
        Some(MetadataSnapshot {
            size: dice.roll(3),
            mode: 0,
            nlink: 1,
            uid: 0,
            gid: 0,
            block_count: 0,
            modified_time: ModifiedTime {
                secs: dice.roll(3) as i64 - 1,
                nanos: dice.roll(2) as u32,
                local: CalendarTime { year: 2000, month: 1, day: 1, hour: 0, minute: 0 },
            },
            owner_name: None,
            group_name: None,
        })
    };
    Entry {
        path: format!("{}", serial),
        display_name: names[dice.roll(names.len() as u64) as usize].to_string(),
        is_dir: false,
        is_symlink: false,
        metadata,
    }
}

fn some_entries(dice: &mut Dice, unreadable_one_in: u64) -> Vec<Entry> {
    let len = dice.roll(40) as usize;
    (0..len).map(|serial| some_entry(dice, serial, unreadable_one_in)).collect()
}

fn by_the_order(a: &Entry, b: &Entry, args: &LsArgs) -> Ordering {
    if entry_before(a, b, args) {
        Ordering::Less
    } else if entry_before(b, a, args) {
        Ordering::Greater
    } else {
        Ordering::Equal
    }
}

#[test]
fn the_sort_agrees_with_a_stable_sort_of_the_standard_library() {
    let mut dice = Dice(0x2545F4914F6CDD1D);
    for round in 0..400 {
        let args = configuration(round % 8);
        let entries = some_entries(&mut dice, 0);
        assert!(can_rank_all(&entries, args.criterion()));
        let mut expected = entries.clone();
        expected.sort_by(|a, b| by_the_order(a, b, &args));
        assert_eq!(sort_entries(entries.clone(), &args), expected);
        assert_eq!(sort_by_insertion(&entries, &args), expected);
    }
}

#[test]
fn sorting_by_merging_and_by_insertion_agree_where_all_entries_are_ranked() {
    let mut dice = Dice(0x9E3779B97F4A7C15);
    for round in 0..400 {
        let args = configuration(round % 8);
        let entries = some_entries(&mut dice, if round % 8 < 2 { 3 } else { 0 });
        assert!(can_rank_all(&entries, args.criterion()));
        let run = sort_run(&entries, 0, entries.len(), &args);
        let mut seen = run.clone();
        seen.sort();
        assert_eq!(seen, (0..entries.len()).collect::<Vec<usize>>());
        assert_eq!(arrange(&entries, &run), sort_by_insertion(&entries, &args));
    }
}

#[test]
fn entries_without_metadata_are_sorted_by_insertion() {
    let mut dice = Dice(0xD1B54A32D192ED03);
    let mut unranked = 0;
    for round in 0..400 {
        let args = configuration(2 + round % 6);
        let entries = some_entries(&mut dice, 4);
        let ranked = can_rank_all(&entries, args.criterion());
        assert_eq!(ranked, entries.iter().all(|e| e.metadata.is_some()));
        if !ranked {
            unranked += 1;
        }
        let sorted = sort_entries(entries.clone(), &args);
        assert_eq!(sorted, sort_by_insertion(&entries, &args));
        assert_eq!(sorted.len(), entries.len());
        for pair in sorted.windows(2) {
            assert!(!entry_before(&pair[1], &pair[0], &args));
        }
        let mut serials: Vec<usize> = sorted.iter().map(|e| e.path.parse().unwrap()).collect();
        serials.sort();
        assert_eq!(serials, (0..entries.len()).collect::<Vec<usize>>());
    }
    assert!(unranked > 100);
}

#[test]
fn an_order_that_is_not_transitive_is_sorted_as_insertion_defines() {
    let with = |name: &str, size: u64| Entry {
        path: name.to_string(),
        display_name: name.to_string(),
        is_dir: false,
        is_symlink: false,
        metadata: Some(MetadataSnapshot {
            size,
            mode: 0,
            nlink: 1,
            uid: 0,
            gid: 0,
            block_count: 0,
            modified_time: ModifiedTime {
                secs: 0,
                nanos: 0,
                local: CalendarTime { year: 2000, month: 1, day: 1, hour: 0, minute: 0 },
            },
            owner_name: None,
            group_name: None,
        }),
    };
    let without = |name: &str| Entry {
        path: name.to_string(),
        display_name: name.to_string(),
        is_dir: false,
        is_symlink: false,
        metadata: None,
    };
    let args = configuration(4);
    let (a, b, c) = (with("a", 1), without("b"), with("c", 2));
    assert!(entry_before(&a, &b, &args));
    assert!(entry_before(&b, &c, &args));
    assert!(entry_before(&c, &a, &args));
    let names = |entries: Vec<Entry>| -> Vec<String> {
        sort_entries(entries, &args).into_iter().map(|e| e.display_name).collect()
    };
    assert_eq!(names(vec![a.clone(), b.clone(), c.clone()]), vec!["a", "b", "c"]);
    assert_eq!(names(vec![c.clone(), a.clone(), b.clone()]), vec!["c", "a", "b"]);
    assert_eq!(names(vec![b.clone(), c.clone(), a.clone()]), vec!["b", "c", "a"]);
    assert_eq!(names(vec![c, b, a]), vec!["b", "c", "a"]);
}

#[test]
fn two_runs_merge_into_one() {
    let named = |name: &str| Entry {
        path: name.to_string(),
        display_name: name.to_string(),
        is_dir: false,
        is_symlink: false,
        metadata: None,
    };
    let entries: Vec<Entry> = ["b", "d", "d", "a", "c", "d"].iter().map(|n| named(n)).collect();
    let args = configuration(0);
    assert_eq!(merge_runs(&entries, &vec![0, 1, 2], &vec![3, 4, 5], &args), vec![3, 0, 4, 1, 2, 5]);
    assert_eq!(merge_runs(&entries, &vec![], &vec![3, 4], &args), vec![3, 4]);
    assert_eq!(merge_runs(&entries, &vec![0], &vec![], &args), vec![0]);
    assert_eq!(sort_run(&entries, 0, 6, &args), vec![3, 0, 4, 1, 2, 5]);
    assert_eq!(sort_run(&entries, 1, 4, &args), vec![3, 1, 2]);
    assert_eq!(sort_run(&entries, 2, 2, &args), Vec::<usize>::new());
    let reversed = configuration(1);
    assert_eq!(sort_run(&entries, 0, 6, &reversed), vec![1, 2, 5, 4, 0, 3]);
}
