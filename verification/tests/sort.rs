use file_ages::file_info::FileInfo;
use file_ages::sort::sorted_by_commit_time;

fn info(filename: &str, commit_time: i64) -> FileInfo {
    FileInfo { filename: filename.to_string(), commit_time }
}

#[test]
fn oldest_commit_comes_first() {
    let infos = vec![info("c", 30), info("a", 10), info("b", 20)];
    assert_eq!(sorted_by_commit_time(infos), vec![info("a", 10), info("b", 20), info("c", 30)]);
}

#[test]
fn order_goes_by_time_and_not_by_name() {
    let infos = vec![info("a", 3), info("b", 2), info("c", 1)];
    assert_eq!(sorted_by_commit_time(infos), vec![info("c", 1), info("b", 2), info("a", 3)]);
}

#[test]
fn equal_commit_times_keep_their_order() {
    let infos = vec![
        info("z", 5),
        info("y", 1),
        info("x", 5),
        info("w", 1),
        info("v", 5),
        info("u", 0),
    ];
    assert_eq!(sorted_by_commit_time(infos), vec![
        info("u", 0),
        info("y", 1),
        info("w", 1),
        info("z", 5),
        info("x", 5),
        info("v", 5),
    ]);
}

#[test]
fn few_records_stay_as_they_are() {
    assert_eq!(sorted_by_commit_time(Vec::new()), Vec::<FileInfo>::new());
    assert_eq!(sorted_by_commit_time(vec![info("a", 7)]), vec![info("a", 7)]);
    assert_eq!(sorted_by_commit_time(vec![info("a", 7), info("b", 7)]), vec![
        info("a", 7),
        info("b", 7)
    ]);
}

#[test]
fn times_before_the_epoch_and_far_from_it() {
    let infos = vec![info("a", i64::MAX), info("b", -1), info("c", i64::MIN), info("d", 0)];
    assert_eq!(sorted_by_commit_time(infos), vec![
        info("c", i64::MIN),
        info("b", -1),
        info("d", 0),
        info("a", i64::MAX),
    ]);
}

#[test]
fn sorted_records_stay_sorted() {
    let infos: Vec<FileInfo> = (0..100i64).map(|i| info("f", i)).collect();
    let expected: Vec<FileInfo> = (0..100i64).map(|i| info("f", i)).collect();
    assert_eq!(sorted_by_commit_time(infos), expected);
}

#[test]
fn reversed_records_are_turned_round() {
    let infos: Vec<FileInfo> = (0..101i64).rev().map(|i| info("f", i)).collect();
    let expected: Vec<FileInfo> = (0..101i64).map(|i| info("f", i)).collect();
    assert_eq!(sorted_by_commit_time(infos), expected);
}

#[test]
fn sorting_agrees_with_the_stable_sort_of_std() {
    for len in [2usize, 3, 7, 64, 1000] {
        let mut seed: u64 = 0x2545_F491_4F6C_DD1D;
        let mut infos: Vec<FileInfo> = Vec::new();
        let mut copy: Vec<FileInfo> = Vec::new();
        for i in 0..len {
            seed = seed.wrapping_mul(6_364_136_223_846_793_005).wrapping_add(1);
            let time: i64 = ((seed >> 33) % 16) as i64 - 8;
            infos.push(info(&format!("file{}", i), time));
            copy.push(info(&format!("file{}", i), time));
        }
        copy.sort_by_key(|fi| fi.commit_time);
        let sorted = sorted_by_commit_time(infos);
        assert_eq!(sorted.len(), len);
        assert!(sorted.windows(2).all(|pair| pair[0].commit_time <= pair[1].commit_time));
        assert_eq!(sorted, copy);
    }
}
