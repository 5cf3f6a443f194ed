use store_bench::fanout::{assign_round_robin, client_of, FanoutError};
use store_bench::range::{split_ranges, ByteRange};
use store_bench::scan::{plan_read_pass, ReadPlanError};

#[test]
fn tasks_are_dealt_out_in_turn() {
    let tasks: Vec<u32> = (0..10).collect();
    let lanes = assign_round_robin(&tasks, 3).unwrap();
    assert_eq!(lanes, vec![vec![0, 3, 6, 9], vec![1, 4, 7], vec![2, 5, 8]]);
}

#[test]
fn every_task_has_exactly_one_place() {
    for &(n, clients) in &[(0usize, 1u32), (1, 1), (7, 7), (8, 7), (100, 8), (5, 9)] {
        let tasks: Vec<usize> = (0..n).collect();
        let lanes = assign_round_robin(&tasks, clients).unwrap();
        assert_eq!(lanes.len(), clients as usize);
        let mut seen = vec![0u32; n];
        for (c, lane) in lanes.iter().enumerate() {
            for (k, &task) in lane.iter().enumerate() {
                assert_eq!(task, k * clients as usize + c);
                seen[task] += 1;
            }
        }
        assert!(seen.iter().all(|&s| s == 1));
        for (i, _) in tasks.iter().enumerate() {
            assert_eq!(lanes[i % clients as usize][i / clients as usize], i);
        }
    }
}

#[test]
fn more_clients_than_tasks_leaves_clients_idle() {
    let tasks = vec!['a', 'b'];
    let lanes = assign_round_robin(&tasks, 4).unwrap();
    assert_eq!(lanes, vec![vec!['a'], vec!['b'], vec![], vec![]]);
}

#[test]
fn tasks_without_a_client_are_refused() {
    let tasks = vec![1u8];
    assert_eq!(assign_round_robin(&tasks, 0), Err(FanoutError::NoClients));
}

#[test]
fn no_task_and_no_client_is_an_empty_deal() {
    let tasks: Vec<u8> = Vec::new();
    assert_eq!(assign_round_robin(&tasks, 0), Ok(Vec::<Vec<u8>>::new()));
    assert_eq!(assign_round_robin(&tasks, 2), Ok(vec![Vec::new(), Vec::new()]));
}

#[test]
fn read_ranges_of_the_default_scan_over_eight_clients() {
    let ranges = split_ranges(1 << 30, 32 << 20);
    let lanes = assign_round_robin(&ranges, 8).unwrap();
    assert_eq!(lanes.len(), 8);
    for (c, lane) in lanes.iter().enumerate() {
        assert_eq!(lane.len(), 4);
        for (k, r) in lane.iter().enumerate() {
            let index = (k * 8 + c) as u64;
            assert_eq!(
                *r,
                ByteRange { start: index * (32 << 20), end: (index + 1) * (32 << 20) }
            );
        }
    }
}

#[test]
fn read_pass_of_a_hundred_bytes_over_two_clients() {
    let lanes = plan_read_pass(100, 40, 2).unwrap();
    assert_eq!(
        lanes,
        vec![
            vec![ByteRange { start: 0, end: 40 }, ByteRange { start: 80, end: 100 }],
            vec![ByteRange { start: 40, end: 80 }],
        ]
    );
}

#[test]
fn read_pass_reads_every_byte_exactly_once() {
    let cases = [(1000u64, 64u64, 8u32), (1000, 1, 3), (77, 100, 4), (512, 64, 1)];
    for &(total, chunk, clients) in &cases {
        let lanes = plan_read_pass(total, chunk, clients).unwrap();
        assert_eq!(lanes.len(), clients as usize);
        let mut hits = vec![0u32; total as usize];
        for lane in &lanes {
            for r in lane {
                for b in r.start..r.end {
                    hits[b as usize] += 1;
                }
            }
        }
        assert!(hits.iter().all(|&h| h == 1));
    }
}

#[test]
fn read_pass_without_download_size_is_refused() {
    assert_eq!(plan_read_pass(100, 0, 8), Err(ReadPlanError::ZeroDownloadSize));
    assert_eq!(plan_read_pass(0, 0, 0), Err(ReadPlanError::ZeroDownloadSize));
}

#[test]
fn read_pass_without_clients_is_refused() {
    assert_eq!(plan_read_pass(100, 40, 0), Err(ReadPlanError::NoClients));
    assert_eq!(plan_read_pass(0, 40, 0), Ok(Vec::new()));
    assert_eq!(plan_read_pass(0, 40, 2), Ok(vec![Vec::new(), Vec::new()]));
}

#[test]
fn client_of_a_task_is_its_index_modulo_the_pool() {
    assert_eq!(client_of(0, 8), Some(0));
    assert_eq!(client_of(7, 8), Some(7));
    assert_eq!(client_of(8, 8), Some(0));
    assert_eq!(client_of(29, 8), Some(5));
    assert_eq!(client_of(u64::MAX, u32::MAX), Some((u64::MAX % u32::MAX as u64) as u32));
    assert_eq!(client_of(3, 0), None);
    let tasks: Vec<u64> = (0..20).collect();
    let lanes = assign_round_robin(&tasks, 6).unwrap();
    for &task in &tasks {
        let c = client_of(task, 6).unwrap() as usize;
        assert!(lanes[c].contains(&task));
    }
}
