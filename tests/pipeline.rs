use ievr_toolbox::catalog::{apply_replacements, catalog_row_index, CatalogRow, Replacement};
use ievr_toolbox::pipeline::{
    compute_threads, container_release, decrypts_to_memory, largest_first, threads_to_use, extractor_action, ram_threshold, worker_share, ExtractorAction,
    MemberQueue,
};
use ievr_toolbox::{CpkFile, MemoryPool};

const GIB: usize = 1 << 30;

fn member(name: &str, extract: u32) -> CpkFile {
    CpkFile::new(None, name.to_string(), None, 0, extract, extract)
}

#[test]
fn stage_sizes() {
    assert_eq!(compute_threads(8), (4, 1, 3));
    assert_eq!(compute_threads(9), (4, 1, 4));
    assert_eq!(compute_threads(2), (1, 1, 1));
    assert_eq!(compute_threads(1), (0, 1, 1));
    assert_eq!(compute_threads(0), (0, 1, 1));
}

#[test]
fn threshold_is_half_a_share() {
    assert_eq!(ram_threshold(1000, 2), 250);
    assert_eq!(ram_threshold(7, 4), 0);
    assert!(decrypts_to_memory(249, 250));
    assert!(!decrypts_to_memory(250, 250));
}

#[test]
fn extractor_steps() {
    assert_eq!(extractor_action(true, true), ExtractorAction::Exit);
    assert_eq!(extractor_action(true, false), ExtractorAction::Drain);
    assert_eq!(extractor_action(false, true), ExtractorAction::WaitForContainer);
    assert_eq!(extractor_action(false, false), ExtractorAction::PollContainer);
}

#[test]
fn empty_work_list_shuts_down() {
    let mut q = MemberQueue::new();
    assert!(q.is_empty());
    assert!(q.pop().is_none());
    assert_eq!(extractor_action(true, q.is_empty()), ExtractorAction::Exit);
}

#[test]
fn queue_hands_out_largest_first() {
    let mut q = MemberQueue::new();
    for (n, s) in [("a", 5u32), ("b", 50), ("c", 1), ("d", 50), ("e", 20)] {
        q.push(member(n, s));
    }
    assert_eq!(q.len(), 5);
    let mut sizes = Vec::new();
    while let Some(m) = q.pop() {
        sizes.push(m.extract_size);
    }
    assert_eq!(sizes, vec![50, 50, 20, 5, 1]);
}

#[test]
fn arbiter_decryption_and_release() {
    let mut p = MemoryPool::new(100);
    assert_eq!(p.limit(), 100);
    assert!(p.acquire_decryption(60));
    assert!(!p.acquire_decryption(41));
    assert_eq!(p.used(), 60);
    p.release(60);
    assert_eq!(p.used(), 0);
    assert!(p.acquire_decryption(100));
}

#[test]
fn pending_decompression_blocks_decryption() {
    let mut p = MemoryPool::new(100);
    assert!(p.acquire_decryption(50));
    p.begin_decompression(80);
    assert!(!p.acquire_decompression(80));
    // 50 + 10 + 80 > 100: the reservation keeps a small decryption out.
    assert!(!p.acquire_decryption(10));
    p.release(50);
    assert!(p.acquire_decompression(80));
    assert_eq!(p.used(), 80);
    // The reservation is gone once no decompression waits.
    assert!(p.acquire_decryption(20));
    assert_eq!(p.used(), 100);
}

#[test]
fn idle_arbiter_admits_any_fitting_decompression() {
    let mut p = MemoryPool::new(10);
    p.begin_decompression(10);
    assert!(p.acquire_decompression(10));
    p.release(10);
    assert_eq!(p.used(), 0);
}

#[test]
fn used_never_exceeds_limit() {
    let mut p = MemoryPool::new(64);
    for b in [10usize, 30, 40, 5, 64, 1, 19] {
        let _ = p.acquire_decryption(b);
        assert!(p.used() <= p.limit());
    }
}

#[test]
fn oversized_request_cannot_be_held() {
    let p = MemoryPool::new(1 << 30);
    assert!(!p.can_hold(2 * GIB));
    assert!(p.can_hold(GIB));
}

fn row(dir: &str, name: &str, size: i32) -> CatalogRow {
    CatalogRow {
        directory: dir.to_string(),
        file_name: name.to_string(),
        archive_dir: "pack".to_string(),
        archive_name: "data0.cpk".to_string(),
        file_size: size,
    }
}

#[test]
fn repack_rewrites_replaced_row() {
    let mut rows = vec![row("", "header", 2), row("d", "replace.bin", 1000), row("d", "other.bin", 7)];
    apply_replacements(&mut rows, &vec![Replacement { row: 1, size: 42 }, Replacement { row: 9, size: 1 }]);
    assert_eq!(rows[1].file_size, 42);
    assert_eq!(rows[1].archive_dir, "");
    assert_eq!(rows[1].archive_name, "");
    assert_eq!(rows[1].file_name, "replace.bin");
    assert_eq!(rows[2].file_size, 7);
    assert_eq!(rows[2].archive_name, "data0.cpk");
}

#[test]
fn repack_twice_changes_nothing() {
    let reps = vec![Replacement { row: 0, size: 42 }, Replacement { row: 2, size: 3 }];
    let mut once = vec![row("a", "x", 1), row("a", "y", 2), row("b", "z", 3)];
    apply_replacements(&mut once, &reps);
    let mut twice = once.clone();
    apply_replacements(&mut twice, &reps);
    for (a, b) in once.iter().zip(twice.iter()) {
        assert_eq!(a.file_size, b.file_size);
        assert_eq!(a.archive_dir, b.archive_dir);
        assert_eq!(a.archive_name, b.archive_name);
    }
}

#[test]
fn repack_size_is_truncated_to_catalog_width() {
    let mut rows = vec![row("a", "x", 1)];
    apply_replacements(&mut rows, &vec![Replacement { row: 0, size: 0x1_0000_0005 }]);
    assert_eq!(rows[0].file_size, 5);
}

#[test]
fn workers_share_the_list_by_stride() {
    assert_eq!(worker_share(10, 0, 3), vec![0, 3, 6, 9]);
    assert_eq!(worker_share(10, 2, 3), vec![2, 5, 8]);
    assert_eq!(worker_share(2, 2, 3), Vec::<usize>::new());
    assert_eq!(worker_share(0, 0, 1), Vec::<usize>::new());
}

#[test]
fn thread_count_is_clamped() {
    assert_eq!(threads_to_use(0, 8), 8);
    assert_eq!(threads_to_use(9, 8), 8);
    assert_eq!(threads_to_use(3, 8), 3);
}

#[test]
fn work_list_largest_first() {
    let sizes = vec![5u64, 40, 1, 40, 7];
    let order = largest_first(&sizes);
    let ordered: Vec<u64> = order.iter().map(|&k| sizes[k]).collect();
    assert_eq!(ordered, vec![40, 40, 7, 5, 1]);
    let mut seen = order.clone();
    seen.sort();
    assert_eq!(seen, vec![0, 1, 2, 3, 4]);
    assert!(largest_first(&Vec::new()).is_empty());
}

#[test]
fn container_memory_goes_back_once() {
    assert_eq!(container_release(true, true, 500), 500);
    assert_eq!(container_release(false, true, 500), 0);
    assert_eq!(container_release(true, false, 500), 0);
}

#[test]
fn catalog_lookup_skips_header_and_takes_last() {
    let rows = vec![row("d", "a.bin", 0), row("d", "a.bin", 1), row("e", "a.bin", 2), row("d", "a.bin", 3)];
    assert_eq!(catalog_row_index(&rows, &"d".to_string(), &"a.bin".to_string()), Some(3));
    assert_eq!(catalog_row_index(&rows, &"e".to_string(), &"a.bin".to_string()), Some(2));
    assert_eq!(catalog_row_index(&rows, &"f".to_string(), &"a.bin".to_string()), None);
    let header_only = vec![row("d", "a.bin", 0)];
    assert_eq!(catalog_row_index(&header_only, &"d".to_string(), &"a.bin".to_string()), None);
}
