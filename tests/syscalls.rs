use os::config::{
    MAX_SYSCALL_NUM, PAGE_SIZE, SYSCALL_EXIT, SYSCALL_GET_TIME, SYSCALL_MMAP, SYSCALL_MUNMAP,
    SYSCALL_SET_PRIORITY, SYSCALL_TASK_INFO, SYSCALL_YIELD,
};
use os::copy::copy_from_user;
use os::page_table::MapPermission;
use os::{
    sys_exit, sys_get_time, sys_mmap, sys_munmap, sys_set_priority, sys_task_info, sys_yield,
    syscall, Kernel, TaskInfo, TaskStatus, TimeVal,
};

fn started(frames: usize, tasks: usize) -> Kernel {
    let mut k = Kernel::new(frames, tasks);
    k.run_next(None, 0);
    k
}

fn taken_frames(k: &Kernel) -> usize {
    let mut n = 0;
    for p in 0..k.frames.len() {
        if k.frames.owner(p).is_some() {
            n += 1;
        }
    }
    n
}

fn current(k: &Kernel) -> usize {
    k.current.expect("a task is running")
}

fn word(bytes: &[u8]) -> usize {
    let mut w: u64 = 0;
    for (i, b) in bytes.iter().enumerate() {
        w |= (*b as u64) << (8 * i);
    }
    w as usize
}

#[test]
fn first_task_starts_running() {
    let k = started(4, 3);
    assert_eq!(k.current, Some(0));
    assert_eq!(k.tasks[0].status, TaskStatus::Running);
    assert_eq!(k.tasks[1].status, TaskStatus::Ready);
    assert_eq!(k.tasks[0].first_run, Some(0));
}

#[test]
fn mmap_then_munmap_succeeds_for_every_port() {
    for port in 1..=7usize {
        let mut k = started(8, 1);
        assert_eq!(sys_mmap(&mut k, 0x10000, 2 * PAGE_SIZE, port), 0);
        assert_eq!(taken_frames(&k), 2);
        assert_eq!(sys_munmap(&mut k, 0x10000, 2 * PAGE_SIZE), 0);
        assert_eq!(taken_frames(&k), 0);
        let c = current(&k);
        assert!(!k.tasks[c].page_table.is_mapped(0x10));
        assert!(!k.tasks[c].page_table.is_mapped(0x11));
    }
}

#[test]
fn mmap_sets_user_and_port_permissions() {
    let mut k = started(8, 1);
    assert_eq!(sys_mmap(&mut k, 0x10000, PAGE_SIZE, 0x1), 0);
    assert_eq!(sys_mmap(&mut k, 0x20000, PAGE_SIZE, 0x6), 0);
    let c = current(&k);
    let e1 = k.tasks[c].page_table.translate(0x10).unwrap();
    let e2 = k.tasks[c].page_table.translate(0x20).unwrap();
    assert_eq!(e1.perm.bits, 0x10 | 0x2);
    assert_eq!(e2.perm.bits, 0x10 | 0x4 | 0x8);
    assert_ne!(e1.ppn, e2.ppn);
}

#[test]
fn mmap_rounds_length_up_to_whole_pages() {
    let mut k = started(8, 1);
    assert_eq!(sys_mmap(&mut k, 0x10000, 1, 3), 0);
    assert_eq!(taken_frames(&k), 1);
    assert_eq!(sys_mmap(&mut k, 0x20000, PAGE_SIZE + 1, 3), 0);
    assert_eq!(taken_frames(&k), 3);
    assert_eq!(sys_munmap(&mut k, 0x10000, 1), 0);
    assert_eq!(taken_frames(&k), 2);
}

#[test]
fn munmap_of_unmapped_page_fails_and_keeps_mappings() {
    let mut k = started(8, 1);
    assert_eq!(sys_mmap(&mut k, 0x10000, PAGE_SIZE, 3), 0);
    let c = current(&k);
    let before = k.tasks[c].page_table.translate(0x10).unwrap();
    assert_eq!(sys_munmap(&mut k, 0x10000, 2 * PAGE_SIZE), -1);
    assert_eq!(sys_munmap(&mut k, 0x30000, PAGE_SIZE), -1);
    assert_eq!(k.tasks[c].page_table.translate(0x10), Some(before));
    assert_eq!(taken_frames(&k), 1);
}

#[test]
fn munmap_twice_fails_the_second_time() {
    let mut k = started(8, 1);
    assert_eq!(sys_mmap(&mut k, 0x10000, PAGE_SIZE, 3), 0);
    assert_eq!(sys_munmap(&mut k, 0x10000, PAGE_SIZE), 0);
    assert_eq!(sys_munmap(&mut k, 0x10000, PAGE_SIZE), -1);
}

#[test]
fn munmap_of_overflowing_range_fails() {
    let mut k = started(8, 1);
    assert_eq!(sys_munmap(&mut k, usize::MAX - 10, 20), -1);
}

#[test]
fn overlapping_mmap_fails_without_taking_frames() {
    let mut k = started(8, 1);
    assert_eq!(sys_mmap(&mut k, 0x10000, 2 * PAGE_SIZE, 3), 0);
    assert_eq!(taken_frames(&k), 2);
    assert_eq!(sys_mmap(&mut k, 0x11000, 2 * PAGE_SIZE, 3), -1);
    assert_eq!(sys_mmap(&mut k, 0x0f000, 2 * PAGE_SIZE, 1), -1);
    assert_eq!(taken_frames(&k), 2);
    let c = current(&k);
    assert!(!k.tasks[c].page_table.is_mapped(0x12));
    assert!(!k.tasks[c].page_table.is_mapped(0x0f));
}

#[test]
fn mmap_rejects_bad_arguments_without_taking_frames() {
    let mut k = started(8, 1);
    assert_eq!(sys_mmap(&mut k, 0x10001, PAGE_SIZE, 3), -1);
    assert_eq!(sys_mmap(&mut k, 0x10000, PAGE_SIZE, 0), -1);
    assert_eq!(sys_mmap(&mut k, 0x10000, PAGE_SIZE, 0x8), -1);
    assert_eq!(sys_mmap(&mut k, 0x10000, PAGE_SIZE, 0xf), -1);
    assert_eq!(taken_frames(&k), 0);
}

#[test]
fn mmap_of_empty_or_overflowing_range_fails() {
    let mut k = started(8, 1);
    assert_eq!(sys_mmap(&mut k, 0x10000, 0, 3), -1);
    assert_eq!(sys_mmap(&mut k, usize::MAX - PAGE_SIZE + 1, 2 * PAGE_SIZE, 3), -1);
    assert_eq!(taken_frames(&k), 0);
}

#[test]
fn mmap_fails_when_frames_run_out() {
    let mut k = started(2, 1);
    assert_eq!(sys_mmap(&mut k, 0x10000, 3 * PAGE_SIZE, 3), -1);
    assert_eq!(taken_frames(&k), 0);
    assert_eq!(sys_mmap(&mut k, 0x10000, 2 * PAGE_SIZE, 3), 0);
    assert_eq!(sys_mmap(&mut k, 0x20000, PAGE_SIZE, 3), -1);
    assert_eq!(taken_frames(&k), 2);
}

#[test]
fn time_val_splits_microseconds() {
    let tv = TimeVal::from_micros(3_500_001);
    assert_eq!(tv, TimeVal { sec: 3, usec: 500_001 });
    assert_eq!(TimeVal::from_micros(999_999), TimeVal { sec: 0, usec: 999_999 });
}

#[test]
fn time_val_bytes_are_sec_then_usec_little_endian() {
    let tv = TimeVal { sec: 0x0102, usec: 0x0a0b0c };
    let b = tv.to_bytes();
    assert_eq!(b, vec![0x02, 0x01, 0, 0, 0, 0, 0, 0, 0x0c, 0x0b, 0x0a, 0, 0, 0, 0, 0]);
}

#[test]
fn get_time_writes_time_val() {
    let mut k = started(4, 1);
    assert_eq!(sys_mmap(&mut k, 0x10000, PAGE_SIZE, 3), 0);
    assert_eq!(sys_get_time(&mut k, 0x10010, 0, 12_345_678), 0);
    let c = current(&k);
    let got = copy_from_user(&k.mem, &k.tasks[c].page_table, 0x10010, 16).unwrap();
    assert_eq!(word(&got[0..8]), 12);
    assert_eq!(word(&got[8..16]), 345_678);
}

#[test]
fn get_time_to_unmapped_address_fails() {
    let mut k = started(4, 1);
    assert_eq!(sys_get_time(&mut k, 0x10000, 0, 5), -1);
    assert_eq!(sys_mmap(&mut k, 0x10000, PAGE_SIZE, 3), 0);
    // the second half would land on the next, unmapped page
    assert_eq!(sys_get_time(&mut k, 0x10000 + PAGE_SIZE - 8, 0, 5), -1);
    let c = current(&k);
    let got = copy_from_user(&k.mem, &k.tasks[c].page_table, 0x10000 + PAGE_SIZE - 8, 8).unwrap();
    assert_eq!(got, vec![0u8; 8]);
}

#[test]
fn get_time_is_monotonic() {
    let mut k = started(4, 1);
    assert_eq!(sys_mmap(&mut k, 0x10000, PAGE_SIZE, 3), 0);
    let c = current(&k);
    let mut last = (0usize, 0usize);
    for now in [0usize, 999_999, 1_000_000, 1_000_001, 7_250_000, 7_250_000, 9_000_000] {
        assert_eq!(sys_get_time(&mut k, 0x10000, 0, now), 0);
        let got = copy_from_user(&k.mem, &k.tasks[c].page_table, 0x10000, 16).unwrap();
        let tv = (word(&got[0..8]), word(&got[8..16]));
        assert!(tv >= last);
        assert!(tv.1 < 1_000_000);
        last = tv;
    }
}

#[test]
fn copy_across_page_boundary_fills_both_frames() {
    let mut k = started(8, 1);
    // leave a single free frame between taken ones, so that the two pages
    // get frames that are not next to each other
    assert_eq!(sys_mmap(&mut k, 0x40000, PAGE_SIZE, 3), 0);
    assert_eq!(sys_mmap(&mut k, 0x50000, PAGE_SIZE, 3), 0);
    assert_eq!(sys_mmap(&mut k, 0x60000, PAGE_SIZE, 3), 0);
    assert_eq!(sys_munmap(&mut k, 0x50000, PAGE_SIZE), 0);
    assert_eq!(sys_mmap(&mut k, 0x10000, 2 * PAGE_SIZE, 3), 0);
    let ts = 0x10000 + PAGE_SIZE - 8;
    let now = 0x0102_0304_0506usize;
    assert_eq!(sys_get_time(&mut k, ts, 0, now), 0);
    let c = current(&k);
    let first = k.tasks[c].page_table.translate(0x10).unwrap().ppn;
    let second = k.tasks[c].page_table.translate(0x11).unwrap().ppn;
    assert_ne!(first + 1, second);
    let expected = TimeVal::from_micros(now).to_bytes();
    for i in 0..8 {
        assert_eq!(k.mem.read(first * PAGE_SIZE + PAGE_SIZE - 8 + i), expected[i]);
        assert_eq!(k.mem.read(second * PAGE_SIZE + i), expected[8 + i]);
    }
    let back = copy_from_user(&k.mem, &k.tasks[c].page_table, ts, 16).unwrap();
    assert_eq!(back, expected);
}

#[test]
fn set_priority_and_task_info_always_fail() {
    assert_eq!(sys_set_priority(16), -1);
    assert_eq!(sys_set_priority(-3), -1);
    assert_eq!(sys_task_info(0x10000), -1);
}

#[test]
fn yield_runs_next_ready_task() {
    let mut k = started(4, 3);
    assert_eq!(sys_yield(&mut k, 10), 0);
    assert_eq!(k.current, Some(1));
    assert_eq!(k.tasks[0].status, TaskStatus::Ready);
    assert_eq!(k.tasks[1].status, TaskStatus::Running);
    assert_eq!(k.tasks[1].first_run, Some(10));
    assert_eq!(sys_yield(&mut k, 20), 0);
    assert_eq!(sys_yield(&mut k, 30), 0);
    assert_eq!(k.current, Some(0));
    assert_eq!(k.tasks[0].first_run, Some(0));
}

#[test]
fn yield_alone_keeps_running() {
    let mut k = started(4, 1);
    assert_eq!(sys_yield(&mut k, 10), 0);
    assert_eq!(k.current, Some(0));
    assert_eq!(k.tasks[0].status, TaskStatus::Running);
}

#[test]
fn exit_releases_frames_and_runs_next() {
    let mut k = started(8, 2);
    assert_eq!(sys_mmap(&mut k, 0x10000, 3 * PAGE_SIZE, 3), 0);
    assert_eq!(taken_frames(&k), 3);
    sys_exit(&mut k, 0, 50);
    assert_eq!(k.tasks[0].status, TaskStatus::Exited);
    assert!(!k.tasks[0].page_table.is_mapped(0x10));
    assert_eq!(taken_frames(&k), 0);
    assert_eq!(k.current, Some(1));
    assert_eq!(k.tasks[1].first_run, Some(50));
    sys_exit(&mut k, 1, 60);
    assert_eq!(k.current, None);
    assert_eq!(k.tasks[1].status, TaskStatus::Exited);
}

#[test]
fn exit_keeps_other_tasks_mappings() {
    let mut k = started(8, 2);
    assert_eq!(sys_mmap(&mut k, 0x10000, PAGE_SIZE, 3), 0);
    assert_eq!(sys_yield(&mut k, 1), 0);
    assert_eq!(sys_mmap(&mut k, 0x10000, 2 * PAGE_SIZE, 3), 0);
    sys_exit(&mut k, 0, 2);
    assert_eq!(k.current, Some(0));
    assert!(k.tasks[0].page_table.is_mapped(0x10));
    assert_eq!(taken_frames(&k), 1);
}

#[test]
fn dispatcher_routes_and_counts_calls() {
    let mut k = started(8, 2);
    assert_eq!(syscall(&mut k, SYSCALL_MMAP, [0x10000, PAGE_SIZE, 3], 0), 0);
    assert_eq!(syscall(&mut k, SYSCALL_MMAP, [0x10000, PAGE_SIZE, 3], 0), -1);
    assert_eq!(syscall(&mut k, SYSCALL_GET_TIME, [0x10000, 0, 0], 2_000_001), 0);
    assert_eq!(syscall(&mut k, SYSCALL_SET_PRIORITY, [5, 0, 0], 0), -1);
    assert_eq!(syscall(&mut k, SYSCALL_TASK_INFO, [0x10000, 0, 0], 0), -1);
    assert_eq!(syscall(&mut k, SYSCALL_MUNMAP, [0x10000, PAGE_SIZE, 0], 0), 0);
    assert_eq!(syscall(&mut k, 7, [0, 0, 0], 0), -1);
    let t = &k.tasks[0].syscall_times;
    assert_eq!(t[SYSCALL_MMAP], 2);
    assert_eq!(t[SYSCALL_GET_TIME], 1);
    assert_eq!(t[SYSCALL_SET_PRIORITY], 1);
    assert_eq!(t[SYSCALL_TASK_INFO], 1);
    assert_eq!(t[SYSCALL_MUNMAP], 1);
    assert_eq!(t[7], 0);
    assert_eq!(syscall(&mut k, SYSCALL_YIELD, [0, 0, 0], 3), 0);
    assert_eq!(k.tasks[0].syscall_times[SYSCALL_YIELD], 1);
    assert_eq!(k.current, Some(1));
    syscall(&mut k, SYSCALL_EXIT, [0, 0, 0], 4);
    assert_eq!(k.tasks[1].syscall_times[SYSCALL_EXIT], 1);
    assert_eq!(k.tasks[1].status, TaskStatus::Exited);
    assert_eq!(k.current, Some(0));
}

#[test]
fn syscall_counter_saturates() {
    let mut k = started(4, 1);
    k.tasks[0].syscall_times[SYSCALL_YIELD] = u32::MAX - 1;
    assert_eq!(syscall(&mut k, SYSCALL_YIELD, [0, 0, 0], 1), 0);
    assert_eq!(k.tasks[0].syscall_times[SYSCALL_YIELD], u32::MAX);
    assert_eq!(syscall(&mut k, SYSCALL_YIELD, [0, 0, 0], 2), 0);
    assert_eq!(k.tasks[0].syscall_times[SYSCALL_YIELD], u32::MAX);
    assert_eq!(k.tasks[0].syscall_times.len(), MAX_SYSCALL_NUM);
}

#[test]
fn task_info_reports_elapsed_time() {
    let mut k = Kernel::new(4, 2);
    k.run_next(None, 1_000);
    let info: TaskInfo = TaskInfo::of_task(&k.tasks[0], 5_500);
    assert_eq!(info.status, TaskStatus::Running);
    assert_eq!(info.time, 4_500);
    let never: TaskInfo = TaskInfo::of_task(&k.tasks[1], 5_500);
    assert_eq!(never.status, TaskStatus::Ready);
    assert_eq!(never.time, 0);
}

#[test]
fn permission_from_port_bits() {
    assert_eq!(MapPermission::from_port(0x1).bits, 0x12);
    assert_eq!(MapPermission::from_port(0x2).bits, 0x14);
    assert_eq!(MapPermission::from_port(0x4).bits, 0x18);
    assert_eq!(MapPermission::from_port(0x7).bits, 0x1e);
}
