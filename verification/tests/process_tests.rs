use rcore_os::process::{
    sys_get_time, sys_mmap, sys_munmap, sys_sbrk, sys_sleep, sys_trace, MapArea, MapPermission,
    PageEntry, TraceAction,
};
use rcore_os::TimeVal;

#[test]
fn get_time_splits_microseconds() {
    assert_eq!(sys_get_time(3_250_001), TimeVal { sec: 3, usec: 250_001 });
    assert_eq!(sys_get_time(999_999), TimeVal { sec: 0, usec: 999_999 });
}

#[test]
fn mmap_builds_user_permissions() {
    assert_eq!(
        sys_mmap(0x1000, 0x2000, 0b011),
        Ok(MapArea { start: 0x1000, end: 0x3000, perm: MapPermission { bits: 16 | 2 | 4 } })
    );
    assert_eq!(sys_mmap(0, 1, 0b100).unwrap().perm.bits, 16 | 8);
    assert_eq!(sys_mmap(0, 1, 0b111).unwrap().perm.bits, 30);
}

#[test]
fn mmap_rejects_bad_requests() {
    assert_eq!(sys_mmap(0x1001, 10, 1), Err(-1));
    assert_eq!(sys_mmap(0x1000, 10, 0), Err(-1));
    assert_eq!(sys_mmap(0x1000, 10, 8), Err(-1));
    assert_eq!(sys_mmap(0x1000, 10, 9), Err(-1));
    assert_eq!(sys_mmap(1, usize::MAX, 1), Err(-1));
    assert_eq!(sys_mmap(0x1000, usize::MAX, 0), Err(-1));
}

#[test]
fn munmap_checks_alignment() {
    assert_eq!(sys_munmap(0x2000, 0x1000), Ok((0x2000, 0x3000)));
    assert_eq!(sys_munmap(0x2004, 0x1000), Err(-1));
    assert_eq!(sys_munmap(1, usize::MAX), Err(-1));
}

#[test]
fn sbrk_reports_old_break() {
    assert_eq!(sys_sbrk(Some(0x8000)), 0x8000);
    assert_eq!(sys_sbrk(None), -1);
}

#[test]
fn sleep_expiry() {
    assert_eq!(sys_sleep(1000, 250), 1250);
}

#[test]
fn trace_reads_writes_and_counts() {
    let page = PageEntry { ppn: 0x80, user: true, readable: true, writable: false };
    assert_eq!(sys_trace(0, 0x1234, 0, Some(page)), TraceAction::ReadByte(0x80 * 4096 + 0x234));
    assert_eq!(sys_trace(1, 0x1234, 0x1FF, Some(page)), TraceAction::Fail);
    let page_w = PageEntry { writable: true, ..page };
    assert_eq!(
        sys_trace(1, 0x1234, 0x1FF, Some(page_w)),
        TraceAction::WriteByte(0x80 * 4096 + 0x234, 0xFF)
    );
    let kernel = PageEntry { user: false, ..page_w };
    assert_eq!(sys_trace(0, 0x1234, 0, Some(kernel)), TraceAction::Fail);
    assert_eq!(sys_trace(0, 0x1234, 0, None), TraceAction::Fail);
    assert_eq!(sys_trace(2, 64, 0, None), TraceAction::CallCount(64));
}
