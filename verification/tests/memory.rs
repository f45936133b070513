use blue_ide::perf::memory::{
    format_bytes, rss_from_proc_status, rss_from_proc_status_checked, vmrss_kib_of,
};

#[test]
fn format_bytes_scales_correctly() {
    assert_eq!(format_bytes(512), "512 B");
    assert_eq!(format_bytes(2048), "2 KB");
    assert_eq!(format_bytes(1536 * 1024), "1.5 MB");
    // GB boundary
    let two_gb = 2u64 * 1024 * 1024 * 1024;
    assert!(format_bytes(two_gb).contains("GB"));
}

#[test]
fn format_bytes_exact_values_at_each_unit() {
    assert_eq!(format_bytes(0), "0 B");
    assert_eq!(format_bytes(1023), "1023 B");
    assert_eq!(format_bytes(1024), "1 KB");
    assert_eq!(format_bytes(1024 * 1024 - 1), "1023 KB");
    assert_eq!(format_bytes(1024 * 1024), "1.0 MB");
    assert_eq!(format_bytes(2u64 * 1024 * 1024 * 1024), "2.00 GB");
    assert_eq!(format_bytes(3u64 * 1024 * 1024 * 1024 / 2), "1.50 GB");
}

#[test]
fn rss_is_read_from_the_vmrss_line_in_kib() {
    let status = "Name:\tblue\nVmPeak:\t  9000 kB\nVmRSS:\t  2048 kB\nThreads:\t4\n";
    assert_eq!(rss_from_proc_status(status), Some(2048 * 1024));
}

#[test]
fn rss_is_absent_without_a_parsable_vmrss_line() {
    assert_eq!(rss_from_proc_status("Name:\tblue\n"), None);
    assert_eq!(rss_from_proc_status("VmRSS:\t  lots kB\n"), None);
    assert_eq!(rss_from_proc_status(""), None);
}

#[test]
fn checked_rss_refuses_counts_that_overflow() {
    assert_eq!(rss_from_proc_status_checked("VmRSS:\t 2048 kB\n"), Some(2048 * 1024));
    assert_eq!(rss_from_proc_status_checked("Name:\tblue\n"), None);
    let huge = format!("VmRSS:\t{} kB\n", u64::MAX / 1024 + 1);
    assert_eq!(vmrss_kib_of(&huge), Some(u64::MAX / 1024 + 1));
    assert_eq!(rss_from_proc_status_checked(&huge), None);
    let largest = format!("VmRSS:\t{} kB\n", u64::MAX / 1024);
    assert_eq!(rss_from_proc_status_checked(&largest), Some(u64::MAX / 1024 * 1024));
}
