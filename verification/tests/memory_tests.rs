use cleitonforge::memory::{
    rss_bytes_from_status, rss_delta_or_fallback, statevector_memory_bytes, vmrss_kib,
};

/// A process status text in the layout the Linux kernel writes, with the
/// given resident set size.
fn status_with_rss_kib(kib: u64) -> String {
    format!(
        "Name:\tcforge\nUmask:\t0022\nState:\tR (running)\nVmPeak:\t  {} kB\nVmRSS:\t  {} kB\nThreads:\t1\n",
        kib + 512,
        kib
    )
}

#[test]
fn theoretical_memory_is_correct() {
    // 2 qubits → 4 amplitudes × 16 bytes = 64 bytes
    assert_eq!(statevector_memory_bytes(2), 64);
    // 10 qubits → 1024 × 16 = 16 384 bytes
    assert_eq!(statevector_memory_bytes(10), 16_384);
    // 20 qubits → 1 Mi × 16 = 16 MiB
    assert_eq!(statevector_memory_bytes(20), 16 * 1024 * 1024);
}

#[test]
fn rss_is_positive_or_none() {
    if let Some(rss) = rss_bytes_from_status(&status_with_rss_kib(3_456)) {
        assert!(rss > 0, "RSS must be positive when available");
    }
    // None is acceptable where the status text has no VmRSS line.
    assert_eq!(rss_bytes_from_status("Name:\tcforge\n"), None);
}

#[test]
fn rss_delta_captures_large_allocation() {
    // An 8 MiB allocation between two readings shows up as an RSS delta of
    // at least one page.
    let theoretical = statevector_memory_bytes(19); // 8 MiB
    let before = rss_bytes_from_status(&status_with_rss_kib(2_000));
    let large: Vec<u8> = vec![0u8; 8 * 1024 * 1024];
    let after = rss_bytes_from_status(&status_with_rss_kib(2_000 + (large.len() as u64) / 1024));
    let delta = rss_delta_or_fallback(before, after, theoretical);
    assert!(delta >= 4096, "delta should be at least one page");
    assert_eq!(delta, 8 * 1024 * 1024);
    // Where RSS is unavailable the theoretical value (also 8 MiB) is used.
    assert!(rss_delta_or_fallback(None, None, theoretical) >= 4096);
}

#[test]
fn memory_bound_saturates() {
    assert_eq!(statevector_memory_bytes(0), 16);
    assert_eq!(statevector_memory_bytes(59), 1u64 << 63);
    assert_eq!(statevector_memory_bytes(60), u64::MAX);
    assert_eq!(statevector_memory_bytes(63), u64::MAX);
}

#[test]
fn small_or_missing_deltas_fall_back() {
    assert_eq!(rss_delta_or_fallback(Some(10_000), Some(12_000), 64), 64);
    assert_eq!(rss_delta_or_fallback(Some(10_000), Some(20_000), 64), 10_000);
    assert_eq!(rss_delta_or_fallback(Some(20_000), Some(10_000), 64), 64);
    assert_eq!(rss_delta_or_fallback(None, Some(20_000), 64), 64);
    assert_eq!(rss_delta_or_fallback(Some(1), None, 7), 7);
}

#[test]
fn status_text_is_read_like_the_kernel_writes_it() {
    let status = "Name:\tcargo\nVmPeak:\t  999 kB\nVmRSS:\t   12345 kB\nThreads:\t1\n";
    assert_eq!(vmrss_kib(status), Some(12345));
    assert_eq!(rss_bytes_from_status(status), Some(12345 * 1024));
    assert_eq!(vmrss_kib("VmRSS:\t+42 kB"), Some(42));
    assert_eq!(vmrss_kib("Name: x\nVmSwap: 1 kB\n"), None);
    // The first VmRSS line decides, even when its value does not parse.
    assert_eq!(vmrss_kib("VmRSS: abc kB\nVmRSS: 5 kB\n"), None);
    assert_eq!(vmrss_kib("VmRSS:\n"), None);
    assert_eq!(vmrss_kib("VmRSS: 18446744073709551616 kB"), None);
    assert_eq!(vmrss_kib("VmRSS: 18446744073709551615 kB"), Some(u64::MAX));
    assert_eq!(vmrss_kib("VmRSS:\u{3000}7 kB"), Some(7));
    assert_eq!(vmrss_kib(" VmRSS: 7 kB"), None);
}
