use zellij_windows::dsr::{
    configured_dsr_bootstrap_timeout, find_subslice, partial_dsr_prefix_len, strip_dsr_query_once,
    DsrBootstrap,
};

fn bootstrap(handle: isize) -> DsrBootstrap {
    DsrBootstrap::new(handle, configured_dsr_bootstrap_timeout(Some("2000")))
}

#[test]
fn dsr_bootstrap_strips_initial_query_without_losing_output() {
    assert_eq!(
        strip_dsr_query_once(b"hello\x1b[6nworld"),
        (b"helloworld".to_vec(), true)
    );
    assert_eq!(
        strip_dsr_query_once(b"hello world"),
        (b"hello world".to_vec(), false)
    );
}

#[test]
fn dsr_bootstrap_detects_query_split_across_reads() {
    let mut dsr = bootstrap(0);

    assert_eq!(dsr.filter(b"before\x1b["), b"before");
    assert_eq!(dsr.filter(b"6nafter"), b"after");
    assert!(dsr.is_done());
}

#[test]
fn dsr_bootstrap_replays_false_partial_query_prefix() {
    let mut dsr = bootstrap(0);

    assert_eq!(dsr.filter(b"before\x1b["), b"before");
    assert_eq!(dsr.filter(b"XXafter"), b"\x1b[XXafter");
    assert!(!dsr.is_done());
}

#[test]
fn dsr_bootstrap_defers_output_that_does_not_fit_read_buffer() {
    let mut dsr = bootstrap(0);
    let output = dsr.filter_to_len(b"before\x1b[6nafter", 7);

    assert_eq!(output, b"beforea");
    assert_eq!(dsr.drain_deferred_to_len(16), b"fter");
    assert!(dsr.is_done());
}

#[test]
fn query_split_at_every_byte_is_found() {
    let mut dsr = bootstrap(0);
    let mut output = Vec::new();
    for byte in b"ab\x1b\x1b[\x1b[6ncd" {
        output.extend(dsr.filter_at(false, &[*byte], usize::MAX));
    }
    assert_eq!(output, b"ab\x1b\x1b[cd");
    assert!(dsr.is_done());
}

#[test]
fn only_the_first_query_is_taken_out() {
    let mut dsr = bootstrap(0);
    assert_eq!(
        dsr.filter_at(false, b"\x1b[6n\x1b[6n", usize::MAX),
        b"\x1b[6n"
    );
    assert_eq!(dsr.filter_at(false, b"\x1b[6n", usize::MAX), b"\x1b[6n");
}

#[test]
fn expired_wait_lets_everything_pass() {
    let mut dsr = bootstrap(5);
    assert_eq!(dsr.filter_at(false, b"a\x1b[6", usize::MAX), b"a");
    assert_eq!(dsr.filter_at(true, b"nb", usize::MAX), b"\x1b[6nb");
    assert!(dsr.is_done());
    assert_eq!(dsr.write_dsr_response(), None);
}

#[test]
fn reply_is_given_out_once_and_only_to_a_handle() {
    let mut dsr = bootstrap(5);
    assert_eq!(dsr.write_dsr_response(), None);
    dsr.filter_at(false, b"\x1b[6n", usize::MAX);
    assert_eq!(
        dsr.write_dsr_response(),
        Some((5, b"\x1b[1;1R".to_vec()))
    );
    assert_eq!(dsr.write_dsr_response(), None);

    let mut nowhere = bootstrap(0);
    nowhere.filter_at(false, b"\x1b[6n", usize::MAX);
    assert_eq!(nowhere.write_dsr_response(), None);
}

#[test]
fn deferred_output_is_drained_in_pieces() {
    let mut dsr = bootstrap(0);
    assert_eq!(dsr.drain_deferred(4), None);
    assert_eq!(dsr.filter_at(true, b"abcdefg", 2), b"ab");
    assert!(!dsr.is_done());
    assert_eq!(dsr.drain_deferred(3), Some(b"cde".to_vec()));
    assert_eq!(dsr.drain_deferred(3), Some(b"fg".to_vec()));
    assert_eq!(dsr.drain_deferred(3), None);
    assert!(dsr.is_done());
}

#[test]
fn time_is_over_after_the_timeout() {
    let dsr = DsrBootstrap::new(0, 50);
    assert!(!dsr.expires_after(0));
    assert!(!dsr.expires_after(50_000_000));
    assert!(dsr.expires_after(50_000_001));
    assert!(!bootstrap(0).is_expired());
    let late = DsrBootstrap::new(0, 0);
    let start = std::time::Instant::now();
    while start.elapsed().as_millis() < 5 {}
    assert!(late.is_expired());
}

#[test]
fn timeout_is_read_and_kept_within_limits() {
    assert_eq!(configured_dsr_bootstrap_timeout(None), 200);
    assert_eq!(configured_dsr_bootstrap_timeout(Some("")), 200);
    assert_eq!(configured_dsr_bootstrap_timeout(Some("+")), 200);
    assert_eq!(configured_dsr_bootstrap_timeout(Some("abc")), 200);
    assert_eq!(configured_dsr_bootstrap_timeout(Some("-300")), 200);
    assert_eq!(configured_dsr_bootstrap_timeout(Some(" 300")), 200);
    assert_eq!(configured_dsr_bootstrap_timeout(Some("300")), 300);
    assert_eq!(configured_dsr_bootstrap_timeout(Some("+300")), 300);
    assert_eq!(configured_dsr_bootstrap_timeout(Some("0300")), 300);
    assert_eq!(configured_dsr_bootstrap_timeout(Some("0")), 50);
    assert_eq!(configured_dsr_bootstrap_timeout(Some("49")), 50);
    assert_eq!(configured_dsr_bootstrap_timeout(Some("2001")), 2000);
    assert_eq!(
        configured_dsr_bootstrap_timeout(Some("18446744073709551615")),
        2000
    );
    assert_eq!(
        configured_dsr_bootstrap_timeout(Some("18446744073709551616")),
        200
    );
}

#[test]
fn subslices_are_found_at_their_first_place() {
    assert_eq!(find_subslice(b"abcabc", b"bc"), Some(1));
    assert_eq!(find_subslice(b"abc", b"abcd"), None);
    assert_eq!(find_subslice(b"", b"a"), None);
    assert_eq!(find_subslice(b"aab", b"ab"), Some(1));
}

#[test]
fn beginnings_of_the_query_are_measured() {
    assert_eq!(partial_dsr_prefix_len(b""), 0);
    assert_eq!(partial_dsr_prefix_len(b"abc"), 0);
    assert_eq!(partial_dsr_prefix_len(b"a\x1b"), 1);
    assert_eq!(partial_dsr_prefix_len(b"\x1b["), 2);
    assert_eq!(partial_dsr_prefix_len(b"\x1b[6"), 3);
    assert_eq!(partial_dsr_prefix_len(b"\x1b[6n"), 0);
    assert_eq!(partial_dsr_prefix_len(b"\x1b[\x1b"), 1);
}
