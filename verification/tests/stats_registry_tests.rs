//! Tests of the statistics counters, the sampler arithmetic, the
//! connection registry, and log-line rendering.

use nodpi::log::{access_log_line, error_log_line, u64_to_dec};
use nodpi::registry::{new_connection_info, ConnectionInfo, ConnectionRegistry};
use nodpi::stats::Statistics;

#[test]
fn counters_stay_balanced_across_classifications() {
    let mut s = Statistics::new();
    s.record_allowed();
    s.record_blocked();
    s.record_blocked();
    s.record_error();
    assert_eq!(s.total_connections, 4);
    assert_eq!(s.allowed_connections, 1);
    assert_eq!(s.blocked_connections, 2);
    assert_eq!(s.errors_connections, 1);
    assert_eq!(
        s.total_connections,
        s.allowed_connections + s.blocked_connections + s.errors_connections
    );
}

#[test]
fn traffic_counters_accumulate() {
    let mut s = Statistics::new();
    s.add_traffic(100, 40);
    s.add_traffic(0, 60);
    assert_eq!(s.traffic_in, 100);
    assert_eq!(s.traffic_out, 100);
}

#[test]
fn traffic_counters_saturate_instead_of_wrapping() {
    let mut s = Statistics::new();
    s.add_traffic(u64::MAX, 0);
    s.add_traffic(1, 0);
    assert_eq!(s.traffic_in, u64::MAX);
}

#[test]
fn sampler_computes_bits_per_second() {
    let mut s = Statistics::new();
    s.update_speeds(1000);
    assert_eq!(s.speed_in, 0, "first tick only sets the baseline");
    s.add_traffic(1000, 500);
    s.update_speeds(2000);
    // 1000 bytes over 1 second = 8000 bits per second
    assert_eq!(s.speed_in, 8000);
    assert_eq!(s.speed_out, 4000);
    // averaging sums start at denominator 1
    assert_eq!(s.average_speed_in(), 8000 / 2);
    assert_eq!(s.average_speed_out(), 4000 / 2);
}

#[test]
fn sampler_with_no_elapsed_time_changes_no_rates() {
    let mut s = Statistics::new();
    s.update_speeds(1000);
    s.add_traffic(1000, 0);
    s.update_speeds(1000);
    assert_eq!(s.speed_in, 0);
    assert_eq!(s.last_traffic_in, 1000);
}

#[test]
fn registry_tracks_one_entry_per_connection() {
    let mut reg = ConnectionRegistry::new();
    let info = new_connection_info(
        b"127.0.0.1:50000".to_vec(),
        b"example.org".to_vec(),
        b"GET".to_vec(),
    );
    let id = reg.register(info);
    let other = new_connection_info(
        b"127.0.0.1:50001".to_vec(),
        b"dpi.test".to_vec(),
        b"CONNECT".to_vec(),
    );
    let id2 = reg.register(other);
    assert_ne!(id, id2);
    reg.add_in(id, 10);
    reg.add_in(id, 5);
    reg.add_out(id, 20);
    reg.add_out(id2, 7);
    let info = reg.remove(id).expect("entry present");
    assert_eq!(info.traffic_in, 15);
    assert_eq!(info.traffic_out, 20);
    assert!(reg.remove(id).is_none(), "removal happens once");
    let info2 = reg.remove(id2).expect("entry present");
    assert_eq!(info2.traffic_in, 0);
    assert_eq!(info2.traffic_out, 7);
}

#[test]
fn registry_updates_to_missing_keys_change_nothing() {
    let mut reg = ConnectionRegistry::new();
    reg.add_in(99, 10);
    reg.add_out(99, 10);
    assert!(reg.remove(99).is_none());
}

#[test]
fn connection_info_is_stamped_with_a_wall_clock_time() {
    let info = new_connection_info(b"1.2.3.4:5".to_vec(), b"a.example".to_vec(), b"GET".to_vec());
    assert!(info.start_time.len() >= 19, "timestamp has date and time");
    assert_eq!(info.traffic_in, 0);
    assert_eq!(info.traffic_out, 0);
}

#[test]
fn access_log_line_lists_all_fields_space_separated() {
    let info = ConnectionInfo {
        src_ip: b"127.0.0.1:50000".to_vec(),
        dst_domain: b"example.org".to_vec(),
        method: b"GET".to_vec(),
        start_time: b"2024-01-02 03:04:05".to_vec(),
        traffic_in: 15,
        traffic_out: 20,
    };
    let line = access_log_line(&info);
    assert_eq!(line, b"2024-01-02 03:04:05 127.0.0.1:50000 GET example.org 15 20".to_vec());
}

#[test]
fn error_log_line_is_bracketed_and_labelled() {
    let line = error_log_line(b"2024-01-02 03:04:05", b"dpi.test: unreachable");
    assert_eq!(line, b"[2024-01-02 03:04:05][ERROR]: dpi.test: unreachable".to_vec());
}

#[test]
fn u64_to_dec_renders_exact_digits() {
    assert_eq!(u64_to_dec(0), b"0".to_vec());
    assert_eq!(u64_to_dec(7), b"7".to_vec());
    assert_eq!(u64_to_dec(10), b"10".to_vec());
    assert_eq!(u64_to_dec(1234567890), b"1234567890".to_vec());
    assert_eq!(u64_to_dec(u64::MAX), b"18446744073709551615".to_vec());
}
