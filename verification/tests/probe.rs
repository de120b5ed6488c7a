use rate_mirrors::config::Config;
use rate_mirrors::mirror::Mirror;
use rate_mirrors::speed_test::{probe_deadline, ProbeState, SpeedTestError};

fn mirror() -> Mirror {
    Mirror {
        url: "https://m.example/".to_string(),
        url_to_test: "https://m.example/test.db".to_string(),
        country: None,
        base_path: None,
    }
}

fn small_config() -> Config {
    let mut c = Config::default();
    c.eps_checks = 4;
    c.min_bytes_per_mirror = 1000;
    c.min_per_mirror = 300;
    c
}

#[test]
fn convergence_waits_for_minimum_time() {
    // perfectly steady chunks converge immediately on the statistics, but
    // not before min_per_mirror wall-clock has passed
    let config = small_config();
    let mut st = ProbeState::new(&config);
    let mut now = 0u64;
    for _ in 0..10 {
        now += 20;
        let converged = st.on_chunk(500, now, &config);
        assert!(!converged, "converged at {} ms, before the 300 ms floor", now);
    }
    // past the floor the steady stream converges
    let mut converged = false;
    for _ in 0..10 {
        now += 50;
        converged = st.on_chunk(500, now, &config);
        if converged {
            break;
        }
    }
    assert!(converged);
    assert!(st.elapsed_ms > 300);
}

#[test]
fn unsteady_speeds_do_not_converge() {
    let config = small_config();
    let mut st = ProbeState::new(&config);
    let mut now = 0u64;
    let sizes = [10u64, 100_000, 10, 100_000, 10, 100_000, 10, 100_000];
    for len in sizes.iter() {
        now += 100;
        assert!(!st.on_chunk(*len, now, &config));
    }
}

#[test]
fn finish_accepts_iff_enough_bytes() {
    // the hard cap was reached without convergence: the result is
    // accepted exactly when enough bytes arrived
    let config = small_config();
    let mut st = ProbeState::new(&config);
    st.on_chunk(600, 100, &config);
    let r = st.finish(mirror(), 25, &config);
    assert!(matches!(r, Err(SpeedTestError::TooFewBytesDownloadedError)));

    let mut st = ProbeState::new(&config);
    st.on_chunk(600, 100, &config);
    st.on_chunk(600, 200, &config);
    let r = st.finish(mirror(), 25, &config).expect("enough bytes");
    assert_eq!(r.bytes_downloaded, 1200);
    assert_eq!(r.elapsed_ms, 200);
    assert_eq!(r.connection_time_ms, 25);
    // speed is bytes over elapsed seconds
    assert_eq!(r.speed, 1200 * 1000 / 200);
}

#[test]
fn deadline_counts_down_from_the_cap() {
    let config = Config::default();
    assert_eq!(probe_deadline(0, &config), Some(1000));
    assert_eq!(probe_deadline(999, &config), Some(1));
    assert_eq!(probe_deadline(1000, &config), None);
    assert_eq!(probe_deadline(5000, &config), None);
}

#[test]
fn sub_millisecond_downloads_count_one_millisecond() {
    let config = small_config();
    let mut st = ProbeState::new(&config);
    st.on_chunk(2000, 0, &config);
    let r = st.finish(mirror(), 5, &config).expect("enough bytes");
    assert_eq!(r.elapsed_ms, 1);
}
