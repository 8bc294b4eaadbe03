use media_convert::progress::{read_progress, Position, ProgressReader};

#[derive(Debug, PartialEq)]
struct ProgressInfo {
    fraction: Option<f64>,
    fps: Option<f32>,
    speed: Option<f32>,
}

fn collect_progress(input: &[u8], total_secs: Option<f64>) -> Vec<ProgressInfo> {
    let total_us = total_secs.map(|s| (s * 1_000_000.0).max(1.0));
    let all = String::from_utf8(input.to_vec()).unwrap();
    let lines: Vec<String> = all.lines().map(String::from).collect();
    read_progress(&lines)
        .iter()
        .map(|r| ProgressInfo {
            fraction: match r.position {
                Position::Unknown => None,
                Position::End => Some(1.0),
                Position::Micros(us) => total_us.map(|t| (us as f64 / t).clamp(0.0, 1.0)),
            },
            fps: r.fps.as_deref().and_then(|s| s.parse().ok()),
            speed: r.speed.as_deref().and_then(|s| s.parse().ok()),
        })
        .collect()
}

#[test]
fn read_progress_emits_fraction_for_out_time_us() {
    let calls = collect_progress(b"out_time_us=500000\nprogress=continue\n", Some(1.0));
    assert_eq!(
        calls,
        vec![ProgressInfo {
            fraction: Some(0.5),
            fps: None,
            speed: None
        }]
    );
}

#[test]
fn read_progress_treats_out_time_ms_as_microseconds() {
    // ffmpeg's `out_time_ms` is historically microseconds, not milliseconds.
    let calls = collect_progress(b"out_time_ms=750000\nprogress=continue\n", Some(1.5));
    assert_eq!(
        calls,
        vec![ProgressInfo {
            fraction: Some(0.5),
            fps: None,
            speed: None
        }]
    );
}

#[test]
fn read_progress_emits_none_when_total_unknown() {
    let calls = collect_progress(b"out_time_us=500000\nprogress=continue\n", None);
    assert_eq!(
        calls,
        vec![ProgressInfo {
            fraction: None,
            fps: None,
            speed: None
        }]
    );
}

#[test]
fn read_progress_clamps_overshoot() {
    let calls = collect_progress(b"out_time_us=2000000\nprogress=continue\n", Some(1.0));
    assert_eq!(
        calls,
        vec![ProgressInfo {
            fraction: Some(1.0),
            fps: None,
            speed: None
        }]
    );
}

#[test]
fn read_progress_treats_negative_values_as_zero() {
    let calls = collect_progress(b"out_time_us=-100\nprogress=continue\n", Some(1.0));
    assert_eq!(
        calls,
        vec![ProgressInfo {
            fraction: Some(0.0),
            fps: None,
            speed: None
        }]
    );
}

#[test]
fn read_progress_emits_one_on_end_marker() {
    let calls = collect_progress(b"progress=end\n", Some(60.0));
    assert_eq!(
        calls,
        vec![ProgressInfo {
            fraction: Some(1.0),
            fps: None,
            speed: None
        }]
    );
}

#[test]
fn read_progress_ignores_unknown_keys_and_malformed_lines() {
    let input = b"frame=42\nbitrate=500kbps\nnokey\nout_time_us=invalid\nout_time_us=1000000\nprogress=continue\n";
    let calls = collect_progress(input, Some(2.0));
    assert_eq!(
        calls,
        vec![ProgressInfo {
            fraction: Some(0.5),
            fps: None,
            speed: None
        }]
    );
}

#[test]
fn read_progress_emits_for_each_advance() {
    let input = b"out_time_us=250000\nprogress=continue\nout_time_us=500000\nprogress=continue\nout_time_us=750000\nprogress=continue\nprogress=end\n";
    let calls = collect_progress(input, Some(1.0));
    assert_eq!(
        calls,
        vec![
            ProgressInfo {
                fraction: Some(0.25),
                fps: None,
                speed: None
            },
            ProgressInfo {
                fraction: Some(0.5),
                fps: None,
                speed: None
            },
            ProgressInfo {
                fraction: Some(0.75),
                fps: None,
                speed: None
            },
            ProgressInfo {
                fraction: Some(1.0),
                fps: None,
                speed: None
            }
        ]
    );
}

#[test]
fn read_progress_strips_whitespace_around_key_and_value() {
    let calls = collect_progress(
        b"  out_time_us  =  500000  \n  progress  =  continue  \n",
        Some(1.0),
    );
    assert_eq!(
        calls,
        vec![ProgressInfo {
            fraction: Some(0.5),
            fps: None,
            speed: None
        }]
    );
}

#[test]
fn rates_are_kept_until_the_next_report() {
    let calls = collect_progress(
        b"fps=23.5\nspeed=1.25x\nout_time_us=1\nprogress=continue\nspeed=N/A\nprogress=end\n",
        Some(0.000002),
    );
    assert_eq!(
        calls,
        vec![
            ProgressInfo {
                fraction: Some(0.5),
                fps: Some(23.5),
                speed: Some(1.25)
            },
            ProgressInfo {
                fraction: Some(1.0),
                fps: Some(23.5),
                speed: None
            }
        ]
    );
}

#[test]
fn reader_reports_at_progress_lines_only() {
    let mut reader = ProgressReader::new();
    assert!(reader.line("out_time_us=12").is_none());
    assert!(reader.line("progress").is_none());
    assert!(reader.line("=").is_none());
    let report = reader.line("progress=continue=end").unwrap();
    assert_eq!(report.position, Position::Micros(12));
    let report = reader.line("progress=end").unwrap();
    assert_eq!(report.position, Position::End);
    assert_eq!(reader.micros, 12);
}

#[test]
fn reader_takes_signs_and_refuses_overflow() {
    let mut reader = ProgressReader::new();
    reader.line("out_time_us=+7");
    assert_eq!(reader.micros, 7);
    reader.line("out_time_us=9223372036854775807");
    assert_eq!(reader.micros, 9223372036854775807);
    reader.line("out_time_us=9223372036854775808");
    assert_eq!(reader.micros, 9223372036854775807);
    reader.line("out_time_us=-9223372036854775808");
    assert_eq!(reader.micros, 0);
    reader.line("out_time_us=N/A");
    assert_eq!(reader.micros, 0);
}
