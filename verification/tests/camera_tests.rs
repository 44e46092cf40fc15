use aravis_camera::camera::{
    backoff_delay_ms, ensure_open, reset_poll_limit, reset_step, retry_after_failure,
    select_raw_format, select_rgb_format, ResetStep, RetryStep,
};
use aravis_camera::multi_camera::{
    batch_result, check_discovered, merge_frame_results, partition_health, recover_step,
    split_first_round, Recovery,
};
use aravis_camera::{CameraError, Frame};

#[test]
fn open_state_check() {
    assert!(ensure_open(true).is_ok());
    assert!(matches!(ensure_open(false), Err(CameraError::DeviceNotOpen)));
}

#[test]
fn backoff_doubles_with_every_failure() {
    let delays: Vec<u64> = (0..9).map(|a| backoff_delay_ms(500, a)).collect();
    assert_eq!(delays, vec![500, 1000, 2000, 4000, 8000, 16000, 32000, 64000, 128000]);
    assert_eq!(backoff_delay_ms(1, 7), 128);
    assert_eq!(backoff_delay_ms(0, 200), 0);
    assert_eq!(backoff_delay_ms(1, 63), 1u64 << 63);
}

#[test]
fn retry_steps() {
    assert_eq!(retry_after_failure(0, 3, 500, true), RetryStep::Retry { delay_ms: 500, reset: false });
    assert_eq!(retry_after_failure(1, 3, 500, true), RetryStep::Retry { delay_ms: 1000, reset: true });
    assert_eq!(retry_after_failure(2, 3, 500, false), RetryStep::Retry { delay_ms: 2000, reset: false });
    assert_eq!(retry_after_failure(3, 3, 500, true), RetryStep::GiveUp);
    assert_eq!(retry_after_failure(0, 0, 500, true), RetryStep::GiveUp);
    assert_eq!(retry_after_failure(7, 10, 1, true), RetryStep::Retry { delay_ms: 128, reset: true });
}

#[test]
fn reset_polling() {
    assert_eq!(reset_poll_limit(3), 6);
    assert!(matches!(reset_step(0, 6, false), ResetStep::Attempt));
    assert!(matches!(reset_step(2, 6, true), ResetStep::Reconnected));
    assert!(matches!(
        reset_step(6, 6, false),
        ResetStep::GiveUp(CameraError::ReconnectFailed(6))
    ));
}

fn names(v: &[&str]) -> Vec<String> {
    v.iter().map(|s| s.to_string()).collect()
}

#[test]
fn rgb_format_choice() {
    assert_eq!(select_rgb_format(&names(&["Mono8", "BGR8", "RGB8"])).unwrap(), "RGB8");
    assert_eq!(select_rgb_format(&names(&["RGB8Packed", "RGB8"])).unwrap(), "RGB8Packed");
    match select_rgb_format(&names(&["Mono8"])) {
        Err(CameraError::UnsupportedPixelFormat(m)) => assert_eq!(m, "no RGB8 format available"),
        other => panic!("unexpected {:?}", other),
    }
}

#[test]
fn raw_format_choice() {
    let av = names(&["BayerRG8", "BayerGR8", "BayerBG12Packed", "BayerRG12"]);
    assert_eq!(select_raw_format(&av, 8).unwrap(), "BayerGR8");
    assert_eq!(select_raw_format(&av, 12).unwrap(), "BayerRG12");
    assert_eq!(select_raw_format(&names(&["BayerBG12Packed"]), 12).unwrap(), "BayerBG12Packed");
    match select_raw_format(&av, 16) {
        Err(CameraError::UnsupportedPixelFormat(m)) => {
            assert_eq!(m, "no Bayer 16bit format available")
        }
        other => panic!("unexpected {:?}", other),
    }
    // Depths that are multiples of 8 never take a packed name.
    assert!(select_raw_format(&names(&["BayerRG8Packed"]), 8).is_err());
}

fn frame(id: u64) -> Frame {
    Frame {
        width: 1,
        height: 1,
        pixel_format: "Mono8".to_string(),
        bits_per_pixel: 8,
        stride: 1,
        data: vec![id as u8],
        timestamp_ns: 0,
        system_timestamp_ns: 0,
        frame_id: id,
    }
}

#[test]
fn merging_frames_reports_first_error() {
    let ok = merge_frame_results::<CameraError>(vec![
        ("a".to_string(), Ok(frame(1))),
        ("b".to_string(), Ok(frame(2))),
    ])
    .unwrap();
    assert_eq!(ok.len(), 2);
    assert_eq!((ok[0].0.as_str(), ok[0].1.frame_id), ("a", 1));
    assert_eq!((ok[1].0.as_str(), ok[1].1.frame_id), ("b", 2));
    let err = merge_frame_results(vec![
        ("a".to_string(), Ok(frame(1))),
        ("b".to_string(), Err(CameraError::Timeout)),
        ("c".to_string(), Err(CameraError::InvalidBuffer)),
    ]);
    assert!(matches!(err, Err(CameraError::Timeout)));
}

#[test]
fn first_round_split() {
    let (frames, failed) = split_first_round(vec![
        ("a".to_string(), Err(CameraError::Timeout)),
        ("b".to_string(), Ok(frame(2))),
        ("c".to_string(), Err(CameraError::DeviceNotOpen)),
    ]);
    assert_eq!(frames.len(), 1);
    assert_eq!(frames[0].0, "b");
    assert_eq!(failed, vec!["a", "c"]);
}

#[test]
fn health_partition_and_batch_errors() {
    let (h, u) = partition_health(vec![
        ("a".to_string(), true),
        ("b".to_string(), false),
        ("c".to_string(), true),
    ]);
    assert_eq!(h, vec!["a", "c"]);
    assert_eq!(u, vec!["b"]);
    assert!(batch_result::<CameraError>(vec![Ok(()), Ok(())]).is_ok());
    assert!(matches!(
        batch_result(vec![Err(CameraError::Timeout), Ok(()), Err(CameraError::InvalidBuffer)]),
        Err(CameraError::InvalidBuffer)
    ));
    assert!(matches!(check_discovered(&Vec::new()), Err(CameraError::NoCameraFound)));
    assert!(check_discovered(&vec!["x".to_string()]).is_ok());
}

#[test]
fn second_round_recovery() {
    let start = vec![("b".to_string(), frame(2))];
    let kept = recover_step(start, "a".to_string(), Recovery::ResetFailed(CameraError::Timeout)).unwrap();
    assert_eq!(kept.len(), 1);
    assert_eq!(kept[0].0, "b");
    let grown = recover_step::<CameraError>(kept, "c".to_string(), Recovery::Retried(Ok(frame(3)))).unwrap();
    assert_eq!(grown.len(), 2);
    assert_eq!((grown[1].0.as_str(), grown[1].1.frame_id), ("c", 3));
    let failed = recover_step(grown, "d".to_string(), Recovery::Retried(Err(CameraError::InvalidBuffer)));
    assert!(matches!(failed, Err(CameraError::InvalidBuffer)));
}
