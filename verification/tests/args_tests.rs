use standby::args::{Args, ArgsError};

fn argv(parts: &[&str]) -> Vec<String> {
    let mut v: Vec<String> = Vec::new();
    for p in parts {
        v.push(p.to_string());
    }
    v
}

#[test]
fn test_parse_args() {
    let args = Args::try_parse_from(argv(&["test", "--threshold=-20", "--device", "device_name"]));
    assert!(args.is_ok());
    let args = args.unwrap();
    assert_eq!(args.threshold, -20);
    assert_eq!(args.device, Some("device_name".to_string()));
}

#[test]
fn test_parse_args_no_device() {
    let args = Args::try_parse_from(argv(&["test", "--threshold=-10"]));
    assert!(args.is_ok());
    let args = args.unwrap();
    assert_eq!(args.threshold, -10);
    assert_eq!(args.device, None);
}

#[test]
fn test_parse_args_separate_value() {
    let args = Args::try_parse_from(argv(&["standby", "--threshold", "-35"])).unwrap();
    assert_eq!(args.threshold, -35);
    assert_eq!(args.device, None);
}

#[test]
fn test_parse_args_device_equals_form() {
    let args = Args::try_parse_from(argv(&["standby", "--device=mic", "--threshold=0"])).unwrap();
    assert_eq!(args.threshold, 0);
    assert_eq!(args.device, Some("mic".to_string()));
}

#[test]
fn test_parse_args_missing_threshold() {
    let r = Args::try_parse_from(argv(&["standby"]));
    assert_eq!(r.unwrap_err(), ArgsError::MissingThreshold);
    let r = Args::try_parse_from(argv(&["standby", "--device", "mic"]));
    assert_eq!(r.unwrap_err(), ArgsError::MissingThreshold);
}

#[test]
fn test_parse_args_missing_value() {
    let r = Args::try_parse_from(argv(&["standby", "--threshold"]));
    assert_eq!(r.unwrap_err(), ArgsError::MissingValue);
    let r = Args::try_parse_from(argv(&["standby", "--threshold=-20", "--device"]));
    assert_eq!(r.unwrap_err(), ArgsError::MissingValue);
}

#[test]
fn test_parse_args_invalid_threshold() {
    let r = Args::try_parse_from(argv(&["standby", "--threshold", "loud"]));
    assert_eq!(r.unwrap_err(), ArgsError::InvalidThreshold);
    let r = Args::try_parse_from(argv(&["standby", "--threshold="]));
    assert_eq!(r.unwrap_err(), ArgsError::InvalidThreshold);
    let r = Args::try_parse_from(argv(&["standby", "--threshold", "2147483648"]));
    assert_eq!(r.unwrap_err(), ArgsError::InvalidThreshold);
}

#[test]
fn test_parse_args_extreme_thresholds_fit() {
    let args = Args::try_parse_from(argv(&["standby", "--threshold=-2147483648"])).unwrap();
    assert_eq!(args.threshold, i32::MIN);
    let args = Args::try_parse_from(argv(&["standby", "--threshold=+2147483647"])).unwrap();
    assert_eq!(args.threshold, i32::MAX);
}

#[test]
fn test_parse_args_duplicate_flag() {
    let r = Args::try_parse_from(argv(&["standby", "--threshold=-20", "--threshold=-10"]));
    assert_eq!(r.unwrap_err(), ArgsError::DuplicateArgument);
    let r = Args::try_parse_from(argv(&["standby", "--threshold=-20", "--device=a", "--device=b"]));
    assert_eq!(r.unwrap_err(), ArgsError::DuplicateArgument);
}

#[test]
fn test_parse_args_unknown_argument() {
    let r = Args::try_parse_from(argv(&["standby", "--volume=3"]));
    assert_eq!(r.unwrap_err(), ArgsError::UnknownArgument);
}
