use upsilon_dev::shutdown_host::{exit_code_byte, host_step, parse_duration, HostAction, HostEvent};

#[test]
fn grace_periods() {
    assert_eq!(parse_duration("60s"), Ok(60));
    assert_eq!(parse_duration("5"), Ok(5));
    assert_eq!(parse_duration("+7s"), Ok(7));
    let e = parse_duration("soon").unwrap_err();
    assert!(e.starts_with("Cannot parse duration: "), "{e}");
    assert!(parse_duration("s").is_err());
    assert!(parse_duration("10ss").is_err());
    assert!(parse_duration("-1s").is_err());
    assert!(parse_duration("18446744073709551616").is_err());
    assert_eq!(parse_duration("18446744073709551615s"), Ok(u64::MAX));
}

#[test]
fn exit_codes_and_steps() {
    assert_eq!(exit_code_byte(Some(0)), 0);
    assert_eq!(exit_code_byte(Some(255)), 255);
    assert_eq!(exit_code_byte(Some(256)), 1);
    assert_eq!(exit_code_byte(Some(-1)), 1);
    assert_eq!(exit_code_byte(None), 1);
    assert_eq!(host_step(HostEvent { exited: Some(Some(3)), kill_file_created: true }), HostAction::Exit(3));
    assert_eq!(host_step(HostEvent { exited: None, kill_file_created: true }), HostAction::BeginGrace);
    assert_eq!(host_step(HostEvent { exited: None, kill_file_created: false }), HostAction::Wait);
}
