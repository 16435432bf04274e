use ai_strategist::lac::{lac_control_space_url, lac_status, LacProbe};

#[test]
fn lac_address_defaults_when_blank() {
    assert_eq!(lac_control_space_url(None), "http://127.0.0.1:20128/control/lac-control-space");
    assert_eq!(lac_control_space_url(Some("   ".to_string())), "http://127.0.0.1:20128/control/lac-control-space");
    assert_eq!(lac_control_space_url(Some(" http://h:1/x \n".to_string())), "http://h:1/x");
}

#[test]
fn lac_status_for_each_outcome() {
    let ok = lac_status("e".to_string(), LacProbe::Answered(204));
    assert!(ok.ok && ok.reachable);
    assert_eq!(ok.status_code, Some(204));
    assert_eq!(ok.error, None);
    let bad = lac_status("e".to_string(), LacProbe::Answered(503));
    assert!(!bad.ok && !bad.reachable);
    assert_eq!(bad.error, Some("LAC returned HTTP 503".to_string()));
    let down = lac_status("e".to_string(), LacProbe::Unreachable("refused".to_string()));
    assert_eq!(down.status_code, None);
    assert_eq!(down.error, Some("refused".to_string()));
    assert_eq!(down.endpoint, "e");
}
