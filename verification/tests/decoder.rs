use cybergrape::hardware_message_decoder::{
    DecodeRule, HardwareEvent, UUDFEvent, UUDFPEvent,
};

#[test]
fn uudf_test_1() {
    let s = "+UUDF:CCF9578E0D8A,-42,20,0,-43,37,\"CCF9578E0D89\",\"\",15869,23";

    let res = UUDFEvent::from_str(s).unwrap();

    assert_eq!(
        res,
        UUDFEvent {
            tag_id: 0xCCF9578E0D8A,
            rssi: -42,
            angle_1: 20,
            angle_2: 0,
            reserved: -43,
            channel: 37,
            anchor_id: 0xCCF9578E0D89,
            user_defined: "".to_owned(),
            timestamp: 15869,
            sequence: 23,
        }
    );
}

#[test]
fn uudf_test_2() {
    let s = "+UUDF:CCF9578E0D8B,-41,10,4,-42,38,\"CCF9578E0D89\",\"\",15892,24";

    let res = UUDFEvent::from_str(s).unwrap();

    assert_eq!(
        res,
        UUDFEvent {
            tag_id: 0xCCF9578E0D8B,
            rssi: -41,
            angle_1: 10,
            angle_2: 4,
            reserved: -42,
            channel: 38,
            anchor_id: 0xCCF9578E0D89,
            user_defined: "".to_owned(),
            timestamp: 15892,
            sequence: 24,
        }
    );
}

#[test]
fn uudf_test_3() {
    let s = "+UUDF:CCF9578E0D8A,-42,-10,2,-43,39,\"CCF9578E0D89\",\"\",15921,25";

    let res = UUDFEvent::from_str(s).unwrap();

    assert_eq!(
        res,
        UUDFEvent {
            tag_id: 0xCCF9578E0D8A,
            rssi: -42,
            angle_1: -10,
            angle_2: 2,
            reserved: -43,
            channel: 39,
            anchor_id: 0xCCF9578E0D89,
            user_defined: "".to_owned(),
            timestamp: 15921,
            sequence: 25,
        }
    );
}

#[test]
fn uufdp_test() {
    let s = "+UUDFP:6C3DEBAFAEE4,19FF1500000050F80C0065000900052A0D001F000000D0030000";

    let res = UUDFPEvent::from_str(s).unwrap();
    assert_eq!(
        res,
        UUDFPEvent {
            tag_id: 0x6C3DEBAFAEE4,
        }
    );
}

#[test]
fn hardware_event_uudf_test_1() {
    let s = "+UUDF:CCF9578E0D8A,-42,20,0,-43,37,\"CCF9578E0D89\",\"\",15869,23";

    let res = HardwareEvent::from_str(s).unwrap();
    assert_eq!(
        res,
        HardwareEvent::UUDFEvent(UUDFEvent {
            tag_id: 0xCCF9578E0D8A,
            rssi: -42,
            angle_1: 20,
            angle_2: 0,
            reserved: -43,
            channel: 37,
            anchor_id: 0xCCF9578E0D89,
            user_defined: "".to_owned(),
            timestamp: 15869,
            sequence: 23,
        })
    );
}

#[test]
fn hardware_event_uufdp_test() {
    let s = "+UUDFP:6C3DEBAFAEE4,19FF1500000050F80C0065000900052A0D001F000000D0030000";

    let res = HardwareEvent::from_str(s).unwrap();
    assert_eq!(
        res,
        HardwareEvent::UUDFPEvent(UUDFPEvent {
            tag_id: 0x6C3DEBAFAEE4,
        })
    );
}

#[test]
fn lowercase_hex_ids_decode() {
    let s = "+UUDF:ccf9578e0d8a,-1,2,3,4,5,\"ccf9578e0d89\",\"abc123\",6,7";
    let res = UUDFEvent::from_str(s).unwrap();
    assert_eq!(res.tag_id, 0xCCF9578E0D8A);
    assert_eq!(res.anchor_id, 0xCCF9578E0D89);
    assert_eq!(res.user_defined, "abc123".to_owned());
}

#[test]
fn trailing_noise_is_ignored() {
    let s = "+UUDF:CCF9578E0D8A,-42,20,0,-43,37,\"CCF9578E0D89\",\"\",15869,23 and noise";
    let res = UUDFEvent::from_str(s).unwrap();
    assert_eq!(res.sequence, 23);
}

#[test]
fn wrong_prefix_is_rejected() {
    let err = UUDFEvent::from_str("UUDF:CCF9578E0D8A,-42").unwrap_err();
    assert_eq!(err.rule, DecodeRule::Prefix);
}

#[test]
fn short_id_is_rejected() {
    let err = UUDFEvent::from_str("+UUDF:CCF9,1,2,3,4,5,\"CCF9578E0D89\",\"\",6,7").unwrap_err();
    assert_eq!(err.rule, DecodeRule::TagId);
}

#[test]
fn long_id_is_rejected() {
    let err =
        UUDFEvent::from_str("+UUDF:CCF9578E0D8A0,1,2,3,4,5,\"CCF9578E0D89\",\"\",6,7").unwrap_err();
    assert_eq!(err.rule, DecodeRule::TagId);
}

#[test]
fn rssi_overflow_is_rejected() {
    let err = UUDFEvent::from_str(
        "+UUDF:CCF9578E0D8A,99999999999,2,3,4,5,\"CCF9578E0D89\",\"\",6,7",
    )
    .unwrap_err();
    assert_eq!(err.rule, DecodeRule::Rssi);
}

#[test]
fn missing_anchor_quote_is_rejected() {
    let err =
        UUDFEvent::from_str("+UUDF:CCF9578E0D8A,-42,20,0,-43,37,CCF9578E0D89,\"\",15869,23")
            .unwrap_err();
    assert_eq!(err.rule, DecodeRule::AnchorId);
}

#[test]
fn missing_sequence_is_rejected() {
    let err = UUDFEvent::from_str("+UUDF:CCF9578E0D8A,-42,20,0,-43,37,\"CCF9578E0D89\",\"\",15869")
        .unwrap_err();
    assert_eq!(err.rule, DecodeRule::Sequence);
}

#[test]
fn heartbeat_without_payload_is_rejected() {
    let err = UUDFPEvent::from_str("+UUDFP:6C3DEBAFAEE4").unwrap_err();
    assert_eq!(err.rule, DecodeRule::Payload);
}

#[test]
fn garbage_line_reports_heartbeat_attempt() {
    let err = HardwareEvent::from_str("hello there").unwrap_err();
    assert_eq!(err.rule, DecodeRule::Prefix);
}
