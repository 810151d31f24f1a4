use cpe_bench::reason::ReasonCode;

const ALL_REASON_CODES: [ReasonCode; 79] = [
    ReasonCode::ActiveStreamsLow,
    ReasonCode::ConfiguredLoadTooLow,
    ReasonCode::CounterStalled,
    ReasonCode::CtsArgsInvalid,
    ReasonCode::CtsCleanupFailed,
    ReasonCode::CtsClientAborted,
    ReasonCode::CtsClientCancelled,
    ReasonCode::CtsClientJobIdMismatch,
    ReasonCode::CtsClientProcessCleanupUnconfirmed,
    ReasonCode::CtsClientProcessNotStarted,
    ReasonCode::CtsClientResultMissing,
    ReasonCode::CtsClientStartFailed,
    ReasonCode::CtsClientStatusFailed,
    ReasonCode::CtsClientStopFailed,
    ReasonCode::CtsClientUserCancelled,
    ReasonCode::CtsClientWaitInvalid,
    ReasonCode::CtsEffectiveWindowShort,
    ReasonCode::CtsMonitorNoSamples,
    ReasonCode::CtsMonitorRuntimeError,
    ReasonCode::CtsMonitorStartFailed,
    ReasonCode::CtsMonitorStopFailed,
    ReasonCode::CtsNoMeasurement,
    ReasonCode::CtsPreflightFailed,
    ReasonCode::CtsProcessControlFailed,
    ReasonCode::CtsProcessStartFailed,
    ReasonCode::CtsRuntimeErrors,
    ReasonCode::CtsServerCancelled,
    ReasonCode::CtsServerFailed,
    ReasonCode::CtsServerProcessCleanupUnconfirmed,
    ReasonCode::CtsServerProcessNotStarted,
    ReasonCode::CtsServerStopFailed,
    ReasonCode::CtsSingleUdpStreamFailed,
    ReasonCode::CtsUdpLossDataMissing,
    ReasonCode::CtsUdpLossHigh,
    ReasonCode::EffectiveWindowShort,
    ReasonCode::FlowFailed,
    ReasonCode::FlowMeasured,
    ReasonCode::GatewayNotFound,
    ReasonCode::IperfEffectiveWindowShort,
    ReasonCode::IperfExecFailed,
    ReasonCode::IperfPreflightFailed,
    ReasonCode::IperfRuntimeErrors,
    ReasonCode::IperfSummaryLost,
    ReasonCode::LegThreadPanic,
    ReasonCode::NicDisappeared,
    ReasonCode::NicRateMissing,
    ReasonCode::NoStreamStarted,
    ReasonCode::NoValidMeasurement,
    ReasonCode::OfferedLoadLow,
    ReasonCode::Pass,
    ReasonCode::PingExecError,
    ReasonCode::PingGatewayUnreachable,
    ReasonCode::PingOk,
    ReasonCode::PingSubnetUnreachable,
    ReasonCode::PingTimeout,
    ReasonCode::PingUnreachable,
    ReasonCode::RateWindowCoverageLow,
    ReasonCode::ResourceCleanupFailed,
    ReasonCode::ResumeFreshPass,
    ReasonCode::RxBelowTarget,
    ReasonCode::RxDropout,
    ReasonCode::RxOutage,
    ReasonCode::RxP10BelowTarget,
    ReasonCode::RxTargetMet,
    ReasonCode::RxUnstable,
    ReasonCode::SampleCoverageLow,
    ReasonCode::SingleUdpStreamFailed,
    ReasonCode::TargetMissing,
    ReasonCode::TargetUnknown,
    ReasonCode::UdpGroupDispatchError,
    ReasonCode::UdpLossDataMissing,
    ReasonCode::UdpLossHigh,
    ReasonCode::CtsInternalNoAttempt,
    ReasonCode::CtsServerExitedEarly,
    ReasonCode::CtsServerJobIdMismatch,
    ReasonCode::CtsServerStartFailed,
    ReasonCode::CtsServerStatusFailed,
    ReasonCode::UnitDirectionResultMissing,
    ReasonCode::UnitPanic,
];

#[test]
fn every_code_round_trips_through_its_string_form() {
    for code in ALL_REASON_CODES {
        let text = code.as_str();
        assert!(!text.is_empty(), "{code:?} 的字符串表示不能为空");
        assert!(
            text.bytes()
                .all(|b| b.is_ascii_uppercase() || b.is_ascii_digit() || b == b'_'),
            "{text} 不是大写下划线形式"
        );
        assert_eq!(text.parse::<ReasonCode>(), Ok(code), "{text} 解不回来");
    }
    assert_eq!("".parse::<ReasonCode>(), Ok(ReasonCode::NoReason));
    assert_eq!("NOT_A_REAL_CODE".parse::<ReasonCode>(), Err(()));
}

#[test]
fn no_two_codes_share_a_string() {
    let mut seen = std::collections::HashSet::new();
    for code in ALL_REASON_CODES {
        assert!(seen.insert(code.as_str()), "{} 重复", code.as_str());
    }
}

#[test]
fn the_code_is_read_from_the_head_of_the_reason_text() {
    assert_eq!(
        ReasonCode::parse_prefix("RX_BELOW_TARGET: RX 平均 808 Mbps < 目标 2000 Mbps"),
        ReasonCode::RxBelowTarget
    );
    // 明细里自带冒号，不能被当成分隔符再切一次。
    assert_eq!(
        ReasonCode::parse_prefix("PING_OK: 丢包率 0.0%，RTT 最小/平均: 1/2 ms"),
        ReasonCode::PingOk
    );
    assert_eq!(ReasonCode::parse_prefix("没有码的一句话"), ReasonCode::NoReason);
    assert_eq!(ReasonCode::parse_prefix(""), ReasonCode::NoReason);
}

#[test]
fn only_the_missing_code_is_empty() {
    assert!(ReasonCode::NoReason.is_empty());
    assert_eq!(ReasonCode::NoReason.as_str(), "");
    for code in ALL_REASON_CODES {
        assert!(!code.is_empty());
        let text = format!("  {} : detail: more", code.as_str());
        assert_eq!(ReasonCode::parse_prefix(&text), code);
        assert_eq!(ReasonCode::parse_prefix(code.as_str()), code);
    }
}

#[test]
fn texts_that_are_no_codes_are_refused() {
    for text in ["pass", "rx_below_target", " RX_BELOW_TARGET", "RX_BELOW_TARGET:", "RX_BELOW"] {
        assert_eq!(text.parse::<ReasonCode>(), Err(()), "{text}");
    }
}
