//! How reason codes are written.
use vstd::prelude::*;
use vstd::string::*;
use crate::reason::{code_at_head, code_in, code_text, lemma_codes_round_trip, ReasonCode};
use crate::text::{cut, trimmed};

verus! {

/// Each code is written in its own words, and read from them.
#[verifier::rlimit(60)]
pub proof fn lemma_codes_have_their_words()
    ensures
        code_text(ReasonCode::NoReason) == ""@,
        code_text(ReasonCode::ActiveStreamsLow) == "ACTIVE_STREAMS_LOW"@,
        code_in("ACTIVE_STREAMS_LOW"@) == Some(ReasonCode::ActiveStreamsLow),
        code_text(ReasonCode::ConfiguredLoadTooLow) == "CONFIGURED_LOAD_TOO_LOW"@,
        code_in("CONFIGURED_LOAD_TOO_LOW"@) == Some(ReasonCode::ConfiguredLoadTooLow),
        code_text(ReasonCode::CounterStalled) == "COUNTER_STALLED"@,
        code_in("COUNTER_STALLED"@) == Some(ReasonCode::CounterStalled),
        code_text(ReasonCode::CtsArgsInvalid) == "CTSTRAFFIC_ARGS_INVALID"@,
        code_in("CTSTRAFFIC_ARGS_INVALID"@) == Some(ReasonCode::CtsArgsInvalid),
        code_text(ReasonCode::CtsCleanupFailed) == "CTSTRAFFIC_CLEANUP_FAILED"@,
        code_in("CTSTRAFFIC_CLEANUP_FAILED"@) == Some(ReasonCode::CtsCleanupFailed),
        code_text(ReasonCode::CtsClientAborted) == "CTSTRAFFIC_CLIENT_ABORTED"@,
        code_in("CTSTRAFFIC_CLIENT_ABORTED"@) == Some(ReasonCode::CtsClientAborted),
        code_text(ReasonCode::CtsClientCancelled) == "CTSTRAFFIC_CLIENT_CANCELLED"@,
        code_in("CTSTRAFFIC_CLIENT_CANCELLED"@) == Some(ReasonCode::CtsClientCancelled),
        code_text(ReasonCode::CtsClientJobIdMismatch) == "CTSTRAFFIC_CLIENT_JOB_ID_MISMATCH"@,
        code_in("CTSTRAFFIC_CLIENT_JOB_ID_MISMATCH"@) == Some(ReasonCode::CtsClientJobIdMismatch),
        code_text(ReasonCode::CtsClientProcessCleanupUnconfirmed) == "CTSTRAFFIC_CLIENT_PROCESS_CLEANUP_UNCONFIRMED"@,
        code_in("CTSTRAFFIC_CLIENT_PROCESS_CLEANUP_UNCONFIRMED"@) == Some(ReasonCode::CtsClientProcessCleanupUnconfirmed),
        code_text(ReasonCode::CtsClientProcessNotStarted) == "CTSTRAFFIC_CLIENT_PROCESS_NOT_STARTED"@,
        code_in("CTSTRAFFIC_CLIENT_PROCESS_NOT_STARTED"@) == Some(ReasonCode::CtsClientProcessNotStarted),
        code_text(ReasonCode::CtsClientResultMissing) == "CTSTRAFFIC_CLIENT_RESULT_MISSING"@,
        code_in("CTSTRAFFIC_CLIENT_RESULT_MISSING"@) == Some(ReasonCode::CtsClientResultMissing),
        code_text(ReasonCode::CtsClientStartFailed) == "CTSTRAFFIC_CLIENT_START_FAILED"@,
        code_in("CTSTRAFFIC_CLIENT_START_FAILED"@) == Some(ReasonCode::CtsClientStartFailed),
        code_text(ReasonCode::CtsClientStatusFailed) == "CTSTRAFFIC_CLIENT_STATUS_FAILED"@,
        code_in("CTSTRAFFIC_CLIENT_STATUS_FAILED"@) == Some(ReasonCode::CtsClientStatusFailed),
        code_text(ReasonCode::CtsClientStopFailed) == "CTSTRAFFIC_CLIENT_STOP_FAILED"@,
        code_in("CTSTRAFFIC_CLIENT_STOP_FAILED"@) == Some(ReasonCode::CtsClientStopFailed),
        code_text(ReasonCode::CtsClientUserCancelled) == "CTSTRAFFIC_CLIENT_USER_CANCELLED"@,
        code_in("CTSTRAFFIC_CLIENT_USER_CANCELLED"@) == Some(ReasonCode::CtsClientUserCancelled),
        code_text(ReasonCode::CtsClientWaitInvalid) == "CTSTRAFFIC_CLIENT_WAIT_INVALID"@,
        code_in("CTSTRAFFIC_CLIENT_WAIT_INVALID"@) == Some(ReasonCode::CtsClientWaitInvalid),
        code_text(ReasonCode::CtsEffectiveWindowShort) == "CTSTRAFFIC_EFFECTIVE_WINDOW_SHORT"@,
        code_in("CTSTRAFFIC_EFFECTIVE_WINDOW_SHORT"@) == Some(ReasonCode::CtsEffectiveWindowShort),
        code_text(ReasonCode::CtsMonitorNoSamples) == "CTSTRAFFIC_MONITOR_NO_SAMPLES"@,
        code_in("CTSTRAFFIC_MONITOR_NO_SAMPLES"@) == Some(ReasonCode::CtsMonitorNoSamples),
        code_text(ReasonCode::CtsMonitorRuntimeError) == "CTSTRAFFIC_MONITOR_RUNTIME_ERROR"@,
        code_in("CTSTRAFFIC_MONITOR_RUNTIME_ERROR"@) == Some(ReasonCode::CtsMonitorRuntimeError),
        code_text(ReasonCode::CtsMonitorStartFailed) == "CTSTRAFFIC_MONITOR_START_FAILED"@,
        code_in("CTSTRAFFIC_MONITOR_START_FAILED"@) == Some(ReasonCode::CtsMonitorStartFailed),
        code_text(ReasonCode::CtsMonitorStopFailed) == "CTSTRAFFIC_MONITOR_STOP_FAILED"@,
        code_in("CTSTRAFFIC_MONITOR_STOP_FAILED"@) == Some(ReasonCode::CtsMonitorStopFailed),
        code_text(ReasonCode::CtsNoMeasurement) == "CTSTRAFFIC_NO_MEASUREMENT"@,
        code_in("CTSTRAFFIC_NO_MEASUREMENT"@) == Some(ReasonCode::CtsNoMeasurement),
        code_text(ReasonCode::CtsPreflightFailed) == "CTSTRAFFIC_PREFLIGHT_FAILED"@,
        code_in("CTSTRAFFIC_PREFLIGHT_FAILED"@) == Some(ReasonCode::CtsPreflightFailed),
        code_text(ReasonCode::CtsProcessControlFailed) == "CTSTRAFFIC_PROCESS_CONTROL_FAILED"@,
        code_in("CTSTRAFFIC_PROCESS_CONTROL_FAILED"@) == Some(ReasonCode::CtsProcessControlFailed),
        code_text(ReasonCode::CtsProcessStartFailed) == "CTSTRAFFIC_PROCESS_START_FAILED"@,
        code_in("CTSTRAFFIC_PROCESS_START_FAILED"@) == Some(ReasonCode::CtsProcessStartFailed),
        code_text(ReasonCode::CtsRuntimeErrors) == "CTSTRAFFIC_RUNTIME_ERRORS"@,
        code_in("CTSTRAFFIC_RUNTIME_ERRORS"@) == Some(ReasonCode::CtsRuntimeErrors),
        code_text(ReasonCode::CtsServerCancelled) == "CTSTRAFFIC_SERVER_CANCELLED"@,
        code_in("CTSTRAFFIC_SERVER_CANCELLED"@) == Some(ReasonCode::CtsServerCancelled),
        code_text(ReasonCode::CtsServerFailed) == "CTSTRAFFIC_SERVER_FAILED"@,
        code_in("CTSTRAFFIC_SERVER_FAILED"@) == Some(ReasonCode::CtsServerFailed),
        code_text(ReasonCode::CtsServerProcessCleanupUnconfirmed) == "CTSTRAFFIC_SERVER_PROCESS_CLEANUP_UNCONFIRMED"@,
        code_in("CTSTRAFFIC_SERVER_PROCESS_CLEANUP_UNCONFIRMED"@) == Some(ReasonCode::CtsServerProcessCleanupUnconfirmed),
        code_text(ReasonCode::CtsServerProcessNotStarted) == "CTSTRAFFIC_SERVER_PROCESS_NOT_STARTED"@,
        code_in("CTSTRAFFIC_SERVER_PROCESS_NOT_STARTED"@) == Some(ReasonCode::CtsServerProcessNotStarted),
        code_text(ReasonCode::CtsServerStopFailed) == "CTSTRAFFIC_SERVER_STOP_FAILED"@,
        code_in("CTSTRAFFIC_SERVER_STOP_FAILED"@) == Some(ReasonCode::CtsServerStopFailed),
        code_text(ReasonCode::CtsSingleUdpStreamFailed) == "CTSTRAFFIC_SINGLE_UDP_STREAM_FAILED"@,
        code_in("CTSTRAFFIC_SINGLE_UDP_STREAM_FAILED"@) == Some(ReasonCode::CtsSingleUdpStreamFailed),
        code_text(ReasonCode::CtsUdpLossDataMissing) == "CTSTRAFFIC_UDP_LOSS_DATA_MISSING"@,
        code_in("CTSTRAFFIC_UDP_LOSS_DATA_MISSING"@) == Some(ReasonCode::CtsUdpLossDataMissing),
        code_text(ReasonCode::CtsUdpLossHigh) == "CTSTRAFFIC_UDP_LOSS_HIGH"@,
        code_in("CTSTRAFFIC_UDP_LOSS_HIGH"@) == Some(ReasonCode::CtsUdpLossHigh),
        code_text(ReasonCode::EffectiveWindowShort) == "EFFECTIVE_WINDOW_SHORT"@,
        code_in("EFFECTIVE_WINDOW_SHORT"@) == Some(ReasonCode::EffectiveWindowShort),
        code_text(ReasonCode::FlowFailed) == "FLOW_FAILED"@,
        code_in("FLOW_FAILED"@) == Some(ReasonCode::FlowFailed),
        code_text(ReasonCode::FlowMeasured) == "FLOW_MEASURED"@,
        code_in("FLOW_MEASURED"@) == Some(ReasonCode::FlowMeasured),
        code_text(ReasonCode::GatewayNotFound) == "GATEWAY_NOT_FOUND"@,
        code_in("GATEWAY_NOT_FOUND"@) == Some(ReasonCode::GatewayNotFound),
        code_text(ReasonCode::IperfEffectiveWindowShort) == "IPERF_EFFECTIVE_WINDOW_SHORT"@,
        code_in("IPERF_EFFECTIVE_WINDOW_SHORT"@) == Some(ReasonCode::IperfEffectiveWindowShort),
        code_text(ReasonCode::IperfExecFailed) == "IPERF_EXEC_FAILED"@,
        code_in("IPERF_EXEC_FAILED"@) == Some(ReasonCode::IperfExecFailed),
        code_text(ReasonCode::IperfPreflightFailed) == "IPERF_PREFLIGHT_FAILED"@,
        code_in("IPERF_PREFLIGHT_FAILED"@) == Some(ReasonCode::IperfPreflightFailed),
        code_text(ReasonCode::IperfRuntimeErrors) == "IPERF_RUNTIME_ERRORS"@,
        code_in("IPERF_RUNTIME_ERRORS"@) == Some(ReasonCode::IperfRuntimeErrors),
        code_text(ReasonCode::IperfSummaryLost) == "IPERF_SUMMARY_LOST"@,
        code_in("IPERF_SUMMARY_LOST"@) == Some(ReasonCode::IperfSummaryLost),
        code_text(ReasonCode::LegThreadPanic) == "LEG_THREAD_PANIC"@,
        code_in("LEG_THREAD_PANIC"@) == Some(ReasonCode::LegThreadPanic),
        code_text(ReasonCode::NicDisappeared) == "NIC_DISAPPEARED"@,
        code_in("NIC_DISAPPEARED"@) == Some(ReasonCode::NicDisappeared),
        code_text(ReasonCode::NicRateMissing) == "NIC_RATE_MISSING"@,
        code_in("NIC_RATE_MISSING"@) == Some(ReasonCode::NicRateMissing),
        code_text(ReasonCode::NoStreamStarted) == "NO_STREAM_STARTED"@,
        code_in("NO_STREAM_STARTED"@) == Some(ReasonCode::NoStreamStarted),
        code_text(ReasonCode::NoValidMeasurement) == "NO_VALID_MEASUREMENT"@,
        code_in("NO_VALID_MEASUREMENT"@) == Some(ReasonCode::NoValidMeasurement),
        code_text(ReasonCode::OfferedLoadLow) == "OFFERED_LOAD_LOW"@,
        code_in("OFFERED_LOAD_LOW"@) == Some(ReasonCode::OfferedLoadLow),
        code_text(ReasonCode::Pass) == "PASS"@,
        code_in("PASS"@) == Some(ReasonCode::Pass),
        code_text(ReasonCode::PingExecError) == "PING_EXEC_ERROR"@,
        code_in("PING_EXEC_ERROR"@) == Some(ReasonCode::PingExecError),
        code_text(ReasonCode::PingGatewayUnreachable) == "PING_GATEWAY_UNREACHABLE"@,
        code_in("PING_GATEWAY_UNREACHABLE"@) == Some(ReasonCode::PingGatewayUnreachable),
        code_text(ReasonCode::PingOk) == "PING_OK"@,
        code_in("PING_OK"@) == Some(ReasonCode::PingOk),
        code_text(ReasonCode::PingSubnetUnreachable) == "PING_SUBNET_UNREACHABLE"@,
        code_in("PING_SUBNET_UNREACHABLE"@) == Some(ReasonCode::PingSubnetUnreachable),
        code_text(ReasonCode::PingTimeout) == "PING_TIMEOUT"@,
        code_in("PING_TIMEOUT"@) == Some(ReasonCode::PingTimeout),
        code_text(ReasonCode::PingUnreachable) == "PING_UNREACHABLE"@,
        code_in("PING_UNREACHABLE"@) == Some(ReasonCode::PingUnreachable),
        code_text(ReasonCode::RateWindowCoverageLow) == "RATE_WINDOW_COVERAGE_LOW"@,
        code_in("RATE_WINDOW_COVERAGE_LOW"@) == Some(ReasonCode::RateWindowCoverageLow),
        code_text(ReasonCode::ResourceCleanupFailed) == "RESOURCE_CLEANUP_FAILED"@,
        code_in("RESOURCE_CLEANUP_FAILED"@) == Some(ReasonCode::ResourceCleanupFailed),
        code_text(ReasonCode::ResumeFreshPass) == "RESUME_FRESH_PASS"@,
        code_in("RESUME_FRESH_PASS"@) == Some(ReasonCode::ResumeFreshPass),
        code_text(ReasonCode::RxBelowTarget) == "RX_BELOW_TARGET"@,
        code_in("RX_BELOW_TARGET"@) == Some(ReasonCode::RxBelowTarget),
        code_text(ReasonCode::RxDropout) == "RX_DROPOUT"@,
        code_in("RX_DROPOUT"@) == Some(ReasonCode::RxDropout),
        code_text(ReasonCode::RxOutage) == "RX_OUTAGE"@,
        code_in("RX_OUTAGE"@) == Some(ReasonCode::RxOutage),
        code_text(ReasonCode::RxP10BelowTarget) == "RX_P10_BELOW_TARGET"@,
        code_in("RX_P10_BELOW_TARGET"@) == Some(ReasonCode::RxP10BelowTarget),
        code_text(ReasonCode::RxTargetMet) == "RX_TARGET_MET"@,
        code_in("RX_TARGET_MET"@) == Some(ReasonCode::RxTargetMet),
        code_text(ReasonCode::RxUnstable) == "RX_UNSTABLE"@,
        code_in("RX_UNSTABLE"@) == Some(ReasonCode::RxUnstable),
        code_text(ReasonCode::SampleCoverageLow) == "SAMPLE_COVERAGE_LOW"@,
        code_in("SAMPLE_COVERAGE_LOW"@) == Some(ReasonCode::SampleCoverageLow),
        code_text(ReasonCode::SingleUdpStreamFailed) == "SINGLE_UDP_STREAM_FAILED"@,
        code_in("SINGLE_UDP_STREAM_FAILED"@) == Some(ReasonCode::SingleUdpStreamFailed),
        code_text(ReasonCode::TargetMissing) == "TARGET_MISSING"@,
        code_in("TARGET_MISSING"@) == Some(ReasonCode::TargetMissing),
        code_text(ReasonCode::TargetUnknown) == "TARGET_UNKNOWN"@,
        code_in("TARGET_UNKNOWN"@) == Some(ReasonCode::TargetUnknown),
        code_text(ReasonCode::UdpGroupDispatchError) == "UDP_GROUP_DISPATCH_ERROR"@,
        code_in("UDP_GROUP_DISPATCH_ERROR"@) == Some(ReasonCode::UdpGroupDispatchError),
        code_text(ReasonCode::UdpLossDataMissing) == "UDP_LOSS_DATA_MISSING"@,
        code_in("UDP_LOSS_DATA_MISSING"@) == Some(ReasonCode::UdpLossDataMissing),
        code_text(ReasonCode::UdpLossHigh) == "UDP_LOSS_HIGH"@,
        code_in("UDP_LOSS_HIGH"@) == Some(ReasonCode::UdpLossHigh),
        code_text(ReasonCode::CtsInternalNoAttempt) == "CTSTRAFFIC_INTERNAL_NO_ATTEMPT"@,
        code_in("CTSTRAFFIC_INTERNAL_NO_ATTEMPT"@) == Some(ReasonCode::CtsInternalNoAttempt),
        code_text(ReasonCode::CtsServerExitedEarly) == "CTSTRAFFIC_SERVER_EXITED_EARLY"@,
        code_in("CTSTRAFFIC_SERVER_EXITED_EARLY"@) == Some(ReasonCode::CtsServerExitedEarly),
        code_text(ReasonCode::CtsServerJobIdMismatch) == "CTSTRAFFIC_SERVER_JOB_ID_MISMATCH"@,
        code_in("CTSTRAFFIC_SERVER_JOB_ID_MISMATCH"@) == Some(ReasonCode::CtsServerJobIdMismatch),
        code_text(ReasonCode::CtsServerStartFailed) == "CTSTRAFFIC_SERVER_START_FAILED"@,
        code_in("CTSTRAFFIC_SERVER_START_FAILED"@) == Some(ReasonCode::CtsServerStartFailed),
        code_text(ReasonCode::CtsServerStatusFailed) == "CTSTRAFFIC_SERVER_STATUS_FAILED"@,
        code_in("CTSTRAFFIC_SERVER_STATUS_FAILED"@) == Some(ReasonCode::CtsServerStatusFailed),
        code_text(ReasonCode::UnitDirectionResultMissing) == "UNIT_DIRECTION_RESULT_MISSING"@,
        code_in("UNIT_DIRECTION_RESULT_MISSING"@) == Some(ReasonCode::UnitDirectionResultMissing),
        code_text(ReasonCode::UnitPanic) == "UNIT_PANIC"@,
        code_in("UNIT_PANIC"@) == Some(ReasonCode::UnitPanic),
{
    lemma_codes_round_trip(ReasonCode::ActiveStreamsLow);
    lemma_codes_round_trip(ReasonCode::ConfiguredLoadTooLow);
    lemma_codes_round_trip(ReasonCode::CounterStalled);
    lemma_codes_round_trip(ReasonCode::CtsArgsInvalid);
    lemma_codes_round_trip(ReasonCode::CtsCleanupFailed);
    lemma_codes_round_trip(ReasonCode::CtsClientAborted);
    lemma_codes_round_trip(ReasonCode::CtsClientCancelled);
    lemma_codes_round_trip(ReasonCode::CtsClientJobIdMismatch);
    lemma_codes_round_trip(ReasonCode::CtsClientProcessCleanupUnconfirmed);
    lemma_codes_round_trip(ReasonCode::CtsClientProcessNotStarted);
    lemma_codes_round_trip(ReasonCode::CtsClientResultMissing);
    lemma_codes_round_trip(ReasonCode::CtsClientStartFailed);
    lemma_codes_round_trip(ReasonCode::CtsClientStatusFailed);
    lemma_codes_round_trip(ReasonCode::CtsClientStopFailed);
    lemma_codes_round_trip(ReasonCode::CtsClientUserCancelled);
    lemma_codes_round_trip(ReasonCode::CtsClientWaitInvalid);
    lemma_codes_round_trip(ReasonCode::CtsEffectiveWindowShort);
    lemma_codes_round_trip(ReasonCode::CtsMonitorNoSamples);
    lemma_codes_round_trip(ReasonCode::CtsMonitorRuntimeError);
    lemma_codes_round_trip(ReasonCode::CtsMonitorStartFailed);
    lemma_codes_round_trip(ReasonCode::CtsMonitorStopFailed);
    lemma_codes_round_trip(ReasonCode::CtsNoMeasurement);
    lemma_codes_round_trip(ReasonCode::CtsPreflightFailed);
    lemma_codes_round_trip(ReasonCode::CtsProcessControlFailed);
    lemma_codes_round_trip(ReasonCode::CtsProcessStartFailed);
    lemma_codes_round_trip(ReasonCode::CtsRuntimeErrors);
    lemma_codes_round_trip(ReasonCode::CtsServerCancelled);
    lemma_codes_round_trip(ReasonCode::CtsServerFailed);
    lemma_codes_round_trip(ReasonCode::CtsServerProcessCleanupUnconfirmed);
    lemma_codes_round_trip(ReasonCode::CtsServerProcessNotStarted);
    lemma_codes_round_trip(ReasonCode::CtsServerStopFailed);
    lemma_codes_round_trip(ReasonCode::CtsSingleUdpStreamFailed);
    lemma_codes_round_trip(ReasonCode::CtsUdpLossDataMissing);
    lemma_codes_round_trip(ReasonCode::CtsUdpLossHigh);
    lemma_codes_round_trip(ReasonCode::EffectiveWindowShort);
    lemma_codes_round_trip(ReasonCode::FlowFailed);
    lemma_codes_round_trip(ReasonCode::FlowMeasured);
    lemma_codes_round_trip(ReasonCode::GatewayNotFound);
    lemma_codes_round_trip(ReasonCode::IperfEffectiveWindowShort);
    lemma_codes_round_trip(ReasonCode::IperfExecFailed);
    lemma_codes_round_trip(ReasonCode::IperfPreflightFailed);
    lemma_codes_round_trip(ReasonCode::IperfRuntimeErrors);
    lemma_codes_round_trip(ReasonCode::IperfSummaryLost);
    lemma_codes_round_trip(ReasonCode::LegThreadPanic);
    lemma_codes_round_trip(ReasonCode::NicDisappeared);
    lemma_codes_round_trip(ReasonCode::NicRateMissing);
    lemma_codes_round_trip(ReasonCode::NoStreamStarted);
    lemma_codes_round_trip(ReasonCode::NoValidMeasurement);
    lemma_codes_round_trip(ReasonCode::OfferedLoadLow);
    lemma_codes_round_trip(ReasonCode::Pass);
    lemma_codes_round_trip(ReasonCode::PingExecError);
    lemma_codes_round_trip(ReasonCode::PingGatewayUnreachable);
    lemma_codes_round_trip(ReasonCode::PingOk);
    lemma_codes_round_trip(ReasonCode::PingSubnetUnreachable);
    lemma_codes_round_trip(ReasonCode::PingTimeout);
    lemma_codes_round_trip(ReasonCode::PingUnreachable);
    lemma_codes_round_trip(ReasonCode::RateWindowCoverageLow);
    lemma_codes_round_trip(ReasonCode::ResourceCleanupFailed);
    lemma_codes_round_trip(ReasonCode::ResumeFreshPass);
    lemma_codes_round_trip(ReasonCode::RxBelowTarget);
    lemma_codes_round_trip(ReasonCode::RxDropout);
    lemma_codes_round_trip(ReasonCode::RxOutage);
    lemma_codes_round_trip(ReasonCode::RxP10BelowTarget);
    lemma_codes_round_trip(ReasonCode::RxTargetMet);
    lemma_codes_round_trip(ReasonCode::RxUnstable);
    lemma_codes_round_trip(ReasonCode::SampleCoverageLow);
    lemma_codes_round_trip(ReasonCode::SingleUdpStreamFailed);
    lemma_codes_round_trip(ReasonCode::TargetMissing);
    lemma_codes_round_trip(ReasonCode::TargetUnknown);
    lemma_codes_round_trip(ReasonCode::UdpGroupDispatchError);
    lemma_codes_round_trip(ReasonCode::UdpLossDataMissing);
    lemma_codes_round_trip(ReasonCode::UdpLossHigh);
    lemma_codes_round_trip(ReasonCode::CtsInternalNoAttempt);
    lemma_codes_round_trip(ReasonCode::CtsServerExitedEarly);
    lemma_codes_round_trip(ReasonCode::CtsServerJobIdMismatch);
    lemma_codes_round_trip(ReasonCode::CtsServerStartFailed);
    lemma_codes_round_trip(ReasonCode::CtsServerStatusFailed);
    lemma_codes_round_trip(ReasonCode::UnitDirectionResultMissing);
    lemma_codes_round_trip(ReasonCode::UnitPanic);
}

/// A reason starts with its code, up to the first colon; one that starts with no code has none.
pub proof fn lemma_code_stands_before_the_colon(reason: Seq<char>, code: ReasonCode)
    ensures
        cut(reason, ':') matches Some((head, _)) ==> (code_in(trimmed(head)) == Some(code)
            ==> code_at_head(reason) == code),
        cut(reason, ':') matches Some((head, _)) ==> (code_in(trimmed(head)) is None
            ==> code_at_head(reason) == ReasonCode::NoReason),
        cut(reason, ':') is None && code_in(trimmed(reason)) == Some(code) ==> code_at_head(reason)
            == code,
        cut(reason, ':') is None && code_in(trimmed(reason)) is None ==> code_at_head(reason)
            == ReasonCode::NoReason,
{
}

} // verus!
