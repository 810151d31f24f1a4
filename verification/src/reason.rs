//! Reason codes: the words by which a verdict says why.
use vstd::prelude::*;
use vstd::string::*;
use crate::text::{
    cut, find_char, lemma_find_char, lemma_trimmed_fixed, same, split_once, trim, trimmed,
};

verus! {

/// Why a verdict is what it is.
#[derive(Clone, Copy, Debug, Default, Hash, PartialEq, Eq, Structural)]
pub enum ReasonCode {
    /// No reason is given.
    #[default]
    NoReason,
    ActiveStreamsLow,
    ConfiguredLoadTooLow,
    CounterStalled,
    CtsArgsInvalid,
    CtsCleanupFailed,
    CtsClientAborted,
    CtsClientCancelled,
    CtsClientJobIdMismatch,
    CtsClientProcessCleanupUnconfirmed,
    CtsClientProcessNotStarted,
    CtsClientResultMissing,
    CtsClientStartFailed,
    CtsClientStatusFailed,
    CtsClientStopFailed,
    CtsClientUserCancelled,
    CtsClientWaitInvalid,
    CtsEffectiveWindowShort,
    CtsMonitorNoSamples,
    CtsMonitorRuntimeError,
    CtsMonitorStartFailed,
    CtsMonitorStopFailed,
    CtsNoMeasurement,
    CtsPreflightFailed,
    CtsProcessControlFailed,
    CtsProcessStartFailed,
    CtsRuntimeErrors,
    CtsServerCancelled,
    CtsServerFailed,
    CtsServerProcessCleanupUnconfirmed,
    CtsServerProcessNotStarted,
    CtsServerStopFailed,
    CtsSingleUdpStreamFailed,
    CtsUdpLossDataMissing,
    CtsUdpLossHigh,
    EffectiveWindowShort,
    FlowFailed,
    FlowMeasured,
    GatewayNotFound,
    IperfEffectiveWindowShort,
    IperfExecFailed,
    IperfPreflightFailed,
    IperfRuntimeErrors,
    IperfSummaryLost,
    LegThreadPanic,
    NicDisappeared,
    NicRateMissing,
    NoStreamStarted,
    NoValidMeasurement,
    OfferedLoadLow,
    Pass,
    PingExecError,
    PingGatewayUnreachable,
    PingOk,
    PingSubnetUnreachable,
    PingTimeout,
    PingUnreachable,
    RateWindowCoverageLow,
    ResourceCleanupFailed,
    ResumeFreshPass,
    RxBelowTarget,
    RxDropout,
    RxOutage,
    RxP10BelowTarget,
    RxTargetMet,
    RxUnstable,
    SampleCoverageLow,
    SingleUdpStreamFailed,
    TargetMissing,
    TargetUnknown,
    UdpGroupDispatchError,
    UdpLossDataMissing,
    UdpLossHigh,
    CtsInternalNoAttempt,
    CtsServerExitedEarly,
    CtsServerJobIdMismatch,
    CtsServerStartFailed,
    CtsServerStatusFailed,
    UnitDirectionResultMissing,
    UnitPanic,
}

/// The text of a code in reports: capitals, digits and underscores. No reason has the empty text.
pub open spec fn code_text(code: ReasonCode) -> Seq<char> {
    match code {
        ReasonCode::NoReason => ""@,
        ReasonCode::ActiveStreamsLow => "ACTIVE_STREAMS_LOW"@,
        ReasonCode::ConfiguredLoadTooLow => "CONFIGURED_LOAD_TOO_LOW"@,
        ReasonCode::CounterStalled => "COUNTER_STALLED"@,
        ReasonCode::CtsArgsInvalid => "CTSTRAFFIC_ARGS_INVALID"@,
        ReasonCode::CtsCleanupFailed => "CTSTRAFFIC_CLEANUP_FAILED"@,
        ReasonCode::CtsClientAborted => "CTSTRAFFIC_CLIENT_ABORTED"@,
        ReasonCode::CtsClientCancelled => "CTSTRAFFIC_CLIENT_CANCELLED"@,
        ReasonCode::CtsClientJobIdMismatch => "CTSTRAFFIC_CLIENT_JOB_ID_MISMATCH"@,
        ReasonCode::CtsClientProcessCleanupUnconfirmed => "CTSTRAFFIC_CLIENT_PROCESS_CLEANUP_UNCONFIRMED"@,
        ReasonCode::CtsClientProcessNotStarted => "CTSTRAFFIC_CLIENT_PROCESS_NOT_STARTED"@,
        ReasonCode::CtsClientResultMissing => "CTSTRAFFIC_CLIENT_RESULT_MISSING"@,
        ReasonCode::CtsClientStartFailed => "CTSTRAFFIC_CLIENT_START_FAILED"@,
        ReasonCode::CtsClientStatusFailed => "CTSTRAFFIC_CLIENT_STATUS_FAILED"@,
        ReasonCode::CtsClientStopFailed => "CTSTRAFFIC_CLIENT_STOP_FAILED"@,
        ReasonCode::CtsClientUserCancelled => "CTSTRAFFIC_CLIENT_USER_CANCELLED"@,
        ReasonCode::CtsClientWaitInvalid => "CTSTRAFFIC_CLIENT_WAIT_INVALID"@,
        ReasonCode::CtsEffectiveWindowShort => "CTSTRAFFIC_EFFECTIVE_WINDOW_SHORT"@,
        ReasonCode::CtsMonitorNoSamples => "CTSTRAFFIC_MONITOR_NO_SAMPLES"@,
        ReasonCode::CtsMonitorRuntimeError => "CTSTRAFFIC_MONITOR_RUNTIME_ERROR"@,
        ReasonCode::CtsMonitorStartFailed => "CTSTRAFFIC_MONITOR_START_FAILED"@,
        ReasonCode::CtsMonitorStopFailed => "CTSTRAFFIC_MONITOR_STOP_FAILED"@,
        ReasonCode::CtsNoMeasurement => "CTSTRAFFIC_NO_MEASUREMENT"@,
        ReasonCode::CtsPreflightFailed => "CTSTRAFFIC_PREFLIGHT_FAILED"@,
        ReasonCode::CtsProcessControlFailed => "CTSTRAFFIC_PROCESS_CONTROL_FAILED"@,
        ReasonCode::CtsProcessStartFailed => "CTSTRAFFIC_PROCESS_START_FAILED"@,
        ReasonCode::CtsRuntimeErrors => "CTSTRAFFIC_RUNTIME_ERRORS"@,
        ReasonCode::CtsServerCancelled => "CTSTRAFFIC_SERVER_CANCELLED"@,
        ReasonCode::CtsServerFailed => "CTSTRAFFIC_SERVER_FAILED"@,
        ReasonCode::CtsServerProcessCleanupUnconfirmed => "CTSTRAFFIC_SERVER_PROCESS_CLEANUP_UNCONFIRMED"@,
        ReasonCode::CtsServerProcessNotStarted => "CTSTRAFFIC_SERVER_PROCESS_NOT_STARTED"@,
        ReasonCode::CtsServerStopFailed => "CTSTRAFFIC_SERVER_STOP_FAILED"@,
        ReasonCode::CtsSingleUdpStreamFailed => "CTSTRAFFIC_SINGLE_UDP_STREAM_FAILED"@,
        ReasonCode::CtsUdpLossDataMissing => "CTSTRAFFIC_UDP_LOSS_DATA_MISSING"@,
        ReasonCode::CtsUdpLossHigh => "CTSTRAFFIC_UDP_LOSS_HIGH"@,
        ReasonCode::EffectiveWindowShort => "EFFECTIVE_WINDOW_SHORT"@,
        ReasonCode::FlowFailed => "FLOW_FAILED"@,
        ReasonCode::FlowMeasured => "FLOW_MEASURED"@,
        ReasonCode::GatewayNotFound => "GATEWAY_NOT_FOUND"@,
        ReasonCode::IperfEffectiveWindowShort => "IPERF_EFFECTIVE_WINDOW_SHORT"@,
        ReasonCode::IperfExecFailed => "IPERF_EXEC_FAILED"@,
        ReasonCode::IperfPreflightFailed => "IPERF_PREFLIGHT_FAILED"@,
        ReasonCode::IperfRuntimeErrors => "IPERF_RUNTIME_ERRORS"@,
        ReasonCode::IperfSummaryLost => "IPERF_SUMMARY_LOST"@,
        ReasonCode::LegThreadPanic => "LEG_THREAD_PANIC"@,
        ReasonCode::NicDisappeared => "NIC_DISAPPEARED"@,
        ReasonCode::NicRateMissing => "NIC_RATE_MISSING"@,
        ReasonCode::NoStreamStarted => "NO_STREAM_STARTED"@,
        ReasonCode::NoValidMeasurement => "NO_VALID_MEASUREMENT"@,
        ReasonCode::OfferedLoadLow => "OFFERED_LOAD_LOW"@,
        ReasonCode::Pass => "PASS"@,
        ReasonCode::PingExecError => "PING_EXEC_ERROR"@,
        ReasonCode::PingGatewayUnreachable => "PING_GATEWAY_UNREACHABLE"@,
        ReasonCode::PingOk => "PING_OK"@,
        ReasonCode::PingSubnetUnreachable => "PING_SUBNET_UNREACHABLE"@,
        ReasonCode::PingTimeout => "PING_TIMEOUT"@,
        ReasonCode::PingUnreachable => "PING_UNREACHABLE"@,
        ReasonCode::RateWindowCoverageLow => "RATE_WINDOW_COVERAGE_LOW"@,
        ReasonCode::ResourceCleanupFailed => "RESOURCE_CLEANUP_FAILED"@,
        ReasonCode::ResumeFreshPass => "RESUME_FRESH_PASS"@,
        ReasonCode::RxBelowTarget => "RX_BELOW_TARGET"@,
        ReasonCode::RxDropout => "RX_DROPOUT"@,
        ReasonCode::RxOutage => "RX_OUTAGE"@,
        ReasonCode::RxP10BelowTarget => "RX_P10_BELOW_TARGET"@,
        ReasonCode::RxTargetMet => "RX_TARGET_MET"@,
        ReasonCode::RxUnstable => "RX_UNSTABLE"@,
        ReasonCode::SampleCoverageLow => "SAMPLE_COVERAGE_LOW"@,
        ReasonCode::SingleUdpStreamFailed => "SINGLE_UDP_STREAM_FAILED"@,
        ReasonCode::TargetMissing => "TARGET_MISSING"@,
        ReasonCode::TargetUnknown => "TARGET_UNKNOWN"@,
        ReasonCode::UdpGroupDispatchError => "UDP_GROUP_DISPATCH_ERROR"@,
        ReasonCode::UdpLossDataMissing => "UDP_LOSS_DATA_MISSING"@,
        ReasonCode::UdpLossHigh => "UDP_LOSS_HIGH"@,
        ReasonCode::CtsInternalNoAttempt => "CTSTRAFFIC_INTERNAL_NO_ATTEMPT"@,
        ReasonCode::CtsServerExitedEarly => "CTSTRAFFIC_SERVER_EXITED_EARLY"@,
        ReasonCode::CtsServerJobIdMismatch => "CTSTRAFFIC_SERVER_JOB_ID_MISMATCH"@,
        ReasonCode::CtsServerStartFailed => "CTSTRAFFIC_SERVER_START_FAILED"@,
        ReasonCode::CtsServerStatusFailed => "CTSTRAFFIC_SERVER_STATUS_FAILED"@,
        ReasonCode::UnitDirectionResultMissing => "UNIT_DIRECTION_RESULT_MISSING"@,
        ReasonCode::UnitPanic => "UNIT_PANIC"@,
    }
}

/// The code that a text is, where it is one.
pub open spec fn code_in(s: Seq<char>) -> Option<ReasonCode> {
    if s == ""@ {
        Some(ReasonCode::NoReason)
    } else if s == "ACTIVE_STREAMS_LOW"@ {
        Some(ReasonCode::ActiveStreamsLow)
    } else if s == "CONFIGURED_LOAD_TOO_LOW"@ {
        Some(ReasonCode::ConfiguredLoadTooLow)
    } else if s == "COUNTER_STALLED"@ {
        Some(ReasonCode::CounterStalled)
    } else if s == "CTSTRAFFIC_ARGS_INVALID"@ {
        Some(ReasonCode::CtsArgsInvalid)
    } else if s == "CTSTRAFFIC_CLEANUP_FAILED"@ {
        Some(ReasonCode::CtsCleanupFailed)
    } else if s == "CTSTRAFFIC_CLIENT_ABORTED"@ {
        Some(ReasonCode::CtsClientAborted)
    } else if s == "CTSTRAFFIC_CLIENT_CANCELLED"@ {
        Some(ReasonCode::CtsClientCancelled)
    } else if s == "CTSTRAFFIC_CLIENT_JOB_ID_MISMATCH"@ {
        Some(ReasonCode::CtsClientJobIdMismatch)
    } else if s == "CTSTRAFFIC_CLIENT_PROCESS_CLEANUP_UNCONFIRMED"@ {
        Some(ReasonCode::CtsClientProcessCleanupUnconfirmed)
    } else if s == "CTSTRAFFIC_CLIENT_PROCESS_NOT_STARTED"@ {
        Some(ReasonCode::CtsClientProcessNotStarted)
    } else if s == "CTSTRAFFIC_CLIENT_RESULT_MISSING"@ {
        Some(ReasonCode::CtsClientResultMissing)
    } else if s == "CTSTRAFFIC_CLIENT_START_FAILED"@ {
        Some(ReasonCode::CtsClientStartFailed)
    } else if s == "CTSTRAFFIC_CLIENT_STATUS_FAILED"@ {
        Some(ReasonCode::CtsClientStatusFailed)
    } else if s == "CTSTRAFFIC_CLIENT_STOP_FAILED"@ {
        Some(ReasonCode::CtsClientStopFailed)
    } else if s == "CTSTRAFFIC_CLIENT_USER_CANCELLED"@ {
        Some(ReasonCode::CtsClientUserCancelled)
    } else if s == "CTSTRAFFIC_CLIENT_WAIT_INVALID"@ {
        Some(ReasonCode::CtsClientWaitInvalid)
    } else if s == "CTSTRAFFIC_EFFECTIVE_WINDOW_SHORT"@ {
        Some(ReasonCode::CtsEffectiveWindowShort)
    } else if s == "CTSTRAFFIC_MONITOR_NO_SAMPLES"@ {
        Some(ReasonCode::CtsMonitorNoSamples)
    } else if s == "CTSTRAFFIC_MONITOR_RUNTIME_ERROR"@ {
        Some(ReasonCode::CtsMonitorRuntimeError)
    } else if s == "CTSTRAFFIC_MONITOR_START_FAILED"@ {
        Some(ReasonCode::CtsMonitorStartFailed)
    } else if s == "CTSTRAFFIC_MONITOR_STOP_FAILED"@ {
        Some(ReasonCode::CtsMonitorStopFailed)
    } else if s == "CTSTRAFFIC_NO_MEASUREMENT"@ {
        Some(ReasonCode::CtsNoMeasurement)
    } else if s == "CTSTRAFFIC_PREFLIGHT_FAILED"@ {
        Some(ReasonCode::CtsPreflightFailed)
    } else if s == "CTSTRAFFIC_PROCESS_CONTROL_FAILED"@ {
        Some(ReasonCode::CtsProcessControlFailed)
    } else if s == "CTSTRAFFIC_PROCESS_START_FAILED"@ {
        Some(ReasonCode::CtsProcessStartFailed)
    } else if s == "CTSTRAFFIC_RUNTIME_ERRORS"@ {
        Some(ReasonCode::CtsRuntimeErrors)
    } else if s == "CTSTRAFFIC_SERVER_CANCELLED"@ {
        Some(ReasonCode::CtsServerCancelled)
    } else if s == "CTSTRAFFIC_SERVER_FAILED"@ {
        Some(ReasonCode::CtsServerFailed)
    } else if s == "CTSTRAFFIC_SERVER_PROCESS_CLEANUP_UNCONFIRMED"@ {
        Some(ReasonCode::CtsServerProcessCleanupUnconfirmed)
    } else if s == "CTSTRAFFIC_SERVER_PROCESS_NOT_STARTED"@ {
        Some(ReasonCode::CtsServerProcessNotStarted)
    } else if s == "CTSTRAFFIC_SERVER_STOP_FAILED"@ {
        Some(ReasonCode::CtsServerStopFailed)
    } else if s == "CTSTRAFFIC_SINGLE_UDP_STREAM_FAILED"@ {
        Some(ReasonCode::CtsSingleUdpStreamFailed)
    } else if s == "CTSTRAFFIC_UDP_LOSS_DATA_MISSING"@ {
        Some(ReasonCode::CtsUdpLossDataMissing)
    } else if s == "CTSTRAFFIC_UDP_LOSS_HIGH"@ {
        Some(ReasonCode::CtsUdpLossHigh)
    } else if s == "EFFECTIVE_WINDOW_SHORT"@ {
        Some(ReasonCode::EffectiveWindowShort)
    } else if s == "FLOW_FAILED"@ {
        Some(ReasonCode::FlowFailed)
    } else if s == "FLOW_MEASURED"@ {
        Some(ReasonCode::FlowMeasured)
    } else if s == "GATEWAY_NOT_FOUND"@ {
        Some(ReasonCode::GatewayNotFound)
    } else if s == "IPERF_EFFECTIVE_WINDOW_SHORT"@ {
        Some(ReasonCode::IperfEffectiveWindowShort)
    } else if s == "IPERF_EXEC_FAILED"@ {
        Some(ReasonCode::IperfExecFailed)
    } else if s == "IPERF_PREFLIGHT_FAILED"@ {
        Some(ReasonCode::IperfPreflightFailed)
    } else if s == "IPERF_RUNTIME_ERRORS"@ {
        Some(ReasonCode::IperfRuntimeErrors)
    } else if s == "IPERF_SUMMARY_LOST"@ {
        Some(ReasonCode::IperfSummaryLost)
    } else if s == "LEG_THREAD_PANIC"@ {
        Some(ReasonCode::LegThreadPanic)
    } else if s == "NIC_DISAPPEARED"@ {
        Some(ReasonCode::NicDisappeared)
    } else if s == "NIC_RATE_MISSING"@ {
        Some(ReasonCode::NicRateMissing)
    } else if s == "NO_STREAM_STARTED"@ {
        Some(ReasonCode::NoStreamStarted)
    } else if s == "NO_VALID_MEASUREMENT"@ {
        Some(ReasonCode::NoValidMeasurement)
    } else if s == "OFFERED_LOAD_LOW"@ {
        Some(ReasonCode::OfferedLoadLow)
    } else if s == "PASS"@ {
        Some(ReasonCode::Pass)
    } else if s == "PING_EXEC_ERROR"@ {
        Some(ReasonCode::PingExecError)
    } else if s == "PING_GATEWAY_UNREACHABLE"@ {
        Some(ReasonCode::PingGatewayUnreachable)
    } else if s == "PING_OK"@ {
        Some(ReasonCode::PingOk)
    } else if s == "PING_SUBNET_UNREACHABLE"@ {
        Some(ReasonCode::PingSubnetUnreachable)
    } else if s == "PING_TIMEOUT"@ {
        Some(ReasonCode::PingTimeout)
    } else if s == "PING_UNREACHABLE"@ {
        Some(ReasonCode::PingUnreachable)
    } else if s == "RATE_WINDOW_COVERAGE_LOW"@ {
        Some(ReasonCode::RateWindowCoverageLow)
    } else if s == "RESOURCE_CLEANUP_FAILED"@ {
        Some(ReasonCode::ResourceCleanupFailed)
    } else if s == "RESUME_FRESH_PASS"@ {
        Some(ReasonCode::ResumeFreshPass)
    } else if s == "RX_BELOW_TARGET"@ {
        Some(ReasonCode::RxBelowTarget)
    } else if s == "RX_DROPOUT"@ {
        Some(ReasonCode::RxDropout)
    } else if s == "RX_OUTAGE"@ {
        Some(ReasonCode::RxOutage)
    } else if s == "RX_P10_BELOW_TARGET"@ {
        Some(ReasonCode::RxP10BelowTarget)
    } else if s == "RX_TARGET_MET"@ {
        Some(ReasonCode::RxTargetMet)
    } else if s == "RX_UNSTABLE"@ {
        Some(ReasonCode::RxUnstable)
    } else if s == "SAMPLE_COVERAGE_LOW"@ {
        Some(ReasonCode::SampleCoverageLow)
    } else if s == "SINGLE_UDP_STREAM_FAILED"@ {
        Some(ReasonCode::SingleUdpStreamFailed)
    } else if s == "TARGET_MISSING"@ {
        Some(ReasonCode::TargetMissing)
    } else if s == "TARGET_UNKNOWN"@ {
        Some(ReasonCode::TargetUnknown)
    } else if s == "UDP_GROUP_DISPATCH_ERROR"@ {
        Some(ReasonCode::UdpGroupDispatchError)
    } else if s == "UDP_LOSS_DATA_MISSING"@ {
        Some(ReasonCode::UdpLossDataMissing)
    } else if s == "UDP_LOSS_HIGH"@ {
        Some(ReasonCode::UdpLossHigh)
    } else if s == "CTSTRAFFIC_INTERNAL_NO_ATTEMPT"@ {
        Some(ReasonCode::CtsInternalNoAttempt)
    } else if s == "CTSTRAFFIC_SERVER_EXITED_EARLY"@ {
        Some(ReasonCode::CtsServerExitedEarly)
    } else if s == "CTSTRAFFIC_SERVER_JOB_ID_MISMATCH"@ {
        Some(ReasonCode::CtsServerJobIdMismatch)
    } else if s == "CTSTRAFFIC_SERVER_START_FAILED"@ {
        Some(ReasonCode::CtsServerStartFailed)
    } else if s == "CTSTRAFFIC_SERVER_STATUS_FAILED"@ {
        Some(ReasonCode::CtsServerStatusFailed)
    } else if s == "UNIT_DIRECTION_RESULT_MISSING"@ {
        Some(ReasonCode::UnitDirectionResultMissing)
    } else if s == "UNIT_PANIC"@ {
        Some(ReasonCode::UnitPanic)
    } else {
        None
    }
}

/// Whether a character may stand in a code.
pub open spec fn code_char(c: char) -> bool {
    ('A' <= c <= 'Z') || ('0' <= c <= '9') || c == '_'
}

impl ReasonCode {
    /// The text of a code in reports.
    pub fn as_str(self) -> (r: &'static str)
        ensures
            r@ == code_text(self),
    {
        match self {
            ReasonCode::NoReason => "",
            ReasonCode::ActiveStreamsLow => "ACTIVE_STREAMS_LOW",
            ReasonCode::ConfiguredLoadTooLow => "CONFIGURED_LOAD_TOO_LOW",
            ReasonCode::CounterStalled => "COUNTER_STALLED",
            ReasonCode::CtsArgsInvalid => "CTSTRAFFIC_ARGS_INVALID",
            ReasonCode::CtsCleanupFailed => "CTSTRAFFIC_CLEANUP_FAILED",
            ReasonCode::CtsClientAborted => "CTSTRAFFIC_CLIENT_ABORTED",
            ReasonCode::CtsClientCancelled => "CTSTRAFFIC_CLIENT_CANCELLED",
            ReasonCode::CtsClientJobIdMismatch => "CTSTRAFFIC_CLIENT_JOB_ID_MISMATCH",
            ReasonCode::CtsClientProcessCleanupUnconfirmed => "CTSTRAFFIC_CLIENT_PROCESS_CLEANUP_UNCONFIRMED",
            ReasonCode::CtsClientProcessNotStarted => "CTSTRAFFIC_CLIENT_PROCESS_NOT_STARTED",
            ReasonCode::CtsClientResultMissing => "CTSTRAFFIC_CLIENT_RESULT_MISSING",
            ReasonCode::CtsClientStartFailed => "CTSTRAFFIC_CLIENT_START_FAILED",
            ReasonCode::CtsClientStatusFailed => "CTSTRAFFIC_CLIENT_STATUS_FAILED",
            ReasonCode::CtsClientStopFailed => "CTSTRAFFIC_CLIENT_STOP_FAILED",
            ReasonCode::CtsClientUserCancelled => "CTSTRAFFIC_CLIENT_USER_CANCELLED",
            ReasonCode::CtsClientWaitInvalid => "CTSTRAFFIC_CLIENT_WAIT_INVALID",
            ReasonCode::CtsEffectiveWindowShort => "CTSTRAFFIC_EFFECTIVE_WINDOW_SHORT",
            ReasonCode::CtsMonitorNoSamples => "CTSTRAFFIC_MONITOR_NO_SAMPLES",
            ReasonCode::CtsMonitorRuntimeError => "CTSTRAFFIC_MONITOR_RUNTIME_ERROR",
            ReasonCode::CtsMonitorStartFailed => "CTSTRAFFIC_MONITOR_START_FAILED",
            ReasonCode::CtsMonitorStopFailed => "CTSTRAFFIC_MONITOR_STOP_FAILED",
            ReasonCode::CtsNoMeasurement => "CTSTRAFFIC_NO_MEASUREMENT",
            ReasonCode::CtsPreflightFailed => "CTSTRAFFIC_PREFLIGHT_FAILED",
            ReasonCode::CtsProcessControlFailed => "CTSTRAFFIC_PROCESS_CONTROL_FAILED",
            ReasonCode::CtsProcessStartFailed => "CTSTRAFFIC_PROCESS_START_FAILED",
            ReasonCode::CtsRuntimeErrors => "CTSTRAFFIC_RUNTIME_ERRORS",
            ReasonCode::CtsServerCancelled => "CTSTRAFFIC_SERVER_CANCELLED",
            ReasonCode::CtsServerFailed => "CTSTRAFFIC_SERVER_FAILED",
            ReasonCode::CtsServerProcessCleanupUnconfirmed => "CTSTRAFFIC_SERVER_PROCESS_CLEANUP_UNCONFIRMED",
            ReasonCode::CtsServerProcessNotStarted => "CTSTRAFFIC_SERVER_PROCESS_NOT_STARTED",
            ReasonCode::CtsServerStopFailed => "CTSTRAFFIC_SERVER_STOP_FAILED",
            ReasonCode::CtsSingleUdpStreamFailed => "CTSTRAFFIC_SINGLE_UDP_STREAM_FAILED",
            ReasonCode::CtsUdpLossDataMissing => "CTSTRAFFIC_UDP_LOSS_DATA_MISSING",
            ReasonCode::CtsUdpLossHigh => "CTSTRAFFIC_UDP_LOSS_HIGH",
            ReasonCode::EffectiveWindowShort => "EFFECTIVE_WINDOW_SHORT",
            ReasonCode::FlowFailed => "FLOW_FAILED",
            ReasonCode::FlowMeasured => "FLOW_MEASURED",
            ReasonCode::GatewayNotFound => "GATEWAY_NOT_FOUND",
            ReasonCode::IperfEffectiveWindowShort => "IPERF_EFFECTIVE_WINDOW_SHORT",
            ReasonCode::IperfExecFailed => "IPERF_EXEC_FAILED",
            ReasonCode::IperfPreflightFailed => "IPERF_PREFLIGHT_FAILED",
            ReasonCode::IperfRuntimeErrors => "IPERF_RUNTIME_ERRORS",
            ReasonCode::IperfSummaryLost => "IPERF_SUMMARY_LOST",
            ReasonCode::LegThreadPanic => "LEG_THREAD_PANIC",
            ReasonCode::NicDisappeared => "NIC_DISAPPEARED",
            ReasonCode::NicRateMissing => "NIC_RATE_MISSING",
            ReasonCode::NoStreamStarted => "NO_STREAM_STARTED",
            ReasonCode::NoValidMeasurement => "NO_VALID_MEASUREMENT",
            ReasonCode::OfferedLoadLow => "OFFERED_LOAD_LOW",
            ReasonCode::Pass => "PASS",
            ReasonCode::PingExecError => "PING_EXEC_ERROR",
            ReasonCode::PingGatewayUnreachable => "PING_GATEWAY_UNREACHABLE",
            ReasonCode::PingOk => "PING_OK",
            ReasonCode::PingSubnetUnreachable => "PING_SUBNET_UNREACHABLE",
            ReasonCode::PingTimeout => "PING_TIMEOUT",
            ReasonCode::PingUnreachable => "PING_UNREACHABLE",
            ReasonCode::RateWindowCoverageLow => "RATE_WINDOW_COVERAGE_LOW",
            ReasonCode::ResourceCleanupFailed => "RESOURCE_CLEANUP_FAILED",
            ReasonCode::ResumeFreshPass => "RESUME_FRESH_PASS",
            ReasonCode::RxBelowTarget => "RX_BELOW_TARGET",
            ReasonCode::RxDropout => "RX_DROPOUT",
            ReasonCode::RxOutage => "RX_OUTAGE",
            ReasonCode::RxP10BelowTarget => "RX_P10_BELOW_TARGET",
            ReasonCode::RxTargetMet => "RX_TARGET_MET",
            ReasonCode::RxUnstable => "RX_UNSTABLE",
            ReasonCode::SampleCoverageLow => "SAMPLE_COVERAGE_LOW",
            ReasonCode::SingleUdpStreamFailed => "SINGLE_UDP_STREAM_FAILED",
            ReasonCode::TargetMissing => "TARGET_MISSING",
            ReasonCode::TargetUnknown => "TARGET_UNKNOWN",
            ReasonCode::UdpGroupDispatchError => "UDP_GROUP_DISPATCH_ERROR",
            ReasonCode::UdpLossDataMissing => "UDP_LOSS_DATA_MISSING",
            ReasonCode::UdpLossHigh => "UDP_LOSS_HIGH",
            ReasonCode::CtsInternalNoAttempt => "CTSTRAFFIC_INTERNAL_NO_ATTEMPT",
            ReasonCode::CtsServerExitedEarly => "CTSTRAFFIC_SERVER_EXITED_EARLY",
            ReasonCode::CtsServerJobIdMismatch => "CTSTRAFFIC_SERVER_JOB_ID_MISMATCH",
            ReasonCode::CtsServerStartFailed => "CTSTRAFFIC_SERVER_START_FAILED",
            ReasonCode::CtsServerStatusFailed => "CTSTRAFFIC_SERVER_STATUS_FAILED",
            ReasonCode::UnitDirectionResultMissing => "UNIT_DIRECTION_RESULT_MISSING",
            ReasonCode::UnitPanic => "UNIT_PANIC",
        }
    }

    /// Whether no reason is given.
    pub fn is_empty(self) -> (r: bool)
        ensures
            r == (self == ReasonCode::NoReason),
    {
        matches!(self, ReasonCode::NoReason)
    }

    /// The code that a text is, where it is one.
    pub fn read(s: &str) -> (r: Option<ReasonCode>)
        ensures
            r == code_in(s@),
    {
        if same(s, "") {
            Some(ReasonCode::NoReason)
        } else if same(s, "ACTIVE_STREAMS_LOW") {
            Some(ReasonCode::ActiveStreamsLow)
        } else if same(s, "CONFIGURED_LOAD_TOO_LOW") {
            Some(ReasonCode::ConfiguredLoadTooLow)
        } else if same(s, "COUNTER_STALLED") {
            Some(ReasonCode::CounterStalled)
        } else if same(s, "CTSTRAFFIC_ARGS_INVALID") {
            Some(ReasonCode::CtsArgsInvalid)
        } else if same(s, "CTSTRAFFIC_CLEANUP_FAILED") {
            Some(ReasonCode::CtsCleanupFailed)
        } else if same(s, "CTSTRAFFIC_CLIENT_ABORTED") {
            Some(ReasonCode::CtsClientAborted)
        } else if same(s, "CTSTRAFFIC_CLIENT_CANCELLED") {
            Some(ReasonCode::CtsClientCancelled)
        } else if same(s, "CTSTRAFFIC_CLIENT_JOB_ID_MISMATCH") {
            Some(ReasonCode::CtsClientJobIdMismatch)
        } else if same(s, "CTSTRAFFIC_CLIENT_PROCESS_CLEANUP_UNCONFIRMED") {
            Some(ReasonCode::CtsClientProcessCleanupUnconfirmed)
        } else if same(s, "CTSTRAFFIC_CLIENT_PROCESS_NOT_STARTED") {
            Some(ReasonCode::CtsClientProcessNotStarted)
        } else if same(s, "CTSTRAFFIC_CLIENT_RESULT_MISSING") {
            Some(ReasonCode::CtsClientResultMissing)
        } else if same(s, "CTSTRAFFIC_CLIENT_START_FAILED") {
            Some(ReasonCode::CtsClientStartFailed)
        } else if same(s, "CTSTRAFFIC_CLIENT_STATUS_FAILED") {
            Some(ReasonCode::CtsClientStatusFailed)
        } else if same(s, "CTSTRAFFIC_CLIENT_STOP_FAILED") {
            Some(ReasonCode::CtsClientStopFailed)
        } else if same(s, "CTSTRAFFIC_CLIENT_USER_CANCELLED") {
            Some(ReasonCode::CtsClientUserCancelled)
        } else if same(s, "CTSTRAFFIC_CLIENT_WAIT_INVALID") {
            Some(ReasonCode::CtsClientWaitInvalid)
        } else if same(s, "CTSTRAFFIC_EFFECTIVE_WINDOW_SHORT") {
            Some(ReasonCode::CtsEffectiveWindowShort)
        } else if same(s, "CTSTRAFFIC_MONITOR_NO_SAMPLES") {
            Some(ReasonCode::CtsMonitorNoSamples)
        } else if same(s, "CTSTRAFFIC_MONITOR_RUNTIME_ERROR") {
            Some(ReasonCode::CtsMonitorRuntimeError)
        } else if same(s, "CTSTRAFFIC_MONITOR_START_FAILED") {
            Some(ReasonCode::CtsMonitorStartFailed)
        } else if same(s, "CTSTRAFFIC_MONITOR_STOP_FAILED") {
            Some(ReasonCode::CtsMonitorStopFailed)
        } else if same(s, "CTSTRAFFIC_NO_MEASUREMENT") {
            Some(ReasonCode::CtsNoMeasurement)
        } else if same(s, "CTSTRAFFIC_PREFLIGHT_FAILED") {
            Some(ReasonCode::CtsPreflightFailed)
        } else if same(s, "CTSTRAFFIC_PROCESS_CONTROL_FAILED") {
            Some(ReasonCode::CtsProcessControlFailed)
        } else if same(s, "CTSTRAFFIC_PROCESS_START_FAILED") {
            Some(ReasonCode::CtsProcessStartFailed)
        } else if same(s, "CTSTRAFFIC_RUNTIME_ERRORS") {
            Some(ReasonCode::CtsRuntimeErrors)
        } else if same(s, "CTSTRAFFIC_SERVER_CANCELLED") {
            Some(ReasonCode::CtsServerCancelled)
        } else if same(s, "CTSTRAFFIC_SERVER_FAILED") {
            Some(ReasonCode::CtsServerFailed)
        } else if same(s, "CTSTRAFFIC_SERVER_PROCESS_CLEANUP_UNCONFIRMED") {
            Some(ReasonCode::CtsServerProcessCleanupUnconfirmed)
        } else if same(s, "CTSTRAFFIC_SERVER_PROCESS_NOT_STARTED") {
            Some(ReasonCode::CtsServerProcessNotStarted)
        } else if same(s, "CTSTRAFFIC_SERVER_STOP_FAILED") {
            Some(ReasonCode::CtsServerStopFailed)
        } else if same(s, "CTSTRAFFIC_SINGLE_UDP_STREAM_FAILED") {
            Some(ReasonCode::CtsSingleUdpStreamFailed)
        } else if same(s, "CTSTRAFFIC_UDP_LOSS_DATA_MISSING") {
            Some(ReasonCode::CtsUdpLossDataMissing)
        } else if same(s, "CTSTRAFFIC_UDP_LOSS_HIGH") {
            Some(ReasonCode::CtsUdpLossHigh)
        } else if same(s, "EFFECTIVE_WINDOW_SHORT") {
            Some(ReasonCode::EffectiveWindowShort)
        } else if same(s, "FLOW_FAILED") {
            Some(ReasonCode::FlowFailed)
        } else if same(s, "FLOW_MEASURED") {
            Some(ReasonCode::FlowMeasured)
        } else if same(s, "GATEWAY_NOT_FOUND") {
            Some(ReasonCode::GatewayNotFound)
        } else if same(s, "IPERF_EFFECTIVE_WINDOW_SHORT") {
            Some(ReasonCode::IperfEffectiveWindowShort)
        } else if same(s, "IPERF_EXEC_FAILED") {
            Some(ReasonCode::IperfExecFailed)
        } else if same(s, "IPERF_PREFLIGHT_FAILED") {
            Some(ReasonCode::IperfPreflightFailed)
        } else if same(s, "IPERF_RUNTIME_ERRORS") {
            Some(ReasonCode::IperfRuntimeErrors)
        } else if same(s, "IPERF_SUMMARY_LOST") {
            Some(ReasonCode::IperfSummaryLost)
        } else if same(s, "LEG_THREAD_PANIC") {
            Some(ReasonCode::LegThreadPanic)
        } else if same(s, "NIC_DISAPPEARED") {
            Some(ReasonCode::NicDisappeared)
        } else if same(s, "NIC_RATE_MISSING") {
            Some(ReasonCode::NicRateMissing)
        } else if same(s, "NO_STREAM_STARTED") {
            Some(ReasonCode::NoStreamStarted)
        } else if same(s, "NO_VALID_MEASUREMENT") {
            Some(ReasonCode::NoValidMeasurement)
        } else if same(s, "OFFERED_LOAD_LOW") {
            Some(ReasonCode::OfferedLoadLow)
        } else if same(s, "PASS") {
            Some(ReasonCode::Pass)
        } else if same(s, "PING_EXEC_ERROR") {
            Some(ReasonCode::PingExecError)
        } else if same(s, "PING_GATEWAY_UNREACHABLE") {
            Some(ReasonCode::PingGatewayUnreachable)
        } else if same(s, "PING_OK") {
            Some(ReasonCode::PingOk)
        } else if same(s, "PING_SUBNET_UNREACHABLE") {
            Some(ReasonCode::PingSubnetUnreachable)
        } else if same(s, "PING_TIMEOUT") {
            Some(ReasonCode::PingTimeout)
        } else if same(s, "PING_UNREACHABLE") {
            Some(ReasonCode::PingUnreachable)
        } else if same(s, "RATE_WINDOW_COVERAGE_LOW") {
            Some(ReasonCode::RateWindowCoverageLow)
        } else if same(s, "RESOURCE_CLEANUP_FAILED") {
            Some(ReasonCode::ResourceCleanupFailed)
        } else if same(s, "RESUME_FRESH_PASS") {
            Some(ReasonCode::ResumeFreshPass)
        } else if same(s, "RX_BELOW_TARGET") {
            Some(ReasonCode::RxBelowTarget)
        } else if same(s, "RX_DROPOUT") {
            Some(ReasonCode::RxDropout)
        } else if same(s, "RX_OUTAGE") {
            Some(ReasonCode::RxOutage)
        } else if same(s, "RX_P10_BELOW_TARGET") {
            Some(ReasonCode::RxP10BelowTarget)
        } else if same(s, "RX_TARGET_MET") {
            Some(ReasonCode::RxTargetMet)
        } else if same(s, "RX_UNSTABLE") {
            Some(ReasonCode::RxUnstable)
        } else if same(s, "SAMPLE_COVERAGE_LOW") {
            Some(ReasonCode::SampleCoverageLow)
        } else if same(s, "SINGLE_UDP_STREAM_FAILED") {
            Some(ReasonCode::SingleUdpStreamFailed)
        } else if same(s, "TARGET_MISSING") {
            Some(ReasonCode::TargetMissing)
        } else if same(s, "TARGET_UNKNOWN") {
            Some(ReasonCode::TargetUnknown)
        } else if same(s, "UDP_GROUP_DISPATCH_ERROR") {
            Some(ReasonCode::UdpGroupDispatchError)
        } else if same(s, "UDP_LOSS_DATA_MISSING") {
            Some(ReasonCode::UdpLossDataMissing)
        } else if same(s, "UDP_LOSS_HIGH") {
            Some(ReasonCode::UdpLossHigh)
        } else if same(s, "CTSTRAFFIC_INTERNAL_NO_ATTEMPT") {
            Some(ReasonCode::CtsInternalNoAttempt)
        } else if same(s, "CTSTRAFFIC_SERVER_EXITED_EARLY") {
            Some(ReasonCode::CtsServerExitedEarly)
        } else if same(s, "CTSTRAFFIC_SERVER_JOB_ID_MISMATCH") {
            Some(ReasonCode::CtsServerJobIdMismatch)
        } else if same(s, "CTSTRAFFIC_SERVER_START_FAILED") {
            Some(ReasonCode::CtsServerStartFailed)
        } else if same(s, "CTSTRAFFIC_SERVER_STATUS_FAILED") {
            Some(ReasonCode::CtsServerStatusFailed)
        } else if same(s, "UNIT_DIRECTION_RESULT_MISSING") {
            Some(ReasonCode::UnitDirectionResultMissing)
        } else if same(s, "UNIT_PANIC") {
            Some(ReasonCode::UnitPanic)
        } else {
            None
        }
    }

    /// The code at the head of a reason text such as `RX_BELOW_TARGET: ...`; no reason where there
    /// is none.
    pub fn parse_prefix(reason: &str) -> (r: ReasonCode)
        ensures
            r == code_at_head(reason@),
    {
        let head = match split_once(reason, ':') {
            Some((head, _)) => head,
            None => reason,
        };
        match ReasonCode::read(trim(head)) {
            Some(code) => code,
            None => ReasonCode::NoReason,
        }
    }
}

impl core::str::FromStr for ReasonCode {
    type Err = ();

    /// The code that a text is; nothing else reads as one.
    fn from_str(s: &str) -> (r: Result<ReasonCode, ()>)
        ensures
            r == (match code_in(s@) {
                Some(code) => Ok::<ReasonCode, ()>(code),
                None => Err::<ReasonCode, ()>(()),
            }),
    {
        match ReasonCode::read(s) {
            Some(code) => Ok(code),
            None => Err(()),
        }
    }
}

/// The code at the head of a reason text: what stands before the first colon, or the whole text.
pub open spec fn code_at_head(reason: Seq<char>) -> ReasonCode {
    let head = match cut(reason, ':') {
        Some((head, _)) => head,
        None => reason,
    };
    match code_in(trimmed(head)) {
        Some(code) => code,
        None => ReasonCode::NoReason,
    }
}

/// The text of every code reads as that code.
#[verifier::rlimit(100)]
pub proof fn lemma_codes_round_trip(code: ReasonCode)
    ensures
        code_in(code_text(code)) == Some(code),
{
    reveal_strlit("");
    reveal_strlit("ACTIVE_STREAMS_LOW");
    reveal_strlit("CONFIGURED_LOAD_TOO_LOW");
    reveal_strlit("COUNTER_STALLED");
    reveal_strlit("CTSTRAFFIC_ARGS_INVALID");
    reveal_strlit("CTSTRAFFIC_CLEANUP_FAILED");
    reveal_strlit("CTSTRAFFIC_CLIENT_ABORTED");
    reveal_strlit("CTSTRAFFIC_CLIENT_CANCELLED");
    reveal_strlit("CTSTRAFFIC_CLIENT_JOB_ID_MISMATCH");
    reveal_strlit("CTSTRAFFIC_CLIENT_PROCESS_CLEANUP_UNCONFIRMED");
    reveal_strlit("CTSTRAFFIC_CLIENT_PROCESS_NOT_STARTED");
    reveal_strlit("CTSTRAFFIC_CLIENT_RESULT_MISSING");
    reveal_strlit("CTSTRAFFIC_CLIENT_START_FAILED");
    reveal_strlit("CTSTRAFFIC_CLIENT_STATUS_FAILED");
    reveal_strlit("CTSTRAFFIC_CLIENT_STOP_FAILED");
    reveal_strlit("CTSTRAFFIC_CLIENT_USER_CANCELLED");
    reveal_strlit("CTSTRAFFIC_CLIENT_WAIT_INVALID");
    reveal_strlit("CTSTRAFFIC_EFFECTIVE_WINDOW_SHORT");
    reveal_strlit("CTSTRAFFIC_MONITOR_NO_SAMPLES");
    reveal_strlit("CTSTRAFFIC_MONITOR_RUNTIME_ERROR");
    reveal_strlit("CTSTRAFFIC_MONITOR_START_FAILED");
    reveal_strlit("CTSTRAFFIC_MONITOR_STOP_FAILED");
    reveal_strlit("CTSTRAFFIC_NO_MEASUREMENT");
    reveal_strlit("CTSTRAFFIC_PREFLIGHT_FAILED");
    reveal_strlit("CTSTRAFFIC_PROCESS_CONTROL_FAILED");
    reveal_strlit("CTSTRAFFIC_PROCESS_START_FAILED");
    reveal_strlit("CTSTRAFFIC_RUNTIME_ERRORS");
    reveal_strlit("CTSTRAFFIC_SERVER_CANCELLED");
    reveal_strlit("CTSTRAFFIC_SERVER_FAILED");
    reveal_strlit("CTSTRAFFIC_SERVER_PROCESS_CLEANUP_UNCONFIRMED");
    reveal_strlit("CTSTRAFFIC_SERVER_PROCESS_NOT_STARTED");
    reveal_strlit("CTSTRAFFIC_SERVER_STOP_FAILED");
    reveal_strlit("CTSTRAFFIC_SINGLE_UDP_STREAM_FAILED");
    reveal_strlit("CTSTRAFFIC_UDP_LOSS_DATA_MISSING");
    reveal_strlit("CTSTRAFFIC_UDP_LOSS_HIGH");
    reveal_strlit("EFFECTIVE_WINDOW_SHORT");
    reveal_strlit("FLOW_FAILED");
    reveal_strlit("FLOW_MEASURED");
    reveal_strlit("GATEWAY_NOT_FOUND");
    reveal_strlit("IPERF_EFFECTIVE_WINDOW_SHORT");
    reveal_strlit("IPERF_EXEC_FAILED");
    reveal_strlit("IPERF_PREFLIGHT_FAILED");
    reveal_strlit("IPERF_RUNTIME_ERRORS");
    reveal_strlit("IPERF_SUMMARY_LOST");
    reveal_strlit("LEG_THREAD_PANIC");
    reveal_strlit("NIC_DISAPPEARED");
    reveal_strlit("NIC_RATE_MISSING");
    reveal_strlit("NO_STREAM_STARTED");
    reveal_strlit("NO_VALID_MEASUREMENT");
    reveal_strlit("OFFERED_LOAD_LOW");
    reveal_strlit("PASS");
    reveal_strlit("PING_EXEC_ERROR");
    reveal_strlit("PING_GATEWAY_UNREACHABLE");
    reveal_strlit("PING_OK");
    reveal_strlit("PING_SUBNET_UNREACHABLE");
    reveal_strlit("PING_TIMEOUT");
    reveal_strlit("PING_UNREACHABLE");
    reveal_strlit("RATE_WINDOW_COVERAGE_LOW");
    reveal_strlit("RESOURCE_CLEANUP_FAILED");
    reveal_strlit("RESUME_FRESH_PASS");
    reveal_strlit("RX_BELOW_TARGET");
    reveal_strlit("RX_DROPOUT");
    reveal_strlit("RX_OUTAGE");
    reveal_strlit("RX_P10_BELOW_TARGET");
    reveal_strlit("RX_TARGET_MET");
    reveal_strlit("RX_UNSTABLE");
    reveal_strlit("SAMPLE_COVERAGE_LOW");
    reveal_strlit("SINGLE_UDP_STREAM_FAILED");
    reveal_strlit("TARGET_MISSING");
    reveal_strlit("TARGET_UNKNOWN");
    reveal_strlit("UDP_GROUP_DISPATCH_ERROR");
    reveal_strlit("UDP_LOSS_DATA_MISSING");
    reveal_strlit("UDP_LOSS_HIGH");
    reveal_strlit("CTSTRAFFIC_INTERNAL_NO_ATTEMPT");
    reveal_strlit("CTSTRAFFIC_SERVER_EXITED_EARLY");
    reveal_strlit("CTSTRAFFIC_SERVER_JOB_ID_MISMATCH");
    reveal_strlit("CTSTRAFFIC_SERVER_START_FAILED");
    reveal_strlit("CTSTRAFFIC_SERVER_STATUS_FAILED");
    reveal_strlit("UNIT_DIRECTION_RESULT_MISSING");
    reveal_strlit("UNIT_PANIC");
    assert(""@.len() == 0);
    assert("ACTIVE_STREAMS_LOW"@.len() == 18);
    assert("CONFIGURED_LOAD_TOO_LOW"@.len() == 23);
    assert("COUNTER_STALLED"@.len() == 15);
    assert("CTSTRAFFIC_ARGS_INVALID"@.len() == 23);
    assert("CTSTRAFFIC_CLEANUP_FAILED"@.len() == 25);
    assert("CTSTRAFFIC_CLIENT_ABORTED"@.len() == 25);
    assert("CTSTRAFFIC_CLIENT_CANCELLED"@.len() == 27);
    assert("CTSTRAFFIC_CLIENT_JOB_ID_MISMATCH"@.len() == 33);
    assert("CTSTRAFFIC_CLIENT_PROCESS_CLEANUP_UNCONFIRMED"@.len() == 45);
    assert("CTSTRAFFIC_CLIENT_PROCESS_NOT_STARTED"@.len() == 37);
    assert("CTSTRAFFIC_CLIENT_RESULT_MISSING"@.len() == 32);
    assert("CTSTRAFFIC_CLIENT_START_FAILED"@.len() == 30);
    assert("CTSTRAFFIC_CLIENT_STATUS_FAILED"@.len() == 31);
    assert("CTSTRAFFIC_CLIENT_STOP_FAILED"@.len() == 29);
    assert("CTSTRAFFIC_CLIENT_USER_CANCELLED"@.len() == 32);
    assert("CTSTRAFFIC_CLIENT_WAIT_INVALID"@.len() == 30);
    assert("CTSTRAFFIC_EFFECTIVE_WINDOW_SHORT"@.len() == 33);
    assert("CTSTRAFFIC_MONITOR_NO_SAMPLES"@.len() == 29);
    assert("CTSTRAFFIC_MONITOR_RUNTIME_ERROR"@.len() == 32);
    assert("CTSTRAFFIC_MONITOR_START_FAILED"@.len() == 31);
    assert("CTSTRAFFIC_MONITOR_STOP_FAILED"@.len() == 30);
    assert("CTSTRAFFIC_NO_MEASUREMENT"@.len() == 25);
    assert("CTSTRAFFIC_PREFLIGHT_FAILED"@.len() == 27);
    assert("CTSTRAFFIC_PROCESS_CONTROL_FAILED"@.len() == 33);
    assert("CTSTRAFFIC_PROCESS_START_FAILED"@.len() == 31);
    assert("CTSTRAFFIC_RUNTIME_ERRORS"@.len() == 25);
    assert("CTSTRAFFIC_SERVER_CANCELLED"@.len() == 27);
    assert("CTSTRAFFIC_SERVER_FAILED"@.len() == 24);
    assert("CTSTRAFFIC_SERVER_PROCESS_CLEANUP_UNCONFIRMED"@.len() == 45);
    assert("CTSTRAFFIC_SERVER_PROCESS_NOT_STARTED"@.len() == 37);
    assert("CTSTRAFFIC_SERVER_STOP_FAILED"@.len() == 29);
    assert("CTSTRAFFIC_SINGLE_UDP_STREAM_FAILED"@.len() == 35);
    assert("CTSTRAFFIC_UDP_LOSS_DATA_MISSING"@.len() == 32);
    assert("CTSTRAFFIC_UDP_LOSS_HIGH"@.len() == 24);
    assert("EFFECTIVE_WINDOW_SHORT"@.len() == 22);
    assert("FLOW_FAILED"@.len() == 11);
    assert("FLOW_MEASURED"@.len() == 13);
    assert("GATEWAY_NOT_FOUND"@.len() == 17);
    assert("IPERF_EFFECTIVE_WINDOW_SHORT"@.len() == 28);
    assert("IPERF_EXEC_FAILED"@.len() == 17);
    assert("IPERF_PREFLIGHT_FAILED"@.len() == 22);
    assert("IPERF_RUNTIME_ERRORS"@.len() == 20);
    assert("IPERF_SUMMARY_LOST"@.len() == 18);
    assert("LEG_THREAD_PANIC"@.len() == 16);
    assert("NIC_DISAPPEARED"@.len() == 15);
    assert("NIC_RATE_MISSING"@.len() == 16);
    assert("NO_STREAM_STARTED"@.len() == 17);
    assert("NO_VALID_MEASUREMENT"@.len() == 20);
    assert("OFFERED_LOAD_LOW"@.len() == 16);
    assert("PASS"@.len() == 4);
    assert("PING_EXEC_ERROR"@.len() == 15);
    assert("PING_GATEWAY_UNREACHABLE"@.len() == 24);
    assert("PING_OK"@.len() == 7);
    assert("PING_SUBNET_UNREACHABLE"@.len() == 23);
    assert("PING_TIMEOUT"@.len() == 12);
    assert("PING_UNREACHABLE"@.len() == 16);
    assert("RATE_WINDOW_COVERAGE_LOW"@.len() == 24);
    assert("RESOURCE_CLEANUP_FAILED"@.len() == 23);
    assert("RESUME_FRESH_PASS"@.len() == 17);
    assert("RX_BELOW_TARGET"@.len() == 15);
    assert("RX_DROPOUT"@.len() == 10);
    assert("RX_OUTAGE"@.len() == 9);
    assert("RX_P10_BELOW_TARGET"@.len() == 19);
    assert("RX_TARGET_MET"@.len() == 13);
    assert("RX_UNSTABLE"@.len() == 11);
    assert("SAMPLE_COVERAGE_LOW"@.len() == 19);
    assert("SINGLE_UDP_STREAM_FAILED"@.len() == 24);
    assert("TARGET_MISSING"@.len() == 14);
    assert("TARGET_UNKNOWN"@.len() == 14);
    assert("UDP_GROUP_DISPATCH_ERROR"@.len() == 24);
    assert("UDP_LOSS_DATA_MISSING"@.len() == 21);
    assert("UDP_LOSS_HIGH"@.len() == 13);
    assert("CTSTRAFFIC_INTERNAL_NO_ATTEMPT"@.len() == 30);
    assert("CTSTRAFFIC_SERVER_EXITED_EARLY"@.len() == 30);
    assert("CTSTRAFFIC_SERVER_JOB_ID_MISMATCH"@.len() == 33);
    assert("CTSTRAFFIC_SERVER_START_FAILED"@.len() == 30);
    assert("CTSTRAFFIC_SERVER_STATUS_FAILED"@.len() == 31);
    assert("UNIT_DIRECTION_RESULT_MISSING"@.len() == 29);
    assert("UNIT_PANIC"@.len() == 10);
    assert("ACTIVE_STREAMS_LOW"@[0] != "IPERF_SUMMARY_LOST"@[0]);
    assert("CONFIGURED_LOAD_TOO_LOW"@[1] != "CTSTRAFFIC_ARGS_INVALID"@[1]);
    assert("CONFIGURED_LOAD_TOO_LOW"@[0] != "PING_SUBNET_UNREACHABLE"@[0]);
    assert("CONFIGURED_LOAD_TOO_LOW"@[0] != "RESOURCE_CLEANUP_FAILED"@[0]);
    assert("COUNTER_STALLED"@[0] != "NIC_DISAPPEARED"@[0]);
    assert("COUNTER_STALLED"@[0] != "PING_EXEC_ERROR"@[0]);
    assert("COUNTER_STALLED"@[0] != "RX_BELOW_TARGET"@[0]);
    assert("CTSTRAFFIC_ARGS_INVALID"@[0] != "PING_SUBNET_UNREACHABLE"@[0]);
    assert("CTSTRAFFIC_ARGS_INVALID"@[0] != "RESOURCE_CLEANUP_FAILED"@[0]);
    assert("CTSTRAFFIC_CLEANUP_FAILED"@[13] != "CTSTRAFFIC_CLIENT_ABORTED"@[13]);
    assert("CTSTRAFFIC_CLEANUP_FAILED"@[11] != "CTSTRAFFIC_NO_MEASUREMENT"@[11]);
    assert("CTSTRAFFIC_CLEANUP_FAILED"@[11] != "CTSTRAFFIC_RUNTIME_ERRORS"@[11]);
    assert("CTSTRAFFIC_CLIENT_ABORTED"@[11] != "CTSTRAFFIC_NO_MEASUREMENT"@[11]);
    assert("CTSTRAFFIC_CLIENT_ABORTED"@[11] != "CTSTRAFFIC_RUNTIME_ERRORS"@[11]);
    assert("CTSTRAFFIC_CLIENT_CANCELLED"@[11] != "CTSTRAFFIC_PREFLIGHT_FAILED"@[11]);
    assert("CTSTRAFFIC_CLIENT_CANCELLED"@[11] != "CTSTRAFFIC_SERVER_CANCELLED"@[11]);
    assert("CTSTRAFFIC_CLIENT_JOB_ID_MISMATCH"@[11] != "CTSTRAFFIC_EFFECTIVE_WINDOW_SHORT"@[11]);
    assert("CTSTRAFFIC_CLIENT_JOB_ID_MISMATCH"@[11] != "CTSTRAFFIC_PROCESS_CONTROL_FAILED"@[11]);
    assert("CTSTRAFFIC_CLIENT_JOB_ID_MISMATCH"@[11] != "CTSTRAFFIC_SERVER_JOB_ID_MISMATCH"@[11]);
    assert("CTSTRAFFIC_CLIENT_PROCESS_CLEANUP_UNCONFIRMED"@[11] != "CTSTRAFFIC_SERVER_PROCESS_CLEANUP_UNCONFIRMED"@[11]);
    assert("CTSTRAFFIC_CLIENT_PROCESS_NOT_STARTED"@[11] != "CTSTRAFFIC_SERVER_PROCESS_NOT_STARTED"@[11]);
    assert("CTSTRAFFIC_CLIENT_RESULT_MISSING"@[18] != "CTSTRAFFIC_CLIENT_USER_CANCELLED"@[18]);
    assert("CTSTRAFFIC_CLIENT_RESULT_MISSING"@[11] != "CTSTRAFFIC_MONITOR_RUNTIME_ERROR"@[11]);
    assert("CTSTRAFFIC_CLIENT_RESULT_MISSING"@[11] != "CTSTRAFFIC_UDP_LOSS_DATA_MISSING"@[11]);
    assert("CTSTRAFFIC_CLIENT_START_FAILED"@[18] != "CTSTRAFFIC_CLIENT_WAIT_INVALID"@[18]);
    assert("CTSTRAFFIC_CLIENT_START_FAILED"@[11] != "CTSTRAFFIC_MONITOR_STOP_FAILED"@[11]);
    assert("CTSTRAFFIC_CLIENT_START_FAILED"@[11] != "CTSTRAFFIC_INTERNAL_NO_ATTEMPT"@[11]);
    assert("CTSTRAFFIC_CLIENT_START_FAILED"@[11] != "CTSTRAFFIC_SERVER_EXITED_EARLY"@[11]);
    assert("CTSTRAFFIC_CLIENT_START_FAILED"@[11] != "CTSTRAFFIC_SERVER_START_FAILED"@[11]);
    assert("CTSTRAFFIC_CLIENT_STATUS_FAILED"@[11] != "CTSTRAFFIC_MONITOR_START_FAILED"@[11]);
    assert("CTSTRAFFIC_CLIENT_STATUS_FAILED"@[11] != "CTSTRAFFIC_PROCESS_START_FAILED"@[11]);
    assert("CTSTRAFFIC_CLIENT_STATUS_FAILED"@[11] != "CTSTRAFFIC_SERVER_STATUS_FAILED"@[11]);
    assert("CTSTRAFFIC_CLIENT_STOP_FAILED"@[11] != "CTSTRAFFIC_MONITOR_NO_SAMPLES"@[11]);
    assert("CTSTRAFFIC_CLIENT_STOP_FAILED"@[11] != "CTSTRAFFIC_SERVER_STOP_FAILED"@[11]);
    assert("CTSTRAFFIC_CLIENT_STOP_FAILED"@[0] != "UNIT_DIRECTION_RESULT_MISSING"@[0]);
    assert("CTSTRAFFIC_CLIENT_USER_CANCELLED"@[11] != "CTSTRAFFIC_MONITOR_RUNTIME_ERROR"@[11]);
    assert("CTSTRAFFIC_CLIENT_USER_CANCELLED"@[11] != "CTSTRAFFIC_UDP_LOSS_DATA_MISSING"@[11]);
    assert("CTSTRAFFIC_CLIENT_WAIT_INVALID"@[11] != "CTSTRAFFIC_MONITOR_STOP_FAILED"@[11]);
    assert("CTSTRAFFIC_CLIENT_WAIT_INVALID"@[11] != "CTSTRAFFIC_INTERNAL_NO_ATTEMPT"@[11]);
    assert("CTSTRAFFIC_CLIENT_WAIT_INVALID"@[11] != "CTSTRAFFIC_SERVER_EXITED_EARLY"@[11]);
    assert("CTSTRAFFIC_CLIENT_WAIT_INVALID"@[11] != "CTSTRAFFIC_SERVER_START_FAILED"@[11]);
    assert("CTSTRAFFIC_EFFECTIVE_WINDOW_SHORT"@[11] != "CTSTRAFFIC_PROCESS_CONTROL_FAILED"@[11]);
    assert("CTSTRAFFIC_EFFECTIVE_WINDOW_SHORT"@[11] != "CTSTRAFFIC_SERVER_JOB_ID_MISMATCH"@[11]);
    assert("CTSTRAFFIC_MONITOR_NO_SAMPLES"@[11] != "CTSTRAFFIC_SERVER_STOP_FAILED"@[11]);
    assert("CTSTRAFFIC_MONITOR_NO_SAMPLES"@[0] != "UNIT_DIRECTION_RESULT_MISSING"@[0]);
    assert("CTSTRAFFIC_MONITOR_RUNTIME_ERROR"@[11] != "CTSTRAFFIC_UDP_LOSS_DATA_MISSING"@[11]);
    assert("CTSTRAFFIC_MONITOR_START_FAILED"@[11] != "CTSTRAFFIC_PROCESS_START_FAILED"@[11]);
    assert("CTSTRAFFIC_MONITOR_START_FAILED"@[11] != "CTSTRAFFIC_SERVER_STATUS_FAILED"@[11]);
    assert("CTSTRAFFIC_MONITOR_STOP_FAILED"@[11] != "CTSTRAFFIC_INTERNAL_NO_ATTEMPT"@[11]);
    assert("CTSTRAFFIC_MONITOR_STOP_FAILED"@[11] != "CTSTRAFFIC_SERVER_EXITED_EARLY"@[11]);
    assert("CTSTRAFFIC_MONITOR_STOP_FAILED"@[11] != "CTSTRAFFIC_SERVER_START_FAILED"@[11]);
    assert("CTSTRAFFIC_NO_MEASUREMENT"@[11] != "CTSTRAFFIC_RUNTIME_ERRORS"@[11]);
    assert("CTSTRAFFIC_PREFLIGHT_FAILED"@[11] != "CTSTRAFFIC_SERVER_CANCELLED"@[11]);
    assert("CTSTRAFFIC_PROCESS_CONTROL_FAILED"@[11] != "CTSTRAFFIC_SERVER_JOB_ID_MISMATCH"@[11]);
    assert("CTSTRAFFIC_PROCESS_START_FAILED"@[11] != "CTSTRAFFIC_SERVER_STATUS_FAILED"@[11]);
    assert("CTSTRAFFIC_SERVER_FAILED"@[11] != "CTSTRAFFIC_UDP_LOSS_HIGH"@[11]);
    assert("CTSTRAFFIC_SERVER_FAILED"@[0] != "PING_GATEWAY_UNREACHABLE"@[0]);
    assert("CTSTRAFFIC_SERVER_FAILED"@[0] != "RATE_WINDOW_COVERAGE_LOW"@[0]);
    assert("CTSTRAFFIC_SERVER_FAILED"@[0] != "SINGLE_UDP_STREAM_FAILED"@[0]);
    assert("CTSTRAFFIC_SERVER_FAILED"@[0] != "UDP_GROUP_DISPATCH_ERROR"@[0]);
    assert("CTSTRAFFIC_SERVER_STOP_FAILED"@[0] != "UNIT_DIRECTION_RESULT_MISSING"@[0]);
    assert("CTSTRAFFIC_UDP_LOSS_HIGH"@[0] != "PING_GATEWAY_UNREACHABLE"@[0]);
    assert("CTSTRAFFIC_UDP_LOSS_HIGH"@[0] != "RATE_WINDOW_COVERAGE_LOW"@[0]);
    assert("CTSTRAFFIC_UDP_LOSS_HIGH"@[0] != "SINGLE_UDP_STREAM_FAILED"@[0]);
    assert("CTSTRAFFIC_UDP_LOSS_HIGH"@[0] != "UDP_GROUP_DISPATCH_ERROR"@[0]);
    assert("EFFECTIVE_WINDOW_SHORT"@[0] != "IPERF_PREFLIGHT_FAILED"@[0]);
    assert("FLOW_FAILED"@[0] != "RX_UNSTABLE"@[0]);
    assert("FLOW_MEASURED"@[0] != "RX_TARGET_MET"@[0]);
    assert("FLOW_MEASURED"@[0] != "UDP_LOSS_HIGH"@[0]);
    assert("GATEWAY_NOT_FOUND"@[0] != "IPERF_EXEC_FAILED"@[0]);
    assert("GATEWAY_NOT_FOUND"@[0] != "NO_STREAM_STARTED"@[0]);
    assert("GATEWAY_NOT_FOUND"@[0] != "RESUME_FRESH_PASS"@[0]);
    assert("IPERF_EXEC_FAILED"@[0] != "NO_STREAM_STARTED"@[0]);
    assert("IPERF_EXEC_FAILED"@[0] != "RESUME_FRESH_PASS"@[0]);
    assert("IPERF_RUNTIME_ERRORS"@[0] != "NO_VALID_MEASUREMENT"@[0]);
    assert("LEG_THREAD_PANIC"@[0] != "NIC_RATE_MISSING"@[0]);
    assert("LEG_THREAD_PANIC"@[0] != "OFFERED_LOAD_LOW"@[0]);
    assert("LEG_THREAD_PANIC"@[0] != "PING_UNREACHABLE"@[0]);
    assert("NIC_DISAPPEARED"@[0] != "PING_EXEC_ERROR"@[0]);
    assert("NIC_DISAPPEARED"@[0] != "RX_BELOW_TARGET"@[0]);
    assert("NIC_RATE_MISSING"@[0] != "OFFERED_LOAD_LOW"@[0]);
    assert("NIC_RATE_MISSING"@[0] != "PING_UNREACHABLE"@[0]);
    assert("NO_STREAM_STARTED"@[0] != "RESUME_FRESH_PASS"@[0]);
    assert("OFFERED_LOAD_LOW"@[0] != "PING_UNREACHABLE"@[0]);
    assert("PING_EXEC_ERROR"@[0] != "RX_BELOW_TARGET"@[0]);
    assert("PING_GATEWAY_UNREACHABLE"@[0] != "RATE_WINDOW_COVERAGE_LOW"@[0]);
    assert("PING_GATEWAY_UNREACHABLE"@[0] != "SINGLE_UDP_STREAM_FAILED"@[0]);
    assert("PING_GATEWAY_UNREACHABLE"@[0] != "UDP_GROUP_DISPATCH_ERROR"@[0]);
    assert("PING_SUBNET_UNREACHABLE"@[0] != "RESOURCE_CLEANUP_FAILED"@[0]);
    assert("RATE_WINDOW_COVERAGE_LOW"@[0] != "SINGLE_UDP_STREAM_FAILED"@[0]);
    assert("RATE_WINDOW_COVERAGE_LOW"@[0] != "UDP_GROUP_DISPATCH_ERROR"@[0]);
    assert("RX_DROPOUT"@[0] != "UNIT_PANIC"@[0]);
    assert("RX_P10_BELOW_TARGET"@[0] != "SAMPLE_COVERAGE_LOW"@[0]);
    assert("RX_TARGET_MET"@[0] != "UDP_LOSS_HIGH"@[0]);
    assert("SINGLE_UDP_STREAM_FAILED"@[0] != "UDP_GROUP_DISPATCH_ERROR"@[0]);
    assert("TARGET_MISSING"@[7] != "TARGET_UNKNOWN"@[7]);
    assert("CTSTRAFFIC_INTERNAL_NO_ATTEMPT"@[11] != "CTSTRAFFIC_SERVER_EXITED_EARLY"@[11]);
    assert("CTSTRAFFIC_INTERNAL_NO_ATTEMPT"@[11] != "CTSTRAFFIC_SERVER_START_FAILED"@[11]);
    assert("CTSTRAFFIC_SERVER_EXITED_EARLY"@[18] != "CTSTRAFFIC_SERVER_START_FAILED"@[18]);
}

/// No two codes have the same text.
pub proof fn lemma_codes_differ(a: ReasonCode, b: ReasonCode)
    requires
        code_text(a) == code_text(b),
    ensures
        a == b,
{
    lemma_codes_round_trip(a);
    lemma_codes_round_trip(b);
}

/// A text that reads as a code is the text of that code.
pub proof fn lemma_only_codes_read(s: Seq<char>)
    ensures
        code_in(s) is Some ==> s == code_text(code_in(s)->0),
{
}

/// Codes are capitals, digits and underscores, and only the missing reason has no text.
pub proof fn lemma_codes_are_plain(code: ReasonCode)
    ensures
        forall|i: int| 0 <= i < code_text(code).len() ==> code_char(#[trigger] code_text(code)[i]),
        code != ReasonCode::NoReason ==> code_text(code).len() > 0,
{
    reveal_strlit("");
    reveal_strlit("ACTIVE_STREAMS_LOW");
    reveal_strlit("CONFIGURED_LOAD_TOO_LOW");
    reveal_strlit("COUNTER_STALLED");
    reveal_strlit("CTSTRAFFIC_ARGS_INVALID");
    reveal_strlit("CTSTRAFFIC_CLEANUP_FAILED");
    reveal_strlit("CTSTRAFFIC_CLIENT_ABORTED");
    reveal_strlit("CTSTRAFFIC_CLIENT_CANCELLED");
    reveal_strlit("CTSTRAFFIC_CLIENT_JOB_ID_MISMATCH");
    reveal_strlit("CTSTRAFFIC_CLIENT_PROCESS_CLEANUP_UNCONFIRMED");
    reveal_strlit("CTSTRAFFIC_CLIENT_PROCESS_NOT_STARTED");
    reveal_strlit("CTSTRAFFIC_CLIENT_RESULT_MISSING");
    reveal_strlit("CTSTRAFFIC_CLIENT_START_FAILED");
    reveal_strlit("CTSTRAFFIC_CLIENT_STATUS_FAILED");
    reveal_strlit("CTSTRAFFIC_CLIENT_STOP_FAILED");
    reveal_strlit("CTSTRAFFIC_CLIENT_USER_CANCELLED");
    reveal_strlit("CTSTRAFFIC_CLIENT_WAIT_INVALID");
    reveal_strlit("CTSTRAFFIC_EFFECTIVE_WINDOW_SHORT");
    reveal_strlit("CTSTRAFFIC_MONITOR_NO_SAMPLES");
    reveal_strlit("CTSTRAFFIC_MONITOR_RUNTIME_ERROR");
    reveal_strlit("CTSTRAFFIC_MONITOR_START_FAILED");
    reveal_strlit("CTSTRAFFIC_MONITOR_STOP_FAILED");
    reveal_strlit("CTSTRAFFIC_NO_MEASUREMENT");
    reveal_strlit("CTSTRAFFIC_PREFLIGHT_FAILED");
    reveal_strlit("CTSTRAFFIC_PROCESS_CONTROL_FAILED");
    reveal_strlit("CTSTRAFFIC_PROCESS_START_FAILED");
    reveal_strlit("CTSTRAFFIC_RUNTIME_ERRORS");
    reveal_strlit("CTSTRAFFIC_SERVER_CANCELLED");
    reveal_strlit("CTSTRAFFIC_SERVER_FAILED");
    reveal_strlit("CTSTRAFFIC_SERVER_PROCESS_CLEANUP_UNCONFIRMED");
    reveal_strlit("CTSTRAFFIC_SERVER_PROCESS_NOT_STARTED");
    reveal_strlit("CTSTRAFFIC_SERVER_STOP_FAILED");
    reveal_strlit("CTSTRAFFIC_SINGLE_UDP_STREAM_FAILED");
    reveal_strlit("CTSTRAFFIC_UDP_LOSS_DATA_MISSING");
    reveal_strlit("CTSTRAFFIC_UDP_LOSS_HIGH");
    reveal_strlit("EFFECTIVE_WINDOW_SHORT");
    reveal_strlit("FLOW_FAILED");
    reveal_strlit("FLOW_MEASURED");
    reveal_strlit("GATEWAY_NOT_FOUND");
    reveal_strlit("IPERF_EFFECTIVE_WINDOW_SHORT");
    reveal_strlit("IPERF_EXEC_FAILED");
    reveal_strlit("IPERF_PREFLIGHT_FAILED");
    reveal_strlit("IPERF_RUNTIME_ERRORS");
    reveal_strlit("IPERF_SUMMARY_LOST");
    reveal_strlit("LEG_THREAD_PANIC");
    reveal_strlit("NIC_DISAPPEARED");
    reveal_strlit("NIC_RATE_MISSING");
    reveal_strlit("NO_STREAM_STARTED");
    reveal_strlit("NO_VALID_MEASUREMENT");
    reveal_strlit("OFFERED_LOAD_LOW");
    reveal_strlit("PASS");
    reveal_strlit("PING_EXEC_ERROR");
    reveal_strlit("PING_GATEWAY_UNREACHABLE");
    reveal_strlit("PING_OK");
    reveal_strlit("PING_SUBNET_UNREACHABLE");
    reveal_strlit("PING_TIMEOUT");
    reveal_strlit("PING_UNREACHABLE");
    reveal_strlit("RATE_WINDOW_COVERAGE_LOW");
    reveal_strlit("RESOURCE_CLEANUP_FAILED");
    reveal_strlit("RESUME_FRESH_PASS");
    reveal_strlit("RX_BELOW_TARGET");
    reveal_strlit("RX_DROPOUT");
    reveal_strlit("RX_OUTAGE");
    reveal_strlit("RX_P10_BELOW_TARGET");
    reveal_strlit("RX_TARGET_MET");
    reveal_strlit("RX_UNSTABLE");
    reveal_strlit("SAMPLE_COVERAGE_LOW");
    reveal_strlit("SINGLE_UDP_STREAM_FAILED");
    reveal_strlit("TARGET_MISSING");
    reveal_strlit("TARGET_UNKNOWN");
    reveal_strlit("UDP_GROUP_DISPATCH_ERROR");
    reveal_strlit("UDP_LOSS_DATA_MISSING");
    reveal_strlit("UDP_LOSS_HIGH");
    reveal_strlit("CTSTRAFFIC_INTERNAL_NO_ATTEMPT");
    reveal_strlit("CTSTRAFFIC_SERVER_EXITED_EARLY");
    reveal_strlit("CTSTRAFFIC_SERVER_JOB_ID_MISMATCH");
    reveal_strlit("CTSTRAFFIC_SERVER_START_FAILED");
    reveal_strlit("CTSTRAFFIC_SERVER_STATUS_FAILED");
    reveal_strlit("UNIT_DIRECTION_RESULT_MISSING");
    reveal_strlit("UNIT_PANIC");
}

/// A code is read back from the head of a reason text, whatever follows the colon.
pub proof fn lemma_head_round_trips(code: ReasonCode, detail: Seq<char>)
    ensures
        code_at_head(code_text(code) + ":"@ + detail) == code,
        code_at_head(code_text(code)) == code,
{
    let text = code_text(code);
    let reason = text + ":"@ + detail;
    lemma_codes_are_plain(code);
    lemma_codes_round_trip(code);
    reveal_strlit(":");
    lemma_find_char(reason, ':', 0);
    let k = find_char(reason, ':', 0);
    let n = text.len() as int;
    assert(reason[n] == ':');
    if k < n {
        assert(reason[k] == text[k]);
        assert(code_char(text[k]));
    }
    assert(k == n);
    assert(reason.take(n) =~= text);
    lemma_find_char(text, ':', 0);
    let j = find_char(text, ':', 0);
    if j < n {
        assert(code_char(text[j]));
    }
    if n > 0 {
        assert(code_char(text[0]) && code_char(text[n - 1]));
    }
    lemma_trimmed_fixed(text);
}

} // verus!
