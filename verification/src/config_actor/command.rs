//! Commands to the state of a configuration, and the replies.
use vstd::prelude::*;
use crate::config::logs::LogConfig;
use crate::config::service::{KeplerConfig, RawServiceConfig, ServiceConfig};
use crate::config_actor::context::{
    DiagnosticCounts, HealthCheckUpdate, ServiceContext, TaskHandleType,
};
use crate::errors::DaemonError;
use crate::events::ServiceEvent;
use crate::logs::{LogMode, LogRead, LogWriterConfig};
use crate::name_map::NameMap;
use crate::state::{ProcessHandle, ServiceState, ServiceStatus};

verus! {

/// A command to the state of a configuration. Tasks are named by numbers.
#[derive(Debug)]
pub enum ConfigCommand {
    GetServiceContext { service_name: String },
    GetServiceStatus { service: Option<String> },
    GetLogs { lines: usize },
    GetLogsBounded { lines: usize, max_bytes: Option<usize> },
    GetLogsWithMode { lines: usize, max_bytes: Option<usize>, mode: LogMode },
    GetLogsPaginated { offset: usize, limit: usize },
    GetServiceConfig { service_name: String },
    GetConfig,
    GetConfigDir,
    GetStateDir,
    GetLogConfig,
    GetGlobalLogConfig,
    GetDefaultInheritEnv,
    GetSysEnv,
    IsServiceRunning { service_name: String },
    GetRunningServices,
    IsConfigInitialized,
    IsServiceInitialized { service_name: String },
    GetServiceState { service_name: String },
    GetConfigHash,
    GetConfigPath,
    AllServicesStopped,
    /// Forget what was told, and tell again what holds.
    RecheckReadyQuiescent,
    /// While a start is in progress nobody is told of readiness or quiescence.
    SetStartupInProgress { in_progress: bool },
    SetServiceStatus { service_name: String, status: ServiceStatus },
    SetSkipReason { service_name: String, reason: String },
    SetFailReason { service_name: String, reason: String },
    /// Claim a service for a start, unless it is active.
    ClaimServiceStart { service_name: String },
    SetServiceStatusWithReason {
        service_name: String,
        status: ServiceStatus,
        skip_reason: Option<String>,
        fail_reason: Option<String>,
    },
    SetServicePid { service_name: String, pid: Option<u32>, started_at: Option<i64> },
    RecordProcessExit { service_name: String, exit_code: Option<i32>, signal: Option<i32> },
    UpdateHealthCheck { service_name: String, passed: bool, retries: u32 },
    MarkConfigInitialized,
    MarkServiceInitialized { service_name: String },
    IncrementRestartCount { service_name: String },
    StoreResolvedConfig {
        service_name: String,
        config: Box<ServiceConfig>,
        computed_env: NameMap<String>,
        working_dir: String,
        env_file_vars: NameMap<String>,
    },
    ClearServiceLogs { service_name: String },
    ClearServiceLogsPrefix { prefix: String },
    StoreProcessHandle { service_name: String, process: ProcessHandle },
    RemoveProcessHandle { service_name: String },
    TakeOutputTasks { service_name: String },
    StoreTaskHandle { service_name: String, handle_type: TaskHandleType, handle: u64 },
    CancelTaskHandle { service_name: String, handle_type: TaskHandleType },
    Shutdown,
    /// The snapshot was removed from disk, or could not be.
    ClearSnapshot { cleared: Result<(), DaemonError> },
    IsRestoredFromSnapshot,
    CreateEventChannel { service_name: String },
    RemoveEventChannel { service_name: String },
    EmitEvent { service_name: String, event: ServiceEvent },
    GetAllEventReceivers,
    HasEventHandler,
    SetEventHandlerSpawned,
    StoreEventHandlerTasks { handler: u64, forwarders: Vec<u64> },
    GetDiagnosticCounts,
    MergeSysEnv { overrides: NameMap<String> },
}

/// The reply to a command.
#[derive(Debug)]
pub enum ConfigReply<'a> {
    Nothing,
    Context(Option<ServiceContext<'a>>),
    /// The states of the services at these places, with their names.
    Status(Result<Vec<usize>, DaemonError>),
    ReadLogs(LogRead),
    ServiceConfig(Option<&'a RawServiceConfig>),
    Config(&'a KeplerConfig),
    Text(&'a String),
    LogConfig(&'a LogWriterConfig),
    GlobalLogs(Option<&'a LogConfig>),
    Setting(Option<bool>),
    Env(&'a NameMap<String>),
    Flag(bool),
    Names(Vec<String>),
    State(Option<&'a ServiceState>),
    Done(Result<(), DaemonError>),
    Health(Result<HealthCheckUpdate, DaemonError>),
    Process(Option<ProcessHandle>),
    OutputTasks(Option<u64>, Option<u64>),
    Counts(DiagnosticCounts),
}

/// What a command leads to.
#[derive(Debug)]
pub struct Outcome<'a> {
    pub reply: ConfigReply<'a>,
    /// Whether the configuration is to be shut down.
    pub shutdown: bool,
}

} // verus!
