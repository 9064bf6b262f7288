//! What is kept of the output of services.
use vstd::prelude::*;
use crate::config::config_value::ConfigValue;
use crate::config::duration::{parse_duration, read_duration, Duration};
use crate::config::resources::{parse_memory_limit, read_memory};

verus! {

/// What happens to logs on an occasion.
#[derive(Debug, Clone, Copy, PartialEq, Eq, Structural)]
pub enum LogRetention {
    Clear,
    Retain,
}

impl Default for LogRetention {
    fn default() -> (r: Self)
        ensures
            r == LogRetention::Clear,
    {
        LogRetention::Clear
    }
}

/// Which output is stored.
#[derive(Debug, Clone, Copy, PartialEq, Eq, Structural)]
pub enum LogStoreConfig {
    Simple(bool),
    Extended { stdout: bool, stderr: bool },
}

impl Default for LogStoreConfig {
    fn default() -> (r: Self)
        ensures
            r == LogStoreConfig::Simple(true),
    {
        LogStoreConfig::Simple(true)
    }
}

impl LogStoreConfig {
    /// Whether standard output is stored.
    pub open spec fn stores_stdout(self) -> bool {
        match self {
            LogStoreConfig::Simple(v) => v,
            LogStoreConfig::Extended { stdout, .. } => stdout,
        }
    }

    /// Whether standard error is stored.
    pub open spec fn stores_stderr(self) -> bool {
        match self {
            LogStoreConfig::Simple(v) => v,
            LogStoreConfig::Extended { stderr, .. } => stderr,
        }
    }

    /// Whether standard output is stored.
    pub fn store_stdout(&self) -> (r: bool)
        ensures
            r == self.stores_stdout(),
    {
        match self {
            LogStoreConfig::Simple(v) => *v,
            LogStoreConfig::Extended { stdout, .. } => *stdout,
        }
    }

    /// Whether standard error is stored.
    pub fn store_stderr(&self) -> (r: bool)
        ensures
            r == self.stores_stderr(),
    {
        match self {
            LogStoreConfig::Simple(v) => *v,
            LogStoreConfig::Extended { stderr, .. } => *stderr,
        }
    }
}

/// What happens to logs on each occasion.
#[derive(Debug, Clone, Copy, PartialEq, Eq, Structural)]
pub struct LogRetentionConfig {
    pub on_stop: Option<LogRetention>,
    pub on_start: Option<LogRetention>,
    pub on_restart: Option<LogRetention>,
    pub on_exit: Option<LogRetention>,
    pub on_success: Option<LogRetention>,
    pub on_failure: Option<LogRetention>,
    pub on_skipped: Option<LogRetention>,
}

impl Default for LogRetentionConfig {
    fn default() -> (r: Self)
        ensures
            r == (LogRetentionConfig {
                on_stop: None,
                on_start: None,
                on_restart: None,
                on_exit: None,
                on_success: None,
                on_failure: None,
                on_skipped: None,
            }),
    {
        LogRetentionConfig {
            on_stop: None,
            on_start: None,
            on_restart: None,
            on_exit: None,
            on_success: None,
            on_failure: None,
            on_skipped: None,
        }
    }
}

impl LogRetentionConfig {
    /// The message on settings that exclude each other.
    pub open spec fn fault(self) -> Option<Seq<char>> {
        if self.on_exit is Some && self.on_success is Some {
            Some(
                "'on_exit' and 'on_success' are mutually exclusive in log retention config"@,
            )
        } else if self.on_exit is Some && self.on_failure is Some {
            Some(
                "'on_exit' and 'on_failure' are mutually exclusive in log retention config"@,
            )
        } else {
            None
        }
    }

    /// The setting for all exits excludes those for a success and for a failure.
    pub fn validate(&self) -> (r: Result<(), String>)
        ensures
            match r {
                Ok(_) => self.fault() is None,
                Err(e) => self.fault() == Some(e@),
            },
    {
        if self.on_exit.is_some() && self.on_success.is_some() {
            return Err(
                "'on_exit' and 'on_success' are mutually exclusive in log retention config".to_owned(),
            );
        }
        if self.on_exit.is_some() && self.on_failure.is_some() {
            return Err(
                "'on_exit' and 'on_failure' are mutually exclusive in log retention config".to_owned(),
            );
        }
        Ok(())
    }
}

/// What is kept of the output of a service.
#[derive(Debug)]
pub struct LogConfig {
    pub store: Option<LogStoreConfig>,
    pub retention: Option<LogRetentionConfig>,
    pub flush_interval: ConfigValue<Option<String>>,
    pub retention_period: ConfigValue<Option<String>>,
    pub batch_size: ConfigValue<Option<usize>>,
    pub max_size: ConfigValue<Option<String>>,
    pub buffer_size: ConfigValue<Option<usize>>,
}

impl Default for LogConfig {
    fn default() -> (r: Self)
        ensures
            r.store is None,
            r.retention is None,
            r.flush_interval == ConfigValue::Static(None::<String>),
            r.retention_period == ConfigValue::Static(None::<String>),
            r.batch_size == ConfigValue::Static(None::<usize>),
            r.max_size == ConfigValue::Static(None::<String>),
            r.buffer_size == ConfigValue::Static(None::<usize>),
    {
        LogConfig {
            store: None,
            retention: None,
            flush_interval: ConfigValue::Static(None),
            retention_period: ConfigValue::Static(None),
            batch_size: ConfigValue::Static(None),
            max_size: ConfigValue::Static(None),
            buffer_size: ConfigValue::Static(None),
        }
    }
}

impl Clone for LogConfig {
    fn clone(&self) -> (r: Self)
        ensures
            r.store == self.store,
            r.retention == self.retention,
            cloned(self.flush_interval, r.flush_interval),
            cloned(self.retention_period, r.retention_period),
            cloned(self.batch_size, r.batch_size),
            cloned(self.max_size, r.max_size),
            cloned(self.buffer_size, r.buffer_size),
    {
        LogConfig {
            store: self.store,
            retention: self.retention,
            flush_interval: self.flush_interval.clone(),
            retention_period: self.retention_period.clone(),
            batch_size: self.batch_size.clone(),
            max_size: self.max_size.clone(),
            buffer_size: self.buffer_size.clone(),
        }
    }
}

/// The known number of a field.
pub open spec fn static_size(v: ConfigValue<Option<usize>>) -> Option<usize> {
    match v {
        ConfigValue::Static(n) => n,
        ConfigValue::Dynamic(_) => None,
    }
}

/// The known text of a field.
pub open spec fn static_text(v: ConfigValue<Option<String>>) -> Option<Seq<char>> {
    match v {
        ConfigValue::Static(Some(s)) => Some(s@),
        _ => None,
    }
}

/// The duration that a known text reads as.
pub open spec fn static_duration(v: ConfigValue<Option<String>>) -> Option<nat> {
    match static_text(v) {
        Some(s) => match read_duration(s) {
            Ok(n) => Some(n),
            Err(_) => None,
        },
        None => None,
    }
}

/// The size in bytes that a known text reads as.
pub open spec fn static_bytes(v: ConfigValue<Option<String>>) -> Option<nat> {
    match static_text(v) {
        Some(s) => match read_memory(s) {
            Ok(n) => Some(n),
            Err(_) => None,
        },
        None => None,
    }
}

/// The known duration of a field.
fn field_duration(v: &ConfigValue<Option<String>>) -> (r: Option<Duration>)
    ensures
        match r {
            Some(d) => static_duration(*v) == Some(d.millis as nat),
            None => static_duration(*v) is None,
        },
{
    match v {
        ConfigValue::Static(Some(s)) => match parse_duration(s.as_str()) {
            Ok(d) => Some(d),
            Err(_) => None,
        },
        _ => None,
    }
}

/// The known number of a field.
fn field_size(v: &ConfigValue<Option<usize>>) -> (r: Option<usize>)
    ensures
        r == static_size(*v),
{
    match v {
        ConfigValue::Static(n) => *n,
        ConfigValue::Dynamic(_) => None,
    }
}

impl LogConfig {
    /// The setting for a stop.
    pub open spec fn on_stop(self) -> Option<LogRetention> {
        match self.retention {
            Some(r) => r.on_stop,
            None => None,
        }
    }

    /// The setting for a start.
    pub open spec fn on_start(self) -> Option<LogRetention> {
        match self.retention {
            Some(r) => r.on_start,
            None => None,
        }
    }

    /// The setting for a restart.
    pub open spec fn on_restart(self) -> Option<LogRetention> {
        match self.retention {
            Some(r) => r.on_restart,
            None => None,
        }
    }

    /// The setting for an exit.
    pub open spec fn on_exit(self) -> Option<LogRetention> {
        match self.retention {
            Some(r) => r.on_exit,
            None => None,
        }
    }

    /// The setting for a success; without one, that for an exit.
    pub open spec fn on_success(self) -> Option<LogRetention> {
        match self.retention {
            Some(r) => if r.on_success is Some {
                r.on_success
            } else {
                r.on_exit
            },
            None => None,
        }
    }

    /// The setting for a failure; without one, that for an exit.
    pub open spec fn on_failure(self) -> Option<LogRetention> {
        match self.retention {
            Some(r) => if r.on_failure is Some {
                r.on_failure
            } else {
                r.on_exit
            },
            None => None,
        }
    }

    /// The setting for a service that is skipped.
    pub open spec fn on_skipped(self) -> Option<LogRetention> {
        match self.retention {
            Some(r) => r.on_skipped,
            None => None,
        }
    }

    /// The setting for a stop.
    pub fn get_on_stop(&self) -> (r: Option<LogRetention>)
        ensures
            r == self.on_stop(),
    {
        match &self.retention {
            Some(c) => c.on_stop,
            None => None,
        }
    }

    /// The setting for a start.
    pub fn get_on_start(&self) -> (r: Option<LogRetention>)
        ensures
            r == self.on_start(),
    {
        match &self.retention {
            Some(c) => c.on_start,
            None => None,
        }
    }

    /// The setting for a restart.
    pub fn get_on_restart(&self) -> (r: Option<LogRetention>)
        ensures
            r == self.on_restart(),
    {
        match &self.retention {
            Some(c) => c.on_restart,
            None => None,
        }
    }

    /// The setting for an exit.
    pub fn get_on_exit(&self) -> (r: Option<LogRetention>)
        ensures
            r == self.on_exit(),
    {
        match &self.retention {
            Some(c) => c.on_exit,
            None => None,
        }
    }

    /// The setting for a success; without one, that for an exit.
    pub fn get_on_success(&self) -> (r: Option<LogRetention>)
        ensures
            r == self.on_success(),
    {
        match &self.retention {
            Some(c) => match c.on_success {
                Some(v) => Some(v),
                None => c.on_exit,
            },
            None => None,
        }
    }

    /// The setting for a failure; without one, that for an exit.
    pub fn get_on_failure(&self) -> (r: Option<LogRetention>)
        ensures
            r == self.on_failure(),
    {
        match &self.retention {
            Some(c) => match c.on_failure {
                Some(v) => Some(v),
                None => c.on_exit,
            },
            None => None,
        }
    }

    /// The setting for a service that is skipped.
    pub fn get_on_skipped(&self) -> (r: Option<LogRetention>)
        ensures
            r == self.on_skipped(),
    {
        match &self.retention {
            Some(c) => c.on_skipped,
            None => None,
        }
    }

    /// How often logs are written out, if it is known and reads as a duration.
    pub fn flush_interval(&self) -> (r: Option<Duration>)
        ensures
            match r {
                Some(d) => static_duration(self.flush_interval) == Some(d.millis as nat),
                None => static_duration(self.flush_interval) is None,
            },
    {
        field_duration(&self.flush_interval)
    }

    /// How long logs are kept, if it is known and reads as a duration.
    pub fn retention_period(&self) -> (r: Option<Duration>)
        ensures
            match r {
                Some(d) => static_duration(self.retention_period) == Some(d.millis as nat),
                None => static_duration(self.retention_period) is None,
            },
    {
        field_duration(&self.retention_period)
    }

    /// How many lines are written at once, if it is known.
    pub fn batch_size(&self) -> (r: Option<usize>)
        ensures
            r == static_size(self.batch_size),
    {
        field_size(&self.batch_size)
    }

    /// The greatest size of a log in bytes, if it is known and reads as a size.
    pub fn max_size_bytes(&self) -> (r: Option<u64>)
        ensures
            match r {
                Some(n) => static_bytes(self.max_size) == Some(n as nat),
                None => static_bytes(self.max_size) is None,
            },
    {
        match &self.max_size {
            ConfigValue::Static(Some(s)) => match parse_memory_limit(s.as_str()) {
                Ok(n) => Some(n),
                Err(_) => None,
            },
            _ => None,
        }
    }

    /// The size of the buffer in bytes, if it is known.
    pub fn buffer_bytes(&self) -> (r: Option<usize>)
        ensures
            r == static_size(self.buffer_size),
    {
        field_size(&self.buffer_size)
    }
}

/// The first of two optional settings that is given, else a default.
pub open spec fn first_given<T>(service: Option<T>, global: Option<T>, default: T) -> T {
    match service {
        Some(v) => v,
        None => match global {
            Some(v) => v,
            None => default,
        },
    }
}

/// What happens to logs on an occasion: the setting of the service comes before the global one,
/// and that one before the default. `get_field` reads the setting for the occasion.
pub fn resolve_log_retention<F: Fn(&LogConfig) -> Option<LogRetention>>(
    service_logs: Option<&LogConfig>,
    global_logs: Option<&LogConfig>,
    get_field: F,
    default: LogRetention,
) -> (r: LogRetention)
    requires
        forall|l: &LogConfig| call_requires(get_field, (l,)),
    ensures
        exists|s: Option<LogRetention>, g: Option<LogRetention>|
            #![trigger first_given(s, g, default)]
            {
                &&& r == first_given(s, g, default)
                &&& match service_logs {
                    Some(l) => call_ensures(get_field, (l,), s),
                    None => s is None,
                }
                &&& s is None ==> match global_logs {
                    Some(l) => call_ensures(get_field, (l,), g),
                    None => g is None,
                }
            },
{
    let s: Option<LogRetention> = match service_logs {
        Some(l) => get_field(l),
        None => None,
    };
    match s {
        Some(v) => {
            assert(v == first_given(s, None, default));
            v
        },
        None => {
            let g: Option<LogRetention> = match global_logs {
                Some(l) => get_field(l),
                None => None,
            };
            let ghost witness = first_given(s, g, default);
            match g {
                Some(v) => v,
                None => default,
            }
        },
    }
}

/// The storage settings of optional log settings.
pub open spec fn store_of(logs: Option<&LogConfig>) -> Option<LogStoreConfig> {
    match logs {
        Some(l) => l.store,
        None => None,
    }
}

/// Whether standard output and standard error are stored: the setting of the service comes
/// before the global one, and by default both are.
pub fn resolve_log_store(service_logs: Option<&LogConfig>, global_logs: Option<&LogConfig>) -> (r: (
    bool,
    bool,
))
    ensures
        ({
            let store = first_given(
                store_of(service_logs),
                store_of(global_logs),
                LogStoreConfig::Simple(true),
            );
            r == (store.stores_stdout(), store.stores_stderr())
        }),
{
    if let Some(l) = service_logs {
        if let Some(c) = &l.store {
            return (c.store_stdout(), c.store_stderr());
        }
    }
    if let Some(l) = global_logs {
        if let Some(c) = &l.store {
            return (c.store_stdout(), c.store_stderr());
        }
    }
    (true, true)
}

/// The known size limit of optional log settings.
pub open spec fn max_size_of(logs: Option<&LogConfig>) -> Option<nat> {
    match logs {
        Some(l) => static_bytes(l.max_size),
        None => None,
    }
}

/// The greatest size of a log in bytes: the setting of the service comes before the global one,
/// and without either there is no limit.
pub fn resolve_log_max_size(
    service_logs: Option<&LogConfig>,
    global_logs: Option<&LogConfig>,
) -> (r: Option<u64>)
    ensures
        match r {
            Some(n) => if max_size_of(service_logs) is Some {
                max_size_of(service_logs) == Some(n as nat)
            } else {
                max_size_of(global_logs) == Some(n as nat)
            },
            None => max_size_of(service_logs) is None && max_size_of(global_logs) is None,
        },
{
    if let Some(l) = service_logs {
        if let Some(n) = l.max_size_bytes() {
            return Some(n);
        }
    }
    match global_logs {
        Some(l) => l.max_size_bytes(),
        None => None,
    }
}

/// The known buffer size of optional log settings.
pub open spec fn buffer_size_of(logs: Option<&LogConfig>) -> Option<usize> {
    match logs {
        Some(l) => static_size(l.buffer_size),
        None => None,
    }
}

/// The size of the buffer in bytes: the setting of the service comes before the global one, and
/// that one before the default.
pub fn resolve_log_buffer_size(
    service_logs: Option<&LogConfig>,
    global_logs: Option<&LogConfig>,
    default_buffer_size: usize,
) -> (r: usize)
    ensures
        r == first_given(
            buffer_size_of(service_logs),
            buffer_size_of(global_logs),
            default_buffer_size,
        ),
{
    if let Some(l) = service_logs {
        if let Some(n) = l.buffer_bytes() {
            return n;
        }
    }
    if let Some(l) = global_logs {
        if let Some(n) = l.buffer_bytes() {
            return n;
        }
    }
    default_buffer_size
}

/// Each occasion has its own setting. A success and a failure without one go by the setting for an
/// exit.
pub proof fn law_occasions_have_their_own_setting(
    logs: LogConfig,
    kept: LogRetentionConfig,
    r: Option<LogRetention>,
)
    requires
        logs.retention == Some(kept),
    ensures
        call_ensures(LogConfig::get_on_stop, (&logs,), r) ==> r == kept.on_stop,
        call_ensures(LogConfig::get_on_start, (&logs,), r) ==> r == kept.on_start,
        call_ensures(LogConfig::get_on_restart, (&logs,), r) ==> r == kept.on_restart,
        call_ensures(LogConfig::get_on_exit, (&logs,), r) ==> r == kept.on_exit,
        call_ensures(LogConfig::get_on_skipped, (&logs,), r) ==> r == kept.on_skipped,
        call_ensures(LogConfig::get_on_success, (&logs,), r) ==> (match kept.on_success {
            Some(v) => r == Some(v),
            None => r == kept.on_exit,
        }),
        call_ensures(LogConfig::get_on_failure, (&logs,), r) ==> (match kept.on_failure {
            Some(v) => r == Some(v),
            None => r == kept.on_exit,
        }),
{
}

/// Without retention settings nothing is set for any occasion.
pub proof fn law_no_setting_without_retention(logs: LogConfig, r: Option<LogRetention>)
    requires
        logs.retention is None,
    ensures
        call_ensures(LogConfig::get_on_stop, (&logs,), r) ==> r is None,
        call_ensures(LogConfig::get_on_start, (&logs,), r) ==> r is None,
        call_ensures(LogConfig::get_on_restart, (&logs,), r) ==> r is None,
        call_ensures(LogConfig::get_on_exit, (&logs,), r) ==> r is None,
        call_ensures(LogConfig::get_on_success, (&logs,), r) ==> r is None,
        call_ensures(LogConfig::get_on_failure, (&logs,), r) ==> r is None,
        call_ensures(LogConfig::get_on_skipped, (&logs,), r) ==> r is None,
{
}

/// The setting of the service comes before the global one, and that one before the default.
pub proof fn law_service_retention_comes_first<F: Fn(&LogConfig) -> Option<LogRetention>>(
    service: Option<&LogConfig>,
    global: Option<&LogConfig>,
    get: F,
    default: LogRetention,
    of_service: Option<LogRetention>,
    of_global: Option<LogRetention>,
    r: LogRetention,
)
    requires
        call_ensures(resolve_log_retention::<F>, (service, global, get, default), r),
        match service {
            Some(l) => forall|x: Option<LogRetention>| #[trigger]
                call_ensures(get, (l,), x) ==> x == of_service,
            None => of_service is None,
        },
        match global {
            Some(l) => forall|x: Option<LogRetention>| #[trigger]
                call_ensures(get, (l,), x) ==> x == of_global,
            None => of_global is None,
        },
    ensures
        of_service is Some ==> Some(r) == of_service,
        of_service is None && of_global is Some ==> Some(r) == of_global,
        of_service is None && of_global is None ==> r == default,
{
}

/// What is stored: what the service says of each of its two outputs, else what is said globally,
/// else both.
pub proof fn law_service_store_comes_first(
    service: Option<&LogConfig>,
    global: Option<&LogConfig>,
    r: (bool, bool),
)
    requires
        call_ensures(resolve_log_store, (service, global), r),
    ensures
        ({
            let own = match service {
                Some(l) => l.store,
                None => None,
            };
            let shared = match global {
                Some(l) => l.store,
                None => None,
            };
            &&& own matches Some(LogStoreConfig::Simple(b)) ==> r == (b, b)
            &&& own matches Some(LogStoreConfig::Extended { stdout, stderr }) ==> r == (
                stdout,
                stderr,
            )
            &&& own is None ==> {
                &&& shared matches Some(LogStoreConfig::Simple(b)) ==> r == (b, b)
                &&& shared matches Some(LogStoreConfig::Extended { stdout, stderr }) ==> r == (
                    stdout,
                    stderr,
                )
                &&& shared is None ==> r == (true, true)
            }
        }),
{
}

/// The size of a log and of its buffer: what the service says, else what is said globally, else no
/// limit and the default. What does not read as a size is not said.
pub proof fn law_service_sizes_come_first(
    service: LogConfig,
    global: LogConfig,
    own: Option<u64>,
    shared: Option<u64>,
    limit: Option<u64>,
    alone: Option<u64>,
    none: Option<u64>,
    default: usize,
    buffer: usize,
    bare: usize,
)
    requires
        call_ensures(LogConfig::max_size_bytes, (&service,), own),
        call_ensures(LogConfig::max_size_bytes, (&global,), shared),
        call_ensures(resolve_log_max_size, (Some(&service), Some(&global)), limit),
        call_ensures(resolve_log_max_size, (None, Some(&global)), alone),
        call_ensures(resolve_log_max_size, (None, None), none),
        call_ensures(resolve_log_buffer_size, (Some(&service), Some(&global), default), buffer),
        call_ensures(resolve_log_buffer_size, (None, None, default), bare),
    ensures
        own is Some ==> limit == own,
        own is None ==> limit == shared,
        alone == shared,
        none is None,
        service.buffer_size matches ConfigValue::Static(Some(n)) ==> buffer == n,
        service.buffer_size matches ConfigValue::Static(None) ==> {
            &&& global.buffer_size matches ConfigValue::Static(Some(n)) ==> buffer == n
            &&& global.buffer_size matches ConfigValue::Static(None) ==> buffer == default
        },
        bare == default,
{
}

/// A known size, interval or period of logs is what its text reads as, and one that is computed
/// or does not read is not known.
pub proof fn law_log_fields_are_read(
    logs: LogConfig,
    text: &str,
    size: Result<u64, String>,
    span: Result<Duration, String>,
    bytes: Option<u64>,
    flush: Option<Duration>,
    period: Option<Duration>,
    batch: Option<usize>,
)
    requires
        call_ensures(parse_memory_limit, (text,), size),
        call_ensures(parse_duration, (text,), span),
        call_ensures(LogConfig::max_size_bytes, (&logs,), bytes),
        call_ensures(LogConfig::flush_interval, (&logs,), flush),
        call_ensures(LogConfig::retention_period, (&logs,), period),
        call_ensures(LogConfig::batch_size, (&logs,), batch),
    ensures
        logs.max_size matches ConfigValue::Static(Some(s)) ==> s@ == text@ ==> match size {
            Ok(n) => bytes == Some(n),
            Err(_) => bytes is None,
        },
        logs.flush_interval matches ConfigValue::Static(Some(s)) ==> s@ == text@ ==> match span {
            Ok(d) => flush == Some(d),
            Err(_) => flush is None,
        },
        logs.retention_period matches ConfigValue::Static(Some(s)) ==> s@ == text@ ==> match span {
            Ok(d) => period == Some(d),
            Err(_) => period is None,
        },
        logs.max_size is Dynamic ==> bytes is None,
        logs.flush_interval is Dynamic ==> flush is None,
        logs.retention_period is Dynamic ==> period is None,
        logs.batch_size matches ConfigValue::Static(n) ==> batch == n,
        logs.batch_size is Dynamic ==> batch is None,
{
}

/// A setting for all exits stands beside none for a success and none for a failure.
pub proof fn law_exit_excludes_success_and_failure(c: LogRetentionConfig, r: Result<(), String>)
    requires
        call_ensures(LogRetentionConfig::validate, (&c,), r),
    ensures
        r is Err <==> c.on_exit is Some && (c.on_success is Some || c.on_failure is Some),
{
}

} // verus!
