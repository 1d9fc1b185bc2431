//! The sink's configuration, and what follows from it: the endpoint, the
//! batch limits, the retry policy and the parts of the engine.

use crate::ack::{Acker, AckerModel};
use crate::batch::{BatchError, BatchSettings, BufferModel};
use crate::dispatch::{limit_ok, Dispatcher, DispatcherModel, RetryLimit, RetryPolicy};
use crate::encoding::{Encoding, EncodingStrategy, FieldRules, LogSchema};
use crate::engine::Engine;
use crate::event::names_of;
use crate::request::{Compression, RequestBuilder};
use crate::scheduler::BatchScheduler;
use vstd::prelude::*;

verus! {

/// The region of the intake. Superseded by the site option.
#[derive(Clone, Copy, Debug, PartialEq, Eq)]
pub enum Region {
    Us,
    Eu,
}

/// The kind of events that the sink takes.
#[derive(Clone, Copy, Debug, PartialEq, Eq)]
pub enum DataType {
    Any,
    Log,
    Metric,
}

/// The encoding and the field rules.
#[derive(Clone, Debug, PartialEq, Eq)]
pub struct EncodingConfig {
    pub codec: Encoding,
    pub only_fields: Option<Vec<String>>,
    pub except_fields: Option<Vec<String>>,
}

/// The batch limits as configured; what is left out takes its default.
#[derive(Clone, Copy, Debug, PartialEq, Eq)]
pub struct BatchConfig {
    pub max_bytes: Option<usize>,
    pub max_events: Option<usize>,
    pub timeout_secs: Option<u64>,
}

/// The request limits as configured; what is left out takes its default.
#[derive(Clone, Copy, Debug, PartialEq, Eq)]
pub struct RequestConfig {
    /// The most requests in flight at once; 5 by default.
    pub concurrency: Option<usize>,
    /// The most attempts per request. Where left out, attempts are
    /// unbounded and retrying stops when `retry_max_duration_secs` have
    /// passed.
    pub retry_attempts: Option<u32>,
    /// The first backoff; one second by default.
    pub retry_initial_backoff_secs: Option<u64>,
    /// The longest backoff; one hour by default.
    pub retry_max_duration_secs: Option<u64>,
}

/// Configuration of the Datadog logs sink.
#[derive(Clone, Debug, PartialEq, Eq)]
pub struct DatadogLogsConfig {
    pub endpoint: Option<String>,
    pub region: Option<Region>,
    pub site: Option<String>,
    pub api_key: String,
    pub encoding: EncodingConfig,
    pub compression: Option<Compression>,
    pub batch: BatchConfig,
    pub request: RequestConfig,
}

/// What one configuration builds: the engine, the limiter in front of the
/// transport, and the retry policy.
pub struct SinkParts {
    pub engine: Engine,
    pub dispatcher: Dispatcher,
    pub policy: RetryPolicy,
}

/// `bytesize::kib`: the number of bytes in `size` kibibytes, which is
/// `size` times 1024. Sizes whose product does not fit are left out.
#[verifier::external_body]
fn kib(size: u64) -> (bytes: u64)
    requires
        size * 1024 <= u64::MAX,
    ensures
        bytes == size * 1024,
{
    bytesize::kib(size)
}

/// Seconds in milliseconds, or the largest `u64` where that is too large.
pub open spec fn millis(secs: u64) -> u64 {
    if secs * 1000 > u64::MAX {
        u64::MAX
    } else {
        (secs * 1000) as u64
    }
}

/// Seconds in milliseconds, saturating.
pub fn to_millis(secs: u64) -> (ms: u64)
    ensures
        ms == millis(secs),
{
    if secs > u64::MAX / 1000 {
        u64::MAX
    } else {
        secs * 1000
    }
}

/// The endpoint: the one configured; else the intake of the configured
/// site; else that of the region, the US one by default.
pub open spec fn endpoint_of(
    endpoint: Option<Seq<char>>,
    site: Option<Seq<char>>,
    region: Option<Region>,
) -> Seq<char> {
    match endpoint {
        Some(e) => e,
        None => match site {
            Some(s) => "https://http-intake.logs."@ + s + "/v1/input"@,
            None => match region {
                Some(Region::Eu) => "https://http-intake.logs.datadoghq.eu/v1/input"@,
                _ => "https://http-intake.logs.datadoghq.com/v1/input"@,
            },
        },
    }
}

/// The batch limits of a configuration: 100 KiB, 20 events and one second
/// unless configured otherwise. A limit of zero is an error, reported in
/// the order bytes, events, timeout.
pub open spec fn settings_of(batch: BatchConfig) -> Result<BatchSettings, BatchError> {
    let max_bytes = match batch.max_bytes {
        Some(n) => n,
        None => 102400usize,
    };
    let max_events = match batch.max_events {
        Some(n) => n,
        None => 20usize,
    };
    let flush_timeout = millis(
        match batch.timeout_secs {
            Some(n) => n,
            None => 1u64,
        },
    );
    if max_bytes == 0 {
        Err(BatchError::InvalidMaxBytes)
    } else if max_events == 0 {
        Err(BatchError::InvalidMaxEvents)
    } else if flush_timeout == 0 {
        Err(BatchError::InvalidTimeout)
    } else {
        Ok(BatchSettings { max_bytes, max_events, flush_timeout })
    }
}

/// The retry policy of a configuration.
pub open spec fn policy_of(request: RequestConfig) -> RetryPolicy {
    let max_backoff = millis(
        match request.retry_max_duration_secs {
            Some(n) => n,
            None => 3600u64,
        },
    );
    RetryPolicy {
        limit: match request.retry_attempts {
            Some(n) => RetryLimit::Attempts(n),
            None => RetryLimit::Elapsed(max_backoff),
        },
        initial_backoff: millis(
            match request.retry_initial_backoff_secs {
                Some(n) => n,
                None => 1u64,
            },
        ),
        max_backoff,
    }
}

/// A copy of a list of names.
pub fn clone_names(names: &Vec<String>) -> (copy: Vec<String>)
    ensures
        names_of(copy@) == names_of(names@),
{
    let mut copy: Vec<String> = Vec::new();
    let mut i: usize = 0;
    while i < names.len()
        invariant
            i <= names.len(),
            copy.len() == i,
            forall|j: int| 0 <= j < i ==> copy[j]@ == names[j]@,
        decreases names.len() - i,
    {
        copy.push(names[i].clone());
        i += 1;
    }
    assert(names_of(copy@) =~= names_of(names@));
    copy
}

/// Whether two optional lists hold the same names, or are both left out.
pub open spec fn same_names(a: Option<Vec<String>>, b: Option<Vec<String>>) -> bool {
    match (a, b) {
        (Some(c), Some(n)) => names_of(c@) == names_of(n@),
        (None, None) => true,
        _ => false,
    }
}

fn clone_rule(names: &Option<Vec<String>>) -> (copy: Option<Vec<String>>)
    ensures
        same_names(copy, *names),
{
    match names {
        Some(n) => Some(clone_names(n)),
        None => None,
    }
}

impl BatchConfig {
    /// No limit configured: every limit takes its default.
    pub fn unset() -> (b: BatchConfig)
        ensures
            b == (BatchConfig { max_bytes: None, max_events: None, timeout_secs: None }),
    {
        BatchConfig { max_bytes: None, max_events: None, timeout_secs: None }
    }
}

impl RequestConfig {
    /// No limit configured: every limit takes its default.
    pub fn unset() -> (r: RequestConfig)
        ensures
            r == (RequestConfig {
                concurrency: None,
                retry_attempts: None,
                retry_initial_backoff_secs: None,
                retry_max_duration_secs: None,
            }),
    {
        RequestConfig {
            concurrency: None,
            retry_attempts: None,
            retry_initial_backoff_secs: None,
            retry_max_duration_secs: None,
        }
    }
}

impl DatadogLogsConfig {
    /// A configuration with the API key and the encoding, and every other
    /// option left out.
    pub fn new(api_key: String, codec: Encoding) -> (c: DatadogLogsConfig)
        ensures
            c.api_key == api_key,
            c.encoding.codec == codec,
            c.encoding.only_fields is None,
            c.encoding.except_fields is None,
            c.endpoint is None,
            c.region is None,
            c.site is None,
            c.compression is None,
            c.batch == (BatchConfig { max_bytes: None, max_events: None, timeout_secs: None }),
            c.request == (RequestConfig {
                concurrency: None,
                retry_attempts: None,
                retry_initial_backoff_secs: None,
                retry_max_duration_secs: None,
            }),
    {
        DatadogLogsConfig {
            endpoint: None,
            region: None,
            site: None,
            api_key,
            encoding: EncodingConfig { codec, only_fields: None, except_fields: None },
            compression: None,
            batch: BatchConfig::unset(),
            request: RequestConfig::unset(),
        }
    }

    /// An example configuration, as TOML text.
    pub fn generate_config() -> (text: String)
        ensures
            text@ == "api_key = \"${DATADOG_API_KEY_ENV_VAR}\"\nencoding.codec = \"json\"\n"@,
    {
        "api_key = \"${DATADOG_API_KEY_ENV_VAR}\"\nencoding.codec = \"json\"\n".to_owned()
    }

    /// The endpoint of this configuration.
    pub open spec fn uri(&self) -> Seq<char> {
        endpoint_of(
            match self.endpoint {
                Some(e) => Some(e@),
                None => None,
            },
            match self.site {
                Some(s) => Some(s@),
                None => None,
            },
            self.region,
        )
    }

    /// The compression of this configuration: gzip at the default level
    /// unless configured otherwise.
    pub open spec fn compression_mode(&self) -> Compression {
        match self.compression {
            Some(c) => c,
            None => Compression::Gzip(None),
        }
    }

    /// The endpoint to which requests go.
    pub fn get_uri(&self) -> (uri: String)
        ensures
            uri@ == self.uri(),
    {
        match &self.endpoint {
            Some(e) => e.clone(),
            None => match &self.site {
                Some(s) => {
                    let mut uri = String::new();
                    uri.push_str("https://http-intake.logs.");
                    uri.push_str(s.as_str());
                    uri.push_str("/v1/input");
                    assert(uri@ =~= "https://http-intake.logs."@ + s@ + "/v1/input"@);
                    uri
                },
                None => match self.region {
                    Some(Region::Eu) => "https://http-intake.logs.datadoghq.eu/v1/input".to_owned(),
                    _ => "https://http-intake.logs.datadoghq.com/v1/input".to_owned(),
                },
            },
        }
    }

    /// The batch limits.
    pub fn batch_settings(&self) -> (r: Result<BatchSettings, BatchError>)
        ensures
            r == settings_of(self.batch),
            r matches Ok(s) ==> s.valid(),
    {
        let max_bytes: usize = match self.batch.max_bytes {
            Some(n) => n,
            None => kib(100) as usize,
        };
        let max_events: usize = match self.batch.max_events {
            Some(n) => n,
            None => 20,
        };
        let secs: u64 = match self.batch.timeout_secs {
            Some(n) => n,
            None => 1,
        };
        BatchSettings::new(max_bytes, max_events, to_millis(secs))
    }

    /// The retry policy.
    pub fn retry_policy(&self) -> (p: RetryPolicy)
        ensures
            p == policy_of(self.request),
    {
        let max_backoff = to_millis(
            match self.request.retry_max_duration_secs {
                Some(n) => n,
                None => 3600,
            },
        );
        RetryPolicy {
            limit: match self.request.retry_attempts {
                Some(n) => RetryLimit::Attempts(n),
                None => RetryLimit::Elapsed(max_backoff),
            },
            initial_backoff: to_millis(
                match self.request.retry_initial_backoff_secs {
                    Some(n) => n,
                    None => 1,
                },
            ),
            max_backoff,
        }
    }

    /// Whether `s` is the strategy of this configuration: the configured
    /// codec and field rules, the standard schema, and the configured API
    /// key as the default partition key.
    pub open spec fn configures(&self, s: EncodingStrategy) -> bool {
        &&& s.kind == self.encoding.codec
        &&& s.default_key@ == self.api_key@
        &&& s.schema.message_key@ == "message"@
        &&& s.schema.timestamp_key@ == "timestamp"@
        &&& s.schema.host_key@ == "host"@
        &&& same_names(s.rules.only_fields, self.encoding.only_fields)
        &&& same_names(s.rules.except_fields, self.encoding.except_fields)
    }

    /// The encoding strategy.
    pub fn strategy(&self) -> (s: EncodingStrategy)
        ensures
            self.configures(s),
    {
        EncodingStrategy {
            kind: self.encoding.codec,
            default_key: self.api_key.clone(),
            rules: FieldRules {
                only_fields: clone_rule(&self.encoding.only_fields),
                except_fields: clone_rule(&self.encoding.except_fields),
            },
            schema: LogSchema::standard(),
        }
    }

    /// The request builder: the endpoint, the codec and the compression.
    pub fn request_builder(&self) -> (b: RequestBuilder)
        ensures
            b.uri@ == self.uri(),
            b.encoding == self.encoding.codec,
            b.compression == self.compression_mode(),
    {
        RequestBuilder {
            uri: self.get_uri(),
            encoding: self.encoding.codec,
            compression: match self.compression {
                Some(c) => c,
                None => Compression::Gzip(None),
            },
        }
    }

    /// Builds the sink. It fails exactly where the batch limits are
    /// refused. The engine starts without open buffers and with nothing
    /// admitted, the dispatcher with nothing in flight under the
    /// configured ceiling (5 by default).
    pub fn build(&self) -> (r: Result<SinkParts, BatchError>)
        ensures
            match r {
                Ok(parts) => {
                    &&& settings_of(self.batch) == Ok::<BatchSettings, BatchError>(
                        parts.engine.scheduler.settings(),
                    )
                    &&& parts.engine.wf()
                    &&& parts.engine.scheduler@ == Map::<Seq<char>, BufferModel>::empty()
                    &&& parts.engine.acker@ == (AckerModel { released: 0, flags: Seq::empty() })
                    &&& self.configures(parts.engine.strategy)
                    &&& parts.engine.builder.uri@ == self.uri()
                    &&& parts.engine.builder.encoding == self.encoding.codec
                    &&& parts.engine.builder.compression == self.compression_mode()
                    &&& parts.policy == policy_of(self.request)
                    &&& limit_ok(parts.dispatcher@)
                    &&& parts.dispatcher@ == (DispatcherModel {
                        ceiling: match self.request.concurrency {
                            Some(n) => if n == 0 {
                                1
                            } else {
                                n as nat
                            },
                            None => 5,
                        },
                        in_flight: 0,
                        waiting: Seq::empty(),
                    })
                },
                Err(e) => settings_of(self.batch) == Err::<BatchSettings, BatchError>(e),
            },
    {
        match self.batch_settings() {
            Err(e) => Err(e),
            Ok(settings) => {
                let ceiling: usize = match self.request.concurrency {
                    Some(n) => n,
                    None => 5,
                };
                Ok(
                    SinkParts {
                        engine: Engine {
                            strategy: self.strategy(),
                            scheduler: BatchScheduler::new(settings),
                            builder: self.request_builder(),
                            acker: Acker::new(),
                        },
                        dispatcher: Dispatcher::new(ceiling),
                        policy: self.retry_policy(),
                    },
                )
            },
        }
    }

    /// The kind of events that the sink takes: logs.
    pub fn input_type(&self) -> (t: DataType)
        ensures
            t == DataType::Log,
    {
        DataType::Log
    }

    /// The name of the sink.
    pub fn sink_type(&self) -> (name: &'static str)
        ensures
            name@ == "datadog_logs"@,
    {
        "datadog_logs"
    }
}

} // verus!
