//! Errors of running a processing-engine plugin.
use vstd::prelude::*;

verus! {

/// Why a plugin could not be run.
#[derive(Debug, Clone)]
pub enum ExecutePluginError {
    MissingProcessWritesFunction,
    MissingProcessRequestFunction,
    MissingProcessScheduledCallFunction,
    /// The plugin failed; the text is its own error's.
    PluginError(String),
}

impl ExecutePluginError {
    /// The error's message.
    pub fn message(&self) -> (r: String)
        ensures
            self is MissingProcessWritesFunction ==> r@ == "the process_writes function is not present in the plugin. Should be defined as: process_writes(influxdb3_local, table_batches, args=None)"@,
            self is MissingProcessRequestFunction ==> r@ == "the process_request function is not present in the plugin. Should be defined as: process_request(influxdb3_local, query_parameters, request_headers, request_body, args=None) -> Tuple[str, Optional[Dict[str, str]]]"@,
            self is MissingProcessScheduledCallFunction ==> r@ == "the process_scheduled_call function is not present in the plugin. Should be defined as: process_scheduled_call(influxdb3_local, call_time, args=None)"@,
            self is PluginError ==> r@ == "Error from plugin"@,
    {
        match self {
            ExecutePluginError::MissingProcessWritesFunction => "the process_writes function is not present in the plugin. Should be defined as: process_writes(influxdb3_local, table_batches, args=None)".to_owned(),
            ExecutePluginError::MissingProcessRequestFunction => "the process_request function is not present in the plugin. Should be defined as: process_request(influxdb3_local, query_parameters, request_headers, request_body, args=None) -> Tuple[str, Optional[Dict[str, str]]]".to_owned(),
            ExecutePluginError::MissingProcessScheduledCallFunction => "the process_scheduled_call function is not present in the plugin. Should be defined as: process_scheduled_call(influxdb3_local, call_time, args=None)".to_owned(),
            ExecutePluginError::PluginError(_) => "Error from plugin".to_owned(),
        }
    }
}

} // verus!
