//! Options that steer a coverage run.
use vstd::prelude::*;

verus! {

/// The options of a coverage run that the engine reads.
#[derive(Debug)]
pub struct Config {
    /// Print diagnostic messages.
    pub verbose: bool,
    /// Count every hit rather than only whether a line ran.
    pub count: bool,
    /// Hand signals the engine does not handle back to the tracee.
    pub forward_signals: bool,
    /// Also run the tests marked as ignored.
    pub run_ignored: bool,
    /// Arguments passed on to the test binary after the engine's own.
    pub varargs: Vec<String>,
    /// Key for the coveralls service, if a report is to be sent there.
    pub coveralls: Option<String>,
    /// Continuous integration service the report comes from.
    pub ci_tool: Option<String>,
    /// Endpoint that receives the report in place of coveralls.io.
    pub report_uri: Option<String>,
}

impl Config {
    /// Options with every flag off and no arguments.
    pub fn new() -> (r: Config)
        ensures
            !r.verbose,
            !r.count,
            !r.forward_signals,
            !r.run_ignored,
            r.varargs@.len() == 0,
            r.coveralls.is_none(),
            r.ci_tool.is_none(),
            r.report_uri.is_none(),
    {
        Config {
            verbose: false,
            count: false,
            forward_signals: false,
            run_ignored: false,
            varargs: Vec::new(),
            coveralls: None,
            ci_tool: None,
            report_uri: None,
        }
    }
}

} // verus!
