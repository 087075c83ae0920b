use vstd::prelude::*;
use crate::system::read_service_logs;
use crate::text::{text_lines, views};

verus! {

/// Reads the logs of the monitored services.
pub struct LogsService {}

impl LogsService {
    /// A logs service.
    pub fn new() -> (s: LogsService) {
        LogsService {}
    }

    /// The log lines of a service from what `journalctl` printed for it
    /// (`None` where it could not be run): its lines, or the single line
    /// `Failed to read logs`.
    pub fn read_logs(&self, output: Option<&str>) -> (r: Vec<String>)
        ensures
            views(r@) == match output {
                Some(o) => text_lines(o@),
                None => seq!["Failed to read logs"@],
            },
    {
        read_service_logs(output)
    }
}

} // verus!
