//! Source configurations. Sources emit on their default output only.

use vstd::prelude::*;

use crate::output::{default_word, ComponentWithOutputs, NamedOutput};

pub mod random_logs;
pub mod sysinfo;
pub mod tcp_server;

verus! {

/// A source as configured.
pub enum Config {
    RandomLogs(random_logs::Config),
    Sysinfo(sysinfo::Config),
    TcpServer(tcp_server::Config),
}

impl ComponentWithOutputs for Config {
    /// A source declares its default output only.
    open spec fn declares(&self, output: Seq<char>) -> bool {
        output == default_word()
    }

    fn has_output(&self, output: &NamedOutput) -> (r: bool) {
        output.is_default_name()
    }
}

} // verus!
