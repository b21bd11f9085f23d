//! Task argument protocols and resource kinds.
//!
//! A task's arguments are produced by an `ArgsProtocol` implementor;
//! process spawning, supervision and signalling stay at the edge of the
//! program.

use vstd::prelude::*;
use vstd::string::StringExecFns;

verus! {

/// Arguments a task hands to its command line.
pub trait ArgsProtocol {
    /// The argument strings this value renders, in order.
    spec fn args_view(&self) -> Seq<Seq<char>>;

    /// Renders exactly those arguments.
    fn to_command_args(&self) -> (r: Vec<String>)
        ensures
            r.deep_view() == self.args_view(),
    ;
}

/// Arguments that run one module of a Python interpreter.
#[derive(Debug)]
pub struct PythonArgs {
    pub module: String,
}

impl PythonArgs {
    /// Arguments for the named module.
    pub fn new(data: String) -> (r: PythonArgs)
        ensures
            r.module == data,
    {
        PythonArgs { module: data }
    }
}

impl ArgsProtocol for PythonArgs {
    /// The module flag, the module, and the help flag, in that order.
    open spec fn args_view(&self) -> Seq<Seq<char>> {
        seq!["-m"@, self.module@, "--help"@]
    }

    fn to_command_args(&self) -> (r: Vec<String>) {
        let mut args: Vec<String> = Vec::new();
        args.push(String::from_str("-m"));
        args.push(self.module.clone());
        args.push(String::from_str("--help"));
        proof {
            assert(args.deep_view() =~= seq!["-m"@, self.module@, "--help"@]);
        }
        args
    }
}

/// The kind of a resource a test task can hold.
#[derive(Debug, Clone, Copy, PartialEq, Eq, Structural)]
pub enum ResourceType {
    /// A software resource, such as a port.
    Software,
    /// A hardware resource, such as an attached device.
    Hardware,
}

} // verus!
