//! What a miner was started to do.
use crate::driver::SolveError;
use crate::session::{BackendIdentity, ExitCode};
use vstd::prelude::*;
use vstd::string::*;

verus! {

/// Flags every miner accepts.
#[derive(Clone, Debug)]
pub struct CommonArgs {
    /// Coordinator endpoint, e.g. `unix:///run/quip/coord.sock`.
    pub quip_coordinator: Option<String>,
    /// Miner id in Hello / Status. Defaults to `<backend>-0`.
    pub miner_id: Option<String>,
    /// Print the capabilities JSON and exit.
    pub capabilities: bool,
    /// Read one problem as JSON on stdin, write its solutions as JSON on
    /// stdout, and exit.
    pub solve: bool,
    /// Probe that the backend is runnable and exit.
    pub check: bool,
    /// Log level.
    pub log_level: String,
    /// Sweeps per beta rung in the annealing schedule (at least 1).
    pub sweeps_per_beta: Option<usize>,
}

impl CommonArgs {
    /// At most one of the flags that answer and exit, and sweeps that a backend
    /// can divide by.
    pub open spec fn consistent(self) -> bool {
        &&& !(self.capabilities && self.solve)
        &&& !(self.capabilities && self.check)
        &&& !(self.solve && self.check)
        &&& self.sweeps_per_beta matches Some(n) ==> n >= 1
    }

    /// Whether the flags can stand together. Two flags that each answer and
    /// exit are a caller mistake, and not something to resolve by precedence:
    /// a check that prints capabilities instead would report a broken node as
    /// healthy.
    #[must_use]
    pub fn is_consistent(&self) -> (ok: bool)
        ensures
            ok == self.consistent(),
    {
        let divisible: bool = match self.sweeps_per_beta {
            Some(n) => n >= 1,
            None => true,
        };
        !(self.capabilities && self.solve) && !(self.capabilities && self.check) && !(self.solve
            && self.check) && divisible
    }
}

/// What a miner was started to do.
#[derive(Debug)]
pub enum Mode {
    /// Print what the backend can do. Never opens the device.
    Capabilities,
    /// Solve one problem.
    Solve,
    /// Open the device and stop.
    Check,
    /// Serve a coordinator.
    Session {
        uri: String,
        miner_id: String,
    },
    /// Serve a coordinator that was not named.
    NoCoordinator,
}

/// `mode` is what `args` ask for.
pub open spec fn asks(mode: Mode, args: CommonArgs, backend: Seq<char>) -> bool {
    if args.capabilities {
        mode is Capabilities
    } else if args.solve {
        mode is Solve
    } else if args.check {
        mode is Check
    } else {
        match args.quip_coordinator {
            None => mode is NoCoordinator,
            Some(endpoint) => {
                &&& mode matches Mode::Session { uri, miner_id }
                &&& uri@ == endpoint@
                &&& miner_id@ == match args.miner_id {
                    Some(id) => id@,
                    None => backend + "-0"@,
                }
            },
        }
    }
}

/// What a miner was started to do.
pub fn select_mode(args: &CommonArgs, id: &BackendIdentity) -> (mode: Mode)
    ensures
        asks(mode, *args, id.backend@),
{
    if args.capabilities {
        return Mode::Capabilities;
    }
    if args.solve {
        return Mode::Solve;
    }
    if args.check {
        return Mode::Check;
    }
    match &args.quip_coordinator {
        None => Mode::NoCoordinator,
        Some(endpoint) => {
            let miner_id: String = match &args.miner_id {
                Some(given) => given.as_str().to_owned(),
                None => {
                    let mut own: String = id.backend.to_owned();
                    own.append("-0");
                    own
                },
            };
            Mode::Session { uri: endpoint.as_str().to_owned(), miner_id }
        },
    }
}

/// The path of a coordinator endpoint.
pub open spec fn endpoint_path(uri: Seq<char>) -> Seq<char> {
    if uri.len() >= 7 && uri.take(7) == "unix://"@ {
        uri.skip(7)
    } else {
        uri
    }
}

/// The socket path that an endpoint names.
pub fn socket_path(uri: &str) -> (path: String)
    ensures
        path@ == endpoint_path(uri@),
{
    proof {
        reveal_strlit("unix://");
    }
    let len: usize = uri.unicode_len();
    if len >= 7 {
        let head: &str = uri.substring_char(0, 7);
        assert(head@ =~= uri@.take(7));
        if crate::text::same_text(head, "unix://") {
            let rest: &str = uri.substring_char(7, len);
            assert(rest@ =~= uri@.skip(7));
            return rest.to_owned();
        }
    }
    uri.to_owned()
}

/// How a one-shot solve ends.
#[must_use]
pub fn solve_exit(error: &SolveError) -> (code: ExitCode)
    ensures
        code == match error {
            SolveError::Malformed(_) => ExitCode::ConfigInvalid,
            SolveError::Sample(_) => ExitCode::InternalFatal,
        },
{
    match error {
        SolveError::Malformed(_) => ExitCode::ConfigInvalid,
        SolveError::Sample(_) => ExitCode::InternalFatal,
    }
}

/// What stopped a miner before it did what it was started for.
#[derive(Clone, Copy, Debug, PartialEq, Eq, Structural)]
pub enum StartFault {
    /// The log filter cannot be installed.
    BadLogLevel,
    /// The device cannot be opened.
    CannotOpen,
    /// The problem cannot be read from stdin.
    UnreadableInput,
    /// A session was asked for without a coordinator.
    NoCoordinator,
    /// The process cannot run a session.
    NoRuntime,
}

/// How a miner ends when it cannot start.
#[must_use]
pub fn start_exit(fault: StartFault) -> (code: ExitCode)
    ensures
        code == match fault {
            StartFault::BadLogLevel => ExitCode::ConfigInvalid,
            StartFault::CannotOpen => ExitCode::EnvIncompatible,
            StartFault::UnreadableInput => ExitCode::ConfigInvalid,
            StartFault::NoCoordinator => ExitCode::ConfigInvalid,
            StartFault::NoRuntime => ExitCode::InternalFatal,
        },
{
    match fault {
        StartFault::BadLogLevel | StartFault::UnreadableInput | StartFault::NoCoordinator => {
            ExitCode::ConfigInvalid
        },
        StartFault::CannotOpen => ExitCode::EnvIncompatible,
        StartFault::NoRuntime => ExitCode::InternalFatal,
    }
}

/// Printing capabilities never needs the device: a consistent command line
/// that asks for them asks for nothing else.
pub proof fn law_capabilities_ask_for_nothing_else(
    mode: Mode,
    args: CommonArgs,
    backend: Seq<char>,
)
    requires
        args.consistent(),
        asks(mode, args, backend),
    ensures
        mode is Capabilities <==> args.capabilities,
        mode is Solve <==> args.solve,
        mode is Check <==> args.check,
{
}

/// A miner that was started to serve goes to the coordinator that it was given,
/// under the id that it was given, or under its backend's name and the number
/// zero.
pub proof fn law_a_session_goes_where_it_was_sent(
    mode: Mode,
    args: CommonArgs,
    backend: Seq<char>,
)
    requires
        asks(mode, args, backend),
        !args.capabilities,
        !args.solve,
        !args.check,
    ensures
        mode is Session <==> args.quip_coordinator is Some,
        mode is NoCoordinator <==> args.quip_coordinator is None,
        mode matches Mode::Session { uri, miner_id } ==> {
            &&& uri@ == args.quip_coordinator->0@
            &&& args.miner_id is Some ==> miner_id@ == args.miner_id->0@
            &&& args.miner_id is None ==> miner_id@ == backend + "-0"@
        },
{
}

/// A socket endpoint names the path behind its scheme, and any other text is a
/// path itself.
pub proof fn law_the_scheme_is_left_out(path: Seq<char>, plain: Seq<char>)
    ensures
        endpoint_path("unix://"@ + path) == path,
        (forall|rest: Seq<char>| plain != #[trigger] ("unix://"@ + rest)) ==> endpoint_path(plain)
            == plain,
{
    reveal_strlit("unix://");
    let uri = "unix://"@ + path;
    assert(uri.take(7) =~= "unix://"@);
    assert(uri.skip(7) =~= path);
    if plain.len() >= 7 && plain.take(7) == "unix://"@ {
        assert(plain =~= "unix://"@ + plain.skip(7));
    }
}

/// A command line is taken exactly when it has at most one of the flags that
/// answer and exit, and sweeps that can be divided by.
pub proof fn law_flags_that_answer_stand_alone(args: CommonArgs)
    ensures
        args.consistent() <==> {
            &&& args.capabilities ==> !args.solve && !args.check
            &&& args.solve ==> !args.check
            &&& args.sweeps_per_beta != Some(0usize)
        },
{
}

} // verus!
