//! Command-runner policy for the host-configuration helper: how a command
//! line is assembled — directly, or through `nsenter` into the host's
//! namespaces — and how a captured exit decides success.

use vstd::prelude::*;

verus! {

/// Where the `nsenter` binary lives.
#[derive(Clone, Debug)]
pub struct Nsenter {
    pub path: String,
}

/// How commands run: in this mount namespace, or the host's.
#[derive(Clone, Debug)]
pub enum Runner {
    Local,
    Nsenter(Nsenter),
}

/// A command that exited non-zero, with what was run and its diagnostics.
#[derive(Clone, Debug)]
pub enum CmdError {
    CommandFailed { program: String, args: Vec<String>, code: i32, stderr: String },
}

impl Runner {
    /// The program and argument list to spawn: unchanged locally; through
    /// `nsenter` the host's namespaces are entered first.
    pub fn command_line(&self, program: &String, args: &Vec<String>) -> (r: (String, Vec<String>))
        ensures
            match self {
                Runner::Local => r.0@ == program@ && r.1@.map_values(|a: String| a@)
                    == args@.map_values(|a: String| a@),
                Runner::Nsenter(ns) => r.0@ == ns.path@ && r.1@.len() == args@.len() + 9
                    && r.1@[0]@ == "--target"@ && r.1@[1]@ == "1"@ && r.1@[2]@ == "--mount"@
                    && r.1@[3]@ == "--uts"@ && r.1@[4]@ == "--ipc"@ && r.1@[5]@ == "--net"@
                    && r.1@[6]@ == "--pid"@ && r.1@[7]@ == "--"@ && r.1@[8]@ == program@ && forall|
                    i: int,
                |
                    0 <= i < args@.len() ==> r.1@[9 + i]@ == (#[trigger] args@[i])@,
            },
    {
        match self {
            Runner::Local => {
                let mut argv: Vec<String> = Vec::new();
                let n = args.len();
                let mut i: usize = 0;
                while i < n
                    invariant
                        i <= n,
                        n == args@.len(),
                        argv@.len() == i,
                        forall|j: int| 0 <= j < i ==> argv@[j]@ == (#[trigger] args@[j])@,
                    decreases n - i,
                {
                    argv.push(args[i].clone());
                    i += 1;
                }
                proof {
                    assert(argv@.map_values(|a: String| a@) =~= args@.map_values(
                        |a: String| a@,
                    ));
                }
                (program.clone(), argv)
            },
            Runner::Nsenter(ns) => {
                let mut argv: Vec<String> = Vec::new();
                argv.push("--target".to_owned());
                argv.push("1".to_owned());
                argv.push("--mount".to_owned());
                argv.push("--uts".to_owned());
                argv.push("--ipc".to_owned());
                argv.push("--net".to_owned());
                argv.push("--pid".to_owned());
                argv.push("--".to_owned());
                argv.push(program.clone());
                let n = args.len();
                let mut i: usize = 0;
                while i < n
                    invariant
                        i <= n,
                        n == args@.len(),
                        argv@.len() == 9 + i,
                        argv@[0]@ == "--target"@,
                        argv@[1]@ == "1"@,
                        argv@[2]@ == "--mount"@,
                        argv@[3]@ == "--uts"@,
                        argv@[4]@ == "--ipc"@,
                        argv@[5]@ == "--net"@,
                        argv@[6]@ == "--pid"@,
                        argv@[7]@ == "--"@,
                        argv@[8]@ == program@,
                        forall|j: int| 0 <= j < i ==> argv@[9 + j]@ == (#[trigger] args@[j])@,
                    decreases n - i,
                {
                    argv.push(args[i].clone());
                    i += 1;
                }
                (ns.path.clone(), argv)
            },
        }
    }

    /// Judge a captured run: exit code zero hands back standard output,
    /// anything else is the failure with its program and diagnostics.
    pub fn run_ok(
        &self,
        program: &String,
        args: &Vec<String>,
        code: i32,
        out: String,
        err: String,
    ) -> (r: Result<String, CmdError>)
        ensures
            code == 0 ==> (r matches Ok(s) && s@ == out@),
            code != 0 ==> (r matches Err(e) && (e matches CmdError::CommandFailed {
                program: p,
                args: a,
                code: c,
                stderr: se,
            } && p@ == program@ && a@.map_values(|x: String| x@) == args@.map_values(
                |x: String| x@,
            ) && c == code && se@ == err@)),
    {
        if code == 0 {
            Ok(out)
        } else {
            let mut argv: Vec<String> = Vec::new();
            let n = args.len();
            let mut i: usize = 0;
            while i < n
                invariant
                    i <= n,
                    n == args@.len(),
                    argv@.len() == i,
                    forall|j: int| 0 <= j < i ==> argv@[j]@ == (#[trigger] args@[j])@,
                decreases n - i,
            {
                argv.push(args[i].clone());
                i += 1;
            }
            proof {
                assert(argv@.map_values(|x: String| x@) =~= args@.map_values(|x: String| x@));
            }
            Err(CmdError::CommandFailed { program: program.clone(), args: argv, code, stderr: err })
        }
    }
}

/// The runner to use: through `nsenter` when one is configured.
pub fn default_runner(nsenter: &Option<Nsenter>) -> (r: Runner)
    ensures
        match nsenter {
            Some(ns) => r matches Runner::Nsenter(n) && n.path@ == ns.path@,
            None => r is Local,
        },
{
    match nsenter {
        Some(ns) => Runner::Nsenter(Nsenter { path: ns.path.clone() }),
        None => Runner::Local,
    }
}

} // verus!
