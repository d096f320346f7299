//! The remote executor's decisions: which transport reaches a machine from
//! the current node, the exact argument vectors for ssh, scp and the
//! privileged helper container, and how a fan-out's results are collected
//! into one outcome.

use vstd::prelude::*;

use crate::context::{Context, EnvironmentError, ExecutionNode};
use crate::machine::Machine;

verus! {

/// The helper container image that carries the network tools.
pub open spec fn container_image_spec() -> Seq<char> {
    "local/oar-p2p-networking"@
}

/// The ssh options that disable host-key checking; cluster hostnames are
/// ephemeral from the caller's point of view.
pub open spec fn ssh_common_spec() -> Seq<Seq<char>> {
    seq![
        "-o"@,
        "StrictHostKeyChecking=no"@,
        "-o"@,
        "UserKnownHostsFile=/dev/null"@,
    ]
}

/// The transport prefix that reaches `m` from `node`: ssh from the
/// frontend or another machine, nothing when already on `m`, ssh through
/// the frontend jump host from outside; `None` when the jump host is not
/// known.
pub open spec fn spec_transport(
    node: ExecutionNode,
    frontend: Option<Seq<char>>,
    m: Machine,
) -> Option<Seq<Seq<char>>> {
    match node {
        ExecutionNode::Frontend => Some(
            seq!["ssh"@] + ssh_common_spec() + seq![m.spec_hostname()],
        ),
        ExecutionNode::Machine(s) => if s == m {
            Some(Seq::empty())
        } else {
            Some(seq!["ssh"@] + ssh_common_spec() + seq![m.spec_hostname()])
        },
        ExecutionNode::Unknown => match frontend {
            Some(f) => Some(seq!["ssh"@] + ssh_common_spec() + seq!["-J"@, f, m.spec_hostname()]),
            None => None,
        },
    }
}

/// Pushes one literal argument.
fn push_str_arg(out: &mut Vec<String>, s: &str)
    ensures
        final(out)@.len() == old(out)@.len() + 1,
        crate::config::views_of(final(out)@) == crate::config::views_of(old(out)@).push(s@),
{
    let v = String::from_str(s);
    out.push(v);
    proof {
        assert(crate::config::views_of(out@) =~= crate::config::views_of(old(out)@).push(s@));
    }
}

/// Pushes the common ssh options.
fn push_ssh_common(out: &mut Vec<String>)
    ensures
        final(out)@.len() == old(out)@.len() + 4,
        crate::config::views_of(final(out)@) == crate::config::views_of(old(out)@)
            + ssh_common_spec(),
{
    push_str_arg(out, "-o");
    push_str_arg(out, "StrictHostKeyChecking=no");
    push_str_arg(out, "-o");
    push_str_arg(out, "UserKnownHostsFile=/dev/null");
    proof {
        assert(crate::config::views_of(out@) =~= crate::config::views_of(old(out)@)
            + ssh_common_spec());
    }
}

/// The transport argument vector that reaches `machine` from the context's
/// node, or the error that the frontend hostname is missing.
pub fn transport_args(ctx: &Context, machine: Machine) -> (r: Result<Vec<String>, EnvironmentError>)
    ensures
        spec_transport(ctx.node, ctx.spec_frontend_hostname(), machine) matches Some(args) ==> (
        r matches Ok(v) && crate::config::views_of(v@) == args),
        spec_transport(ctx.node, ctx.spec_frontend_hostname(), machine) is None ==> (r
            matches Err(e) && e == EnvironmentError::MissingFrontendHostname),
{
    let mut out: Vec<String> = Vec::new();
    match ctx.node {
        ExecutionNode::Frontend => {
            push_str_arg(&mut out, "ssh");
            push_ssh_common(&mut out);
            push_str_arg(&mut out, machine.hostname());
            proof {
                assert(crate::config::views_of(out@) =~= seq!["ssh"@] + ssh_common_spec() + seq![
                    machine.spec_hostname(),
                ]);
            }
            Ok(out)
        },
        ExecutionNode::Machine(s) => {
            if s == machine {
                proof {
                    assert(crate::config::views_of(out@) =~= Seq::<Seq<char>>::empty());
                }
                Ok(out)
            } else {
                push_str_arg(&mut out, "ssh");
                push_ssh_common(&mut out);
                push_str_arg(&mut out, machine.hostname());
                proof {
                    assert(crate::config::views_of(out@) =~= seq!["ssh"@] + ssh_common_spec()
                        + seq![machine.spec_hostname()]);
                }
                Ok(out)
            }
        },
        ExecutionNode::Unknown => {
            let frontend = match ctx.frontend_hostname() {
                Ok(f) => f,
                Err(e) => {
                    return Err(e);
                },
            };
            push_str_arg(&mut out, "ssh");
            push_ssh_common(&mut out);
            push_str_arg(&mut out, "-J");
            push_str_arg(&mut out, frontend);
            push_str_arg(&mut out, machine.hostname());
            proof {
                assert(crate::config::views_of(out@) =~= seq!["ssh"@] + ssh_common_spec() + seq![
                    "-J"@,
                    ctx.spec_frontend_hostname().unwrap(),
                    machine.spec_hostname(),
                ]);
            }
            Ok(out)
        },
    }
}

/// The full argument vector that runs `args` on `machine`: the transport
/// prefix, then a bare `bash` when no command is given, then the command.
pub fn build_run_argv(ctx: &Context, machine: Machine, args: &Vec<String>) -> (r: Result<
    Vec<String>,
    EnvironmentError,
>)
    ensures
        spec_transport(ctx.node, ctx.spec_frontend_hostname(), machine) matches Some(prefix) ==> (
        r matches Ok(v) && crate::config::views_of(v@) == prefix + (if args@.len() == 0 {
            seq!["bash"@]
        } else {
            Seq::<Seq<char>>::empty()
        }) + crate::config::views_of(args@)),
        spec_transport(ctx.node, ctx.spec_frontend_hostname(), machine) is None ==> (r
            matches Err(e) && e == EnvironmentError::MissingFrontendHostname),
{
    let mut out = match transport_args(ctx, machine) {
        Ok(v) => v,
        Err(e) => {
            return Err(e);
        },
    };
    let ghost prefix = crate::config::views_of(out@);
    if args.len() == 0 {
        push_str_arg(&mut out, "bash");
        proof {
            assert(crate::config::views_of(out@) =~= prefix + seq!["bash"@]);
        }
    }
    let ghost mid = crate::config::views_of(out@);
    let mut j: usize = 0;
    while j < args.len()
        invariant
            j <= args@.len(),
            crate::config::views_of(out@) == mid + crate::config::views_of(args@.take(j as int)),
        decreases args@.len() - j,
    {
        let ghost prev = out@;
        let a = args[j].clone();
        proof {
            assert(a@ == args@[j as int]@);
        }
        out.push(a);
        proof {
            assert(crate::config::views_of(out@) =~= crate::config::views_of(prev).push(
                args@[j as int]@,
            ));
            assert(crate::config::views_of(args@.take(j + 1)) =~= crate::config::views_of(
                args@.take(j as int),
            ).push(args@[j as int]@));
            assert(crate::config::views_of(out@) =~= mid + crate::config::views_of(
                args@.take(j + 1),
            ));
        }
        j += 1;
    }
    proof {
        assert(args@.take(args@.len() as int) =~= args@);
        assert(crate::config::views_of(out@) =~= mid + crate::config::views_of(args@));
        if args@.len() == 0 {
            assert(crate::config::views_of(args@) =~= Seq::<Seq<char>>::empty());
        }
        assert(crate::config::views_of(out@) =~= prefix + (if args@.len() == 0 {
            seq!["bash"@]
        } else {
            Seq::<Seq<char>>::empty()
        }) + crate::config::views_of(args@));
    }
    Ok(out)
}

/// The command that runs a script inside the privileged helper container:
/// host networking, privileged, the script fed on standard input.
pub open spec fn container_run_args_spec() -> Seq<Seq<char>> {
    seq![
        "docker"@,
        "run"@,
        "--rm"@,
        "-i"@,
        "--net=host"@,
        "--privileged"@,
        container_image_spec(),
    ]
}

/// Builds the helper-container command line.
pub fn container_run_args() -> (r: Vec<String>)
    ensures
        crate::config::views_of(r@) == container_run_args_spec(),
{
    let mut out: Vec<String> = Vec::new();
    push_str_arg(&mut out, "docker");
    push_str_arg(&mut out, "run");
    push_str_arg(&mut out, "--rm");
    push_str_arg(&mut out, "-i");
    push_str_arg(&mut out, "--net=host");
    push_str_arg(&mut out, "--privileged");
    push_str_arg(&mut out, "local/oar-p2p-networking");
    proof {
        assert(crate::config::views_of(out@) =~= container_run_args_spec());
    }
    out
}

/// The scp argument vector that copies the remote log directory of
/// `machine` into `output_dir`, or the error that the jump host is
/// missing.
pub fn build_scp_argv(ctx: &Context, machine: Machine, output_dir: &str) -> (r: Result<
    Vec<String>,
    EnvironmentError,
>)
    ensures
        ctx.node is Unknown && ctx.spec_frontend_hostname() is Some ==> (r matches Ok(v)
            && crate::config::views_of(v@) == seq!["scp"@] + ssh_common_spec() + seq![
            "-J"@,
            ctx.spec_frontend_hostname()->0,
        ] + seq![
            "-r"@,
            machine.spec_hostname() + ":/tmp/oar-p2p-logs"@,
            output_dir@,
        ]),
        !(ctx.node is Unknown) ==> (r matches Ok(v) && crate::config::views_of(v@)
            == seq!["scp"@] + ssh_common_spec() + seq![
            "-r"@,
            machine.spec_hostname() + ":/tmp/oar-p2p-logs"@,
            output_dir@,
        ]),
        ctx.node is Unknown && ctx.spec_frontend_hostname() is None ==> (r matches Err(e) && e
            == EnvironmentError::MissingFrontendHostname),
{
    let mut out: Vec<String> = Vec::new();
    push_str_arg(&mut out, "scp");
    push_ssh_common(&mut out);
    let is_unknown = match ctx.node {
        ExecutionNode::Unknown => true,
        _ => false,
    };
    if is_unknown {
        let frontend = match ctx.frontend_hostname() {
            Ok(f) => f,
            Err(e) => {
                return Err(e);
            },
        };
        push_str_arg(&mut out, "-J");
        push_str_arg(&mut out, frontend);
    }
    push_str_arg(&mut out, "-r");
    let mut source = String::from_str(machine.hostname());
    source.append(":/tmp/oar-p2p-logs");
    let ghost prev = out@;
    let ghost srcv = source@;
    out.push(source);
    proof {
        assert(crate::config::views_of(out@) =~= crate::config::views_of(prev).push(srcv));
    }
    push_str_arg(&mut out, output_dir);
    proof {
        if ctx.node is Unknown {
            assert(crate::config::views_of(out@) =~= seq!["scp"@] + ssh_common_spec() + seq![
                "-J"@,
                ctx.spec_frontend_hostname().unwrap(),
            ] + seq![
                "-r"@,
                machine.spec_hostname() + ":/tmp/oar-p2p-logs"@,
                output_dir@,
            ]);
        } else {
            assert(crate::config::views_of(out@) =~= seq!["scp"@] + ssh_common_spec() + seq![
                "-r"@,
                machine.spec_hostname() + ":/tmp/oar-p2p-logs"@,
                output_dir@,
            ]);
        }
    }
    Ok(out)
}

/// A remote task failure, annotated with the machine it ran on.
#[derive(Debug)]
pub struct RemoteError {
    pub machine: Machine,
    pub detail: String,
}

impl RemoteError {
    /// The user-facing description: the responsible machine's hostname,
    /// then the underlying failure.
    pub fn message(&self) -> (r: String)
        ensures
            r@ == "running task on machine "@ + self.machine.spec_hostname() + ": "@
                + self.detail@,
    {
        let mut s = String::from_str("running task on machine ");
        s.append(self.machine.hostname());
        s.append(": ");
        s.append(self.detail.as_str());
        proof {
            assert(s@ =~= "running task on machine "@ + self.machine.spec_hostname() + ": "@
                + self.detail@);
        }
        s
    }
}

/// Collects a fan-out's results in completion order: every task's value
/// when all succeeded, else the first failure annotated with its machine.
/// Results after the first failure are discarded.
#[verifier::loop_isolation(false)]
pub fn collect_fan_out_results<T>(results: Vec<(Machine, Result<T, String>)>) -> (r: Result<
    Vec<(Machine, T)>,
    RemoteError,
>)
    ensures
        (forall|i: int| 0 <= i < results@.len() ==> (#[trigger] results@[i].1) is Ok) ==> (r
            matches Ok(v) && v@.len() == results@.len() && (forall|i: int|
            0 <= i < results@.len() ==> (#[trigger] v@[i]).0 == results@[i].0 && v@[i].1
                == results@[i].1->Ok_0)),
        (exists|i: int| 0 <= i < results@.len() && (#[trigger] results@[i].1) is Err) ==> (r
            matches Err(e) && exists|i: int|
            0 <= i < results@.len() && (#[trigger] results@[i].1) is Err && (forall|j: int|
                0 <= j < i ==> (#[trigger] results@[j].1) is Ok) && e.machine == results@[i].0
                && e.detail == results@[i].1->Err_0),
{
    let ghost orig = results@;
    let mut results = results;
    let mut collected: Vec<(Machine, T)> = Vec::new();
    let ghost mut k: int = 0;
    proof {
        assert(results@ =~= orig.skip(0));
    }
    while results.len() > 0
        invariant
            0 <= k <= orig.len(),
            results@ =~= orig.skip(k),
            collected@.len() == k,
            forall|i: int|
                0 <= i < k ==> (#[trigger] orig[i].1) is Ok && collected@[i].0 == orig[i].0
                    && collected@[i].1 == orig[i].1->Ok_0,
        decreases results@.len(),
    {
        let (machine, outcome) = results.remove(0);
        proof {
            assert(orig.skip(k)[0] == orig[k]);
            assert(results@ =~= orig.skip(k + 1));
        }
        match outcome {
            Ok(value) => {
                collected.push((machine, value));
            },
            Err(detail) => {
                proof {
                    assert(orig[k].1 is Err);
                    assert(forall|j: int| 0 <= j < k ==> (#[trigger] orig[j].1) is Ok);
                }
                return Err(RemoteError { machine, detail });
            },
        }
        proof {
            k = k + 1;
        }
    }
    proof {
        assert(orig.skip(k).len() == 0);
        assert(k == orig.len());
    }
    Ok(collected)
}

} // verus!
