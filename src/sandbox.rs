//! What the sandbox for one invocation holds, by protocol.
use vstd::prelude::*;
use crate::bytes::{byte_pairs, copy_range};

verus! {

/// The protocol a module is driven through.
#[derive(Debug, Clone, Copy, PartialEq, Eq, Structural)]
pub enum Mode {
    Cgi,
    Lambda,
}

/// Where the guest's standard output goes.
#[derive(Debug, Clone, Copy, PartialEq, Eq, Structural)]
pub enum StdoutSink {
    /// Kept in memory and read back as the response.
    Capture,
    /// Forwarded line by line to the host log.
    Log,
}

/// The sandbox for one invocation: program name, the directories preopened
/// for the guest, its environment, the bytes waiting on its stdin (`None`
/// leaves the sandbox's default stdin), and where its stdout goes (stderr
/// always goes to the host log).
pub struct SandboxPlan {
    pub program_name: String,
    pub preopen: Vec<String>,
    pub env: Vec<(Vec<u8>, Vec<u8>)>,
    pub stdin: Option<Vec<u8>>,
    pub stdout: StdoutSink,
}

fn working_dir() -> (r: Vec<String>)
    ensures
        r@.len() == 1,
        r@[0]@ == "."@,
{
    let mut v: Vec<String> = Vec::new();
    v.push(".".to_owned());
    v
}

/// A CGI script runs as `wgi-bin` with the server's working directory, the
/// CGI variables as its environment, the request body on stdin, and its
/// stdout captured.
pub fn cgi_sandbox(vars: &Vec<(Vec<u8>, Vec<u8>)>, body: &[u8]) -> (r: SandboxPlan)
    ensures
        r.program_name@ == "wgi-bin"@,
        r.preopen@.len() == 1 && r.preopen@[0]@ == "."@,
        byte_pairs(r.env@) == byte_pairs(vars@),
        r.stdin matches Some(s) && s@ == body@,
        r.stdout == StdoutSink::Capture,
{
    let mut env: Vec<(Vec<u8>, Vec<u8>)> = Vec::new();
    let mut i: usize = 0;
    while i < vars.len()
        invariant
            0 <= i <= vars@.len(),
            byte_pairs(env@) == byte_pairs(vars@).subrange(0, i as int),
        decreases vars@.len() - i,
    {
        let k = copy_range(vars[i].0.as_slice(), 0, vars[i].0.len());
        let v = copy_range(vars[i].1.as_slice(), 0, vars[i].1.len());
        assert(k@ =~= vars@[i as int].0@);
        assert(v@ =~= vars@[i as int].1@);
        let ghost before = env@;
        env.push((k, v));
        assert(byte_pairs(env@) =~= byte_pairs(before).push((vars@[i as int].0@, vars@[i as int].1@)));
        i = i + 1;
        assert(byte_pairs(env@) =~= byte_pairs(vars@).subrange(0, i as int));
    }
    assert(byte_pairs(vars@).subrange(0, vars@.len() as int) =~= byte_pairs(vars@));
    let stdin = copy_range(body, 0, body.len());
    assert(stdin@ =~= body@);
    SandboxPlan {
        program_name: "wgi-bin".to_owned(),
        preopen: working_dir(),
        env,
        stdin: Some(stdin),
        stdout: StdoutSink::Capture,
    }
}

/// A Lambda function runs as `lambda` with the server's working directory,
/// no environment and the default stdin; its stdout goes to the host log.
pub fn lambda_sandbox() -> (r: SandboxPlan)
    ensures
        r.program_name@ == "lambda"@,
        r.preopen@.len() == 1 && r.preopen@[0]@ == "."@,
        r.env@.len() == 0,
        r.stdin is None,
        r.stdout == StdoutSink::Log,
{
    SandboxPlan {
        program_name: "lambda".to_owned(),
        preopen: working_dir(),
        env: Vec::new(),
        stdin: None,
        stdout: StdoutSink::Log,
    }
}

} // verus!
