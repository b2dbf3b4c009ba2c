//! A process runner that starts nothing: it records each run asked of it
//! and answers with the replies it was given, in order. Tests use it to see
//! which programs the library runs, where, and in which order.

use vstd::prelude::*;
use crate::error::IoError;
use crate::system::{run_request, ProcessOutput, ProcessRunner, RunRequest};
use crate::text::{owned, string_views};

verus! {

/// A run recorded by a [`ScriptedRunner`].
#[derive(Debug)]
pub struct RecordedRun {
    pub program: String,
    pub args: Vec<String>,
    pub cwd: Option<String>,
    pub attached: bool,
}

/// The request that a recorded run stands for.
pub open spec fn recorded_view(q: RecordedRun) -> RunRequest {
    (
        q.program@,
        string_views(q.args@),
        match q.cwd {
            Some(d) => Some(d@),
            None => None,
        },
        q.attached,
    )
}

/// A runner that answers from a script.
pub struct ScriptedRunner {
    windows: bool,
    replies: Vec<Result<ProcessOutput, IoError>>,
    log: Vec<RecordedRun>,
}

fn copy_args(args: &[String]) -> (r: Vec<String>)
    ensures
        string_views(r@) == string_views(args@),
{
    let mut out: Vec<String> = Vec::new();
    let mut i: usize = 0;
    while i < args.len()
        invariant
            i <= args.len(),
            out@.len() == i,
            string_views(out@) == string_views(args@.take(i as int)),
        decreases args.len() - i,
    {
        let ghost before = out@;
        out.push(owned(args[i].as_str()));
        proof {
            assert(args@.take(i as int + 1) =~= args@.take(i as int).push(args@[i as int]));
            assert(out@ =~= before.push(out@[i as int]));
            assert(string_views(out@) =~= string_views(before).push(args@[i as int]@));
            assert(string_views(args@.take(i as int + 1)) =~= string_views(args@.take(i as int)).push(
                args@[i as int]@,
            ));
        }
        i = i + 1;
    }
    assert(args@.take(i as int) =~= args@);
    out
}

impl ScriptedRunner {
    /// A runner for the given platform that answers the runs asked of it
    /// with `replies`, in order, and with success and no output once they
    /// are used up.
    pub fn new(windows: bool, replies: Vec<Result<ProcessOutput, IoError>>) -> (r: ScriptedRunner)
        ensures
            r.requests() == Seq::<RunRequest>::empty(),
            r.on_windows() == windows,
    {
        let r = ScriptedRunner { windows, replies, log: Vec::new() };
        assert(r.log@.map_values(|q: RecordedRun| recorded_view(q)) =~= Seq::<RunRequest>::empty());
        r
    }

    /// The runs asked so far, oldest first.
    pub fn recorded(&self) -> (r: &Vec<RecordedRun>)
        ensures
            r@.map_values(|q: RecordedRun| recorded_view(q)) == self.requests(),
    {
        &self.log
    }

    fn answer(&mut self, program: &str, args: &[String], cwd: Option<&str>, attached: bool) -> (r: Result<
        ProcessOutput,
        IoError,
    >)
        ensures
            final(self).requests() == old(self).requests().push(run_request(program@, args@, cwd, attached)),
            final(self).on_windows() == old(self).on_windows(),
    {
        let entry = RecordedRun {
            program: owned(program),
            args: copy_args(args),
            cwd: match cwd {
                Some(d) => Some(owned(d)),
                None => None,
            },
            attached,
        };
        let ghost before = self.log@;
        let ghost seen = recorded_view(entry);
        assert(seen == run_request(program@, args@, cwd, attached));
        self.log.push(entry);
        proof {
            assert(self.log@.map_values(|q: RecordedRun| recorded_view(q)) =~= before.map_values(
                |q: RecordedRun| recorded_view(q),
            ).push(seen));
        }
        if self.replies.len() > 0 {
            self.replies.remove(0)
        } else {
            Ok(ProcessOutput { success: true, code: Some(0), stdout: String::new(), stderr: String::new() })
        }
    }
}

impl ProcessRunner for ScriptedRunner {
    closed spec fn requests(&self) -> Seq<RunRequest> {
        self.log@.map_values(|q: RecordedRun| recorded_view(q))
    }

    closed spec fn on_windows(&self) -> bool {
        self.windows
    }

    fn is_windows(&self) -> (r: bool) {
        self.windows
    }

    fn run(&mut self, program: &str, args: &[String], cwd: Option<&str>) -> (r: Result<ProcessOutput, IoError>) {
        self.answer(program, args, cwd, false)
    }

    fn run_attached(&mut self, program: &str, args: &[String], cwd: Option<&str>) -> (r: Result<
        ProcessOutput,
        IoError,
    >) {
        self.answer(program, args, cwd, true)
    }
}

} // verus!
