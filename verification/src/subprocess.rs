//! How a command is described, and the decisions taken while its output is
//! collected under a deadline.

use std::path::PathBuf;
use std::time::Duration;
use vstd::prelude::*;

use crate::buffer::{
    after_push, after_pushes, lemma_after_pushes_conserves, BufferView, HeadTailBuffer,
};
use crate::chunks::lemma_flatten_push;
use crate::std_types::path_from_text;

verus! {

broadcast use vstd::seq_lib::group_seq_properties;

/// What the child's standard input is connected to.
#[derive(Clone, Copy, Debug, PartialEq, Eq, Structural)]
pub enum StdinMode {
    Piped,
    Null,
}

impl Default for StdinMode {
    /// Standard input is piped unless asked otherwise.
    fn default() -> (mode: Self)
        ensures
            mode == StdinMode::Piped,
    {
        StdinMode::Piped
    }
}

/// The environment a list of assignments describes when applied in order:
/// a later value for a name replaces an earlier one.
pub open spec fn with_vars(base: Map<Seq<char>, Seq<char>>, vars: Seq<(String, String)>) -> Map<
    Seq<char>,
    Seq<char>,
>
    decreases vars.len(),
{
    if vars.len() == 0 {
        base
    } else {
        with_vars(base, vars.drop_last()).insert(vars.last().0@, vars.last().1@)
    }
}

/// What a command description says: program, arguments, working directory,
/// environment overrides and standard input.
pub struct CommandOptionsView {
    pub program: Seq<char>,
    pub args: Seq<Seq<char>>,
    pub cwd: PathBuf,
    pub env: Map<Seq<char>, Seq<char>>,
    pub stdin: StdinMode,
}

/// Applying two lists of assignments in turn is applying their concatenation.
pub proof fn lemma_with_vars_concat(
    base: Map<Seq<char>, Seq<char>>,
    a: Seq<(String, String)>,
    b: Seq<(String, String)>,
)
    ensures
        with_vars(base, a + b) == with_vars(with_vars(base, a), b),
    decreases b.len(),
{
    if b.len() == 0 {
        assert(a + b =~= a);
    } else {
        lemma_with_vars_concat(base, a, b.drop_last());
        assert((a + b).drop_last() =~= a + b.drop_last());
    }
}

/// How to run a program.
#[derive(Clone, Debug)]
pub struct CommandOptions {
    program: String,
    args: Vec<String>,
    cwd: PathBuf,
    env: Vec<(String, String)>,
    stdin: StdinMode,
}

impl CommandOptionsView {
    /// One more argument after those already given.
    pub open spec fn with_arg(self, arg: Seq<char>) -> CommandOptionsView {
        CommandOptionsView { args: self.args.push(arg), ..self }
    }

    /// More arguments, in order, after those already given.
    pub open spec fn with_args(self, more: Seq<Seq<char>>) -> CommandOptionsView {
        CommandOptionsView { args: self.args + more, ..self }
    }

    /// One environment variable set, replacing an earlier value.
    pub open spec fn with_env(self, key: Seq<char>, value: Seq<char>) -> CommandOptionsView {
        CommandOptionsView { env: self.env.insert(key, value), ..self }
    }

    /// Environment variables set in order; a later value for a name replaces
    /// an earlier one.
    pub open spec fn with_envs(self, vars: Seq<(String, String)>) -> CommandOptionsView {
        CommandOptionsView { env: with_vars(self.env, vars), ..self }
    }
}

/// Adding an argument appends it: every earlier argument stays where it was,
/// the list grows by exactly one, the new argument comes last, and nothing
/// else changes, whatever the list already holds.
pub proof fn lemma_arg_appends(v: CommandOptionsView, arg: Seq<char>)
    ensures
        v.with_arg(arg).args.len() == v.args.len() + 1,
        v.with_arg(arg).args[v.args.len() as int] == arg,
        forall|i: int| 0 <= i < v.args.len() ==> #[trigger] v.with_arg(arg).args[i] == v.args[i],
        v.with_arg(arg).program == v.program,
        v.with_arg(arg).cwd == v.cwd,
        v.with_arg(arg).env == v.env,
        v.with_arg(arg).stdin == v.stdin,
{
}

/// Adding several arguments appends them all, in order, after the earlier
/// ones: the list grows by exactly their number.
pub proof fn lemma_args_append(v: CommandOptionsView, more: Seq<Seq<char>>)
    ensures
        v.with_args(more).args.len() == v.args.len() + more.len(),
        forall|i: int| 0 <= i < v.args.len() ==> #[trigger] v.with_args(more).args[i] == v.args[i],
        forall|i: int| 0 <= i < more.len() ==> v.with_args(more).args[v.args.len() + i] == #[trigger] more[i],
        v.with_args(more).program == v.program,
        v.with_args(more).cwd == v.cwd,
        v.with_args(more).env == v.env,
        v.with_args(more).stdin == v.stdin,
{
}

/// The description after `arg` is applied for each of `more`, in order.
pub open spec fn arg_by_arg(v: CommandOptionsView, more: Seq<Seq<char>>) -> CommandOptionsView
    decreases more.len(),
{
    if more.len() == 0 {
        v
    } else {
        arg_by_arg(v, more.drop_last()).with_arg(more.last())
    }
}

/// The description after `env` is applied for each of `vars`, in order.
pub open spec fn env_by_env(v: CommandOptionsView, vars: Seq<(String, String)>) -> CommandOptionsView
    decreases vars.len(),
{
    if vars.len() == 0 {
        v
    } else {
        env_by_env(v, vars.drop_last()).with_env(vars.last().0@, vars.last().1@)
    }
}

/// Giving several arguments at once is giving them one at a time, in order;
/// giving none changes nothing.
pub proof fn lemma_args_is_arg_by_arg(v: CommandOptionsView, more: Seq<Seq<char>>)
    ensures
        v.with_args(more) == arg_by_arg(v, more),
    decreases more.len(),
{
    if more.len() == 0 {
        assert(v.args + more =~= v.args);
    } else {
        lemma_args_is_arg_by_arg(v, more.drop_last());
        assert(v.args + more =~= (v.args + more.drop_last()).push(more.last()));
    }
}

/// Setting several environment variables at once is setting them one at a
/// time, in order: a later value for a name replaces an earlier one.
pub proof fn lemma_envs_is_env_by_env(v: CommandOptionsView, vars: Seq<(String, String)>)
    ensures
        v.with_envs(vars) == env_by_env(v, vars),
    decreases vars.len(),
{
    if vars.len() > 0 {
        lemma_envs_is_env_by_env(v, vars.drop_last());
    }
}

/// The text of each string in a list.
pub open spec fn strings_view(v: Seq<String>) -> Seq<Seq<char>> {
    v.map_values(|s: String| s@)
}

impl View for CommandOptions {
    type V = CommandOptionsView;

    closed spec fn view(&self) -> CommandOptionsView {
        CommandOptionsView {
            program: self.program@,
            args: strings_view(self.args@),
            cwd: self.cwd,
            env: with_vars(Map::empty(), self.env@),
            stdin: self.stdin,
        }
    }
}

impl CommandOptions {
    /// Runs `program` in `cwd` with no arguments, the inherited environment
    /// and piped standard input.
    pub fn new(program: String, cwd: PathBuf) -> (options: Self)
        ensures
            options@ == (CommandOptionsView {
                program: program@,
                args: Seq::empty(),
                cwd,
                env: Map::empty(),
                stdin: StdinMode::Piped,
            }),
    {
        let options = CommandOptions {
            program,
            args: Vec::new(),
            cwd,
            env: Vec::new(),
            stdin: StdinMode::Piped,
        };
        proof {
            assert(strings_view(options.args@) =~= Seq::<Seq<char>>::empty());
        }
        options
    }

    /// The empty program in the empty directory, with no arguments, the
    /// inherited environment and piped standard input: what `new` gives for
    /// an empty program and an empty path.
    pub open spec fn spec_default() -> CommandOptionsView {
        CommandOptionsView {
            program: Seq::empty(),
            args: Seq::empty(),
            cwd: path_from_text(Seq::empty()),
            env: Map::empty(),
            stdin: StdinMode::Piped,
        }
    }

    /// Adds one argument after those already given.
    pub fn arg(self, arg: String) -> (options: Self)
        ensures
            options@ == self@.with_arg(arg@),
            options@.args == self@.args.push(arg@),
            options@.args.len() == self@.args.len() + 1,
            options@.program == self@.program,
            options@.cwd == self@.cwd,
            options@.env == self@.env,
            options@.stdin == self@.stdin,
    {
        let CommandOptions { program, mut args, cwd, env, stdin } = self;
        let ghost before = args@;
        args.push(arg);
        proof {
            assert(strings_view(args@) =~= strings_view(before).push(arg@));
        }
        CommandOptions { program, args, cwd, env, stdin }
    }

    /// Adds arguments, in order, after those already given.
    pub fn args(self, more: Vec<String>) -> (options: Self)
        ensures
            options@ == self@.with_args(strings_view(more@)),
            options@.args == self@.args + strings_view(more@),
            options@.args.len() == self@.args.len() + more@.len(),
            forall|i: int| 0 <= i < more@.len() ==> options@.args[self@.args.len() + i] == #[trigger] more@[i]@,
            options@.program == self@.program,
            options@.cwd == self@.cwd,
            options@.env == self@.env,
            options@.stdin == self@.stdin,
    {
        let CommandOptions { program, mut args, cwd, env, stdin } = self;
        let ghost before = args@;
        let mut more = more;
        let ghost added = more@;
        args.append(&mut more);
        proof {
            assert(strings_view(args@) =~= strings_view(before) + strings_view(added));
        }
        CommandOptions { program, args, cwd, env, stdin }
    }

    /// Sets one environment variable, replacing an earlier value.
    pub fn env(self, key: String, value: String) -> (options: Self)
        ensures
            options@ == self@.with_env(key@, value@),
    {
        let CommandOptions { program, args, cwd, mut env, stdin } = self;
        let ghost before = env@;
        env.push((key, value));
        proof {
            assert(env@.drop_last() =~= before);
        }
        CommandOptions { program, args, cwd, env, stdin }
    }

    /// Sets environment variables in order; a later value for a name
    /// replaces an earlier one.
    pub fn envs(self, vars: Vec<(String, String)>) -> (options: Self)
        ensures
            options@ == self@.with_envs(vars@),
    {
        let CommandOptions { program, args, cwd, mut env, stdin } = self;
        let ghost before = env@;
        let mut vars = vars;
        let ghost added = vars@;
        env.append(&mut vars);
        proof {
            lemma_with_vars_concat(Map::empty(), before, added);
        }
        CommandOptions { program, args, cwd, env, stdin }
    }

    /// Chooses what standard input is connected to.
    pub fn stdin(self, stdin: StdinMode) -> (options: Self)
        ensures
            options@ == (CommandOptionsView { stdin, ..self@ }),
    {
        let CommandOptions { program, args, cwd, env, stdin: _ } = self;
        CommandOptions { program, args, cwd, env, stdin }
    }

    /// Connects standard input to nothing.
    pub fn no_stdin(self) -> (options: Self)
        ensures
            options@ == (CommandOptionsView { stdin: StdinMode::Null, ..self@ }),
    {
        self.stdin(StdinMode::Null)
    }

    /// The program to run.
    pub fn get_program(&self) -> (program: &String)
        ensures
            program@ == self@.program,
    {
        &self.program
    }

    /// The arguments, in order.
    pub fn get_args(&self) -> (args: &Vec<String>)
        ensures
            strings_view(args@) == self@.args,
    {
        &self.args
    }

    /// The working directory.
    pub fn get_cwd(&self) -> (cwd: &PathBuf)
        ensures
            *cwd == self@.cwd,
    {
        &self.cwd
    }

    /// The environment assignments, to be applied in order.
    pub fn get_envs(&self) -> (vars: &Vec<(String, String)>)
        ensures
            with_vars(Map::empty(), vars@) == self@.env,
    {
        &self.env
    }

    /// What standard input is connected to.
    pub fn get_stdin(&self) -> (stdin: StdinMode)
        ensures
            stdin == self@.stdin,
    {
        self.stdin
    }
}


impl Default for CommandOptions {
    fn default() -> (options: Self)
        ensures
            options@ == CommandOptions::spec_default(),
    {
        CommandOptions::new(String::new(), PathBuf::from(String::new()))
    }
}

/// Which output stream of the child a chunk was read from.
#[derive(Clone, Copy, Debug, PartialEq, Eq, Structural)]
pub enum Stream {
    Stdout,
    Stderr,
}

/// Bytes read from one of the child's output streams.
#[derive(Clone, Debug)]
pub struct OutputChunk {
    pub stream: Stream,
    pub data: Vec<u8>,
}

/// The data of the chunks read from `stream`, in order.
pub open spec fn stream_data(chunks: Seq<OutputChunk>, stream: Stream) -> Seq<Seq<u8>>
    decreases chunks.len(),
{
    if chunks.len() == 0 {
        Seq::empty()
    } else if chunks.last().stream == stream {
        stream_data(chunks.drop_last(), stream).push(chunks.last().data@)
    } else {
        stream_data(chunks.drop_last(), stream)
    }
}

/// Room left in a buffer's counters.
pub open spec fn counter_room(v: BufferView) -> int {
    usize::MAX - v.omitted - v.retained().len()
}

/// The total length of a list of chunks.
pub open spec fn total_len(chunks: Seq<Seq<u8>>) -> nat {
    chunks.flatten().len()
}

/// Routes a chunk to the buffer of the stream it came from.
pub fn push_output_chunk(
    chunk: OutputChunk,
    stdout: &mut HeadTailBuffer,
    stderr: &mut HeadTailBuffer,
)
    requires
        old(stdout).wf(),
        old(stderr).wf(),
        chunk.stream == Stream::Stdout ==> chunk.data@.len() <= counter_room(old(stdout)@),
        chunk.stream == Stream::Stderr ==> chunk.data@.len() <= counter_room(old(stderr)@),
    ensures
        final(stdout).wf(),
        final(stderr).wf(),
        final(stdout)@ == (if chunk.stream == Stream::Stdout {
            after_push(old(stdout)@, chunk.data@)
        } else {
            old(stdout)@
        }),
        final(stderr)@ == (if chunk.stream == Stream::Stderr {
            after_push(old(stderr)@, chunk.data@)
        } else {
            old(stderr)@
        }),
{
    let OutputChunk { stream, data } = chunk;
    match stream {
        Stream::Stdout => stdout.push_chunk(data),
        Stream::Stderr => stderr.push_chunk(data),
    }
}

/// Pushes every pending chunk, in order, to the buffer of its stream.
pub fn drain_receiver(
    pending: Vec<OutputChunk>,
    stdout: &mut HeadTailBuffer,
    stderr: &mut HeadTailBuffer,
)
    requires
        old(stdout).wf(),
        old(stderr).wf(),
        total_len(stream_data(pending@, Stream::Stdout)) <= counter_room(old(stdout)@),
        total_len(stream_data(pending@, Stream::Stderr)) <= counter_room(old(stderr)@),
    ensures
        final(stdout).wf(),
        final(stderr).wf(),
        final(stdout)@ == after_pushes(old(stdout)@, stream_data(pending@, Stream::Stdout)),
        final(stderr)@ == after_pushes(old(stderr)@, stream_data(pending@, Stream::Stderr)),
{
    let ghost out0 = stdout@;
    let ghost err0 = stderr@;
    let mut pending = pending;
    let ghost all = pending@;
    let total = pending.len();
    let mut done: usize = 0;
    while pending.len() > 0
        invariant
            stdout.wf(),
            stderr.wf(),
            all.len() == done + pending@.len(),
            all.len() == total,
            pending@ == all.skip(done as int),
            stdout@ == after_pushes(out0, stream_data(all.take(done as int), Stream::Stdout)),
            stderr@ == after_pushes(err0, stream_data(all.take(done as int), Stream::Stderr)),
            total_len(stream_data(all, Stream::Stdout)) <= counter_room(out0),
            total_len(stream_data(all, Stream::Stderr)) <= counter_room(err0),
        decreases pending@.len(),
    {
        let chunk = pending.remove(0);
        proof {
            assert(chunk == all[done as int]);
            lemma_stream_step(out0, all, done as int, Stream::Stdout);
            lemma_stream_step(err0, all, done as int, Stream::Stderr);
        }
        push_output_chunk(chunk, stdout, stderr);
        done += 1;
    }
    proof {
        assert(all.take(done as int) =~= all);
    }
}

/// One step of routing chunks: the next chunk fits its buffer's counters, and
/// routing it extends the data pushed to its stream by exactly that chunk.
proof fn lemma_stream_step(v0: BufferView, all: Seq<OutputChunk>, done: int, stream: Stream)
    requires
        0 <= done < all.len(),
        total_len(stream_data(all, stream)) <= counter_room(v0),
    ensures
        all[done].stream == stream ==> all[done].data@.len() <= counter_room(
            after_pushes(v0, stream_data(all.take(done), stream)),
        ),
        after_pushes(v0, stream_data(all.take(done + 1), stream)) == (if all[done].stream
            == stream {
            after_push(after_pushes(v0, stream_data(all.take(done), stream)), all[done].data@)
        } else {
            after_pushes(v0, stream_data(all.take(done), stream))
        }),
{
    let prefix = all.take(done);
    assert(all.take(done + 1).drop_last() =~= prefix);
    let next = stream_data(all.take(done + 1), stream);
    if all[done].stream == stream {
        assert(next.drop_last() =~= stream_data(prefix, stream));
        lemma_after_pushes_conserves(v0, stream_data(prefix, stream));
        lemma_stream_data_prefix_len(all, done + 1, stream);
        lemma_flatten_push(stream_data(prefix, stream), all[done].data@);
    }
}

/// The data of a prefix of the chunks is no longer than the data of all.
proof fn lemma_stream_data_prefix_len(all: Seq<OutputChunk>, n: int, stream: Stream)
    requires
        0 <= n <= all.len(),
    ensures
        total_len(stream_data(all.take(n), stream)) <= total_len(stream_data(all, stream)),
    decreases all.len() - n,
{
    if n < all.len() {
        lemma_stream_data_prefix_len(all, n + 1, stream);
        assert(all.take(n + 1).drop_last() =~= all.take(n));
        if all[n].stream == stream {
            lemma_flatten_push(stream_data(all.take(n), stream), all[n].data@);
        }
    } else {
        assert(all.take(n) =~= all);
    }
}

/// The result of running a command to completion or to its deadline.
#[derive(Clone, Debug, PartialEq, Eq)]
pub struct RunOutput {
    pub stdout: Vec<u8>,
    pub stderr: Vec<u8>,
    pub stdout_omitted_bytes: usize,
    pub stderr_omitted_bytes: usize,
    pub stdout_head_bytes: usize,
    pub stderr_head_bytes: usize,
    pub exit_code: Option<i32>,
    pub timed_out: bool,
    pub wall_time: Duration,
}

/// What woke the collecting loop while it waited.
#[derive(Clone, Debug)]
pub enum RunEvent {
    /// The output channel produced a chunk, or reported that it had none.
    Output(Option<OutputChunk>),
    /// The child exited.
    Exited,
    /// The deadline passed.
    DeadlineReached,
}

/// What the collecting loop does next.
#[derive(Clone, Copy, Debug, PartialEq, Eq, Structural)]
pub enum RunAction {
    /// Go round again: drain pending output, then decide.
    Continue,
    /// Wait for the next chunk, the child's exit, or the deadline.
    AwaitEvent,
    /// Give the child's last output a grace period to arrive, then go round.
    GraceThenContinue,
    /// Terminate the child, give its last output a grace period, then finish.
    TerminateThenFinish,
    /// Drain what is pending and build the result.
    Finish,
}

/// What the collecting loop knows: both buffers, and whether the child's exit
/// has been seen or the deadline has passed.
pub struct RunStateView {
    pub stdout: BufferView,
    pub stderr: BufferView,
    pub exit_seen: bool,
    pub timed_out: bool,
}

/// The state of a command's output collection under a deadline.
pub struct RunState {
    stdout: HeadTailBuffer,
    stderr: HeadTailBuffer,
    exit_seen: bool,
    timed_out: bool,
}

impl View for RunState {
    type V = RunStateView;

    closed spec fn view(&self) -> RunStateView {
        RunStateView {
            stdout: self.stdout@,
            stderr: self.stderr@,
            exit_seen: self.exit_seen,
            timed_out: self.timed_out,
        }
    }
}

impl RunState {
    /// Both buffers are well formed.
    pub closed spec fn wf(&self) -> bool {
        self.stdout.wf() && self.stderr.wf()
    }

    /// Nothing collected yet; each stream keeps at most `max_output_bytes`.
    pub fn new(max_output_bytes: usize) -> (state: Self)
        ensures
            state.wf(),
            state@ == (RunStateView {
                stdout: BufferView::empty(max_output_bytes as nat),
                stderr: BufferView::empty(max_output_bytes as nat),
                exit_seen: false,
                timed_out: false,
            }),
    {
        RunState {
            stdout: HeadTailBuffer::new(max_output_bytes),
            stderr: HeadTailBuffer::new(max_output_bytes),
            exit_seen: false,
            timed_out: false,
        }
    }

    /// The standard output collected so far.
    pub fn stdout(&self) -> (buffer: &HeadTailBuffer)
        requires
            self.wf(),
        ensures
            buffer.wf(),
            buffer@ == self@.stdout,
    {
        &self.stdout
    }

    /// The standard error collected so far.
    pub fn stderr(&self) -> (buffer: &HeadTailBuffer)
        requires
            self.wf(),
        ensures
            buffer.wf(),
            buffer@ == self@.stderr,
    {
        &self.stderr
    }

    /// Takes in the output that is pending on the channel.
    pub fn absorb(&mut self, pending: Vec<OutputChunk>)
        requires
            old(self).wf(),
            total_len(stream_data(pending@, Stream::Stdout)) <= counter_room(old(self)@.stdout),
            total_len(stream_data(pending@, Stream::Stderr)) <= counter_room(old(self)@.stderr),
        ensures
            final(self).wf(),
            final(self)@ == (RunStateView {
                stdout: after_pushes(old(self)@.stdout, stream_data(pending@, Stream::Stdout)),
                stderr: after_pushes(old(self)@.stderr, stream_data(pending@, Stream::Stderr)),
                ..old(self)@
            }),
    {
        drain_receiver(pending, &mut self.stdout, &mut self.stderr);
    }

    /// After pending output is drained: finish once the exit was seen; if the
    /// child has exited meanwhile, note it and wait out the grace period;
    /// otherwise wait for an event.
    pub fn after_drain(&mut self, has_exited: bool) -> (action: RunAction)
        ensures
            final(self)@ == (RunStateView {
                exit_seen: old(self)@.exit_seen || has_exited,
                ..old(self)@
            }),
            action == (if old(self)@.exit_seen {
                RunAction::Finish
            } else if has_exited {
                RunAction::GraceThenContinue
            } else {
                RunAction::AwaitEvent
            }),
            old(self).wf() ==> final(self).wf(),
    {
        if self.exit_seen {
            return RunAction::Finish;
        }
        if has_exited {
            self.exit_seen = true;
            return RunAction::GraceThenContinue;
        }
        RunAction::AwaitEvent
    }

    /// Handles what woke the loop: a chunk is routed to its buffer; the
    /// child's exit is noted before a grace period; at the deadline the run is
    /// marked as timed out and the child is terminated.
    pub fn on_event(&mut self, event: RunEvent) -> (action: RunAction)
        requires
            old(self).wf(),
            event matches RunEvent::Output(Some(c)) ==> (c.stream == Stream::Stdout
                ==> c.data@.len() <= counter_room(old(self)@.stdout)) && (c.stream
                == Stream::Stderr ==> c.data@.len() <= counter_room(old(self)@.stderr)),
        ensures
            final(self).wf(),
            match event {
                RunEvent::Output(Some(c)) => {
                    &&& action == RunAction::Continue
                    &&& final(self)@ == (RunStateView {
                        stdout: if c.stream == Stream::Stdout {
                            after_push(old(self)@.stdout, c.data@)
                        } else {
                            old(self)@.stdout
                        },
                        stderr: if c.stream == Stream::Stderr {
                            after_push(old(self)@.stderr, c.data@)
                        } else {
                            old(self)@.stderr
                        },
                        ..old(self)@
                    })
                },
                RunEvent::Output(None) => {
                    &&& action == RunAction::Continue
                    &&& final(self)@ == old(self)@
                },
                RunEvent::Exited => {
                    &&& action == RunAction::GraceThenContinue
                    &&& final(self)@ == (RunStateView { exit_seen: true, ..old(self)@ })
                },
                RunEvent::DeadlineReached => {
                    &&& action == RunAction::TerminateThenFinish
                    &&& final(self)@ == (RunStateView { timed_out: true, ..old(self)@ })
                },
            },
    {
        match event {
            RunEvent::Output(Some(chunk)) => {
                push_output_chunk(chunk, &mut self.stdout, &mut self.stderr);
                RunAction::Continue
            },
            RunEvent::Output(None) => RunAction::Continue,
            RunEvent::Exited => {
                self.exit_seen = true;
                RunAction::GraceThenContinue
            },
            RunEvent::DeadlineReached => {
                self.timed_out = true;
                RunAction::TerminateThenFinish
            },
        }
    }

    /// The result: both streams' retained bytes and counters, and the exit
    /// code, which is not reported for a run that timed out.
    pub fn finish(&self, exit_code: Option<i32>, wall_time: Duration) -> (output: RunOutput)
        requires
            self.wf(),
        ensures
            output.stdout@ == self@.stdout.retained(),
            output.stderr@ == self@.stderr.retained(),
            output.stdout_omitted_bytes == self@.stdout.omitted,
            output.stderr_omitted_bytes == self@.stderr.omitted,
            output.stdout_head_bytes == self@.stdout.head_content().len(),
            output.stderr_head_bytes == self@.stderr.head_content().len(),
            output.exit_code == (if self@.timed_out {
                None
            } else {
                exit_code
            }),
            output.timed_out == self@.timed_out,
            output.wall_time == wall_time,
    {
        RunOutput {
            stdout: self.stdout.to_bytes(),
            stderr: self.stderr.to_bytes(),
            stdout_omitted_bytes: self.stdout.omitted_bytes(),
            stderr_omitted_bytes: self.stderr.omitted_bytes(),
            stdout_head_bytes: self.stdout.head_bytes(),
            stderr_head_bytes: self.stderr.head_bytes(),
            exit_code: if self.timed_out {
                None
            } else {
                exit_code
            },
            timed_out: self.timed_out,
            wall_time,
        }
    }
}

/// How a child ended, as the operating system reports it.
#[derive(Clone, Copy, Debug, PartialEq, Eq, Structural)]
pub struct ExitInfo {
    /// The exit code, when the child exited normally.
    pub code: Option<i32>,
    /// The signal that ended the child, when one did.
    pub signal: Option<i32>,
}

/// The exit code reported for an ending: the child's own code; else 128
/// plus the signal that ended it; else -1.
pub open spec fn spec_exit_code(info: ExitInfo) -> int {
    match info.code {
        Some(code) => code as int,
        None => match info.signal {
            Some(signal) => 128 + signal,
            None => -1,
        },
    }
}

/// The reported code keeps the child's own exit code; a child ended by a
/// signal is reported as 128 plus that signal, so different signals give
/// different codes, each above 128 for a positive signal; a child with
/// neither is reported as -1.
pub proof fn lemma_exit_code_reports_ending(code: Option<i32>, signal: Option<i32>, other: i32)
    ensures
        code matches Some(c) ==> spec_exit_code(ExitInfo { code, signal }) == c,
        signal matches Some(s) ==> spec_exit_code(ExitInfo { code: None, signal }) == 128 + s,
        signal matches Some(s) ==> spec_exit_code(ExitInfo { code: None, signal })
            - spec_exit_code(ExitInfo { code: None, signal: Some(other) }) == s - other,
        signal matches Some(s) && s > 0 ==> spec_exit_code(ExitInfo { code: None, signal }) > 128,
        spec_exit_code(ExitInfo { code: None, signal: None }) == -1,
{
}

/// The exit code reported for how a child ended.
pub fn normalize_exit_code(info: ExitInfo) -> (code: i32)
    requires
        info.code is None ==> (info.signal matches Some(s) ==> s <= i32::MAX - 128),
    ensures
        code as int == spec_exit_code(info),
        info.code matches Some(c) ==> code == c,
        info.code is None ==> (info.signal matches Some(s) ==> code as int == 128 + s),
        info.code is None && info.signal is None ==> code == -1,
{
    if let Some(code) = info.code {
        return code;
    }
    if let Some(signal) = info.signal {
        return 128 + signal;
    }
    -1
}

/// The exit code recorded once waiting on the child is over: the normalized
/// code of its ending, or -1 when waiting failed (`None`).
pub fn exit_code_after_wait(ended: Option<ExitInfo>) -> (code: Option<i32>)
    requires
        ended matches Some(info) ==> (info.code is None ==> (info.signal matches Some(s) ==> s
            <= i32::MAX - 128)),
    ensures
        code matches Some(c) && c as int == (match ended {
            Some(info) => spec_exit_code(info),
            None => -1,
        }),
        ended is None ==> code == Some(-1i32),
        ended matches Some(info) ==> (info.code matches Some(c) ==> code == Some(c)),
        ended matches Some(info) ==> (info.code is None ==> (info.signal matches Some(s) ==> code
            matches Some(r) && r as int == 128 + s)),
        ended matches Some(info) ==> (info.code is None && info.signal is None ==> code == Some(
            -1i32,
        )),
{
    match ended {
        Some(info) => Some(normalize_exit_code(info)),
        None => Some(-1),
    }
}

} // verus!
