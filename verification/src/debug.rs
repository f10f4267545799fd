//! The debug protocol between the interpreter and a debugger front end: its
//! messages, and the session state that decides where execution stops.
use std::collections::HashMap;
use vstd::prelude::*;
use vstd::string::StringSliceAdditionalSpecFns;
use crate::text::chars_of;

verus! {

/// The version of the debug protocol.
pub const PROTOCOL_VERSION: u32 = 1;

/// A breakpoint on a line, with an optional condition.
#[derive(Clone, Debug)]
pub struct DebugBreakpoint {
    pub line: u32,
    pub condition: Option<String>,
}

/// An expression to watch.
#[derive(Clone, Debug)]
pub struct DebugWatch {
    pub expr: String,
}

/// A command of the front end.
#[derive(Clone, Debug)]
pub enum DebugCommand {
    Enable { start_paused: bool, perf: bool },
    Pause,
    Continue,
    Step,
    /// Terminate the running program.
    Terminate,
    SetBreakpoints { breakpoints: Vec<DebugBreakpoint> },
    SetWatches { watches: Vec<DebugWatch> },
}

/// The value of a watched expression, or the error of evaluating it.
#[derive(Clone, Debug)]
pub struct DebugWatchValue {
    pub expr: String,
    pub value: Option<String>,
    pub error: Option<String>,
}

/// One timed statement.
#[derive(Clone, Debug)]
pub struct PerfTimelineEvent {
    pub line: u32,
    pub col: u32,
    pub kind: String,
    pub dur_ns: u64,
}

/// A performance report.
#[derive(Clone, Debug)]
pub struct PerfReport {
    pub timeline: Vec<PerfTimelineEvent>,
    pub flame_folded: String,
    pub memory: HashMap<String, u64>,
}

/// An event sent to the front end.
#[derive(Clone, Debug)]
pub enum DebugEvent {
    Hello { protocol: u32, capabilities: Vec<String> },
    Stopped {
        reason: String,
        file: String,
        line: u32,
        col: u32,
        env: HashMap<String, String>,
        watches: Vec<DebugWatchValue>,
    },
    PerfReport { report: PerfReport },
    NativeLaunch { exe: String },
    NativeExit { code: Option<i32> },
    Terminated {
        /// What was terminated, such as "devvm" or "native".
        target: String,
    },
}


// ---------------------------------------------------------------------------
// Session state
// ---------------------------------------------------------------------------

/// A breakpoint as the session keeps it: its line, whether it has a
/// condition, and the last error of evaluating that condition.
#[derive(Clone, Debug)]
pub struct BreakpointState {
    pub line: u32,
    pub conditional: bool,
    pub last_error: Option<String>,
}

/// What evaluating a breakpoint's condition gave.
#[derive(Clone, Debug)]
pub enum ConditionOutcome {
    /// The condition holds.
    Holds,
    /// The condition does not hold.
    Fails,
    /// Evaluating the condition failed with this message.
    EvalError(String),
    /// The condition could not be parsed.
    Unparsable,
}

/// The model of a condition's outcome.
pub enum OutcomeModel {
    Holds,
    Fails,
    EvalError(Seq<char>),
    Unparsable,
}

impl View for ConditionOutcome {
    type V = OutcomeModel;

    open spec fn view(&self) -> OutcomeModel {
        match self {
            ConditionOutcome::Holds => OutcomeModel::Holds,
            ConditionOutcome::Fails => OutcomeModel::Fails,
            ConditionOutcome::EvalError(e) => OutcomeModel::EvalError(e@),
            ConditionOutcome::Unparsable => OutcomeModel::Unparsable,
        }
    }
}

/// Why execution stops.
#[derive(Clone, Copy, Debug, PartialEq, Eq, Structural)]
pub enum StopReason {
    /// A step has run its statement.
    Step,
    /// The session is paused.
    Pause,
    /// A breakpoint was hit.
    Breakpoint,
}

impl StopReason {
    /// The reason as the protocol names it.
    pub open spec fn name_text(self) -> Seq<char> {
        match self {
            StopReason::Step => "step"@,
            StopReason::Pause => "pause"@,
            StopReason::Breakpoint => "breakpoint"@,
        }
    }

    /// The reason as the protocol names it.
    pub fn name(&self) -> (r: String)
        ensures
            r@ == self.name_text(),
    {
        match self {
            StopReason::Step => String::from_str("step"),
            StopReason::Pause => String::from_str("pause"),
            StopReason::Breakpoint => String::from_str("breakpoint"),
        }
    }
}

/// The decision before a statement.
#[derive(Clone, Copy, Debug, PartialEq, Eq, Structural)]
pub enum StopDecision {
    /// Stop, for this reason.
    Stop(StopReason),
    /// Evaluate the condition of the breakpoint at this index, and report the
    /// outcome.
    Evaluate(usize),
    /// Run the statement.
    Run,
}

/// The state of a debug session.
#[derive(Debug)]
pub struct DebugState {
    enabled: bool,
    paused: bool,
    step_mode: bool,
    step_budget: u32,
    terminate_requested: bool,
    perf_enabled: bool,
    file: String,
    line_starts: Vec<usize>,
    breakpoints: Vec<BreakpointState>,
    perf_timeline: Vec<PerfTimelineEvent>,
}

/// The model of a breakpoint.
pub struct BreakpointModel {
    pub line: u32,
    pub conditional: bool,
    pub last_error: Option<Seq<char>>,
}

/// The model of the session state.
pub struct DebugModel {
    pub enabled: bool,
    pub paused: bool,
    pub step_mode: bool,
    pub step_budget: u32,
    pub terminate_requested: bool,
    pub perf_enabled: bool,
    pub file: Seq<char>,
    pub line_starts: Seq<usize>,
    pub breakpoints: Seq<BreakpointModel>,
    pub perf_timeline: Seq<PerfTimelineEvent>,
}

impl View for BreakpointState {
    type V = BreakpointModel;

    open spec fn view(&self) -> BreakpointModel {
        BreakpointModel {
            line: self.line,
            conditional: self.conditional,
            last_error: match self.last_error {
                Some(e) => Some(e@),
                None => None,
            },
        }
    }
}

/// The models of a list of breakpoints.
pub open spec fn bps_view(v: Seq<BreakpointState>) -> Seq<BreakpointModel> {
    Seq::new(v.len(), |i: int| v[i]@)
}

impl View for DebugState {
    type V = DebugModel;

    closed spec fn view(&self) -> DebugModel {
        DebugModel {
            enabled: self.enabled,
            paused: self.paused,
            step_mode: self.step_mode,
            step_budget: self.step_budget,
            terminate_requested: self.terminate_requested,
            perf_enabled: self.perf_enabled,
            file: self.file@,
            line_starts: self.line_starts@,
            breakpoints: bps_view(self.breakpoints@),
            perf_timeline: self.perf_timeline@,
        }
    }
}

/// The session after a command. Every command enables the session.
pub open spec fn after_command(m: DebugModel, cmd: DebugCommand) -> DebugModel {
    match cmd {
        DebugCommand::Enable { start_paused, perf } => DebugModel {
            enabled: true,
            paused: m.paused || start_paused,
            perf_enabled: perf,
            ..m
        },
        DebugCommand::Pause => DebugModel { enabled: true, paused: true, ..m },
        DebugCommand::Continue => DebugModel {
            enabled: true,
            paused: false,
            step_mode: false,
            step_budget: 0,
            ..m
        },
        DebugCommand::Step => DebugModel {
            enabled: true,
            paused: false,
            step_mode: true,
            step_budget: 1,
            ..m
        },
        DebugCommand::Terminate => DebugModel { enabled: true, terminate_requested: true, ..m },
        DebugCommand::SetBreakpoints { breakpoints } => DebugModel {
            enabled: true,
            breakpoints: Seq::new(
                breakpoints@.len(),
                |i: int| BreakpointModel {
                    line: breakpoints@[i].line,
                    conditional: breakpoints@[i].condition is Some,
                    last_error: None,
                },
            ),
            ..m
        },
        DebugCommand::SetWatches { .. } => DebugModel { enabled: true, ..m },
    }
}

/// The first breakpoint on `line` from index `k` on: stop at once when it has
/// no condition, else evaluate its condition; run when there is none.
pub open spec fn scan_from(bps: Seq<BreakpointModel>, line: u32, k: int) -> StopDecision
    decreases bps.len() - k,
{
    if k < 0 || k >= bps.len() {
        StopDecision::Run
    } else if bps[k].line != line {
        scan_from(bps, line, k + 1)
    } else if !bps[k].conditional {
        StopDecision::Stop(StopReason::Breakpoint)
    } else {
        StopDecision::Evaluate(k as usize)
    }
}


/// The session paused when the decision is a stop.
pub open spec fn paused_on(m: DebugModel, d: StopDecision) -> DebugModel {
    if d is Stop { DebugModel { paused: true, ..m } } else { m }
}

/// The check before a statement on `line`: run while the session is off;
/// stop once a step has run its statement; stop while paused; otherwise the
/// first breakpoint on the line decides. A stop pauses the session.
pub open spec fn begin_check(m: DebugModel, line: u32) -> (DebugModel, StopDecision) {
    if !m.enabled {
        (m, StopDecision::Run)
    } else if m.step_mode && m.step_budget == 0 && !m.paused {
        (DebugModel { paused: true, ..m }, StopDecision::Stop(StopReason::Step))
    } else if m.paused {
        (m, StopDecision::Stop(StopReason::Pause))
    } else {
        let d = scan_from(m.breakpoints, line, 0);
        (paused_on(m, d), d)
    }
}

/// The check going on after the condition of breakpoint `k` gave `o`: a
/// condition that holds, fails to evaluate (the error is kept with the
/// breakpoint) or cannot be parsed stops at the breakpoint; one that does not
/// hold passes on to the next breakpoint on the line.
pub open spec fn resume_check(m: DebugModel, line: u32, k: int, o: OutcomeModel) -> (DebugModel, StopDecision) {
    match o {
        OutcomeModel::Holds | OutcomeModel::Unparsable => (
            DebugModel { paused: true, ..m },
            StopDecision::Stop(StopReason::Breakpoint),
        ),
        OutcomeModel::EvalError(e) => (
            DebugModel {
                paused: true,
                breakpoints: m.breakpoints.update(k, BreakpointModel { last_error: Some(e), ..m.breakpoints[k] }),
                ..m
            },
            StopDecision::Stop(StopReason::Breakpoint),
        ),
        OutcomeModel::Fails => {
            let d = scan_from(m.breakpoints, line, k + 1);
            (paused_on(m, d), d)
        },
    }
}

/// The session after a statement ran: a step's budget goes down by one.
pub open spec fn executed(m: DebugModel) -> DebugModel {
    if m.step_mode && m.step_budget > 0 { DebugModel { step_budget: (m.step_budget - 1) as u32, ..m } } else { m }
}

/// The starts of the lines of `b[..n]`: 0, and each position after a `\n`.
pub open spec fn starts_before(b: Seq<u8>, n: int) -> Seq<usize>
    decreases n,
{
    if n <= 0 {
        seq![0usize]
    } else if b[n - 1] == 10 {
        starts_before(b, n - 1).push(n as usize)
    } else {
        starts_before(b, n - 1)
    }
}

/// The index of the last line start at or before `off` among `starts[..n]`;
/// 0 when there is none.
pub open spec fn last_le(starts: Seq<usize>, off: usize, n: int) -> int
    decreases n,
{
    if n <= 0 {
        0
    } else if starts[n - 1] <= off {
        n - 1
    } else {
        last_le(starts, off, n - 1)
    }
}

/// The line starts increase strictly.
pub open spec fn increasing(starts: Seq<usize>) -> bool {
    forall|i: int, j: int| 0 <= i < j < starts.len() ==> starts[i] < starts[j]
}

/// The file name after `set_source`: a name in angle brackets (a pseudo file)
/// only when no file was named yet.
pub open spec fn source_file(old_file: Seq<char>, file: Seq<char>) -> Seq<char> {
    if file.len() > 0 && file[0] == '<' && old_file.len() > 0 { old_file } else { file }
}

/// The line index and the column (both from 0) of byte offset `off`.
pub open spec fn position_of(m: DebugModel, off: usize) -> (int, int) {
    let i = last_le(m.line_starts, off, m.line_starts.len() as int);
    let start = if 0 <= i < m.line_starts.len() { m.line_starts[i] as int } else { 0 };
    (i, if off >= start { off - start } else { 0 })
}

proof fn lemma_last_le(starts: Seq<usize>, off: usize, n: int, p: int)
    requires
        0 <= p <= n <= starts.len(),
        forall|i: int| p <= i < n ==> #[trigger] starts[i] > off,
        p > 0 ==> starts[p - 1] <= off,
    ensures
        last_le(starts, off, n) == if p > 0 { p - 1 } else { 0 },
    decreases n,
{
    if n > p {
        lemma_last_le(starts, off, n - 1, p);
    } else if n > 0 {
    }
}

impl DebugState {
    /// The line starts increase strictly.
    pub closed spec fn wf(&self) -> bool {
        increasing(self.line_starts@)
    }

    /// A session that is off, with no source, breakpoints or timings.
    pub fn new() -> (r: Self)
        ensures
            r.wf(),
            !r@.enabled && !r@.paused && !r@.step_mode && r@.step_budget == 0,
            !r@.terminate_requested && !r@.perf_enabled,
            r@.file.len() == 0,
            r@.line_starts.len() == 0,
            r@.breakpoints.len() == 0,
            r@.perf_timeline.len() == 0,
    {
        let r = DebugState {
            enabled: false,
            paused: false,
            step_mode: false,
            step_budget: 0,
            terminate_requested: false,
            perf_enabled: false,
            file: String::new(),
            line_starts: Vec::new(),
            breakpoints: Vec::new(),
            perf_timeline: Vec::new(),
        };
        assert(r@.breakpoints =~= Seq::<BreakpointModel>::empty());
        r
    }

    /// Applies a command of the front end.
    pub fn apply_command(&mut self, cmd: DebugCommand)
        requires
            old(self).wf(),
        ensures
            final(self).wf(),
            final(self)@ == after_command(old(self)@, cmd),
    {
        let ghost c = cmd;
        match cmd {
            DebugCommand::Enable { start_paused, perf } => {
                self.enabled = true;
                if start_paused {
                    self.paused = true;
                }
                self.perf_enabled = perf;
            },
            DebugCommand::Pause => {
                self.enabled = true;
                self.paused = true;
            },
            DebugCommand::Continue => {
                self.enabled = true;
                self.paused = false;
                self.step_mode = false;
                self.step_budget = 0;
            },
            DebugCommand::Step => {
                self.enabled = true;
                self.paused = false;
                self.step_mode = true;
                self.step_budget = 1;
            },
            DebugCommand::Terminate => {
                self.enabled = true;
                self.terminate_requested = true;
            },
            DebugCommand::SetBreakpoints { breakpoints } => {
                self.enabled = true;
                let mut bps: Vec<BreakpointState> = Vec::new();
                let mut k: usize = 0;
                while k < breakpoints.len()
                    invariant
                        k <= breakpoints@.len(),
                        bps@.len() == k,
                        forall|i: int| 0 <= i < k ==> (#[trigger] bps@[i])@ == (BreakpointModel {
                            line: breakpoints@[i].line,
                            conditional: breakpoints@[i].condition is Some,
                            last_error: None,
                        }),
                    decreases breakpoints@.len() - k,
                {
                    bps.push(BreakpointState {
                        line: breakpoints[k].line,
                        conditional: breakpoints[k].condition.is_some(),
                        last_error: None,
                    });
                    k = k + 1;
                }
                self.breakpoints = bps;
                assert(self@.breakpoints =~= after_command(old(self)@, c).breakpoints);
            },
            DebugCommand::SetWatches { .. } => {
                self.enabled = true;
            },
        }
    }

    /// The first step of the check before a statement on `line` (see
    /// [`begin_check`]).
    pub fn begin_stop_check(&mut self, line: u32) -> (r: StopDecision)
        requires
            old(self).wf(),
        ensures
            final(self).wf(),
            (final(self)@, r) == begin_check(old(self)@, line),
    {
        if !self.enabled {
            return StopDecision::Run;
        }
        if self.step_mode && self.step_budget == 0 && !self.paused {
            self.paused = true;
            return StopDecision::Stop(StopReason::Step);
        }
        if self.paused {
            return StopDecision::Stop(StopReason::Pause);
        }
        let d = self.scan(line, 0);
        if matches!(d, StopDecision::Stop(_)) {
            self.paused = true;
        }
        d
    }

    /// The check going on once the condition of breakpoint `k` gave `outcome`
    /// (see [`resume_check`]).
    pub fn resume_stop_check(&mut self, line: u32, k: usize, outcome: ConditionOutcome) -> (r: StopDecision)
        requires
            old(self).wf(),
            k < old(self)@.breakpoints.len(),
        ensures
            final(self).wf(),
            (final(self)@, r) == resume_check(old(self)@, line, k as int, outcome@),
    {
        let ghost m0 = self@;
        assert(m0.breakpoints == bps_view(self.breakpoints@));
        assert(bps_view(self.breakpoints@).len() == self.breakpoints@.len());
        let n = self.breakpoints.len();
        assert(k < n);
        match outcome {
            ConditionOutcome::Holds | ConditionOutcome::Unparsable => {
                self.paused = true;
                StopDecision::Stop(StopReason::Breakpoint)
            },
            ConditionOutcome::EvalError(e) => {
                let ghost em = e@;
                self.paused = true;
                let b = BreakpointState { line: self.breakpoints[k].line, conditional: self.breakpoints[k].conditional, last_error: Some(e) };
                self.breakpoints.set(k, b);
                assert(self@.breakpoints =~= m0.breakpoints.update(
                    k as int,
                    BreakpointModel { last_error: Some(em), ..m0.breakpoints[k as int] },
                ));
                StopDecision::Stop(StopReason::Breakpoint)
            },
            ConditionOutcome::Fails => {
                let d = self.scan(line, k + 1);
                if matches!(d, StopDecision::Stop(_)) {
                    self.paused = true;
                }
                d
            },
        }
    }

    fn scan(&self, line: u32, from: usize) -> (r: StopDecision)
        requires
            from <= self.breakpoints@.len(),
        ensures
            r == scan_from(self@.breakpoints, line, from as int),
    {
        let mut k = from;
        while k < self.breakpoints.len()
            invariant
                from <= k <= self.breakpoints@.len(),
                scan_from(self@.breakpoints, line, from as int) == scan_from(self@.breakpoints, line, k as int),
            decreases self.breakpoints@.len() - k,
        {
            let b = &self.breakpoints[k];
            if b.line == line {
                if !b.conditional {
                    return StopDecision::Stop(StopReason::Breakpoint);
                }
                return StopDecision::Evaluate(k);
            }
            k = k + 1;
        }
        StopDecision::Run
    }

    /// Notes that a statement ran (see [`executed`]).
    pub fn note_stmt_executed(&mut self)
        requires
            old(self).wf(),
        ensures
            final(self).wf(),
            final(self)@ == executed(old(self)@),
    {
        if self.step_mode && self.step_budget > 0 {
            self.step_budget = self.step_budget - 1;
        }
    }

    /// Takes the source that runs: the file's name (see [`source_file`]) and
    /// the starts of its lines.
    pub fn set_source(&mut self, file: String, text: &str)
        requires
            old(self).wf(),
        ensures
            final(self).wf(),
            final(self)@ == (DebugModel {
                file: source_file(old(self)@.file, file@),
                line_starts: starts_before(text.spec_bytes(), text.spec_bytes().len() as int),
                ..old(self)@
            }),
    {
        let fc = chars_of(file.as_str());
        let pseudo = fc.len() > 0 && fc[0] == '<';
        if pseudo {
            if chars_of(self.file.as_str()).len() == 0 {
                self.file = file;
            }
        } else {
            self.file = file;
        }
        let b = text.as_bytes();
        let ghost bs = b@;
        let mut starts: Vec<usize> = Vec::new();
        starts.push(0);
        let mut i: usize = 0;
        while i < b.len()
            invariant
                i <= b@.len(),
                bs == b@,
                starts@ == starts_before(bs, i as int),
                increasing(starts@),
                forall|k: int| 0 <= k < starts@.len() ==> #[trigger] starts@[k] <= i,
            decreases b@.len() - i,
        {
            if b[i] == 10 {
                starts.push(i + 1);
            }
            i = i + 1;
        }
        self.line_starts = starts;
    }

    /// The line and column (both from 1) of byte offset `off`, and the file.
    pub fn line_col(&self, off: usize) -> (r: (u32, u32, String))
        requires
            self.wf(),
            (position_of(self@, off).0 as u32) < u32::MAX,
            (position_of(self@, off).1 as u32) < u32::MAX,
        ensures
            r.0 == (position_of(self@, off).0 as u32) + 1,
            r.1 == (position_of(self@, off).1 as u32) + 1,
            r.2@ == self@.file,
    {
        let n = self.line_starts.len();
        let mut lo: usize = 0;
        let mut hi: usize = n;
        while lo < hi
            invariant
                lo <= hi <= n,
                n == self.line_starts@.len(),
                increasing(self.line_starts@),
                forall|i: int| 0 <= i < lo ==> #[trigger] self.line_starts@[i] <= off,
                forall|i: int| hi <= i < n ==> #[trigger] self.line_starts@[i] > off,
            decreases hi - lo,
        {
            let mid = lo + (hi - lo) / 2;
            if self.line_starts[mid] <= off {
                assert forall|i: int| 0 <= i < mid + 1 implies #[trigger] self.line_starts@[i] <= off by {
                    if i < mid {
                        assert(self.line_starts@[i] < self.line_starts@[mid as int]);
                    }
                }
                lo = mid + 1;
            } else {
                assert forall|i: int| mid <= i < n implies #[trigger] self.line_starts@[i] > off by {
                    if i > mid {
                        assert(self.line_starts@[mid as int] < self.line_starts@[i]);
                    }
                }
                hi = mid;
            }
        }
        proof {
            lemma_last_le(self.line_starts@, off, n as int, lo as int);
        }
        let idx: usize = if lo == 0 { 0 } else { lo - 1 };
        let start: usize = if idx < n { self.line_starts[idx] } else { 0 };
        let col0: usize = if off >= start { off - start } else { 0 };
        ((idx as u32) + 1, (col0 as u32) + 1, String::from_str(self.file.as_str()))
    }

    /// Whether the interpreter must keep waiting: paused, with no
    /// termination requested.
    pub fn must_wait(&self) -> (r: bool)
        ensures
            r == (self@.paused && !self@.terminate_requested),
    {
        self.paused && !self.terminate_requested
    }

    /// Ends a wait: a requested termination unpauses the session so that the
    /// program can unwind.
    pub fn finish_wait(&mut self)
        requires
            old(self).wf(),
        ensures
            final(self).wf(),
            final(self)@ == if old(self)@.terminate_requested {
                DebugModel { paused: false, ..old(self)@ }
            } else {
                old(self)@
            },
    {
        if self.terminate_requested {
            self.paused = false;
        }
    }

    /// Whether termination was requested, clearing the request.
    pub fn take_terminate_requested(&mut self) -> (r: bool)
        requires
            old(self).wf(),
        ensures
            final(self).wf(),
            r == old(self)@.terminate_requested,
            final(self)@ == (DebugModel { terminate_requested: false, ..old(self)@ }),
    {
        let out = self.terminate_requested;
        self.terminate_requested = false;
        out
    }

    /// Whether timings are recorded.
    pub fn perf_enabled(&self) -> (r: bool)
        ensures
            r == self@.perf_enabled,
    {
        self.perf_enabled
    }

    /// Records a timing when timings are on.
    pub fn perf_push(&mut self, ev: PerfTimelineEvent)
        requires
            old(self).wf(),
        ensures
            final(self).wf(),
            final(self)@ == if old(self)@.perf_enabled {
                DebugModel { perf_timeline: old(self)@.perf_timeline.push(ev), ..old(self)@ }
            } else {
                old(self)@
            },
            old(self)@.perf_enabled ==> final(self).timeline() == old(self).timeline().push(ev),
            !old(self)@.perf_enabled ==> final(self).timeline() == old(self).timeline(),
    {
        if self.perf_enabled {
            self.perf_timeline.push(ev);
        }
    }

    /// The recorded timings.
    pub closed spec fn timeline(&self) -> Seq<PerfTimelineEvent> {
        self.perf_timeline@
    }

    /// The recorded timings, which are cleared.
    pub fn perf_take(&mut self) -> (r: Vec<PerfTimelineEvent>)
        requires
            old(self).wf(),
        ensures
            final(self).wf(),
            r@ == old(self).timeline(),
            final(self).timeline().len() == 0,
            final(self)@ == (DebugModel { perf_timeline: Seq::empty(), ..old(self)@ }),
    {
        let mut out: Vec<PerfTimelineEvent> = Vec::new();
        std::mem::swap(&mut out, &mut self.perf_timeline);
        out
    }

    /// The breakpoints whose condition failed to evaluate, with the error, in
    /// order.
    pub fn breakpoint_errors(&self) -> (r: Vec<(u32, String)>)
        ensures
            r@.len() == errors_of(self@.breakpoints).len(),
            forall|i: int| 0 <= i < r@.len() ==> (#[trigger] r@[i].0, r@[i].1@) == errors_of(self@.breakpoints)[i],
    {
        let ghost bm = self@.breakpoints;
        let mut out: Vec<(u32, String)> = Vec::new();
        let mut k: usize = 0;
        while k < self.breakpoints.len()
            invariant
                k <= self.breakpoints@.len(),
                bm == self@.breakpoints,
                out@.len() == errors_of(bm.subrange(0, k as int)).len(),
                forall|i: int| 0 <= i < out@.len() ==> (#[trigger] out@[i].0, out@[i].1@) == errors_of(
                    bm.subrange(0, k as int),
                )[i],
            decreases self.breakpoints@.len() - k,
        {
            let ghost before = bm.subrange(0, k as int);
            assert(bm.subrange(0, k + 1).drop_last() =~= before);
            assert(bm[k as int] == self.breakpoints@[k as int]@);
            match &self.breakpoints[k].last_error {
                Some(e) => {
                    out.push((self.breakpoints[k].line, e.clone()));
                },
                None => {},
            }
            k = k + 1;
        }
        assert(bm.subrange(0, bm.len() as int) =~= bm);
        out
    }
}

/// The breakpoints with an evaluation error, as `(line, error)`, in order.
pub open spec fn errors_of(bps: Seq<BreakpointModel>) -> Seq<(u32, Seq<char>)>
    decreases bps.len(),
{
    if bps.len() == 0 {
        Seq::empty()
    } else {
        match bps.last().last_error {
            Some(e) => errors_of(bps.drop_last()).push((bps.last().line, e)),
            None => errors_of(bps.drop_last()),
        }
    }
}


/// A pause stops execution before the next statement.
pub proof fn law_pause_stops(m: DebugModel, line: u32)
    ensures
        begin_check(after_command(m, DebugCommand::Pause), line).1 == StopDecision::Stop(StopReason::Pause),
{
}

/// A step runs exactly one statement: the check right after it stops for
/// nothing but a breakpoint, and once that statement ran, the next check
/// stops for the step.
pub proof fn law_step_runs_one_statement(m: DebugModel, line: u32, next_line: u32)
    ensures
        begin_check(after_command(m, DebugCommand::Step), line).1 == scan_from(m.breakpoints, line, 0),
        begin_check(after_command(m, DebugCommand::Step), line).1 == StopDecision::Run ==> begin_check(
            executed(begin_check(after_command(m, DebugCommand::Step), line).0),
            next_line,
        ).1 == StopDecision::Stop(StopReason::Step),
{
}

/// After a continue, execution stops only at breakpoints.
pub proof fn law_continue_stops_only_at_breakpoints(m: DebugModel, line: u32)
    ensures
        begin_check(after_command(m, DebugCommand::Continue), line).1 == scan_from(m.breakpoints, line, 0),
{
}

/// A requested termination ends every wait.
pub proof fn law_terminate_ends_waiting(m: DebugModel)
    ensures
        ({
            let t = after_command(m, DebugCommand::Terminate);
            !(t.paused && !t.terminate_requested)
        }),
{
}

/// The byte offset where a line starts is that line's first column.
pub proof fn law_line_start_is_first_column(m: DebugModel, i: int)
    requires
        increasing(m.line_starts),
        0 <= i < m.line_starts.len(),
    ensures
        position_of(m, m.line_starts[i]) == (i, 0int),
{
    lemma_last_le(m.line_starts, m.line_starts[i], m.line_starts.len() as int, i + 1);
}

} // verus!
