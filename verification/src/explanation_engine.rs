//! Human-readable explanations of failed verification conditions: proof steps
//! traced to source lines, variable bindings, counterexamples and suggestions.
use vstd::prelude::*;
use crate::ownership_enforcement::append_decimal;
use crate::text::{nat_decimal, str_eq};

verus! {

/// A step of a derivation, with the steps that support it.
#[derive(Debug)]
pub struct ProofStep {
    pub location: (u32, u32),
    pub source_line: String,
    pub derives: String,
    pub reason: String,
    pub children: Vec<Box<ProofStep>>,
}

pub struct StepModel {
    pub location: (u32, u32),
    pub source_line: Seq<char>,
    pub derives: Seq<char>,
    pub reason: Seq<char>,
    pub children: Seq<StepModel>,
}

/// The models of a list of child steps.
pub open spec fn children_models(cs: Seq<Box<ProofStep>>) -> Seq<StepModel>
    decreases cs,
{
    if cs.len() == 0 {
        Seq::empty()
    } else {
        children_models(cs.drop_last()).push(step_model(*cs.last()))
    }
}

/// The model of a proof step.
pub open spec fn step_model(s: ProofStep) -> StepModel
    decreases s,
{
    StepModel {
        location: s.location,
        source_line: s.source_line@,
        derives: s.derives@,
        reason: s.reason@,
        children: children_models(s.children@),
    }
}

impl View for ProofStep {
    type V = StepModel;

    open spec fn view(&self) -> StepModel {
        step_model(*self)
    }
}

/// The models of a list of steps.
pub open spec fn steps_models(ss: Seq<ProofStep>) -> Seq<StepModel> {
    ss.map_values(|s: ProofStep| s@)
}

proof fn lemma_children_models(cs: Seq<Box<ProofStep>>)
    ensures
        children_models(cs).len() == cs.len(),
        forall|i: int| 0 <= i < cs.len() ==> #[trigger] children_models(cs)[i] == step_model(*cs[i]),
    decreases cs.len(),
{
    if cs.len() > 0 {
        lemma_children_models(cs.drop_last());
    }
}

impl ProofStep {
    pub fn new(location: (u32, u32), source_line: String, derives: String, reason: String) -> (r: Self)
        ensures
            r@ == (StepModel {
                location,
                source_line: source_line@,
                derives: derives@,
                reason: reason@,
                children: Seq::empty(),
            }),
    {
        let r = ProofStep { location, source_line, derives, reason, children: Vec::new() };
        assert(r@.children =~= Seq::<StepModel>::empty());
        r
    }

    /// Appends a supporting step.
    pub fn with_child(self, child: ProofStep) -> (r: Self)
        ensures
            r@ == (StepModel { children: self@.children.push(child@), ..self@ }),
    {
        let mut s = self;
        let ghost before = s.children@;
        s.children.push(Box::new(child));
        assert(s.children@.drop_last() =~= before);
        s
    }

    /// A copy with the same model.
    pub fn duplicate(&self) -> (r: Self)
        ensures
            r@ == self@,
        decreases self,
    {
        let mut children: Vec<Box<ProofStep>> = Vec::new();
        let mut k: usize = 0;
        while k < self.children.len()
            invariant
                k <= self.children@.len(),
                children@.len() == k,
                forall|i: int| 0 <= i < k ==> step_model(*(#[trigger] children@[i])) == step_model(*self.children@[i]),
            decreases self.children.len() - k,
        {
            assert(decreases_to!(*self => self.children));
            let c = self.children[k].duplicate();
            children.push(Box::new(c));
            k = k + 1;
        }
        let r = ProofStep {
            location: self.location,
            source_line: self.source_line.clone(),
            derives: self.derives.clone(),
            reason: self.reason.clone(),
            children,
        };
        proof {
            lemma_children_models(r.children@);
            lemma_children_models(self.children@);
            assert(children_models(r.children@) =~= children_models(self.children@));
        }
        r
    }

    /// `At line L: source`, what it means and why.
    pub fn to_english(&self) -> (r: String)
        ensures
            r@ == "At line "@ + nat_decimal(self.location.0 as nat) + ": "@ + self@.source_line + "\nThis means: "@
                + self@.derives + "\nBecause: "@ + self@.reason,
    {
        let mut out = String::from_str("At line ");
        append_decimal(&mut out, self.location.0 as u64);
        out.append(": ");
        out.append(self.source_line.as_str());
        out.append("\nThis means: ");
        out.append(self.derives.as_str());
        out.append("\nBecause: ");
        out.append(self.reason.as_str());
        out
    }
}

/// What is known of a variable: its type, value, definition and uses.
#[derive(Debug)]
pub struct VariableBinding {
    pub name: String,
    pub ty: String,
    pub value: Option<String>,
    pub defined_at: (u32, u32),
    pub used_at: Vec<(u32, u32)>,
}

pub struct BindingInfo {
    pub name: Seq<char>,
    pub ty: Seq<char>,
    pub value: Option<Seq<char>>,
    pub defined_at: (u32, u32),
    pub used_at: Seq<(u32, u32)>,
}

impl View for VariableBinding {
    type V = BindingInfo;

    open spec fn view(&self) -> BindingInfo {
        BindingInfo {
            name: self.name@,
            ty: self.ty@,
            value: match self.value {
                Some(v) => Some(v@),
                None => None,
            },
            defined_at: self.defined_at,
            used_at: self.used_at@,
        }
    }
}

/// `name: ty`, followed by ` = value` when the value is known.
pub open spec fn binding_text(b: BindingInfo) -> Seq<char> {
    match b.value {
        Some(v) => b.name + ": "@ + b.ty + " = "@ + v,
        None => b.name + ": "@ + b.ty,
    }
}

fn copy_positions(v: &Vec<(u32, u32)>) -> (r: Vec<(u32, u32)>)
    ensures
        r@ == v@,
{
    let mut out: Vec<(u32, u32)> = Vec::new();
    let mut k: usize = 0;
    while k < v.len()
        invariant
            k <= v.len(),
            out@ == v@.subrange(0, k as int),
        decreases v.len() - k,
    {
        out.push(v[k]);
        k = k + 1;
    }
    assert(v@.subrange(0, v@.len() as int) =~= v@);
    out
}

impl VariableBinding {
    /// A binding of `name` with type `ty`, no value, defined at 0:0, never used.
    pub fn new(name: String, ty: String) -> (r: Self)
        ensures
            r@ == (BindingInfo { name: name@, ty: ty@, value: None, defined_at: (0u32, 0u32), used_at: Seq::empty() }),
    {
        let r = VariableBinding { name, ty, value: None, defined_at: (0, 0), used_at: Vec::new() };
        assert(r@.used_at =~= Seq::<(u32, u32)>::empty());
        r
    }

    pub fn with_value(self, value: String) -> (r: Self)
        ensures
            r@ == (BindingInfo { value: Some(value@), ..self@ }),
    {
        let mut b = self;
        b.value = Some(value);
        b
    }

    /// `name: ty` or `name: ty = value`.
    pub fn display(&self) -> (r: String)
        ensures
            r@ == binding_text(self@),
    {
        let mut out = self.name.clone();
        out.append(": ");
        out.append(self.ty.as_str());
        if let Some(v) = &self.value {
            out.append(" = ");
            out.append(v.as_str());
        }
        out
    }

    /// A copy with the same model.
    pub fn duplicate(&self) -> (r: Self)
        ensures
            r@ == self@,
    {
        VariableBinding {
            name: self.name.clone(),
            ty: self.ty.clone(),
            value: match &self.value {
                Some(v) => Some(v.clone()),
                None => None,
            },
            defined_at: self.defined_at,
            used_at: copy_positions(&self.used_at),
        }
    }
}

/// Concrete values under which a property fails.
#[derive(Debug)]
pub struct Counterexample {
    pub bindings: Vec<VariableBinding>,
    /// Property, expected value, actual value.
    pub violations: Vec<(String, String, String)>,
}

pub struct CounterexampleModel {
    pub bindings: Seq<BindingInfo>,
    pub violations: Seq<(Seq<char>, Seq<char>, Seq<char>)>,
}

pub open spec fn infos_of(bs: Seq<VariableBinding>) -> Seq<BindingInfo> {
    bs.map_values(|b: VariableBinding| b@)
}

pub open spec fn triples_of(vs: Seq<(String, String, String)>) -> Seq<(Seq<char>, Seq<char>, Seq<char>)> {
    vs.map_values(|t: (String, String, String)| (t.0@, t.1@, t.2@))
}

impl View for Counterexample {
    type V = CounterexampleModel;

    open spec fn view(&self) -> CounterexampleModel {
        CounterexampleModel { bindings: infos_of(self.bindings@), violations: triples_of(self.violations@) }
    }
}

/// `    binding\n` per binding.
pub open spec fn bindings_text(bs: Seq<BindingInfo>) -> Seq<char>
    decreases bs.len(),
{
    if bs.len() == 0 {
        Seq::empty()
    } else {
        bindings_text(bs.drop_last()) + "    "@ + binding_text(bs.last()) + "\n"@
    }
}

/// `    property should be 'expected' but is 'actual'\n` per violation.
pub open spec fn violations_text(vs: Seq<(Seq<char>, Seq<char>, Seq<char>)>) -> Seq<char>
    decreases vs.len(),
{
    if vs.len() == 0 {
        Seq::empty()
    } else {
        let v = vs.last();
        violations_text(vs.drop_last()) + "    "@ + v.0 + " should be '"@ + v.1 + "' but is '"@ + v.2 + "'\n"@
    }
}

pub open spec fn counterexample_text(c: CounterexampleModel) -> Seq<char> {
    "Counterexample:\n"@ + "  Variables:\n"@ + bindings_text(c.bindings) + "  Violations:\n"@ + violations_text(c.violations)
}

impl Counterexample {
    pub fn new() -> (r: Self)
        ensures
            r@.bindings.len() == 0,
            r@.violations.len() == 0,
    {
        Counterexample { bindings: Vec::new(), violations: Vec::new() }
    }

    pub fn add_binding(&mut self, binding: VariableBinding)
        ensures
            final(self)@ == (CounterexampleModel { bindings: old(self)@.bindings.push(binding@), ..old(self)@ }),
    {
        let ghost before = self.bindings@;
        let ghost m = binding@;
        self.bindings.push(binding);
        assert(infos_of(self.bindings@) =~= infos_of(before).push(m));
    }

    pub fn add_violation(&mut self, property: String, expected: String, actual: String)
        ensures
            final(self)@ == (CounterexampleModel {
                violations: old(self)@.violations.push((property@, expected@, actual@)),
                ..old(self)@
            }),
    {
        let ghost before = self.violations@;
        let t = (property, expected, actual);
        let ghost m = (t.0@, t.1@, t.2@);
        self.violations.push(t);
        assert(triples_of(self.violations@) =~= triples_of(before).push(m));
    }

    /// The variables and the violated properties (see [`counterexample_text`]).
    pub fn display(&self) -> (r: String)
        ensures
            r@ == counterexample_text(self@),
    {
        let ghost c = self@;
        let mut output = String::from_str("Counterexample:\n");
        output.append("  Variables:\n");
        let ghost start = output@;
        let mut k: usize = 0;
        while k < self.bindings.len()
            invariant
                k <= self.bindings@.len(),
                c == self@,
                output@ == start + bindings_text(c.bindings.subrange(0, k as int)),
            decreases self.bindings.len() - k,
        {
            let ghost sub = c.bindings.subrange(0, k + 1);
            assert(sub.drop_last() =~= c.bindings.subrange(0, k as int));
            assert(sub.last() == self.bindings@[k as int]@);
            output.append("    ");
            let t = self.bindings[k].display();
            output.append(t.as_str());
            output.append("\n");
            assert(output@ =~= start + bindings_text(sub));
            k = k + 1;
        }
        assert(c.bindings.subrange(0, self.bindings@.len() as int) =~= c.bindings);
        output.append("  Violations:\n");
        let ghost mid = output@;
        let mut k: usize = 0;
        while k < self.violations.len()
            invariant
                k <= self.violations@.len(),
                c == self@,
                output@ == mid + violations_text(c.violations.subrange(0, k as int)),
            decreases self.violations.len() - k,
        {
            let ghost sub = c.violations.subrange(0, k + 1);
            assert(sub.drop_last() =~= c.violations.subrange(0, k as int));
            let v = &self.violations[k];
            assert(sub.last() == (v.0@, v.1@, v.2@));
            output.append("    ");
            output.append(v.0.as_str());
            output.append(" should be '");
            output.append(v.1.as_str());
            output.append("' but is '");
            output.append(v.2.as_str());
            output.append("'\n");
            assert(output@ =~= mid + violations_text(sub));
            k = k + 1;
        }
        assert(c.violations.subrange(0, self.violations@.len() as int) =~= c.violations);
        assert(output@ =~= counterexample_text(c));
        output
    }

    fn duplicate(&self) -> (r: Self)
        ensures
            r@ == self@,
    {
        let mut bindings: Vec<VariableBinding> = Vec::new();
        let mut k: usize = 0;
        while k < self.bindings.len()
            invariant
                k <= self.bindings@.len(),
                bindings@.len() == k,
                forall|i: int| 0 <= i < k ==> (#[trigger] bindings@[i])@ == self.bindings@[i]@,
            decreases self.bindings.len() - k,
        {
            let b = self.bindings[k].duplicate();
            bindings.push(b);
            k = k + 1;
        }
        let mut violations: Vec<(String, String, String)> = Vec::new();
        let mut k: usize = 0;
        while k < self.violations.len()
            invariant
                k <= self.violations@.len(),
                violations@.len() == k,
                forall|i: int| 0 <= i < k ==> {
                    let (a, b, c) = #[trigger] violations@[i];
                    let (x, y, z) = self.violations@[i];
                    a@ == x@ && b@ == y@ && c@ == z@
                },
            decreases self.violations.len() - k,
        {
            let v = &self.violations[k];
            violations.push((v.0.clone(), v.1.clone(), v.2.clone()));
            k = k + 1;
        }
        assert(infos_of(bindings@) =~= infos_of(self.bindings@));
        assert(triples_of(violations@) =~= triples_of(self.violations@));
        Counterexample { bindings, violations }
    }
}

impl Default for Counterexample {
    fn default() -> (r: Self)
        ensures
            r@.bindings.len() == 0,
            r@.violations.len() == 0,
    {
        Self::new()
    }
}

/// The position of the binding named `name`.
pub open spec fn binding_index(bs: Seq<BindingInfo>, name: Seq<char>) -> Option<int>
    decreases bs.len(),
{
    if bs.len() == 0 {
        None
    } else if bs.last().name == name {
        Some(bs.len() - 1)
    } else {
        binding_index(bs.drop_last(), name)
    }
}

proof fn lemma_binding_index(bs: Seq<BindingInfo>, name: Seq<char>)
    ensures
        binding_index(bs, name) matches Some(i) ==> 0 <= i < bs.len() && bs[i].name == name,
        binding_index(bs, name) is None ==> forall|i: int| 0 <= i < bs.len() ==> bs[i].name != name,
    decreases bs.len(),
{
    if bs.len() > 0 {
        lemma_binding_index(bs.drop_last(), name);
        assert forall|i: int| 0 <= i < bs.len() - 1 implies bs[i] == bs.drop_last()[i] by {}
    }
}

/// `bs` with `b` in place of the binding of the same name, or with `b` added at the
/// end when there is none.
pub open spec fn trace_insert(bs: Seq<BindingInfo>, b: BindingInfo) -> Seq<BindingInfo> {
    match binding_index(bs, b.name) {
        Some(i) => bs.update(i, b),
        None => bs.push(b),
    }
}

/// Variable bindings keyed by name: one binding per name, in order of first insertion.
#[derive(Debug)]
pub struct VariableTrace {
    entries: Vec<VariableBinding>,
}

impl View for VariableTrace {
    type V = Seq<BindingInfo>;

    closed spec fn view(&self) -> Seq<BindingInfo> {
        infos_of(self.entries@)
    }
}

impl VariableTrace {
    pub fn new() -> (r: Self)
        ensures
            r@ == Seq::<BindingInfo>::empty(),
    {
        let r = VariableTrace { entries: Vec::new() };
        assert(r@ =~= Seq::<BindingInfo>::empty());
        r
    }

    fn index_of(&self, name: &str) -> (r: Option<usize>)
        ensures
            r matches Some(i) ==> binding_index(self@, name@) == Some(i as int) && i < self@.len()
                && self@[i as int].name == name@,
            r is None ==> binding_index(self@, name@) is None,
            self@.len() == self.entries@.len(),
    {
        proof { lemma_binding_index(self@, name@); }
        let ghost bs = self@;
        assert(bs.subrange(0, bs.len() as int) =~= bs);
        let mut hi: usize = self.entries.len();
        while hi > 0
            invariant
                hi <= self.entries@.len(),
                bs == self@,
                binding_index(bs, name@) == binding_index(bs.subrange(0, hi as int), name@),
            decreases hi,
        {
            let ghost sub = bs.subrange(0, hi as int);
            assert(sub.drop_last() =~= bs.subrange(0, hi - 1));
            assert(sub.last() == self.entries@[hi - 1]@);
            if str_eq(self.entries[hi - 1].name.as_str(), name) {
                return Some(hi - 1);
            }
            hi = hi - 1;
        }
        None
    }

    /// Adds `binding`, replacing the binding of the same name if there is one.
    pub fn insert(&mut self, binding: VariableBinding)
        ensures
            final(self)@ == trace_insert(old(self)@, binding@),
    {
        let ghost before = self.entries@;
        let ghost m = binding@;
        match self.index_of(binding.name.as_str()) {
            Some(i) => {
                self.entries.set(i, binding);
                assert(infos_of(self.entries@) =~= infos_of(before).update(i as int, m));
            },
            None => {
                self.entries.push(binding);
                assert(infos_of(self.entries@) =~= infos_of(before).push(m));
            },
        }
    }

    /// The binding named `name`.
    pub fn get(&self, name: &str) -> (r: Option<&VariableBinding>)
        ensures
            match binding_index(self@, name@) {
                Some(i) => r matches Some(b) && b@ == self@[i],
                None => r is None,
            },
    {
        match self.index_of(name) {
            Some(i) => Some(&self.entries[i]),
            None => None,
        }
    }

    pub fn len(&self) -> (r: usize)
        ensures
            r == self@.len(),
    {
        self.entries.len()
    }

    pub fn is_empty(&self) -> (r: bool)
        ensures
            r == (self@.len() == 0),
    {
        self.entries.len() == 0
    }

    /// The bindings in order.
    pub fn bindings(&self) -> (r: &[VariableBinding])
        ensures
            infos_of(r@) == self@,
    {
        self.entries.as_slice()
    }

    fn duplicate(&self) -> (r: Self)
        ensures
            r@ == self@,
    {
        let mut entries: Vec<VariableBinding> = Vec::new();
        let mut k: usize = 0;
        while k < self.entries.len()
            invariant
                k <= self.entries@.len(),
                entries@.len() == k,
                forall|i: int| 0 <= i < k ==> (#[trigger] entries@[i])@ == self.entries@[i]@,
            decreases self.entries.len() - k,
        {
            let b = self.entries[k].duplicate();
            entries.push(b);
            k = k + 1;
        }
        assert(infos_of(entries@) =~= infos_of(self.entries@));
        VariableTrace { entries }
    }
}

/// A failed verification condition explained in plain words.
#[derive(Debug)]
pub struct Explanation {
    pub message: String,
    pub proof_steps: Vec<ProofStep>,
    pub variable_trace: VariableTrace,
    pub counterexample: Option<Counterexample>,
    pub suggestions: Vec<String>,
}

pub struct ExplanationModel {
    pub message: Seq<char>,
    pub proof_steps: Seq<StepModel>,
    pub variable_trace: Seq<BindingInfo>,
    pub counterexample: Option<CounterexampleModel>,
    pub suggestions: Seq<Seq<char>>,
}

pub open spec fn texts_of(ss: Seq<String>) -> Seq<Seq<char>> {
    ss.map_values(|s: String| s@)
}

impl View for Explanation {
    type V = ExplanationModel;

    open spec fn view(&self) -> ExplanationModel {
        ExplanationModel {
            message: self.message@,
            proof_steps: steps_models(self.proof_steps@),
            variable_trace: self.variable_trace@,
            counterexample: match self.counterexample {
                Some(c) => Some(c@),
                None => None,
            },
            suggestions: texts_of(self.suggestions@),
        }
    }
}

/// The proof steps, numbered from 1.
pub open spec fn proof_text(ss: Seq<StepModel>) -> Seq<char>
    decreases ss.len(),
{
    if ss.len() == 0 {
        Seq::empty()
    } else {
        let s = ss.last();
        proof_text(ss.drop_last()) + nat_decimal(ss.len()) + ". At line "@ + nat_decimal(s.location.0 as nat) + ": "@
            + s.source_line + "\n   → "@ + s.derives + "\n   (Because: "@ + s.reason + ")\n\n"@
    }
}

/// The line numbers of a list of positions, separated by `, `.
pub open spec fn lines_list(ps: Seq<(u32, u32)>) -> Seq<char>
    decreases ps.len(),
{
    if ps.len() == 0 {
        Seq::empty()
    } else if ps.len() == 1 {
        nat_decimal(ps[0].0 as nat)
    } else {
        lines_list(ps.drop_last()) + ", "@ + nat_decimal(ps.last().0 as nat)
    }
}

/// One variable of the trace: its binding, definition line and use lines.
pub open spec fn trace_entry(b: BindingInfo) -> Seq<char> {
    "  - "@ + binding_text(b) + "\n"@ + "    Defined at line "@ + nat_decimal(b.defined_at.0 as nat) + "\n"@
        + if b.used_at.len() == 0 {
            Seq::empty()
        } else {
            "    Used at lines: "@ + lines_list(b.used_at) + "\n"@
        }
}

pub open spec fn trace_text(bs: Seq<BindingInfo>) -> Seq<char>
    decreases bs.len(),
{
    if bs.len() == 0 {
        Seq::empty()
    } else {
        trace_text(bs.drop_last()) + trace_entry(bs.last())
    }
}

/// The numbered suggestions.
pub open spec fn suggestions_text(ss: Seq<Seq<char>>) -> Seq<char>
    decreases ss.len(),
{
    if ss.len() == 0 {
        Seq::empty()
    } else {
        suggestions_text(ss.drop_last()) + nat_decimal(ss.len()) + ". "@ + ss.last() + "\n"@
    }
}

/// The full explanation: the message as a title, the numbered proof steps, the
/// variable trace, the counterexample and the numbered fixes, each section where
/// there is something to show (the proof section always).
pub open spec fn explanation_text(e: ExplanationModel) -> Seq<char> {
    "# "@ + e.message + "\n\n"@ + "## Proof\n"@ + proof_text(e.proof_steps)
        + if e.variable_trace.len() == 0 {
            Seq::empty()
        } else {
            "## Variable Trace\n"@ + trace_text(e.variable_trace) + "\n"@
        }
        + match e.counterexample {
            Some(c) => "## Counterexample\n"@ + counterexample_text(c) + "\n"@,
            None => Seq::empty(),
        }
        + if e.suggestions.len() == 0 {
            Seq::empty()
        } else {
            "## How to Fix\n"@ + suggestions_text(e.suggestions)
        }
}

/// The first violation of the counterexample as `property: expected E but got A`,
/// or the message when there is none.
pub open spec fn short_text(e: ExplanationModel) -> Seq<char> {
    match e.counterexample {
        Some(c) => if c.violations.len() > 0 {
            c.violations[0].0 + ": expected "@ + c.violations[0].1 + " but got "@ + c.violations[0].2
        } else {
            e.message
        },
        None => e.message,
    }
}

fn append_lines_list(out: &mut String, ps: &Vec<(u32, u32)>)
    ensures
        final(out)@ == old(out)@ + lines_list(ps@),
{
    let ghost start = out@;
    let mut k: usize = 0;
    while k < ps.len()
        invariant
            k <= ps@.len(),
            out@ == start + lines_list(ps@.subrange(0, k as int)),
        decreases ps.len() - k,
    {
        let ghost sub = ps@.subrange(0, k + 1);
        assert(sub.drop_last() =~= ps@.subrange(0, k as int));
        if k > 0 {
            out.append(", ");
        }
        append_decimal(out, ps[k].0 as u64);
        assert(out@ =~= start + lines_list(sub));
        k = k + 1;
    }
    assert(ps@.subrange(0, ps@.len() as int) =~= ps@);
}

fn append_trace_entry(out: &mut String, b: &VariableBinding)
    ensures
        final(out)@ == old(out)@ + trace_entry(b@),
{
    out.append("  - ");
    let t = b.display();
    out.append(t.as_str());
    out.append("\n");
    out.append("    Defined at line ");
    append_decimal(out, b.defined_at.0 as u64);
    out.append("\n");
    let ghost mid = out@;
    if b.used_at.len() > 0 {
        out.append("    Used at lines: ");
        append_lines_list(out, &b.used_at);
        out.append("\n");
    }
    assert(final(out)@ =~= old(out)@ + trace_entry(b@));
}

fn append_step(out: &mut String, n: usize, step: &ProofStep)
    ensures
        final(out)@ == old(out)@ + nat_decimal(n as nat) + ". At line "@ + nat_decimal(step.location.0 as nat) + ": "@
            + step@.source_line + "\n   → "@ + step@.derives + "\n   (Because: "@ + step@.reason + ")\n\n"@,
{
    append_decimal(out, n as u64);
    out.append(". At line ");
    append_decimal(out, step.location.0 as u64);
    out.append(": ");
    out.append(step.source_line.as_str());
    out.append("\n   → ");
    out.append(step.derives.as_str());
    out.append("\n   (Because: ");
    out.append(step.reason.as_str());
    out.append(")\n\n");
}

fn append_proof(out: &mut String, steps: &Vec<ProofStep>)
    ensures
        final(out)@ == old(out)@ + proof_text(steps_models(steps@)),
{
    let ghost ms = steps_models(steps@);
    let ghost start = out@;
    let mut k: usize = 0;
    while k < steps.len()
        invariant
            k <= steps@.len(),
            ms == steps_models(steps@),
            out@ == start + proof_text(ms.subrange(0, k as int)),
        decreases steps.len() - k,
    {
        let ghost sub = ms.subrange(0, k + 1);
        assert(sub.drop_last() =~= ms.subrange(0, k as int));
        assert(sub.last() == steps@[k as int]@);
        append_step(out, k + 1, &steps[k]);
        assert(out@ =~= start + proof_text(sub));
        k = k + 1;
    }
    assert(ms.subrange(0, steps@.len() as int) =~= ms);
}

fn append_trace(out: &mut String, trace: &VariableTrace)
    ensures
        final(out)@ == old(out)@ + trace_text(trace@),
{
    let bs = trace.bindings();
    let ghost ms = infos_of(bs@);
    let ghost start = out@;
    let mut k: usize = 0;
    while k < bs.len()
        invariant
            k <= bs@.len(),
            ms == infos_of(bs@),
            ms == trace@,
            out@ == start + trace_text(ms.subrange(0, k as int)),
        decreases bs.len() - k,
    {
        let ghost sub = ms.subrange(0, k + 1);
        assert(sub.drop_last() =~= ms.subrange(0, k as int));
        assert(sub.last() == bs@[k as int]@);
        append_trace_entry(out, &bs[k]);
        assert(out@ =~= start + trace_text(sub));
        k = k + 1;
    }
    assert(ms.subrange(0, bs@.len() as int) =~= ms);
}

fn append_suggestions(out: &mut String, ss: &Vec<String>)
    ensures
        final(out)@ == old(out)@ + suggestions_text(texts_of(ss@)),
{
    let ghost ms = texts_of(ss@);
    let ghost start = out@;
    let mut k: usize = 0;
    while k < ss.len()
        invariant
            k <= ss@.len(),
            ms == texts_of(ss@),
            out@ == start + suggestions_text(ms.subrange(0, k as int)),
        decreases ss.len() - k,
    {
        let ghost sub = ms.subrange(0, k + 1);
        assert(sub.drop_last() =~= ms.subrange(0, k as int));
        append_decimal(out, (k + 1) as u64);
        out.append(". ");
        out.append(ss[k].as_str());
        out.append("\n");
        assert(out@ =~= start + suggestions_text(sub));
        k = k + 1;
    }
    assert(ms.subrange(0, ss@.len() as int) =~= ms);
}

impl Explanation {
    /// An explanation with only a message.
    pub fn new(message: String) -> (r: Self)
        ensures
            r@ == (ExplanationModel {
                message: message@,
                proof_steps: Seq::empty(),
                variable_trace: Seq::empty(),
                counterexample: None,
                suggestions: Seq::empty(),
            }),
    {
        let r = Explanation {
            message,
            proof_steps: Vec::new(),
            variable_trace: VariableTrace::new(),
            counterexample: None,
            suggestions: Vec::new(),
        };
        assert(r@.proof_steps =~= Seq::<StepModel>::empty());
        assert(r@.suggestions =~= Seq::<Seq<char>>::empty());
        r
    }

    pub fn add_step(&mut self, step: ProofStep)
        ensures
            final(self)@ == (ExplanationModel { proof_steps: old(self)@.proof_steps.push(step@), ..old(self)@ }),
    {
        let ghost before = self.proof_steps@;
        let ghost m = step@;
        self.proof_steps.push(step);
        assert(steps_models(self.proof_steps@) =~= steps_models(before).push(m));
    }

    /// Adds a variable to the trace, replacing one of the same name.
    pub fn add_variable(&mut self, binding: VariableBinding)
        ensures
            final(self)@ == (ExplanationModel {
                variable_trace: trace_insert(old(self)@.variable_trace, binding@),
                ..old(self)@
            }),
    {
        self.variable_trace.insert(binding);
    }

    pub fn set_counterexample(&mut self, ce: Counterexample)
        ensures
            final(self)@ == (ExplanationModel { counterexample: Some(ce@), ..old(self)@ }),
    {
        self.counterexample = Some(ce);
    }

    pub fn add_suggestion(&mut self, suggestion: String)
        ensures
            final(self)@ == (ExplanationModel { suggestions: old(self)@.suggestions.push(suggestion@), ..old(self)@ }),
    {
        let ghost before = self.suggestions@;
        let ghost m = suggestion@;
        self.suggestions.push(suggestion);
        assert(texts_of(self.suggestions@) =~= texts_of(before).push(m));
    }

    /// The full explanation (see [`explanation_text`]).
    pub fn full_explanation(&self) -> (r: String)
        ensures
            r@ == explanation_text(self@),
    {
        let ghost e = self@;
        let mut output = String::from_str("# ");
        output.append(self.message.as_str());
        output.append("\n\n");
        output.append("## Proof\n");
        append_proof(&mut output, &self.proof_steps);
        let ghost with_proof = output@;
        if !self.variable_trace.is_empty() {
            output.append("## Variable Trace\n");
            append_trace(&mut output, &self.variable_trace);
            output.append("\n");
        }
        let ghost with_trace = output@;
        if let Some(ce) = &self.counterexample {
            output.append("## Counterexample\n");
            let t = ce.display();
            output.append(t.as_str());
            output.append("\n");
        }
        let ghost with_ce = output@;
        if self.suggestions.len() > 0 {
            output.append("## How to Fix\n");
            append_suggestions(&mut output, &self.suggestions);
        }
        assert(output@ =~= explanation_text(e));
        output
    }

    /// A one-line explanation (see [`short_text`]).
    pub fn short_explanation(&self) -> (r: String)
        ensures
            r@ == short_text(self@),
    {
        if let Some(ce) = &self.counterexample {
            if ce.violations.len() > 0 {
                let v = &ce.violations[0];
                let mut out = v.0.clone();
                out.append(": expected ");
                out.append(v.1.as_str());
                out.append(" but got ");
                out.append(v.2.as_str());
                return out;
            }
        }
        self.message.clone()
    }
}

/// The position of the proof step cached for `loc`.
pub open spec fn step_index(ss: Seq<((u32, u32), StepModel)>, loc: (u32, u32)) -> Option<int>
    decreases ss.len(),
{
    if ss.len() == 0 {
        None
    } else if ss.last().0 == loc {
        Some(ss.len() - 1)
    } else {
        step_index(ss.drop_last(), loc)
    }
}

proof fn lemma_step_index(ss: Seq<((u32, u32), StepModel)>, loc: (u32, u32))
    ensures
        step_index(ss, loc) matches Some(i) ==> 0 <= i < ss.len() && ss[i].0 == loc,
        step_index(ss, loc) is None ==> forall|i: int| 0 <= i < ss.len() ==> ss[i].0 != loc,
    decreases ss.len(),
{
    if ss.len() > 0 {
        lemma_step_index(ss.drop_last(), loc);
        assert forall|i: int| 0 <= i < ss.len() - 1 implies ss[i] == ss.drop_last()[i] by {}
    }
}

/// The cached steps for `locs`, in order, skipping locations with none.
pub open spec fn steps_at(cache: Seq<((u32, u32), StepModel)>, locs: Seq<(u32, u32)>) -> Seq<StepModel>
    decreases locs.len(),
{
    if locs.len() == 0 {
        Seq::empty()
    } else {
        match step_index(cache, locs.last()) {
            Some(i) => steps_at(cache, locs.drop_last()).push(cache[i].1),
            None => steps_at(cache, locs.drop_last()),
        }
    }
}

/// The texts of a list of string pairs.
pub open spec fn pairs_of(ps: Seq<(String, String)>) -> Seq<(Seq<char>, Seq<char>)> {
    ps.map_values(|p: (String, String)| (p.0@, p.1@))
}

/// For each example pair whose variable is known, the known binding with the
/// example's value, in order.
pub open spec fn example_bindings(info: Seq<BindingInfo>, example: Seq<(Seq<char>, Seq<char>)>) -> Seq<BindingInfo>
    decreases example.len(),
{
    if example.len() == 0 {
        Seq::empty()
    } else {
        let (name, value) = example.last();
        match binding_index(info, name) {
            Some(i) => example_bindings(info, example.drop_last()).push(BindingInfo { value: Some(value), ..info[i] }),
            None => example_bindings(info, example.drop_last()),
        }
    }
}

/// The trace after adding `bs` one by one to `start`.
pub open spec fn trace_all(start: Seq<BindingInfo>, bs: Seq<BindingInfo>) -> Seq<BindingInfo>
    decreases bs.len(),
{
    if bs.len() == 0 {
        start
    } else {
        trace_insert(trace_all(start, bs.drop_last()), bs.last())
    }
}

/// The message of an explained counterexample.
pub open spec fn counterexample_message(property: Seq<char>, expected: Seq<char>, actual: Seq<char>) -> Seq<char> {
    "Verification failed: "@ + property + " should be '"@ + expected + "' but is '"@ + actual + "'"@
}

/// Builds explanations from cached proof steps and variable information.
pub struct ExplanationEngine {
    proof_cache: Vec<((u32, u32), ProofStep)>,
    variable_info: VariableTrace,
}

pub open spec fn cache_models(c: Seq<((u32, u32), ProofStep)>) -> Seq<((u32, u32), StepModel)> {
    c.map_values(|e: ((u32, u32), ProofStep)| (e.0, e.1@))
}

impl ExplanationEngine {
    /// The cached proof steps by location, each location once.
    pub closed spec fn cache(&self) -> Seq<((u32, u32), StepModel)> {
        cache_models(self.proof_cache@)
    }

    /// The known variables, each name once.
    pub closed spec fn info(&self) -> Seq<BindingInfo> {
        self.variable_info@
    }

    pub fn new() -> (r: Self)
        ensures
            r.cache().len() == 0,
            r.info().len() == 0,
    {
        let r = ExplanationEngine { proof_cache: Vec::new(), variable_info: VariableTrace::new() };
        assert(r.cache() =~= Seq::<((u32, u32), StepModel)>::empty());
        r
    }

    fn cache_index(&self, loc: (u32, u32)) -> (r: Option<usize>)
        ensures
            r matches Some(i) ==> step_index(self.cache(), loc) == Some(i as int) && i < self.proof_cache@.len(),
            r is None ==> step_index(self.cache(), loc) is None,
    {
        proof { lemma_step_index(self.cache(), loc); }
        let ghost cs = self.cache();
        assert(cs.subrange(0, cs.len() as int) =~= cs);
        let mut hi: usize = self.proof_cache.len();
        while hi > 0
            invariant
                hi <= self.proof_cache@.len(),
                cs == self.cache(),
                step_index(cs, loc) == step_index(cs.subrange(0, hi as int), loc),
            decreases hi,
        {
            let ghost sub = cs.subrange(0, hi as int);
            assert(sub.drop_last() =~= cs.subrange(0, hi - 1));
            let l = self.proof_cache[hi - 1].0;
            if l.0 == loc.0 && l.1 == loc.1 {
                return Some(hi - 1);
            }
            hi = hi - 1;
        }
        None
    }

    /// Caches `step` for `location`, replacing a step cached there before.
    pub fn add_proof_step(&mut self, location: (u32, u32), step: ProofStep)
        ensures
            final(self).info() == old(self).info(),
            final(self).cache() == match step_index(old(self).cache(), location) {
                Some(i) => old(self).cache().update(i, (location, step@)),
                None => old(self).cache().push((location, step@)),
            },
    {
        let ghost before = self.proof_cache@;
        let ghost m = step@;
        match self.cache_index(location) {
            Some(i) => {
                self.proof_cache.set(i, (location, step));
                assert(cache_models(self.proof_cache@) =~= cache_models(before).update(i as int, (location, m)));
            },
            None => {
                self.proof_cache.push((location, step));
                assert(cache_models(self.proof_cache@) =~= cache_models(before).push((location, m)));
            },
        }
    }

    /// Records what is known of a variable, replacing what was known of that name.
    pub fn add_variable_info(&mut self, binding: VariableBinding)
        ensures
            final(self).cache() == old(self).cache(),
            final(self).info() == trace_insert(old(self).info(), binding@),
    {
        self.variable_info.insert(binding);
    }

    /// Explains that `property` should be `expected` but is `actual`: the
    /// counterexample holds that violation and every known variable, which also form
    /// the trace, and two general fixes are suggested.
    pub fn explain_counterexample(&self, property: &str, expected: &str, actual: &str) -> (r: Explanation)
        ensures
            r@ == (ExplanationModel {
                message: counterexample_message(property@, expected@, actual@),
                proof_steps: Seq::empty(),
                variable_trace: self.info(),
                counterexample: Some(CounterexampleModel {
                    bindings: self.info(),
                    violations: seq![(property@, expected@, actual@)],
                }),
                suggestions: seq![
                    "Check the logic: are all constraints properly defined?"@,
                    "Review the variable definitions and their types"@,
                ],
            }),
    {
        let mut message = String::from_str("Verification failed: ");
        message.append(property);
        message.append(" should be '");
        message.append(expected);
        message.append("' but is '");
        message.append(actual);
        message.append("'");
        let mut explanation = Explanation::new(message);
        let mut ce = Counterexample::new();
        ce.add_violation(String::from_str(property), String::from_str(expected), String::from_str(actual));
        let bs = self.variable_info.bindings();
        let mut k: usize = 0;
        while k < bs.len()
            invariant
                k <= bs@.len(),
                infos_of(bs@) == self.info(),
                ce@.bindings == infos_of(bs@).subrange(0, k as int),
                ce@.violations == seq![(property@, expected@, actual@)],
            decreases bs.len() - k,
        {
            ce.add_binding(bs[k].duplicate());
            assert(ce@.bindings =~= infos_of(bs@).subrange(0, k + 1));
            k = k + 1;
        }
        assert(infos_of(bs@).subrange(0, bs@.len() as int) =~= infos_of(bs@));
        explanation.variable_trace = self.variable_info.duplicate();
        explanation.set_counterexample(ce);
        explanation.add_suggestion(String::from_str("Check the logic: are all constraints properly defined?"));
        explanation.add_suggestion(String::from_str("Review the variable definitions and their types"));
        assert(explanation@.message =~= counterexample_message(property@, expected@, actual@));
        assert(explanation@.suggestions =~= seq![
            "Check the logic: are all constraints properly defined?"@,
            "Review the variable definitions and their types"@,
        ]);
        assert(explanation@.proof_steps =~= Seq::<StepModel>::empty());
        explanation
    }

    /// Explains that `property` could not be verified: the steps cached for
    /// `proof_locations`, in order, and every known variable.
    pub fn explain_proof(&self, property: &str, proof_locations: &[(u32, u32)]) -> (r: Explanation)
        ensures
            r@ == (ExplanationModel {
                message: "Could not verify: "@ + property@,
                proof_steps: steps_at(self.cache(), proof_locations@),
                variable_trace: self.info(),
                counterexample: None,
                suggestions: Seq::empty(),
            }),
    {
        let mut message = String::from_str("Could not verify: ");
        message.append(property);
        let mut explanation = Explanation::new(message);
        let mut k: usize = 0;
        while k < proof_locations.len()
            invariant
                k <= proof_locations@.len(),
                explanation@ == (ExplanationModel {
                    message: "Could not verify: "@ + property@,
                    proof_steps: steps_at(self.cache(), proof_locations@.subrange(0, k as int)),
                    variable_trace: Seq::empty(),
                    counterexample: None,
                    suggestions: Seq::empty(),
                }),
            decreases proof_locations.len() - k,
        {
            let ghost sub = proof_locations@.subrange(0, k + 1);
            assert(sub.drop_last() =~= proof_locations@.subrange(0, k as int));
            let loc = proof_locations[k];
            proof { lemma_step_index(self.cache(), loc); }
            if let Some(i) = self.cache_index(loc) {
                assert(self.cache()[i as int].1 == self.proof_cache@[i as int].1@);
                explanation.add_step(self.proof_cache[i].1.duplicate());
            }
            k = k + 1;
        }
        assert(proof_locations@.subrange(0, proof_locations@.len() as int) =~= proof_locations@);
        explanation.variable_trace = self.variable_info.duplicate();
        explanation
    }

    /// Explains `property` by an example: each example pair whose variable is known
    /// gives that variable the example's value, in the counterexample (in order) and
    /// in the trace (added one by one); one fix is suggested.
    pub fn explain_with_example(&self, property: &str, example: Vec<(String, String)>) -> (r: Explanation)
        ensures
            ({
                let ex = pairs_of(example@);
                let bs = example_bindings(self.info(), ex);
                r@ == (ExplanationModel {
                    message: "Counterexample for: "@ + property@,
                    proof_steps: Seq::empty(),
                    variable_trace: trace_all(Seq::empty(), bs),
                    counterexample: Some(CounterexampleModel { bindings: bs, violations: Seq::empty() }),
                    suggestions: seq!["Use this example to debug your code"@],
                })
            }),
    {
        let ghost ex = pairs_of(example@);
        let mut message = String::from_str("Counterexample for: ");
        message.append(property);
        let mut explanation = Explanation::new(message);
        let mut ce = Counterexample::new();
        let mut k: usize = 0;
        while k < example.len()
            invariant
                k <= example@.len(),
                ex == pairs_of(example@),
                ce@.bindings == example_bindings(self.info(), ex.subrange(0, k as int)),
                ce@.violations.len() == 0,
                explanation@ == (ExplanationModel {
                    message: "Counterexample for: "@ + property@,
                    proof_steps: Seq::empty(),
                    variable_trace: trace_all(Seq::empty(), example_bindings(self.info(), ex.subrange(0, k as int))),
                    counterexample: None,
                    suggestions: Seq::empty(),
                }),
            decreases example.len() - k,
        {
            let ghost sub = ex.subrange(0, k + 1);
            assert(sub.drop_last() =~= ex.subrange(0, k as int));
            assert(sub.last() == (example@[k as int].0@, example@[k as int].1@));
            let pair = &example[k];
            let ghost prev = example_bindings(self.info(), ex.subrange(0, k as int));
            let ghost now = example_bindings(self.info(), sub);
            if let Some(known) = self.variable_info.get(pair.0.as_str()) {
                let binding = known.duplicate().with_value(pair.1.clone());
                assert(now == prev.push(binding@));
                assert(now.drop_last() =~= prev);
                explanation.add_variable(binding.duplicate());
                ce.add_binding(binding);
            } else {
                assert(now == prev);
            }
            k = k + 1;
        }
        assert(ex.subrange(0, example@.len() as int) =~= ex);
        assert(ce@.violations =~= Seq::<(Seq<char>, Seq<char>, Seq<char>)>::empty());
        explanation.set_counterexample(ce);
        explanation.add_suggestion(String::from_str("Use this example to debug your code"));
        assert(explanation@.suggestions =~= seq!["Use this example to debug your code"@]);
        explanation
    }
}

impl Default for ExplanationEngine {
    fn default() -> (r: Self)
        ensures
            r.cache().len() == 0,
            r.info().len() == 0,
    {
        Self::new()
    }
}

} // verus!
