//! The schema builder and the request pipeline.
//!
//! A builder accumulates input and output port declarations; `build` checks
//! non-emptiness of the inputs and name uniqueness of each set and returns an
//! immutable `CodeBlockApp`. Per request, the pipeline checks presence of
//! every declared input name, delegates to an externally supplied
//! computation, checks presence of every declared output name, and classifies
//! failures into client or server responses.

use vstd::prelude::*;
use vstd::string::StrSliceExecFns;

use crate::error::{error_message, Error, ErrorView};
use crate::port::{Port, PortView};
use crate::value::{PortValue, PortValueView};

verus! {

/// The views of a sequence of ports.
pub open spec fn ports_view(s: Seq<Port>) -> Seq<PortView> {
    s.map_values(|p: Port| p@)
}

/// The views of the entries of a name-to-value map.
pub open spec fn entries_view(m: Seq<(String, PortValue)>) -> Seq<(Seq<char>, PortValueView)> {
    m.map_values(|e: (String, PortValue)| (e.0@, e.1@))
}

/// No two ports of the sequence share a name.
pub open spec fn unique_names(s: Seq<PortView>) -> bool {
    forall|i: int, j: int| 0 <= i < j < s.len() ==> s[i].name != s[j].name
}

/// Some port among the first `n` bears this name.
pub open spec fn name_in_prefix(s: Seq<PortView>, n: int, name: Seq<char>) -> bool {
    exists|i: int| 0 <= i < n && s[i].name == name
}

/// Strict lexicographic order on names, by Unicode scalar value,
/// character by character; a proper prefix comes first.
pub open spec fn name_lt(a: Seq<char>, b: Seq<char>) -> bool
    decreases a.len(),
{
    if b.len() == 0 {
        false
    } else if a.len() == 0 {
        true
    } else if a[0] != b[0] {
        (a[0] as u32) < (b[0] as u32)
    } else {
        name_lt(a.drop_first(), b.drop_first())
    }
}

/// The names of the sequence ascend strictly.
pub open spec fn sorted_names(s: Seq<PortView>) -> bool {
    forall|i: int, j: int| 0 <= i < j < s.len() ==> name_lt(s[i].name, s[j].name)
}

/// Inserts a port into a name-sorted sequence, before the first port of
/// greater name.
pub open spec fn sorted_insert(s: Seq<PortView>, p: PortView) -> Seq<PortView>
    decreases s.len(),
{
    if s.len() == 0 {
        seq![p]
    } else if name_lt(p.name, s[0].name) {
        seq![p] + s
    } else {
        seq![s[0]] + sorted_insert(s.drop_first(), p)
    }
}

/// Arranges ports ascending by name.
pub open spec fn sort_ports(s: Seq<PortView>) -> Seq<PortView>
    decreases s.len(),
{
    if s.len() == 0 {
        Seq::<PortView>::empty()
    } else {
        sorted_insert(sort_ports(s.drop_first()), s[0])
    }
}

/// The name of the first port (from index `j` on, in insertion order) that
/// repeats the name of an earlier port, if any.
pub open spec fn first_conflict_from(s: Seq<PortView>, j: int) -> Option<Seq<char>>
    decreases s.len() - j,
{
    if j < 0 || j >= s.len() {
        Option::None
    } else if name_in_prefix(s, j, s[j].name) {
        Option::Some(s[j].name)
    } else {
        first_conflict_from(s, j + 1)
    }
}

/// The first duplicated port name of the sequence, in insertion order.
pub open spec fn first_conflict(s: Seq<PortView>) -> Option<Seq<char>> {
    first_conflict_from(s, 0)
}

/// A key of this name is present in the map.
pub open spec fn has_key(m: Seq<(Seq<char>, PortValueView)>, name: Seq<char>) -> bool {
    exists|i: int| 0 <= i < m.len() && m[i].0 == name
}

/// Every declared port name has a key in the map (presence only: neither the
/// type tag of the supplied value nor extra keys are looked at).
pub open spec fn all_present(ports: Seq<PortView>, m: Seq<(Seq<char>, PortValueView)>) -> bool {
    forall|i: int| 0 <= i < ports.len() ==> has_key(m, ports[i].name)
}

/// The name of the first declared port (from index `j` on) whose key the map
/// lacks, if any.
pub open spec fn first_missing_from(
    ports: Seq<PortView>,
    m: Seq<(Seq<char>, PortValueView)>,
    j: int,
) -> Option<Seq<char>>
    decreases ports.len() - j,
{
    if j < 0 || j >= ports.len() {
        Option::None
    } else if !has_key(m, ports[j].name) {
        Option::Some(ports[j].name)
    } else {
        first_missing_from(ports, m, j + 1)
    }
}

/// The name of the first declared port whose key the map lacks, if any.
pub open spec fn first_missing(ports: Seq<PortView>, m: Seq<(Seq<char>, PortValueView)>) -> Option<
    Seq<char>,
> {
    first_missing_from(ports, m, 0)
}

/// Mathematical model of a built schema: the two port sets, each
/// ascending by name and so free of duplicate names.
pub struct SchemaView {
    pub inputs: Seq<PortView>,
    pub outputs: Seq<PortView>,
}

/// What `build` returns, as a function of the accumulated declarations:
/// an empty input set is refused first; then the first duplicated input
/// name, then the first duplicated output name (each in insertion order);
/// otherwise the schema, each set arranged ascending by name.
pub open spec fn build_spec(inputs: Seq<PortView>, outputs: Seq<PortView>) -> Result<
    SchemaView,
    ErrorView,
> {
    if inputs.len() == 0 {
        Result::Err(ErrorView::EmptyPorts("inputs"@))
    } else if first_conflict(inputs) is Some {
        Result::Err(ErrorView::NameConflict(first_conflict(inputs)->Some_0))
    } else if first_conflict(outputs) is Some {
        Result::Err(ErrorView::NameConflict(first_conflict(outputs)->Some_0))
    } else {
        Result::Ok(SchemaView { inputs: sort_ports(inputs), outputs: sort_ports(outputs) })
    }
}

/// Accumulates input and output port declarations for one code block.
#[derive(Debug, Clone)]
pub struct CodeBlockAppBuilder {
    inputs: Vec<Port>,
    outputs: Vec<Port>,
}

/// Mathematical model of a builder: the declarations in the order added.
pub struct BuilderView {
    pub inputs: Seq<PortView>,
    pub outputs: Seq<PortView>,
}

impl View for CodeBlockAppBuilder {
    type V = BuilderView;

    closed spec fn view(&self) -> BuilderView {
        BuilderView { inputs: ports_view(self.inputs@), outputs: ports_view(self.outputs@) }
    }
}

/// The immutable schema of one code block, shared read-only across all
/// request handling.
#[derive(Debug, Clone)]
pub struct CodeBlockApp {
    inputs: Vec<Port>,
    outputs: Vec<Port>,
}

impl View for CodeBlockApp {
    type V = SchemaView;

    closed spec fn view(&self) -> SchemaView {
        SchemaView { inputs: ports_view(self.inputs@), outputs: ports_view(self.outputs@) }
    }
}

impl CodeBlockAppBuilder {
    /// An empty builder: no inputs, no outputs.
    pub fn new() -> (r: CodeBlockAppBuilder)
        ensures
            r@.inputs == Seq::<PortView>::empty(),
            r@.outputs == Seq::<PortView>::empty(),
    {
        let r = CodeBlockAppBuilder { inputs: Vec::new(), outputs: Vec::new() };
        proof {
            assert(r@.inputs =~= Seq::<PortView>::empty());
            assert(r@.outputs =~= Seq::<PortView>::empty());
        }
        r
    }

    /// Appends input port declarations, keeping their order.
    pub fn inputs(self, inputs: Vec<Port>) -> (r: CodeBlockAppBuilder)
        ensures
            r@.inputs == self@.inputs + ports_view(inputs@),
            r@.outputs == self@.outputs,
    {
        let mut s = self;
        let mut more = inputs;
        s.inputs.append(&mut more);
        proof {
            assert(ports_view(s.inputs@) =~= self@.inputs + ports_view(inputs@));
        }
        s
    }

    /// Appends output port declarations, keeping their order.
    pub fn outputs(self, outputs: Vec<Port>) -> (r: CodeBlockAppBuilder)
        ensures
            r@.outputs == self@.outputs + ports_view(outputs@),
            r@.inputs == self@.inputs,
    {
        let mut s = self;
        let mut more = outputs;
        s.outputs.append(&mut more);
        proof {
            assert(ports_view(s.outputs@) =~= self@.outputs + ports_view(outputs@));
        }
        s
    }

    /// Validates the accumulated declarations and returns the immutable
    /// schema, or the first build-time error; never a partial schema.
    pub fn build(self) -> (r: Result<CodeBlockApp, Error>)
        ensures
            r matches Result::Ok(app) ==> {
                &&& build_spec(self@.inputs, self@.outputs) matches Result::Ok(s) && app@ == s
                &&& sorted_names(app@.inputs)
                &&& sorted_names(app@.outputs)
                &&& unique_names(app@.inputs)
                &&& unique_names(app@.outputs)
            },
            r matches Result::Err(e) ==> build_spec(self@.inputs, self@.outputs) matches
                Result::Err(ev) && e@ == ev,
    {
        if self.inputs.len() == 0 {
            proof {
                assert(ports_view(self.inputs@).len() == 0);
            }
            return Result::Err(Error::EmptyPorts("inputs"));
        }
        match first_conflicting_name(&self.inputs) {
            Option::Some(name) => Result::Err(Error::NameConflict(name)),
            Option::None => {
                match first_conflicting_name(&self.outputs) {
                    Option::Some(name) => Result::Err(Error::NameConflict(name)),
                    Option::None => {
                        proof {
                            lemma_no_conflict_unique(ports_view(self.inputs@));
                            lemma_no_conflict_unique(ports_view(self.outputs@));
                            lemma_sort_ports_props(ports_view(self.inputs@));
                            lemma_sort_ports_props(ports_view(self.outputs@));
                            lemma_sorted_unique_names(sort_ports(ports_view(self.inputs@)));
                            lemma_sorted_unique_names(sort_ports(ports_view(self.outputs@)));
                        }
                        let inputs = sort_ports_vec(self.inputs);
                        let outputs = sort_ports_vec(self.outputs);
                        Result::Ok(CodeBlockApp { inputs, outputs })
                    },
                }
            },
        }
    }
}

/// A sequence whose `first_conflict` is `None` has pairwise distinct names.
pub proof fn lemma_no_conflict_unique(s: Seq<PortView>)
    requires
        first_conflict(s) is None,
    ensures
        unique_names(s),
{
    lemma_conflict_clean_prefix(s, 0);
    assert forall|i: int, j: int| 0 <= i < j < s.len() implies s[i].name != s[j].name by {
        assert(!name_in_prefix(s, j, s[j].name));
    }
}

/// If scanning from `j` finds no conflict, then no port from `j` on repeats
/// an earlier name.
proof fn lemma_conflict_clean_prefix(s: Seq<PortView>, j: int)
    requires
        first_conflict_from(s, j) is None,
        0 <= j,
    ensures
        forall|k: int| j <= k < s.len() ==> !name_in_prefix(s, k, s[k].name),
    decreases s.len() - j,
{
    if j < s.len() {
        lemma_conflict_clean_prefix(s, j + 1);
    }
}

/// If the first `j` ports are free of repeats and port `j` repeats an
/// earlier name, the scan reports port `j`'s name.
proof fn lemma_first_conflict_at(s: Seq<PortView>, j: int, m: int)
    requires
        0 <= m <= j < s.len(),
        forall|k: int| 0 <= k < j ==> !name_in_prefix(s, k, s[k].name),
        name_in_prefix(s, j, s[j].name),
    ensures
        first_conflict_from(s, m) == Option::Some(s[j].name),
    decreases j - m,
{
    if m < j {
        lemma_first_conflict_at(s, j, m + 1);
    }
}

/// The name of the first port that repeats the name of an earlier port, in
/// insertion order, if any.
fn first_conflicting_name(ports: &Vec<Port>) -> (r: Option<String>)
    ensures
        r matches Option::None ==> first_conflict(ports_view(ports@)) is None,
        r matches Option::Some(name) ==> first_conflict(ports_view(ports@)) == Option::Some(
            name@,
        ),
{
    let ghost s = ports_view(ports@);
    let n = ports.len();
    for j in 0..n
        invariant
            n == ports.len(),
            s == ports_view(ports@),
            forall|k: int| 0 <= k < j ==> !name_in_prefix(s, k, s[k].name),
    {
        let mut i: usize = 0;
        while i < j
            invariant
                i <= j < n == ports.len(),
                s == ports_view(ports@),
                forall|k: int| 0 <= k < j ==> !name_in_prefix(s, k, s[k].name),
                forall|k: int| 0 <= k < i ==> s[k].name != s[j as int].name,
            decreases j - i,
        {
            let same = ports[i].name().eq(ports[j].name());
            proof {
                assert(s[i as int] == ports@[i as int]@);
                assert(s[j as int] == ports@[j as int]@);
            }
            if same {
                proof {
                    assert(s[i as int].name == s[j as int].name);
                    assert(name_in_prefix(s, j as int, s[j as int].name));
                    lemma_first_conflict_at(s, j as int, 0);
                }
                return Option::Some(ports[j].name().clone());
            }
            i += 1;
        }
        proof {
            assert(!name_in_prefix(s, j as int, s[j as int].name));
        }
    }
    proof {
        lemma_conflict_none(s, 0);
    }
    Option::None
}

/// A request-time failure classified for the transport: a client fault (the
/// request lacked a declared input) or a server fault (the computation
/// failed, or its result lacked a declared output).
#[derive(Debug, Clone)]
pub enum RunError {
    Client(String),
    Server(String),
}

/// Mathematical model of a `RunError`.
pub enum RunErrorView {
    Client(Seq<char>),
    Server(Seq<char>),
}

impl View for RunError {
    type V = RunErrorView;

    open spec fn view(&self) -> RunErrorView {
        match self {
            RunError::Client(m) => RunErrorView::Client(m@),
            RunError::Server(m) => RunErrorView::Server(m@),
        }
    }
}

impl RunErrorView {
    /// The message carried, whichever side is at fault.
    pub open spec fn message(self) -> Seq<char> {
        match self {
            RunErrorView::Client(m) => m,
            RunErrorView::Server(m) => m,
        }
    }
}

impl RunError {
    /// The transport status of this failure: 400 for a client fault, 500
    /// for a server fault.
    pub fn status_code(&self) -> (r: u16)
        ensures
            self@ matches RunErrorView::Client(_) ==> r == 400,
            self@ matches RunErrorView::Server(_) ==> r == 500,
    {
        match self {
            RunError::Client(_) => 400,
            RunError::Server(_) => 500,
        }
    }

    /// The plain-text message shown to the client.
    pub fn message(&self) -> (r: &String)
        ensures
            r@ == self@.message(),
    {
        match self {
            RunError::Client(m) => m,
            RunError::Server(m) => m,
        }
    }
}

impl CodeBlockApp {
    /// The declared input ports, ascending by name.
    pub fn inputs(&self) -> (r: &Vec<Port>)
        ensures
            ports_view(r@) == self@.inputs,
    {
        &self.inputs
    }

    /// The declared output ports, ascending by name.
    pub fn outputs(&self) -> (r: &Vec<Port>)
        ensures
            ports_view(r@) == self@.outputs,
    {
        &self.outputs
    }

    /// Checks that every declared input name has a key in the request map;
    /// presence only, extra keys ignored. The ports stand ascending by
    /// name, so a failure reports the least-named missing input.
    pub fn validate_inputs(&self, inputs: &Vec<(String, PortValue)>) -> (r: Result<(), Error>)
        ensures
            r is Ok <==> all_present(self@.inputs, entries_view(inputs@)),
            r matches Result::Err(e) ==> e@ == ErrorView::MissingPort(
                first_missing(self@.inputs, entries_view(inputs@))->Some_0,
            ),
    {
        validate_ports(&self.inputs, inputs)
    }

    /// Checks that every declared output name has a key in the computation's
    /// result map, by the identical presence-only rule as the inputs.
    pub fn validate_outputs(&self, outputs: &Vec<(String, PortValue)>) -> (r: Result<(), Error>)
        ensures
            r is Ok <==> all_present(self@.outputs, entries_view(outputs@)),
            r matches Result::Err(e) ==> e@ == ErrorView::MissingPort(
                first_missing(self@.outputs, entries_view(outputs@))->Some_0,
            ),
    {
        validate_ports(&self.outputs, outputs)
    }

    /// The first half of one request: checks the incoming map against the
    /// input schema. On failure the computation is never to be invoked and
    /// the failure is the caller's (client fault, message naming the missing
    /// port).
    pub fn begin_run(&self, req: &Vec<(String, PortValue)>) -> (r: Result<(), RunError>)
        ensures
            r is Ok <==> all_present(self@.inputs, entries_view(req@)),
            r matches Result::Err(e) ==> e@ == RunErrorView::Client(
                error_message(
                    ErrorView::MissingPort(first_missing(self@.inputs, entries_view(req@))->Some_0),
                ),
            ),
    {
        match self.validate_inputs(req) {
            Result::Ok(u) => Result::Ok(u),
            Result::Err(e) => {
                let msg = e.message();
                Result::Err(RunError::Client(msg))
            },
        }
    }

    /// The second half of one request: classifies the computation's outcome.
    /// A failure of the computation is surfaced verbatim as a server fault;
    /// a result map lacking a declared output is a server fault naming the
    /// missing port; otherwise the result map is returned unmodified, extra
    /// keys and all.
    pub fn finish_run(&self, outcome: Result<Vec<(String, PortValue)>, String>) -> (r: Result<
        Vec<(String, PortValue)>,
        RunError,
    >)
        ensures
            outcome matches Result::Err(m) ==> r matches Result::Err(e) && e@
                == RunErrorView::Server(m@),
            outcome matches Result::Ok(out) ==> {
                &&& all_present(self@.outputs, entries_view(out@)) ==> (r matches Result::Ok(ret)
                    && ret == out)
                &&& !all_present(self@.outputs, entries_view(out@)) ==> (r matches Result::Err(e)
                    && e@ == RunErrorView::Server(
                    error_message(
                        ErrorView::MissingPort(
                            first_missing(self@.outputs, entries_view(out@))->Some_0,
                        ),
                    ),
                ))
            },
    {
        match outcome {
            Result::Err(m) => Result::Err(RunError::Server(m)),
            Result::Ok(out) => {
                match self.validate_outputs(&out) {
                    Result::Ok(_) => Result::Ok(out),
                    Result::Err(e) => {
                        let msg = e.message();
                        Result::Err(RunError::Server(msg))
                    },
                }
            },
        }
    }
}

/// Presence-only validation of a map against a port list: `Ok` when every
/// declared name has a key; otherwise the first missing name, as a
/// `MissingPort` error.
fn validate_ports(ports: &Vec<Port>, m: &Vec<(String, PortValue)>) -> (r: Result<(), Error>)
    ensures
        r is Ok <==> all_present(ports_view(ports@), entries_view(m@)),
        r matches Result::Err(e) ==> e@ == ErrorView::MissingPort(
            first_missing(ports_view(ports@), entries_view(m@))->Some_0,
        ),
{
    let ghost s = ports_view(ports@);
    let ghost mv = entries_view(m@);
    let n = ports.len();
    for j in 0..n
        invariant
            n == ports.len(),
            s == ports_view(ports@),
            mv == entries_view(m@),
            forall|k: int| 0 <= k < j ==> has_key(mv, s[k].name),
    {
        let present = map_contains(m, ports[j].name());
        proof {
            assert(s[j as int] == ports@[j as int]@);
        }
        if !present {
            proof {
                lemma_first_missing_at(s, mv, j as int, 0);
            }
            return Result::Err(Error::MissingPort(ports[j].name().clone()));
        }
    }
    proof {
        lemma_missing_none(s, mv, 0);
        lemma_missing_clean(s, mv, 0);
    }
    Result::Ok(())
}

/// Whether the map holds a key of this name.
fn map_contains(m: &Vec<(String, PortValue)>, name: &String) -> (r: bool)
    ensures
        r == has_key(entries_view(m@), name@),
{
    let ghost mv = entries_view(m@);
    let n = m.len();
    let mut i: usize = 0;
    while i < n
        invariant
            i <= n == m.len(),
            mv == entries_view(m@),
            forall|k: int| 0 <= k < i ==> mv[k].0 != name@,
        decreases n - i,
    {
        let hit = m[i].0.eq(name);
        proof {
            assert(mv[i as int] == (m@[i as int].0@, m@[i as int].1@));
        }
        if hit {
            proof {
                assert(has_key(mv, name@));
            }
            return true;
        }
        i += 1;
    }
    proof {
        assert(forall|k: int| 0 <= k < mv.len() ==> mv[k].0 != name@);
    }
    false
}

/// If the first `j` declared names are present and name `j` is not, the scan
/// reports name `j`.
proof fn lemma_first_missing_at(
    ports: Seq<PortView>,
    m: Seq<(Seq<char>, PortValueView)>,
    j: int,
    k: int,
)
    requires
        0 <= k <= j < ports.len(),
        forall|l: int| 0 <= l < j ==> has_key(m, ports[l].name),
        !has_key(m, ports[j].name),
    ensures
        first_missing_from(ports, m, k) == Option::Some(ports[j].name),
    decreases j - k,
{
    if k < j {
        lemma_first_missing_at(ports, m, j, k + 1);
    }
}

/// If every declared name from `j` on is present, the scan from `j` finds
/// nothing missing.
proof fn lemma_missing_none(ports: Seq<PortView>, m: Seq<(Seq<char>, PortValueView)>, j: int)
    requires
        0 <= j,
        forall|k: int| j <= k < ports.len() ==> has_key(m, ports[k].name),
    ensures
        first_missing_from(ports, m, j) is None,
    decreases ports.len() - j,
{
    if j < ports.len() {
        lemma_missing_none(ports, m, j + 1);
    }
}

/// If the scan from `j` finds nothing missing, every declared name from `j`
/// on is present.
proof fn lemma_missing_clean(ports: Seq<PortView>, m: Seq<(Seq<char>, PortValueView)>, j: int)
    requires
        0 <= j,
        first_missing_from(ports, m, j) is None,
    ensures
        forall|k: int| j <= k < ports.len() ==> has_key(m, ports[k].name),
    decreases ports.len() - j,
{
    if j < ports.len() {
        lemma_missing_clean(ports, m, j + 1);
    }
}

/// A map passes presence validation exactly when the scan over the
/// declared ports finds nothing missing.
pub proof fn lemma_all_present_iff_none_missing(
    ports: Seq<PortView>,
    m: Seq<(Seq<char>, PortValueView)>,
)
    ensures
        all_present(ports, m) <==> first_missing(ports, m) is None,
{
    if first_missing(ports, m) is None {
        lemma_missing_clean(ports, m, 0);
    }
    if all_present(ports, m) {
        lemma_missing_none(ports, m, 0);
    }
}

/// A sequence with pairwise distinct names has no conflict to find.
pub proof fn lemma_unique_no_conflict(s: Seq<PortView>)
    requires
        unique_names(s),
    ensures
        first_conflict(s) is None,
{
    assert forall|k: int| 0 <= k < s.len() implies !name_in_prefix(s, k, s[k].name) by {
        if name_in_prefix(s, k, s[k].name) {
            let i = choose|i: int| 0 <= i < k && s[i].name == s[k].name;
            assert(false);
        }
    }
    lemma_conflict_none(s, 0);
}

/// A reported conflict names one of a colliding pair.
pub proof fn lemma_conflict_is_collision(s: Seq<PortView>, j: int)
    requires
        0 <= j,
        first_conflict_from(s, j) is Some,
    ensures
        exists|a: int, b: int|
            0 <= a < b < s.len() && s[a].name == s[b].name && s[b].name == first_conflict_from(
                s,
                j,
            )->Some_0,
    decreases s.len() - j,
{
    if j < s.len() && name_in_prefix(s, j, s[j].name) {
        let a = choose|a: int| 0 <= a < j && s[a].name == s[j].name;
        assert(0 <= a < j < s.len() && s[a].name == s[j].name);
    } else {
        lemma_conflict_is_collision(s, j + 1);
    }
}

/// Law: for a non-empty input declaration sequence and any output
/// declaration sequence, building succeeds exactly when neither set repeats
/// a name; and a failure is a `NameConflict` naming one of a colliding pair
/// of the offending set.
pub proof fn lemma_build_succeeds_iff_unique(inputs: Seq<PortView>, outputs: Seq<PortView>)
    requires
        inputs.len() > 0,
    ensures
        build_spec(inputs, outputs) is Ok <==> (unique_names(inputs) && unique_names(outputs)),
        build_spec(inputs, outputs) matches Result::Err(e) ==> e matches ErrorView::NameConflict(
            name,
        ) && (exists|a: int, b: int|
            {
                &&& 0 <= a < b
                &&& (b < inputs.len() && inputs[a].name == inputs[b].name && inputs[b].name == name)
                    || (b < outputs.len() && outputs[a].name == outputs[b].name
                    && outputs[b].name == name)
            }),
{
    if unique_names(inputs) {
        lemma_unique_no_conflict(inputs);
    }
    if unique_names(outputs) {
        lemma_unique_no_conflict(outputs);
    }
    if first_conflict(inputs) is None {
        lemma_no_conflict_unique(inputs);
    }
    if first_conflict(outputs) is None {
        lemma_no_conflict_unique(outputs);
    }
    if first_conflict(inputs) is Some {
        lemma_conflict_is_collision(inputs, 0);
    } else if first_conflict(outputs) is Some {
        lemma_conflict_is_collision(outputs, 0);
    }
}

/// Law: with zero input declarations, building always fails with
/// `EmptyPorts`, whatever the outputs.
pub proof fn lemma_build_empty_inputs(inputs: Seq<PortView>, outputs: Seq<PortView>)
    requires
        inputs.len() == 0,
    ensures
        build_spec(inputs, outputs) == Result::<SchemaView, ErrorView>::Err(
            ErrorView::EmptyPorts("inputs"@),
        ),
{
}

/// Law: a port's identity is its name alone. Two declarations sharing a
/// name conflict, whatever their ids, value types or defaults: none of
/// those fields is constrained here, yet the build is refused.
pub proof fn lemma_name_only_identity(p1: PortView, p2: PortView, outputs: Seq<PortView>)
    requires
        p1.name == p2.name,
    ensures
        build_spec(seq![p1, p2], outputs) == Result::<SchemaView, ErrorView>::Err(
            ErrorView::NameConflict(p1.name),
        ),
{
    let s = seq![p1, p2];
    assert(!name_in_prefix(s, 0, s[0].name));
    assert(s[0].name == s[1].name);
    assert(name_in_prefix(s, 1, s[1].name));
    assert(first_conflict_from(s, 0) == first_conflict_from(s, 1));
    assert(first_conflict(s) == Option::Some(p2.name));
}

/// Law: extra, undeclared keys never break presence-only validation. A map
/// that passes still passes after any entry is added.
pub proof fn lemma_extra_keys_harmless(
    ports: Seq<PortView>,
    m: Seq<(Seq<char>, PortValueView)>,
    extra: (Seq<char>, PortValueView),
)
    requires
        all_present(ports, m),
    ensures
        all_present(ports, m.push(extra)),
{
    assert forall|i: int| 0 <= i < ports.len() implies has_key(m.push(extra), ports[i].name) by {
        assert(has_key(m, ports[i].name));
        let w = choose|k: int| 0 <= k < m.len() && m[k].0 == ports[i].name;
        assert(m.push(extra)[w] == m[w]);
        assert(0 <= w < m.push(extra).len() && m.push(extra)[w].0 == ports[i].name);
    }
}

/// Validation looks at declared names and key presence alone: it holds or
/// fails for a map exactly as it does for any other map holding the same
/// key set.
pub proof fn lemma_presence_only(
    ports: Seq<PortView>,
    m1: Seq<(Seq<char>, PortValueView)>,
    m2: Seq<(Seq<char>, PortValueView)>,
)
    requires
        forall|name: Seq<char>| has_key(m1, name) <==> has_key(m2, name),
    ensures
        all_present(ports, m1) <==> all_present(ports, m2),
{
}

/// No name orders before itself.
proof fn lemma_name_lt_irrefl(a: Seq<char>)
    ensures
        !name_lt(a, a),
    decreases a.len(),
{
    if a.len() > 0 {
        lemma_name_lt_irrefl(a.drop_first());
    }
}

/// Of two distinct names, one orders before the other.
proof fn lemma_name_lt_trichotomy(a: Seq<char>, b: Seq<char>)
    requires
        a != b,
    ensures
        name_lt(a, b) || name_lt(b, a),
    decreases a.len(),
{
    if b.len() == 0 {
        if a.len() == 0 {
            assert(a =~= b);
        }
    } else if a.len() == 0 {
    } else if a[0] != b[0] {
        assert((a[0] as u32) != (b[0] as u32)) by {
            if (a[0] as u32) == (b[0] as u32) {
                vstd::utf8::char_u32_cast(a[0], a[0] as u32);
                vstd::utf8::char_u32_cast(b[0], b[0] as u32);
            }
        }
    } else {
        if a.drop_first() == b.drop_first() {
            assert(a.drop_first().len() == b.drop_first().len());
            assert(a.drop_first().len() == a.len() - 1);
            assert(b.drop_first().len() == b.len() - 1);
            assert(a.len() == b.len());
            assert forall|i: int| 0 <= i < a.len() implies a[i] == b[i] by {
                if i > 0 {
                    assert(a[i] == a.drop_first()[i - 1]);
                    assert(b[i] == b.drop_first()[i - 1]);
                }
            }
            assert(a =~= b);
            assert(false);
        } else {
            lemma_name_lt_trichotomy(a.drop_first(), b.drop_first());
        }
    }
}

/// The order on names is transitive.
proof fn lemma_name_lt_trans(a: Seq<char>, b: Seq<char>, c: Seq<char>)
    requires
        name_lt(a, b),
        name_lt(b, c),
    ensures
        name_lt(a, c),
    decreases a.len(),
{
    if a.len() == 0 {
    } else if a[0] == b[0] && b[0] == c[0] {
        lemma_name_lt_trans(a.drop_first(), b.drop_first(), c.drop_first());
    } else {
        assert((a[0] as u32) <= (b[0] as u32));
        assert((b[0] as u32) <= (c[0] as u32));
        assert((a[0] as u32) < (c[0] as u32));
        assert(a[0] != c[0]) by {
            if a[0] == c[0] {
                assert((a[0] as u32) == (c[0] as u32));
            }
        }
    }
}

/// Strictly ascending names are pairwise distinct.
pub proof fn lemma_sorted_unique_names(s: Seq<PortView>)
    requires
        sorted_names(s),
    ensures
        unique_names(s),
{
    assert forall|i: int, j: int| 0 <= i < j < s.len() implies s[i].name != s[j].name by {
        if s[i].name == s[j].name {
            lemma_name_lt_irrefl(s[i].name);
        }
    }
}

/// Ascending names stay ascending when the first port is dropped.
proof fn lemma_sorted_drop_first(s: Seq<PortView>)
    requires
        sorted_names(s),
        s.len() > 0,
    ensures
        sorted_names(s.drop_first()),
{
    assert forall|i: int, j: int| 0 <= i < j < s.drop_first().len() implies name_lt(
        s.drop_first()[i].name,
        s.drop_first()[j].name,
    ) by {
        assert(s.drop_first()[i] == s[i + 1]);
        assert(s.drop_first()[j] == s[j + 1]);
    }
}

/// Inserting a port whose name is fresh into a name-sorted sequence keeps
/// it sorted, grows it by one, and adds exactly that port.
pub proof fn lemma_sorted_insert_props(s: Seq<PortView>, p: PortView)
    requires
        sorted_names(s),
        forall|k: int| 0 <= k < s.len() ==> (#[trigger] s[k].name) != p.name,
    ensures
        sorted_names(sorted_insert(s, p)),
        sorted_insert(s, p).len() == s.len() + 1,
        forall|x: PortView| #[trigger]
            sorted_insert(s, p).contains(x) <==> (s.contains(x) || x == p),
    decreases s.len(),
{
    let r = sorted_insert(s, p);
    if s.len() == 0 {
        assert(r == seq![p]);
        assert forall|x: PortView| #[trigger] r.contains(x) <==> (s.contains(x) || x == p) by {
            if r.contains(x) {
                let w = choose|w: int| 0 <= w < r.len() && r[w] == x;
                assert(x == p);
            }
            if x == p {
                assert(r[0] == x);
            }
        }
    } else if name_lt(p.name, s[0].name) {
        assert(r == seq![p] + s);
        assert forall|i: int, j: int| 0 <= i < j < r.len() implies name_lt(
            r[i].name,
            r[j].name,
        ) by {
            if i == 0 {
                assert(r[0] == p);
                assert(r[j] == s[j - 1]);
                if j > 1 {
                    lemma_name_lt_trans(p.name, s[0].name, s[j - 1].name);
                }
            } else {
                assert(r[i] == s[i - 1]);
                assert(r[j] == s[j - 1]);
            }
        }
        assert forall|x: PortView| #[trigger] r.contains(x) <==> (s.contains(x) || x == p) by {
            if r.contains(x) {
                let w = choose|w: int| 0 <= w < r.len() && r[w] == x;
                if w > 0 {
                    assert(s[w - 1] == x);
                }
            }
            if s.contains(x) {
                let w = choose|w: int| 0 <= w < s.len() && s[w] == x;
                assert(r[w + 1] == x);
            }
            if x == p {
                assert(r[0] == x);
            }
        }
    } else {
        lemma_name_lt_trichotomy(p.name, s[0].name);
        lemma_sorted_drop_first(s);
        assert(forall|k: int|
            0 <= k < s.drop_first().len() ==> (#[trigger] s.drop_first()[k].name) != p.name);
        lemma_sorted_insert_props(s.drop_first(), p);
        let rec = sorted_insert(s.drop_first(), p);
        assert(r == seq![s[0]] + rec);
        assert forall|i: int, j: int| 0 <= i < j < r.len() implies name_lt(
            r[i].name,
            r[j].name,
        ) by {
            if i == 0 {
                assert(r[0] == s[0]);
                assert(r[j] == rec[j - 1]);
                assert(rec.contains(rec[j - 1]));
                if rec[j - 1] == p {
                } else {
                    assert(s.drop_first().contains(rec[j - 1]));
                    let m = choose|m: int|
                        0 <= m < s.drop_first().len() && s.drop_first()[m] == rec[j - 1];
                    assert(s[m + 1] == rec[j - 1]);
                }
            } else {
                assert(r[i] == rec[i - 1]);
                assert(r[j] == rec[j - 1]);
            }
        }
        assert forall|x: PortView| #[trigger] r.contains(x) <==> (s.contains(x) || x == p) by {
            if r.contains(x) {
                let w = choose|w: int| 0 <= w < r.len() && r[w] == x;
                if w == 0 {
                    assert(s[0] == x);
                    assert(s.contains(x));
                } else {
                    assert(rec[w - 1] == x);
                    assert(rec.contains(x));
                    if x != p {
                        assert(s.drop_first().contains(x));
                        let m = choose|m: int|
                            0 <= m < s.drop_first().len() && s.drop_first()[m] == x;
                        assert(s[m + 1] == x);
                    }
                }
            }
            if s.contains(x) {
                let w = choose|w: int| 0 <= w < s.len() && s[w] == x;
                if w == 0 {
                    assert(r[0] == x);
                } else {
                    assert(s.drop_first()[w - 1] == x);
                    assert(s.drop_first().contains(x));
                    assert(rec.contains(x));
                    let m = choose|m: int| 0 <= m < rec.len() && rec[m] == x;
                    assert(r[m + 1] == x);
                }
            }
            if x == p {
                assert(rec.contains(x));
                let m = choose|m: int| 0 <= m < rec.len() && rec[m] == x;
                assert(r[m + 1] == x);
            }
        }
    }
}

/// Law: arranging declarations with pairwise distinct names ascending by
/// name gives a sequence of exactly the same ports, strictly sorted.
pub proof fn lemma_sort_ports_props(s: Seq<PortView>)
    requires
        unique_names(s),
    ensures
        sorted_names(sort_ports(s)),
        sort_ports(s).len() == s.len(),
        forall|x: PortView| #[trigger] sort_ports(s).contains(x) <==> s.contains(x),
    decreases s.len(),
{
    if s.len() > 0 {
        let rest = s.drop_first();
        assert(unique_names(rest)) by {
            assert forall|i: int, j: int| 0 <= i < j < rest.len() implies rest[i].name
                != rest[j].name by {
                assert(rest[i] == s[i + 1]);
                assert(rest[j] == s[j + 1]);
            }
        }
        lemma_sort_ports_props(rest);
        let sr = sort_ports(rest);
        assert forall|k: int| 0 <= k < sr.len() implies (#[trigger] sr[k].name) != s[0].name by {
            assert(sr.contains(sr[k]));
            assert(rest.contains(sr[k]));
            let m = choose|m: int| 0 <= m < rest.len() && rest[m] == sr[k];
            assert(s[m + 1] == sr[k]);
        }
        lemma_sorted_insert_props(sr, s[0]);
        assert forall|x: PortView| #[trigger] sort_ports(s).contains(x) <==> s.contains(x) by {
            assert(sort_ports(s) == sorted_insert(sr, s[0]));
            if sort_ports(s).contains(x) {
                if x == s[0] {
                    assert(s.contains(x));
                } else {
                    assert(sr.contains(x));
                    assert(rest.contains(x));
                    let m = choose|m: int| 0 <= m < rest.len() && rest[m] == x;
                    assert(s[m + 1] == x);
                }
            }
            if s.contains(x) {
                let w = choose|w: int| 0 <= w < s.len() && s[w] == x;
                if w == 0 {
                } else {
                    assert(rest[w - 1] == x);
                    assert(rest.contains(x));
                }
            }
        }
    }
}

/// Where every name before `pos` does not order after the inserted name
/// and the name at `pos` (if there is one) does, the sorted insertion is
/// exactly the insertion at `pos`.
proof fn lemma_sorted_insert_at(s: Seq<PortView>, p: PortView, pos: int)
    requires
        0 <= pos <= s.len(),
        forall|k: int| 0 <= k < pos ==> !name_lt(p.name, (#[trigger] s[k]).name),
        pos < s.len() ==> name_lt(p.name, s[pos].name),
    ensures
        sorted_insert(s, p) == s.subrange(0, pos).push(p) + s.subrange(pos, s.len() as int),
    decreases pos,
{
    if pos == 0 {
        if s.len() == 0 {
            assert(sorted_insert(s, p) =~= s.subrange(0, 0).push(p) + s.subrange(0, 0));
        } else {
            assert(seq![p] + s =~= s.subrange(0, 0).push(p) + s.subrange(0, s.len() as int));
        }
    } else {
        assert(!name_lt(p.name, s[0].name));
        lemma_sorted_insert_at(s.drop_first(), p, pos - 1);
        assert(seq![s[0]] + (s.drop_first().subrange(0, pos - 1).push(p) + s.drop_first()
            .subrange(pos - 1, s.drop_first().len() as int)) =~= s.subrange(0, pos).push(p)
            + s.subrange(pos, s.len() as int));
    }
}

/// Whether one name orders strictly before another.
fn name_is_lt(a: &str, b: &str) -> (r: bool)
    ensures
        r == name_lt(a@, b@),
{
    let a_len = a.unicode_len();
    let b_len = b.unicode_len();
    let mut i: usize = 0;
    proof {
        assert(a@.skip(0) =~= a@);
        assert(b@.skip(0) =~= b@);
    }
    while i < a_len && i < b_len
        invariant
            i <= a_len,
            i <= b_len,
            a_len == a@.len(),
            b_len == b@.len(),
            name_lt(a@, b@) == name_lt(a@.skip(i as int), b@.skip(i as int)),
        decreases a_len - i,
    {
        let ca = a.get_char(i);
        let cb = b.get_char(i);
        proof {
            assert(a@.skip(i as int)[0] == a@[i as int]);
            assert(b@.skip(i as int)[0] == b@[i as int]);
        }
        if ca != cb {
            return (ca as u32) < (cb as u32);
        }
        proof {
            assert(a@.skip(i as int).drop_first() =~= a@.skip(i as int + 1));
            assert(b@.skip(i as int).drop_first() =~= b@.skip(i as int + 1));
        }
        i += 1;
    }
    proof {
        if i >= b_len {
            assert(b@.skip(i as int).len() == 0);
        } else {
            assert(a@.skip(i as int).len() == 0);
        }
    }
    i < b_len
}

/// The position before the first port whose name orders after the given
/// one.
fn find_insert_pos(out: &Vec<Port>, p: &Port) -> (pos: usize)
    ensures
        pos <= out.len(),
        forall|k: int| 0 <= k < pos ==> !name_lt(p@.name, (#[trigger] ports_view(out@)[k]).name),
        pos < out.len() ==> name_lt(p@.name, ports_view(out@)[pos as int].name),
{
    let ghost s = ports_view(out@);
    let n = out.len();
    let mut i: usize = 0;
    while i < n
        invariant
            i <= n == out.len(),
            s == ports_view(out@),
            forall|k: int| 0 <= k < i ==> !name_lt(p@.name, (#[trigger] s[k]).name),
        decreases n - i,
    {
        let before = name_is_lt(p.name().as_str(), out[i].name().as_str());
        proof {
            assert(s[i as int] == out@[i as int]@);
        }
        if before {
            return i;
        }
        i += 1;
    }
    n
}

/// Inserts a port into a name-sorted vector at its ordered position.
fn insert_sorted(out: Vec<Port>, p: Port) -> (r: Vec<Port>)
    ensures
        ports_view(r@) == sorted_insert(ports_view(out@), p@),
{
    let ghost s = ports_view(out@);
    let pos = find_insert_pos(&out, &p);
    proof {
        lemma_sorted_insert_at(s, p@, pos as int);
    }
    let mut r = out;
    r.insert(pos, p);
    proof {
        assert(ports_view(r@) =~= s.subrange(0, pos as int).push(p@) + s.subrange(
            pos as int,
            s.len() as int,
        ));
    }
    r
}

/// Arranges the ports of a vector ascending by name.
fn sort_ports_vec(ports: Vec<Port>) -> (r: Vec<Port>)
    ensures
        ports_view(r@) == sort_ports(ports_view(ports@)),
{
    let ghost orig = ports@;
    let ghost sv = ports_view(orig);
    let mut src = ports;
    let mut out: Vec<Port> = Vec::new();
    proof {
        assert(src@ =~= orig.subrange(0, src@.len() as int));
        assert(sv.skip(src@.len() as int) =~= Seq::<PortView>::empty());
        assert(ports_view(out@) =~= Seq::<PortView>::empty());
        assert(ports_view(out@) == sort_ports(sv.skip(src@.len() as int)));
    }
    while src.len() > 0
        invariant
            src@.len() <= sv.len(),
            sv == ports_view(orig),
            src@ == orig.subrange(0, src@.len() as int),
            ports_view(out@) == sort_ports(sv.skip(src@.len() as int)),
        decreases src.len(),
    {
        let ghost l = src@.len() as int;
        let p = src.pop().unwrap();
        proof {
            assert(p == orig.subrange(0, l)[l - 1]);
            assert(p == orig[l - 1]);
            assert(p@ == sv[l - 1]);
            assert(src@ =~= orig.subrange(0, l - 1));
        }
        out = insert_sorted(out, p);
        proof {
            assert(sv.skip(l - 1).len() > 0);
            assert(sv.skip(l - 1).drop_first() =~= sv.skip(l));
            assert(sv.skip(l - 1)[0] == sv[l - 1]);
            assert(sort_ports(sv.skip(l - 1)) == sorted_insert(sort_ports(sv.skip(l)), sv[l - 1]));
        }
    }
    proof {
        assert(sv.skip(0) =~= sv);
    }
    out
}

/// With the ports ascending by name, the reported missing port bears the
/// least missing name.
pub proof fn lemma_sorted_missing_is_least(
    ports: Seq<PortView>,
    m: Seq<(Seq<char>, PortValueView)>,
)
    requires
        sorted_names(ports),
        first_missing(ports, m) is Some,
    ensures
        ({
            let n = first_missing(ports, m)->Some_0;
            &&& !has_key(m, n)
            &&& exists|i: int| 0 <= i < ports.len() && (#[trigger] ports[i]).name == n
            &&& forall|k: int|
                0 <= k < ports.len() && !has_key(m, (#[trigger] ports[k]).name) ==> (
                ports[k].name == n || name_lt(n, ports[k].name))
        }),
{
    lemma_missing_from_least(ports, m, 0);
}

/// The name reported by the scan from `j` is missing, belongs to a port at
/// or after `j`, and orders before every other missing name from `j` on.
proof fn lemma_missing_from_least(
    ports: Seq<PortView>,
    m: Seq<(Seq<char>, PortValueView)>,
    j: int,
)
    requires
        sorted_names(ports),
        0 <= j,
        first_missing_from(ports, m, j) is Some,
    ensures
        ({
            let n = first_missing_from(ports, m, j)->Some_0;
            &&& !has_key(m, n)
            &&& exists|i: int| j <= i < ports.len() && (#[trigger] ports[i]).name == n
            &&& forall|k: int|
                j <= k < ports.len() && !has_key(m, (#[trigger] ports[k]).name) ==> (
                ports[k].name == n || name_lt(n, ports[k].name))
        }),
    decreases ports.len() - j,
{
    if j < ports.len() && !has_key(m, ports[j].name) {
        assert(first_missing_from(ports, m, j) == Option::Some(ports[j].name));
        assert(ports[j].name == ports[j].name);
    } else {
        lemma_missing_from_least(ports, m, j + 1);
    }
}

/// The network port to listen on: the configured number where one was
/// given, 3000 where the configuration is unset or unparsable.
pub fn listen_port(configured: Option<u16>) -> (r: u16)
    ensures
        configured matches Option::Some(p) ==> r == p,
        configured is None ==> r == 3000,
{
    match configured {
        Option::Some(p) => p,
        Option::None => 3000,
    }
}

/// If no port from `j` on repeats an earlier name, the scan from `j` finds
/// no conflict.
proof fn lemma_conflict_none(s: Seq<PortView>, j: int)
    requires
        0 <= j,
        forall|k: int| j <= k < s.len() ==> !name_in_prefix(s, k, s[k].name),
    ensures
        first_conflict_from(s, j) is None,
    decreases s.len() - j,
{
    if j < s.len() {
        lemma_conflict_none(s, j + 1);
    }
}

} // verus!
