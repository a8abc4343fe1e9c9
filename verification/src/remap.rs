//! The steps by which the mapped region of a file is resized.
//!
//! Resizing a mapped file takes several calls to the system, any of which can
//! fail, and on some platforms a file cannot be cut short while a mapping
//! still covers the part cut off. What is decided here is which call comes
//! next and what the caller is told in the end. The calls themselves are the
//! caller's: it performs the action it is given and reports what came of it.

use vstd::prelude::*;

verus! {

/// Which way a region is resized.
#[derive(Debug, Clone, Copy, PartialEq, Eq, Structural)]
pub enum Direction {
    /// Make room for at least the capacity asked for.
    Grow,
    /// Give back the room beyond the capacity asked for.
    Shrink,
}

/// One call to the system.
#[derive(Debug, Clone, Copy, PartialEq, Eq, Structural)]
pub enum Stage {
    /// Give up the mapping of the header.
    ReleaseHeader,
    /// Ask for the length of the file.
    QueryLen,
    /// Give up the mapping of the data region.
    ReleaseData,
    /// Set the length of the file.
    SetLen,
    /// Ask for the length of the file again, to see that it was set.
    VerifyLen,
    /// Map the data region afresh.
    MapData,
    /// Map the header afresh.
    MapHeader,
}

/// What is asked for, and of what.
#[derive(Debug, Clone, Copy, PartialEq, Eq, Structural)]
pub struct Request {
    /// Which way to resize.
    pub direction: Direction,
    /// The capacity asked for, in elements.
    pub target: usize,
    /// The capacity that is mapped now, in elements.
    pub capacity: usize,
    /// The size of an element in bytes.
    pub elem_size: usize,
    /// Whether the platform refuses to cut a file short while a mapping
    /// covers the part cut off.
    pub release_before_trim: bool,
    /// Whether a mapping of the header shares the file.
    pub has_header: bool,
}

/// What came of the action last handed out.
#[derive(Debug, Clone, Copy, PartialEq, Eq, Structural)]
pub enum Event {
    /// The call succeeded.
    Done,
    /// The call succeeded and gave the length of the file.
    Len(u64),
    /// The call failed.
    Failed,
}

/// How a resize ended.
#[derive(Debug, Clone, Copy, PartialEq, Eq, Structural)]
pub enum Outcome {
    /// The capacity asked for was there already: nothing was done.
    Unchanged,
    /// The file has its new length and is mapped afresh.
    Resized,
    /// The call of this stage failed. It is the first call that failed.
    Failed(Stage),
    /// The new length of the file cannot be computed: it is below zero or
    /// beyond 64 bits.
    Overflow,
    /// The file did not have the length that was set.
    LengthMismatch,
}

/// What the caller has to do next.
#[derive(Debug, Clone, Copy, PartialEq, Eq, Structural)]
pub enum Action {
    /// Give up the mapping of the header.
    ReleaseHeader,
    /// Ask for the length of the file and report it.
    QueryLen,
    /// Give up the mapping of the data region.
    ReleaseData,
    /// Set the length of the file to this many bytes.
    SetLen(u64),
    /// Ask for the length of the file and report it.
    VerifyLen,
    /// Map the data region afresh.
    MapData,
    /// Map the header afresh.
    MapHeader,
    /// Nothing more: the resize ended so.
    Finish(Outcome),
}

/// Where a resize stands, as mathematics.
pub struct ResizeState {
    /// What was asked for.
    pub request: Request,
    /// The place in the order of stages of the stage to perform next, or the
    /// number of stages once the resize has ended.
    pub position: nat,
    /// The length of the file, once it is known.
    pub file_len: Option<u64>,
    /// What went wrong first, if anything did.
    pub verdict: Option<Outcome>,
    /// Whether the mapping of the header is given up and still to be made
    /// afresh.
    pub header_pending: bool,
    /// Whether the mapping of the data region is given up and still to be
    /// made afresh.
    pub data_pending: bool,
}

/// The number of stages.
pub const STAGES: usize = 7;

/// The stage at a place in the order in which stages are performed. The
/// mappings are given up before the length is set and made afresh
/// afterwards, the header first to go and last to come back. The length is
/// asked for before it is set and looked at again once it is.
pub open spec fn spec_stage_at(position: nat) -> Stage {
    if position == 0 {
        Stage::ReleaseHeader
    } else if position == 1 {
        Stage::QueryLen
    } else if position == 2 {
        Stage::ReleaseData
    } else if position == 3 {
        Stage::SetLen
    } else if position == 4 {
        Stage::VerifyLen
    } else if position == 5 {
        Stage::MapData
    } else {
        Stage::MapHeader
    }
}

impl Request {
    /// Whether the capacity that is mapped already answers the request.
    pub open spec fn satisfied(self) -> bool {
        match self.direction {
            Direction::Grow => self.target <= self.capacity,
            Direction::Shrink => self.target >= self.capacity,
        }
    }

    /// Whether the request takes a stage when nothing fails. A request that
    /// is answered already takes none. Any other asks for the length, sets
    /// it and maps the data afresh. Growing also looks at the length again.
    /// Shrinking, where the platform refuses to cut a mapped file short,
    /// first gives up the mappings that cover the file and makes them afresh
    /// in the end.
    pub open spec fn includes(self, stage: Stage) -> bool {
        !self.satisfied() && match stage {
            Stage::QueryLen | Stage::SetLen | Stage::MapData => true,
            Stage::VerifyLen => self.direction == Direction::Grow,
            Stage::ReleaseData => self.direction == Direction::Shrink && self.release_before_trim,
            Stage::ReleaseHeader | Stage::MapHeader => self.direction == Direction::Shrink
                && self.release_before_trim && self.has_header,
        }
    }

    /// The length that the file gets: the length it has, plus or minus the
    /// bytes of the elements that the capacity changes by. `None` where that
    /// is below zero or beyond 64 bits.
    pub open spec fn new_len(self, file_len: u64) -> Option<u64> {
        let wanted = match self.direction {
            Direction::Grow => file_len + (self.target - self.capacity) * self.elem_size,
            Direction::Shrink => file_len - (self.capacity - self.target) * self.elem_size,
        };
        if 0 <= wanted <= u64::MAX {
            Some(wanted as u64)
        } else {
            None
        }
    }
}

impl ResizeState {
    /// Where a resize starts.
    pub open spec fn start(request: Request) -> Self {
        ResizeState {
            request,
            position: 0,
            file_len: None,
            verdict: None,
            header_pending: false,
            data_pending: false,
        }
    }

    /// Whether every stage is behind.
    pub open spec fn finished(self) -> bool {
        self.position >= STAGES
    }

    /// Whether a stage still has to be performed. While nothing went wrong
    /// every stage of the request has to. After that only a mapping that was
    /// given up is still made afresh.
    pub open spec fn due(self, stage: Stage) -> bool {
        self.request.includes(stage) && match self.verdict {
            None => true,
            Some(_) => (stage == Stage::MapData && self.data_pending) || (stage
                == Stage::MapHeader && self.header_pending),
        }
    }

    /// The same state, moved on to the first stage from `self.position` on
    /// that still has to be performed, or behind the last stage.
    pub open spec fn skip(self) -> Self
        decreases STAGES - self.position,
    {
        if self.position >= STAGES || self.due(spec_stage_at(self.position)) {
            self
        } else {
            (ResizeState { position: self.position + 1, ..self }).skip()
        }
    }

    /// The state with what `event` says of the stage to perform recorded,
    /// and that stage behind. A failure is recorded only where nothing went
    /// wrong before. The stages that ask for a length take a length for an
    /// answer and anything else for a failure. A mapping given up is to be
    /// made afresh until that was tried.
    pub open spec fn record(self, event: Event) -> Self {
        let stage = spec_stage_at(self.position);
        let moved = ResizeState { position: self.position + 1, ..self };
        let verdict = if self.verdict is None {
            Some(Outcome::Failed(stage))
        } else {
            self.verdict
        };
        match stage {
            Stage::QueryLen => match event {
                Event::Len(len) => ResizeState {
                    file_len: Some(len),
                    verdict: if self.verdict is None && self.request.new_len(len) is None {
                        Some(Outcome::Overflow)
                    } else {
                        self.verdict
                    },
                    ..moved
                },
                _ => ResizeState { verdict, ..moved },
            },
            Stage::VerifyLen => match event {
                Event::Len(len) => ResizeState {
                    verdict: if self.verdict is None && (self.file_len is None
                        || self.request.new_len(self.file_len.unwrap()) != Some(len)) {
                        Some(Outcome::LengthMismatch)
                    } else {
                        self.verdict
                    },
                    ..moved
                },
                _ => ResizeState { verdict, ..moved },
            },
            Stage::ReleaseHeader => match event {
                Event::Failed => ResizeState { verdict, ..moved },
                _ => ResizeState { header_pending: true, ..moved },
            },
            Stage::ReleaseData => match event {
                Event::Failed => ResizeState { verdict, ..moved },
                _ => ResizeState { data_pending: true, ..moved },
            },
            Stage::SetLen => match event {
                Event::Failed => ResizeState { verdict, ..moved },
                _ => moved,
            },
            Stage::MapData => match event {
                Event::Failed => ResizeState { verdict, data_pending: false, ..moved },
                _ => ResizeState { data_pending: false, ..moved },
            },
            Stage::MapHeader => match event {
                Event::Failed => ResizeState { verdict, header_pending: false, ..moved },
                _ => ResizeState { header_pending: false, ..moved },
            },
        }
    }

    /// How the resize ended, once it has.
    pub open spec fn outcome(self) -> Outcome {
        match self.verdict {
            Some(outcome) => outcome,
            None => if self.request.satisfied() {
                Outcome::Unchanged
            } else {
                Outcome::Resized
            },
        }
    }

    /// The length to set the file to: the new length for the length that
    /// was reported, or zero where there is none.
    pub open spec fn len_to_set(self) -> u64 {
        match self.file_len {
            Some(len) => match self.request.new_len(len) {
                Some(new_len) => new_len,
                None => 0,
            },
            None => 0,
        }
    }

    /// What the caller has to do in this state: perform the stage it stands
    /// on, or end.
    pub open spec fn action(self) -> Action {
        if self.finished() {
            Action::Finish(self.outcome())
        } else {
            match spec_stage_at(self.position) {
                Stage::ReleaseHeader => Action::ReleaseHeader,
                Stage::QueryLen => Action::QueryLen,
                Stage::ReleaseData => Action::ReleaseData,
                Stage::SetLen => Action::SetLen(self.len_to_set()),
                Stage::VerifyLen => Action::VerifyLen,
                Stage::MapData => Action::MapData,
                Stage::MapHeader => Action::MapHeader,
            }
        }
    }

    /// The state after the events of `events` were reported, one for each
    /// action handed out. Events reported after the end change nothing.
    pub open spec fn run(request: Request, events: Seq<Event>) -> Self
        decreases events.len(),
    {
        if events.len() == 0 {
            Self::start(request).skip()
        } else {
            let before = Self::run(request, events.drop_last());
            if before.finished() {
                before
            } else {
                before.record(events.last()).skip()
            }
        }
    }

    /// What holds of every state that a run reaches: a mapping is to be made
    /// afresh exactly between the stage that gives it up and the stage that
    /// makes it afresh, the length of the file is known behind the stage
    /// that asks for it, and the stage to perform next has to be performed.
    pub open spec fn reachable(self) -> bool {
        &&& self.position <= STAGES
        &&& self.header_pending ==> self.request.includes(Stage::ReleaseHeader) && 1
            <= self.position <= 6
        &&& self.data_pending ==> self.request.includes(Stage::ReleaseData) && 3 <= self.position
            <= 5
        &&& self.verdict is None && self.request.includes(Stage::ReleaseHeader) && 1
            <= self.position <= 6 ==> self.header_pending
        &&& self.verdict is None && self.request.includes(Stage::ReleaseData) && 3
            <= self.position <= 5 ==> self.data_pending
        &&& self.verdict is None && self.position >= 2 && !self.request.satisfied()
            ==> self.file_len is Some && self.request.new_len(self.file_len.unwrap()) is Some
        &&& self.verdict is None && self.request.satisfied() ==> self.position == STAGES
        &&& self.verdict != Some(Outcome::Resized) && self.verdict != Some(Outcome::Unchanged)
        &&& !self.finished() ==> self.due(spec_stage_at(self.position))
    }
}

/// A resize under way: it hands out one action at a time and takes what came
/// of it.
pub struct Resize {
    request: Request,
    position: usize,
    file_len: Option<u64>,
    verdict: Option<Outcome>,
    header_pending: bool,
    data_pending: bool,
}

impl View for Resize {
    type V = ResizeState;

    closed spec fn view(&self) -> ResizeState {
        ResizeState {
            request: self.request,
            position: self.position as nat,
            file_len: self.file_len,
            verdict: self.verdict,
            header_pending: self.header_pending,
            data_pending: self.data_pending,
        }
    }
}

/// Computes [`spec_stage_at`].
pub fn stage_at(position: usize) -> (stage: Stage)
    ensures
        stage == spec_stage_at(position as nat),
{
    if position == 0 {
        Stage::ReleaseHeader
    } else if position == 1 {
        Stage::QueryLen
    } else if position == 2 {
        Stage::ReleaseData
    } else if position == 3 {
        Stage::SetLen
    } else if position == 4 {
        Stage::VerifyLen
    } else if position == 5 {
        Stage::MapData
    } else {
        Stage::MapHeader
    }
}

impl Request {
    /// Computes [`Request::satisfied`].
    pub fn is_satisfied(&self) -> (satisfied: bool)
        ensures
            satisfied == self.satisfied(),
    {
        match self.direction {
            Direction::Grow => self.target <= self.capacity,
            Direction::Shrink => self.target >= self.capacity,
        }
    }

    /// Computes [`Request::includes`].
    pub fn takes(&self, stage: Stage) -> (included: bool)
        ensures
            included == self.includes(stage),
    {
        if self.is_satisfied() {
            return false;
        }
        let shrinks: bool = match self.direction {
            Direction::Grow => false,
            Direction::Shrink => true,
        };
        match stage {
            Stage::QueryLen => true,
            Stage::SetLen => true,
            Stage::MapData => true,
            Stage::VerifyLen => !shrinks,
            Stage::ReleaseData => shrinks && self.release_before_trim,
            Stage::ReleaseHeader => shrinks && self.release_before_trim && self.has_header,
            Stage::MapHeader => shrinks && self.release_before_trim && self.has_header,
        }
    }

    /// Computes [`Request::new_len`].
    pub fn compute_new_len(&self, file_len: u64) -> (new_len: Option<u64>)
        ensures
            new_len == self.new_len(file_len),
    {
        let grows: bool = match self.direction {
            Direction::Grow => self.target >= self.capacity,
            Direction::Shrink => self.target > self.capacity,
        };
        let elements: u64 = if self.target >= self.capacity {
            (self.target - self.capacity) as u64
        } else {
            (self.capacity - self.target) as u64
        };
        assert((self.target - self.capacity) * self.elem_size == if self.target >= self.capacity {
            elements * self.elem_size
        } else {
            -(elements * self.elem_size)
        } && (self.capacity - self.target) * self.elem_size == if self.target >= self.capacity {
            -(elements * self.elem_size)
        } else {
            elements * self.elem_size
        }) by (nonlinear_arith)
            requires
                elements == if self.target >= self.capacity {
                    self.target - self.capacity
                } else {
                    self.capacity - self.target
                },
        ;
        match elements.checked_mul(self.elem_size as u64) {
            Some(bytes) => {
                if grows {
                    file_len.checked_add(bytes)
                } else {
                    file_len.checked_sub(bytes)
                }
            },
            None => None,
        }
    }
}

impl Resize {
    /// The invariant of a resize under way: it stands on a stage that has to
    /// be performed, or behind the last.
    pub closed spec fn wf(&self) -> bool {
        &&& self.position <= STAGES
        &&& self@.skip() == self@
    }

    /// Starts a resize and says what to do first.
    pub fn begin(request: Request) -> (started: (Self, Action))
        ensures
            started.0.wf(),
            started.0@ == ResizeState::start(request).skip(),
            started.0@ == ResizeState::run(request, Seq::empty()),
            started.1 == started.0@.action(),
    {
        let mut resize = Resize {
            request,
            position: 0,
            file_len: None,
            verdict: None,
            header_pending: false,
            data_pending: false,
        };
        resize.skip();
        let action = resize.action();
        (resize, action)
    }

    /// Whether the resize has ended.
    pub fn is_finished(&self) -> (finished: bool)
        requires
            self.wf(),
        ensures
            finished == self@.finished(),
    {
        self.position >= STAGES
    }

    /// Takes what came of the action last handed out and says what to do
    /// next.
    pub fn step(&mut self, event: Event) -> (action: Action)
        requires
            old(self).wf(),
            !old(self)@.finished(),
        ensures
            final(self).wf(),
            final(self)@ == old(self)@.record(event).skip(),
            action == final(self)@.action(),
    {
        let stage: Stage = stage_at(self.position);
        self.position = self.position + 1;
        let failed: bool = match event {
            Event::Failed => true,
            Event::Done => match stage {
                Stage::QueryLen => true,
                Stage::VerifyLen => true,
                _ => false,
            },
            Event::Len(_) => false,
        };
        if failed {
            if self.verdict.is_none() {
                self.verdict = Some(Outcome::Failed(stage));
            }
        }
        match stage {
            Stage::QueryLen => {
                if let Event::Len(len) = event {
                    self.file_len = Some(len);
                    if self.verdict.is_none() && self.request.compute_new_len(len).is_none() {
                        self.verdict = Some(Outcome::Overflow);
                    }
                }
            },
            Stage::VerifyLen => {
                if let Event::Len(len) = event {
                    if self.verdict.is_none() && self.len_to_verify() != Some(len) {
                        self.verdict = Some(Outcome::LengthMismatch);
                    }
                }
            },
            Stage::ReleaseHeader => {
                if !failed {
                    self.header_pending = true;
                }
            },
            Stage::ReleaseData => {
                if !failed {
                    self.data_pending = true;
                }
            },
            Stage::SetLen => {},
            Stage::MapData => {
                self.data_pending = false;
            },
            Stage::MapHeader => {
                self.header_pending = false;
            },
        }
        assert(self@ == old(self)@.record(event));
        self.skip();
        self.action()
    }

    /// The length that the file is to have, where the length it had is
    /// known and the new one can be computed.
    fn len_to_verify(&self) -> (expected: Option<u64>)
        ensures
            expected == match self.file_len {
                Some(len) => self.request.new_len(len),
                None => None,
            },
    {
        match self.file_len {
            Some(len) => self.request.compute_new_len(len),
            None => None,
        }
    }

    /// Moves on to the first stage that has to be performed.
    fn skip(&mut self)
        requires
            old(self).position <= STAGES,
        ensures
            final(self).wf(),
            final(self)@ == old(self)@.skip(),
    {
        while self.position < STAGES && !self.is_due(stage_at(self.position))
            invariant
                self.position <= STAGES,
                self@.skip() == old(self)@.skip(),
            decreases STAGES - self.position,
        {
            self.position = self.position + 1;
        }
        proof {
            lemma_skip(self@);
        }
    }

    /// Computes [`ResizeState::due`].
    fn is_due(&self, stage: Stage) -> (due: bool)
        ensures
            due == self@.due(stage),
    {
        if !self.request.takes(stage) {
            return false;
        }
        match self.verdict {
            None => true,
            Some(_) => {
                match stage {
                    Stage::MapData => self.data_pending,
                    Stage::MapHeader => self.header_pending,
                    _ => false,
                }
            },
        }
    }

    /// Computes [`ResizeState::action`].
    fn action(&self) -> (action: Action)
        ensures
            action == self@.action(),
    {
        if self.position >= STAGES {
            let outcome: Outcome = match self.verdict {
                Some(outcome) => outcome,
                None => {
                    if self.request.is_satisfied() {
                        Outcome::Unchanged
                    } else {
                        Outcome::Resized
                    }
                },
            };
            Action::Finish(outcome)
        } else {
            match stage_at(self.position) {
                Stage::ReleaseHeader => Action::ReleaseHeader,
                Stage::QueryLen => Action::QueryLen,
                Stage::ReleaseData => Action::ReleaseData,
                Stage::SetLen => {
                    match self.len_to_verify() {
                        Some(len) => Action::SetLen(len),
                        None => Action::SetLen(0),
                    }
                },
                Stage::VerifyLen => Action::VerifyLen,
                Stage::MapData => Action::MapData,
                Stage::MapHeader => Action::MapHeader,
            }
        }
    }
}

/// Skipping moves on at most to the end and touches nothing else, stops on a
/// stage that has to be performed, passes over none that has to be, and
/// comes to rest: skipping again changes nothing.
pub proof fn lemma_skip(state: ResizeState)
    requires
        state.position <= STAGES,
    ensures
        state.skip() == (ResizeState { position: state.skip().position, ..state }),
        state.position <= state.skip().position <= STAGES,
        !state.skip().finished() ==> state.skip().due(spec_stage_at(state.skip().position)),
        forall|position: nat|
            state.position <= position < state.skip().position ==> !state.due(
                #[trigger] spec_stage_at(position),
            ),
        state.skip().skip() == state.skip(),
    decreases STAGES - state.position,
{
    if !(state.position >= STAGES || state.due(spec_stage_at(state.position))) {
        lemma_skip(ResizeState { position: state.position + 1, ..state });
    }
}

/// A request that is answered already ends at once, with nothing done.
pub proof fn lemma_satisfied_is_unchanged(request: Request)
    requires
        request.satisfied(),
    ensures
        ResizeState::run(request, Seq::empty()).action() == Action::Finish(Outcome::Unchanged),
{
    lemma_skip(ResizeState::start(request));
    lemma_run_reachable(request, Seq::empty());
}

/// What went wrong first is what is reported: no later event changes it.
pub proof fn lemma_verdict_stands(state: ResizeState, event: Event)
    requires
        state.verdict is Some,
        !state.finished(),
    ensures
        state.record(event).skip().verdict == state.verdict,
{
    lemma_skip(state.record(event));
}

/// Every state of a run is reachable.
pub proof fn lemma_run_reachable(request: Request, events: Seq<Event>)
    ensures
        ResizeState::run(request, events).reachable(),
        ResizeState::run(request, events).request == request,
    decreases events.len(),
{
    if events.len() == 0 {
        let start = ResizeState::start(request);
        lemma_skip(start);
        lemma_skip_reachable(start, start.skip().position);
    } else {
        lemma_run_reachable(request, events.drop_last());
        let before = ResizeState::run(request, events.drop_last());
        if !before.finished() {
            let recorded = before.record(events.last());
            lemma_skip(recorded);
            lemma_skip_reachable(recorded, recorded.skip().position);
        }
    }
}

/// The stages at the places of the order, each named once.
proof fn lemma_stage_places()
    ensures
        spec_stage_at(0) == Stage::ReleaseHeader,
        spec_stage_at(1) == Stage::QueryLen,
        spec_stage_at(2) == Stage::ReleaseData,
        spec_stage_at(3) == Stage::SetLen,
        spec_stage_at(4) == Stage::VerifyLen,
        spec_stage_at(5) == Stage::MapData,
        spec_stage_at(6) == Stage::MapHeader,
{
}

/// Moving a state on over stages that need not be performed, to a stage
/// that has to be or to the end, keeps what holds of reachable states.
proof fn lemma_skip_reachable(state: ResizeState, position: nat)
    requires
        state.position <= position <= STAGES,
        position == state.skip().position,
        state.skip() == (ResizeState { position, ..state }),
        position < STAGES ==> state.due(spec_stage_at(position)),
        forall|between: nat|
            state.position <= between < position ==> !state.due(#[trigger] spec_stage_at(between)),
        (ResizeState { position: state.position, ..state }).settled(),
    ensures
        state.skip().reachable(),
{
    lemma_stage_places();
    assert(state.position <= 0 < position ==> !state.due(spec_stage_at(0)));
    assert(state.position <= 1 < position ==> !state.due(spec_stage_at(1)));
    assert(state.position <= 2 < position ==> !state.due(spec_stage_at(2)));
    assert(state.position <= 3 < position ==> !state.due(spec_stage_at(3)));
    assert(state.position <= 4 < position ==> !state.due(spec_stage_at(4)));
    assert(state.position <= 5 < position ==> !state.due(spec_stage_at(5)));
    assert(state.position <= 6 < position ==> !state.due(spec_stage_at(6)));
}

impl ResizeState {
    /// What holds of a state in which an event was just recorded.
    spec fn settled(self) -> bool {
        &&& self.position <= STAGES
        &&& self.header_pending ==> self.request.includes(Stage::ReleaseHeader) && 1
            <= self.position <= 6
        &&& self.data_pending ==> self.request.includes(Stage::ReleaseData) && 3 <= self.position
            <= 5
        &&& self.verdict != Some(Outcome::Resized) && self.verdict != Some(Outcome::Unchanged)
        &&& self.verdict is None ==> {
            &&& self.request.includes(Stage::ReleaseHeader) && 1 <= self.position <= 6
                ==> self.header_pending
            &&& self.request.includes(Stage::ReleaseData) && 3 <= self.position <= 5
                ==> self.data_pending
            &&& self.position >= 2 && !self.request.satisfied() ==> self.file_len is Some
                && self.request.new_len(self.file_len.unwrap()) is Some
            &&& self.request.satisfied() ==> self.position == 0 || self.position == STAGES
        }
    }
}

/// A resize ends only when no mapping that was given up is still to be made
/// afresh, whatever went wrong on the way. One that ends as resized has set
/// the length that the request asks for.
pub proof fn lemma_ends_whole(request: Request, events: Seq<Event>)
    requires
        ResizeState::run(request, events).finished(),
    ensures
        !ResizeState::run(request, events).header_pending,
        !ResizeState::run(request, events).data_pending,
        ResizeState::run(request, events).outcome() == Outcome::Resized ==> {
            &&& ResizeState::run(request, events).file_len is Some
            &&& request.new_len(ResizeState::run(request, events).file_len.unwrap()) is Some
        },
{
    lemma_run_reachable(request, events);
}

/// Where the platform refuses to cut a mapped file short, the length of a
/// file that shrinks is set only while the mappings that cover the file are
/// given up. The length set is the length reported less the bytes of the
/// elements given back.
pub proof fn lemma_trim_after_release(request: Request, events: Seq<Event>)
    requires
        request.release_before_trim,
        request.direction == Direction::Shrink,
        ResizeState::run(request, events).action() is SetLen,
    ensures
        ResizeState::run(request, events).data_pending,
        request.has_header ==> ResizeState::run(request, events).header_pending,
        ResizeState::run(request, events).file_len is Some,
        request.new_len(ResizeState::run(request, events).file_len.unwrap()) is Some,
        ResizeState::run(request, events).action() == Action::SetLen(
            request.new_len(ResizeState::run(request, events).file_len.unwrap()).unwrap(),
        ),
{
    lemma_run_reachable(request, events);
    lemma_stage_places();
    let state = ResizeState::run(request, events);
    assert(state.position == 3);
}

/// The length of a file is set only once nothing has gone wrong, and to the
/// length that the request asks for.
pub proof fn lemma_set_len_is_new_len(request: Request, events: Seq<Event>)
    requires
        ResizeState::run(request, events).action() is SetLen,
    ensures
        ResizeState::run(request, events).verdict is None,
        ResizeState::run(request, events).file_len is Some,
        ResizeState::run(request, events).action() == Action::SetLen(
            request.new_len(ResizeState::run(request, events).file_len.unwrap()).unwrap(),
        ),
        request.new_len(ResizeState::run(request, events).file_len.unwrap()) is Some,
{
    lemma_run_reachable(request, events);
    lemma_stage_places();
    let state = ResizeState::run(request, events);
    assert(state.position == 3);
}

/// Once something has gone wrong, every later state of the run reports the
/// same.
pub proof fn lemma_first_failure_is_reported(
    request: Request,
    events: Seq<Event>,
    later: Seq<Event>,
)
    requires
        ResizeState::run(request, events).verdict is Some,
    ensures
        ResizeState::run(request, events + later).verdict == ResizeState::run(
            request,
            events,
        ).verdict,
    decreases later.len(),
{
    if later.len() == 0 {
        assert(events + later =~= events);
    } else {
        lemma_first_failure_is_reported(request, events, later.drop_last());
        assert((events + later).drop_last() =~= events + later.drop_last());
        let before = ResizeState::run(request, events + later.drop_last());
        if !before.finished() {
            lemma_verdict_stands(before, later.last());
        }
    }
}

} // verus!
