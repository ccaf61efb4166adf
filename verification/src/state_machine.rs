use std::marker::PhantomData;
use vstd::prelude::*;

use crate::utils::str_map::StrMap;
use crate::utils::text::str_eq;

verus! {

broadcast use vstd::string::group_string_axioms;

/// The answer to a transition request.
#[derive(Debug, Clone, PartialEq, Eq, Structural)]
pub enum TransitionResult {
    Accepted,
    Rejected,
    NotFound,
}

/// A condition that allows a transition.
pub trait TransitionCondition: Send + Sync {
    /// Whether `r` is an answer the condition can give.
    spec fn may_answer(&self, r: bool) -> bool;

    fn holds(&self) -> (r: bool)
        ensures
            self.may_answer(r),
    ;
}

struct ClosureCondition<F: Fn() -> bool> {
    f: F,
    marker: PhantomData<()>,
}

impl<F: Fn() -> bool> ClosureCondition<F> {
    #[verifier::type_invariant]
    closed spec fn callable(self) -> bool {
        call_requires(self.f, ())
    }
}

impl<F: Fn() -> bool + Send + Sync> TransitionCondition for ClosureCondition<F> {
    /// What the closure can return.
    closed spec fn may_answer(&self, r: bool) -> bool {
        call_ensures(self.f, (), r)
    }

    fn holds(&self) -> (r: bool) {
        proof {
            use_type_invariant(self);
        }
        (self.f)()
    }
}

/// The condition of a [`Transition`].
pub struct Condition {
    condition: Box<dyn TransitionCondition>,
}

impl Condition {
    /// Whether `r` is an answer the condition can give.
    pub closed spec fn may_answer(&self, r: bool) -> bool {
        self.condition.may_answer(r)
    }

    /// Asks the condition.
    pub fn holds(&self) -> (r: bool)
        ensures
            self.may_answer(r),
    {
        self.condition.holds()
    }
}

/// Stores `c` as a trait object: std `Box::new`, then the unsizing coercion.
/// A call through the trait object dispatches to `c`'s own `holds`, so the
/// slot can answer exactly what `c` can answer.
#[verifier::external_body]
fn boxed_condition<C: TransitionCondition + 'static>(c: C) -> (r: Condition)
    ensures
        forall|x: bool| #[trigger] r.may_answer(x) == c.may_answer(x),
{
    Condition { condition: Box::new(c) }
}

/// A guarded edge between two states; higher priorities are tried first.
pub struct Transition {
    pub from: String,
    pub to: String,
    pub condition: Condition,
    pub priority: i32,
}

impl Transition {
    /// An edge from `from` to `to`, taken when `cond` holds, of priority 0.
    pub fn new<F: Fn() -> bool + Send + Sync + 'static>(from: &str, to: &str, cond: F) -> (r: Self)
        requires
            call_requires(cond, ()),
        ensures
            r.from@ == from@,
            r.to@ == to@,
            r.priority == 0,
            forall|x: bool| #[trigger] r.condition.may_answer(x) == call_ensures(cond, (), x),
    {
        let closure = ClosureCondition { f: cond, marker: PhantomData };
        assert(forall|x: bool| #[trigger] closure.may_answer(x) == call_ensures(cond, (), x));
        let slot = boxed_condition(closure);
        Transition { from: from.to_string(), to: to.to_string(), condition: slot, priority: 0 }
    }

    /// The same edge with priority `p`.
    pub fn with_priority(self, p: i32) -> (r: Self)
        ensures
            r.from == self.from,
            r.to == self.to,
            r.priority == p,
            r.condition == self.condition,
    {
        let mut t = self;
        t.priority = p;
        t
    }
}


impl View for Transition {
    type V = TransitionView;

    open spec fn view(&self) -> TransitionView {
        TransitionView { from: self.from@, to: self.to@, priority: self.priority }
    }
}

/// What a machine records of a transition.
pub struct TransitionView {
    pub from: Seq<char>,
    pub to: Seq<char>,
    pub priority: i32,
}

/// A state of a [`StateMachine`]; `Dt` is the type of the time step handed
/// to the current state on each update.
pub trait State<Dt> {
    /// The name the state is registered under.
    fn name(&self) -> &str;

    /// Whether this state has been told that the machine entered it from
    /// `prev`.
    open spec fn entered_from(&self, prev: Option<Seq<char>>) -> bool {
        true
    }

    /// Whether this state has been told that the machine left it for `next`.
    open spec fn exited_to(&self, next: Option<Seq<char>>) -> bool {
        true
    }

    /// Whether this state has been handed the time step `dt`.
    open spec fn updated_with(&self, dt: Dt) -> bool {
        true
    }

    /// Called when the machine enters this state, with the state it left.
    fn on_enter(&mut self, prev: Option<&str>)
        ensures
            final(self).entered_from(opt_str_view(prev)),
    ;

    /// Called when the machine leaves this state, with the state it enters.
    fn on_exit(&mut self, next: Option<&str>)
        ensures
            final(self).exited_to(opt_str_view(next)),
    ;

    /// Called on each update while this state is current.
    fn on_update(&mut self, dt: Dt)
        ensures
            final(self).updated_with(dt),
    ;
}

/// The view of an optional state name.
pub open spec fn opt_str_view(o: Option<&str>) -> Option<Seq<char>> {
    match o {
        Some(s) => Some(s@),
        None => None,
    }
}

/// Decides whether the machine may move from one state to another.
trait TransitionGuard {
    /// Whether `r` is a verdict the guard can give on `from` to `to`.
    spec fn may_allow(&self, from: &str, to: &str, r: bool) -> bool;

    fn allows(&self, from: &str, to: &str) -> (r: bool)
        ensures
            self.may_allow(from, to, r),
    ;
}

struct ClosureGuard<F: Fn(&str, &str) -> bool> {
    f: F,
}

impl<F: Fn(&str, &str) -> bool> ClosureGuard<F> {
    #[verifier::type_invariant]
    closed spec fn callable(self) -> bool {
        forall|a: &str, b: &str| call_requires(self.f, (a, b))
    }
}

impl<F: Fn(&str, &str) -> bool> TransitionGuard for ClosureGuard<F> {
    /// What the closure can return for `from` and `to`.
    closed spec fn may_allow(&self, from: &str, to: &str, r: bool) -> bool {
        call_ensures(self.f, (from, to), r)
    }

    fn allows(&self, from: &str, to: &str) -> (r: bool) {
        proof {
            use_type_invariant(self);
        }
        (self.f)(from, to)
    }
}

/// The global guard of a machine.
struct GuardSlot {
    guard: Box<dyn TransitionGuard>,
}

/// Stores `g` as a trait object: std `Box::new`, then the unsizing coercion.
/// A call through the trait object dispatches to `g`'s own `allows`, so the
/// slot can give exactly the verdicts `g` can give.
#[verifier::external_body]
fn boxed_guard<G: TransitionGuard + 'static>(g: G) -> (r: GuardSlot)
    ensures
        forall|a: &str, b: &str, x: bool| #[trigger] r.guard.may_allow(a, b, x) == g.may_allow(a, b, x),
{
    GuardSlot { guard: Box::new(g) }
}

/// Told of each accepted transition.
trait ChangeListener {
    /// Whether the listener has been told of a move from `from` to `to`.
    spec fn heard(&self, from: Seq<char>, to: Seq<char>) -> bool;

    fn notify(&self, from: &str, to: &str)
        ensures
            self.heard(from@, to@),
    ;
}

struct ClosureListener<F: Fn(&str, &str)> {
    f: F,
}

impl<F: Fn(&str, &str)> ClosureListener<F> {
    #[verifier::type_invariant]
    closed spec fn callable(self) -> bool {
        forall|a: &str, b: &str| call_requires(self.f, (a, b))
    }
}

impl<F: Fn(&str, &str)> ChangeListener for ClosureListener<F> {
    /// Whether the closure has been called with `from` and `to`.
    closed spec fn heard(&self, from: Seq<char>, to: Seq<char>) -> bool {
        exists|a: &str, b: &str| a@ == from && b@ == to && #[trigger] call_ensures(self.f, (a, b), ())
    }

    fn notify(&self, from: &str, to: &str) {
        proof {
            use_type_invariant(self);
        }
        (self.f)(from, to);
    }
}

struct ListenerSlot {
    listener: Box<dyn ChangeListener>,
}

/// Stores `l` as a trait object: std `Box::new`, then the unsizing coercion.
/// A call through the trait object dispatches to `l`'s own `notify`.
#[verifier::external_body]
fn boxed_listener<L: ChangeListener + 'static>(l: L) -> (r: ListenerSlot)
    ensures
        forall|a: Seq<char>, b: Seq<char>| #[trigger] r.listener.heard(a, b) == l.heard(a, b),
{
    ListenerSlot { listener: Box::new(l) }
}

/// The name of the source of transitions that leave any state.
pub open spec fn any_state() -> Seq<char> {
    seq!['_', '_', 'a', 'n', 'y', '_', '_']
}

/// Whether transition `t` can leave state `cur`.
pub open spec fn applies(t: TransitionView, cur: Seq<char>) -> bool {
    t.from == cur || t.from == any_state()
}

/// Ordered by priority, highest first.
pub open spec fn priority_sorted(s: Seq<TransitionView>) -> bool {
    forall|i: int, j: int| 0 <= i < j < s.len() ==> s[i].priority >= s[j].priority
}

/// `t` placed after every transition of at least its priority and before
/// the others, which keeps a sorted list sorted and transitions of equal
/// priority in the order they were added.
pub open spec fn inserted_by_priority(old_s: Seq<TransitionView>, new_s: Seq<TransitionView>, t: TransitionView) -> bool {
    exists|q: int|
        0 <= q <= old_s.len() && new_s == old_s.insert(q, t) && (forall|j: int|
            0 <= j < q ==> #[trigger] old_s[j].priority >= t.priority) && (forall|j: int|
            q <= j < old_s.len() ==> #[trigger] old_s[j].priority < t.priority)
}

/// The abstract state of a [`StateMachine`].
pub struct StateMachineView {
    /// The registered state names.
    pub states: Set<Seq<char>>,
    /// The transitions, highest priority first.
    pub transitions: Seq<TransitionView>,
    pub current: Option<Seq<char>>,
    pub previous: Option<Seq<char>>,
    /// Every state entered, in order.
    pub history: Seq<Seq<char>>,
    /// Whether a global guard is installed.
    pub guarded: bool,
    /// How many change listeners are installed.
    pub listeners: nat,
    pub transition_count: u64,
}

/// The answer to a request to move to `target`, and the machine after it,
/// where `allowed` is the global guard's verdict (`true` without a guard).
pub open spec fn spec_transition(v: StateMachineView, target: Seq<char>, allowed: bool) -> (TransitionResult, StateMachineView) {
    if !v.states.contains(target) {
        (TransitionResult::NotFound, v)
    } else if v.current is None || v.current == Some(target) || !allowed {
        (TransitionResult::Rejected, v)
    } else {
        (
            TransitionResult::Accepted,
            StateMachineView {
                previous: v.current,
                current: Some(target),
                history: v.history.push(target),
                transition_count: (v.transition_count + 1) as u64,
                ..v
            },
        )
    }
}

/// Whether the machine may go from `v` to `w` by a transition request: one
/// that changes nothing, or an accepted move allowed by the guard.
/// Whether a request to move to `target` reaches the global guard: the
/// target is registered and differs from the current state.
pub open spec fn asks_guard(v: StateMachineView, target: Seq<char>) -> bool {
    v.states.contains(target) && v.current is Some && v.current != Some(target)
}

/// The answer to `go_back` and the machine after it: the last two history
/// entries are dropped and the machine asked to move to the earlier one.
pub open spec fn spec_go_back(v: StateMachineView, allowed: bool) -> (bool, StateMachineView) {
    let n = v.history.len();
    if n < 2 {
        (false, v)
    } else {
        let v2 = StateMachineView { history: v.history.take(n - 2), ..v };
        let (res, v3) = spec_transition(v2, v.history[n - 2], allowed);
        (res == TransitionResult::Accepted, v3)
    }
}

spec fn opt_view(o: Option<String>) -> Option<Seq<char>> {
    match o {
        Some(s) => Some(s@),
        None => None,
    }
}

/// A finite state machine over named states, with prioritised automatic
/// transitions, a global guard, change listeners and a history.
#[verifier::reject_recursive_types(S)]
#[verifier::reject_recursive_types(Dt)]
pub struct StateMachine<S, Dt> {
    states: StrMap<S>,
    transitions: Vec<Transition>,
    current: Option<String>,
    previous: Option<String>,
    history: Vec<String>,
    global_guard: Option<GuardSlot>,
    on_change: Vec<ListenerSlot>,
    transition_count: u64,
    marker: PhantomData<Dt>,
}

impl<S, Dt> View for StateMachine<S, Dt> {
    type V = StateMachineView;

    closed spec fn view(&self) -> StateMachineView {
        StateMachineView {
            states: self.states@.dom(),
            transitions: self.transitions@.map_values(|t: Transition| t@),
            current: opt_view(self.current),
            previous: opt_view(self.previous),
            history: self.history@.map_values(|s: String| s@),
            guarded: self.global_guard is Some,
            listeners: self.on_change@.len(),
            transition_count: self.transition_count,
        }
    }
}

impl<S: State<Dt>, Dt> StateMachine<S, Dt> {
    /// Well-formedness: state names are unique, transitions sorted, the
    /// current state registered.
    pub closed spec fn wf(&self) -> bool {
        &&& self.states.wf()
        &&& priority_sorted(self@.transitions)
        &&& (self@.current matches Some(c) ==> self@.states.contains(c))
    }

    /// Whether `allowed` is a verdict the global guard can give when asked
    /// about `from` and `to`; without a guard every move is allowed.
    pub closed spec fn guard_may_allow(&self, from: &str, to: &str, allowed: bool) -> bool {
        match self.global_guard {
            Some(g) => g.guard.may_allow(from, to, allowed),
            None => allowed,
        }
    }

    /// Whether `allowed` is a verdict the global guard can give on a move
    /// from `from` to `to`.
    pub open spec fn guard_answers(&self, from: Seq<char>, to: Seq<char>, allowed: bool) -> bool {
        exists|a: &str, b: &str| a@ == from && b@ == to && #[trigger] self.guard_may_allow(a, b, allowed)
    }

    /// Whether `allowed` is what the global guard can answer to a request to
    /// move to `target` (any verdict when the request does not reach it).
    pub open spec fn guard_consistent(&self, target: Seq<char>, allowed: bool) -> bool {
        asks_guard(self@, target) ==> self.guard_answers(self@.current->0, target, allowed)
    }

    /// Whether a request to move to `target` can lead to `w`, with a verdict
    /// the global guard can give.
    pub open spec fn moves_by_request(&self, target: Seq<char>, w: StateMachineView) -> bool {
        exists|allowed: bool| self.guard_consistent(target, allowed) && #[trigger] spec_transition(self@, target, allowed).1 == w
    }

    /// Whether the condition of transition `i` can answer `r`.
    pub closed spec fn condition_may_answer(&self, i: int, r: bool) -> bool {
        self.transitions@[i].condition.may_answer(r)
    }

    /// Whether one automatic step can lead from this machine to `w`.
    /// Without a current state nothing changes. Otherwise the transitions
    /// that can leave the current state are asked in priority order: when
    /// every one of them can have answered no, nothing changes; else the
    /// first to answer yes is followed (every earlier one having answered
    /// no), unless it leads back to the current state, as a transition
    /// request that the global guard may reject.
    pub open spec fn auto_outcome(&self, w: StateMachineView) -> bool {
        let v = self@;
        match v.current {
            None => w == v,
            Some(cur) => {
                ||| w == v && forall|j: int|
                    0 <= j < v.transitions.len() && applies(v.transitions[j], cur)
                        ==> #[trigger] self.condition_may_answer(j, false)
                ||| exists|i: int|
                    0 <= i < v.transitions.len() && applies(v.transitions[i], cur)
                        && #[trigger] self.condition_may_answer(i, true) && (forall|j: int|
                        0 <= j < i && applies(v.transitions[j], cur) ==> #[trigger] self.condition_may_answer(
                            j,
                            false,
                        )) && if v.transitions[i].to == cur {
                        w == v
                    } else {
                        self.moves_by_request(v.transitions[i].to, w)
                    }
            },
        }
    }

    /// Whether the `k`-th change listener has been told of a move from
    /// `from` to `to`.
    pub closed spec fn listener_heard(&self, k: int, from: Seq<char>, to: Seq<char>) -> bool {
        self.on_change@[k].listener.heard(from, to)
    }

    /// Whether the state registered as `name` has been told that the
    /// machine entered it from `prev`.
    pub closed spec fn state_entered(&self, name: Seq<char>, prev: Option<Seq<char>>) -> bool {
        self.states@[name].entered_from(prev)
    }

    /// Whether the state registered as `name` has been told that the
    /// machine left it for `next`.
    pub closed spec fn state_exited(&self, name: Seq<char>, next: Option<Seq<char>>) -> bool {
        self.states@[name].exited_to(next)
    }

    /// Whether the state registered as `name` has been handed `dt`.
    pub closed spec fn state_updated(&self, name: Seq<char>, dt: Dt) -> bool {
        self.states@[name].updated_with(dt)
    }

    /// Whether both machines hold the same state objects.
    pub closed spec fn same_state_objects(&self, other: &Self) -> bool {
        self.states@ == other.states@
    }

    /// Machines with the same guard give the same verdicts.
    proof fn lemma_same_guard(a: &Self, b: &Self)
        requires
            a.global_guard == b.global_guard,
        ensures
            forall|x: &str, y: &str, z: bool| #[trigger] a.guard_may_allow(x, y, z) == b.guard_may_allow(x, y, z),
    {
    }

    /// Two machines with the same view and the same transitions step alike.
    proof fn lemma_same_outcome(a: Self, b: Self, w: StateMachineView)
        requires
            a@ == b@,
            a.transitions@ == b.transitions@,
            a.global_guard == b.global_guard,
            a.auto_outcome(w),
        ensures
            b.auto_outcome(w),
    {
        let v = a@;
        Self::lemma_same_guard(&a, &b);
        assert forall|t: Seq<char>, x: StateMachineView| a.moves_by_request(t, x) implies b.moves_by_request(t, x) by {
            let al = choose|al: bool| a.guard_consistent(t, al) && #[trigger] spec_transition(a@, t, al).1 == x;
            assert(b.guard_consistent(t, al));
            assert(spec_transition(b@, t, al).1 == x);
        }
        assert forall|j: int, r: bool| a.condition_may_answer(j, r) == b.condition_may_answer(j, r) by {}
        match v.current {
            None => {},
            Some(cur) => {
                if w == v && forall|j: int|
                    0 <= j < v.transitions.len() && applies(v.transitions[j], cur)
                        ==> #[trigger] a.condition_may_answer(j, false) {
                    assert forall|j: int|
                        0 <= j < v.transitions.len() && applies(v.transitions[j], cur)
                            implies #[trigger] b.condition_may_answer(j, false) by {
                        assert(a.condition_may_answer(j, false));
                    }
                } else {
                    let i = choose|i: int|
                        0 <= i < v.transitions.len() && applies(v.transitions[i], cur)
                            && #[trigger] a.condition_may_answer(i, true) && (forall|j: int|
                            0 <= j < i && applies(v.transitions[j], cur) ==> #[trigger] a.condition_may_answer(
                                j,
                                false,
                            )) && if v.transitions[i].to == cur {
                            w == v
                        } else {
                            a.moves_by_request(v.transitions[i].to, w)
                        };
                    assert(b.condition_may_answer(i, true));
                    assert forall|j: int| 0 <= j < i && applies(v.transitions[j], cur) implies #[trigger] b.condition_may_answer(
                        j,
                        false,
                    ) by {
                        assert(a.condition_may_answer(j, false));
                    }
                }
            },
        }
    }

    /// A well-formed machine keeps its transitions highest priority first.
    pub proof fn lemma_wf_sorted(&self)
        requires
            self.wf(),
        ensures
            priority_sorted(self@.transitions),
    {
    }

    pub fn new() -> (r: Self)
        ensures
            r.wf(),
            r@ == (StateMachineView {
                states: Set::empty(),
                transitions: Seq::empty(),
                current: None,
                previous: None,
                history: Seq::empty(),
                guarded: false,
                listeners: 0,
                transition_count: 0,
            }),
    {
        let r = StateMachine {
            states: StrMap::new(),
            transitions: Vec::new(),
            current: None,
            previous: None,
            history: Vec::new(),
            global_guard: None,
            on_change: Vec::new(),
            transition_count: 0,
            marker: PhantomData,
        };
        assert(r@.transitions =~= Seq::<TransitionView>::empty());
        assert(r@.history =~= Seq::<Seq<char>>::empty());
        r
    }

    /// Registers `state` under its name, replacing a state of that name.
    pub fn add_state(&mut self, state: S)
        requires
            old(self).wf(),
        ensures
            forall|k: int, a: Seq<char>, b: Seq<char>| #[trigger] final(self).listener_heard(k, a, b) == old(self).listener_heard(k, a, b),
            forall|j: int, x: bool| #[trigger] final(self).condition_may_answer(j, x) == old(self).condition_may_answer(j, x),
            forall|a: &str, b: &str, x: bool| #[trigger] final(self).guard_may_allow(a, b, x) == old(self).guard_may_allow(a, b, x),
            final(self).wf(),
            exists|k: Seq<char>| final(self)@ == (StateMachineView { states: #[trigger] old(self)@.states.insert(k), ..old(self)@ }),
    {
        let name = state.name().to_string();
        let ghost old_m = self.states@;
        self.states.insert(name.as_str(), state);
        assert(self.states@.dom() =~= old_m.dom().insert(name@));
        assert(self@ == (StateMachineView { states: old(self)@.states.insert(name@), ..old(self)@ }));
    }

    /// Adds `t` after every transition of at least its priority.
    pub fn add_transition(&mut self, t: Transition)
        requires
            old(self).wf(),
        ensures
            forall|k: int, a: Seq<char>, b: Seq<char>| #[trigger] final(self).listener_heard(k, a, b) == old(self).listener_heard(k, a, b),
            forall|a: &str, b: &str, x: bool| #[trigger] final(self).guard_may_allow(a, b, x) == old(self).guard_may_allow(a, b, x),
            final(self).wf(),
            inserted_by_priority(old(self)@.transitions, final(self)@.transitions, t@),
            final(self)@ == (StateMachineView { transitions: final(self)@.transitions, ..old(self)@ }),
            exists|q: int|
                #![trigger old(self)@.transitions.insert(q, t@)]
                0 <= q <= old(self)@.transitions.len() && final(self)@.transitions == old(self)@.transitions.insert(q, t@)
                    && (forall|x: bool|
                    #[trigger] final(self).condition_may_answer(q, x) == t.condition.may_answer(x)) && (forall|j: int, x: bool|
                    0 <= j < q ==> #[trigger] final(self).condition_may_answer(j, x) == old(self).condition_may_answer(j, x))
                    && (forall|j: int, x: bool|
                    q < j <= old(self)@.transitions.len() ==> #[trigger] final(self).condition_may_answer(j, x)
                        == old(self).condition_may_answer(j - 1, x)),
    {
        let ghost s = self@.transitions;
        let mut q: usize = 0;
        while q < self.transitions.len() && self.transitions[q].priority >= t.priority
            invariant
                q <= self.transitions@.len(),
                s == self.transitions@.map_values(|x: Transition| x@),
                forall|j: int| 0 <= j < q ==> #[trigger] s[j].priority >= t.priority,
            decreases self.transitions@.len() - q,
        {
            assert(s[q as int] == self.transitions@[q as int]@);
            q = q + 1;
        }
        proof {
            if q < s.len() {
                assert(s[q as int] == self.transitions@[q as int]@);
            }
            assert forall|j: int| q <= j < s.len() implies #[trigger] s[j].priority < t.priority by {
                if j > q {
                    assert(s[q as int].priority >= s[j].priority);
                }
            }
        }
        let ghost tv = t@;
        let ghost before = self.transitions@;
        self.transitions.insert(q, t);
        proof {
            let s2 = self@.transitions;
            assert(s2 =~= s.insert(q as int, tv));
            assert(self.transitions@ == before.insert(q as int, self.transitions@[q as int]));
            assert forall|j: int, x: bool| q < j <= s.len() implies #[trigger] self.condition_may_answer(j, x)
                == old(self).condition_may_answer(j - 1, x) by {
                assert(self.transitions@[j] == before[j - 1]);
            }
            assert forall|j: int, x: bool| 0 <= j < q implies #[trigger] self.condition_may_answer(j, x)
                == old(self).condition_may_answer(j, x) by {
                assert(self.transitions@[j] == before[j]);
            }
            assert forall|a: int, b: int| 0 <= a < b < s2.len() implies s2[a].priority >= s2[b].priority by {
                if a < q && b > q {
                    assert(s[a].priority >= s[b - 1].priority);
                }
            }
            assert(inserted_by_priority(s, s2, tv));
        }
    }

    /// Adds a transition into `to` that can leave any state.
    pub fn add_any_transition<F: Fn() -> bool + Send + Sync + 'static>(&mut self, to: &str, cond: F, priority: i32)
        requires
            old(self).wf(),
            call_requires(cond, ()),
        ensures
            forall|k: int, a: Seq<char>, b: Seq<char>| #[trigger] final(self).listener_heard(k, a, b) == old(self).listener_heard(k, a, b),
            forall|a: &str, b: &str, x: bool| #[trigger] final(self).guard_may_allow(a, b, x) == old(self).guard_may_allow(a, b, x),
            final(self).wf(),
            inserted_by_priority(
                old(self)@.transitions,
                final(self)@.transitions,
                TransitionView { from: any_state(), to: to@, priority },
            ),
            final(self)@ == (StateMachineView { transitions: final(self)@.transitions, ..old(self)@ }),
            exists|q: int|
                #![trigger old(self)@.transitions.insert(q, TransitionView { from: any_state(), to: to@, priority })]
                0 <= q <= old(self)@.transitions.len() && final(self)@.transitions == old(self)@.transitions.insert(
                    q,
                    TransitionView { from: any_state(), to: to@, priority },
                ) && (forall|x: bool| #[trigger] final(self).condition_may_answer(q, x) == call_ensures(cond, (), x))
                    && (forall|j: int, x: bool|
                    0 <= j < q ==> #[trigger] final(self).condition_may_answer(j, x) == old(self).condition_may_answer(j, x))
                    && (forall|j: int, x: bool|
                    q < j <= old(self)@.transitions.len() ==> #[trigger] final(self).condition_may_answer(j, x)
                        == old(self).condition_may_answer(j - 1, x)),
    {
        proof {
            reveal_strlit("__any__");
            assert("__any__"@ =~= any_state());
        }
        let t = Transition::new("__any__", to, cond).with_priority(priority);
        assert(t@ == TransitionView { from: any_state(), to: to@, priority });
        self.add_transition(t);
    }

    /// Installs the guard every requested transition must pass.
    pub fn set_global_guard<F: Fn(&str, &str) -> bool + Send + Sync + 'static>(&mut self, guard: F)
        requires
            old(self).wf(),
            forall|a: &str, b: &str| call_requires(guard, (a, b)),
        ensures
            forall|k: int, a: Seq<char>, b: Seq<char>| #[trigger] final(self).listener_heard(k, a, b) == old(self).listener_heard(k, a, b),
            forall|j: int, x: bool| #[trigger] final(self).condition_may_answer(j, x) == old(self).condition_may_answer(j, x),
            final(self).wf(),
            final(self)@ == (StateMachineView { guarded: true, ..old(self)@ }),
            forall|a: &str, b: &str, x: bool| #[trigger]
                final(self).guard_may_allow(a, b, x) == call_ensures(guard, (a, b), x),
    {
        let closure = ClosureGuard { f: guard };
        assert(forall|a: &str, b: &str, x: bool| #[trigger] closure.may_allow(a, b, x) == call_ensures(guard, (a, b), x));
        let slot = boxed_guard(closure);
        self.global_guard = Some(slot);
    }

    /// Adds a listener told of every accepted transition.
    pub fn on_state_change<F: Fn(&str, &str) + Send + Sync + 'static>(&mut self, cb: F)
        requires
            old(self).wf(),
            forall|a: &str, b: &str| call_requires(cb, (a, b)),
        ensures
            forall|k: int, a: Seq<char>, b: Seq<char>| 0 <= k < old(self)@.listeners ==> #[trigger] final(self).listener_heard(k, a, b) == old(self).listener_heard(k, a, b),
            forall|a: Seq<char>, b: Seq<char>| #[trigger] final(self).listener_heard(old(self)@.listeners as int, a, b) == exists|x: &str, y: &str| x@ == a && y@ == b && #[trigger] call_ensures(cb, (x, y), ()),
            forall|j: int, x: bool| #[trigger] final(self).condition_may_answer(j, x) == old(self).condition_may_answer(j, x),
            forall|a: &str, b: &str, x: bool| #[trigger] final(self).guard_may_allow(a, b, x) == old(self).guard_may_allow(a, b, x),
            final(self).wf(),
            final(self)@ == (StateMachineView { listeners: old(self)@.listeners + 1, ..old(self)@ }),
    {
        let cl = ClosureListener { f: cb };
        proof {
            assert(cl.f == cb);
            assert forall|a: Seq<char>, b: Seq<char>| #[trigger] cl.heard(a, b) == exists|x: &str, y: &str|
                x@ == a && y@ == b && #[trigger] call_ensures(cb, (x, y), ()) by {
                assert(cl.heard(a, b) == exists|x: &str, y: &str| x@ == a && y@ == b && #[trigger] call_ensures(cl.f, (x, y), ()));
            }
        }
        let ghost old_l = self.on_change@;
        self.on_change.push(boxed_listener(cl));
        proof {
            assert forall|k: int, a: Seq<char>, b: Seq<char>| 0 <= k < old_l.len() implies #[trigger] self.listener_heard(k, a, b)
                == old(self).listener_heard(k, a, b) by {
                assert(self.on_change@[k] == old_l[k]);
            }
        }
    }

    /// Enters `initial` (from whatever state was current); `false` when no
    /// such state is registered.
    pub fn start(&mut self, initial: &str) -> (r: bool)
        requires
            old(self).wf(),
        ensures
            forall|k: int, a: Seq<char>, b: Seq<char>| #[trigger] final(self).listener_heard(k, a, b) == old(self).listener_heard(k, a, b),
            forall|j: int, x: bool| #[trigger] final(self).condition_may_answer(j, x) == old(self).condition_may_answer(j, x),
            forall|a: &str, b: &str, x: bool| #[trigger] final(self).guard_may_allow(a, b, x) == old(self).guard_may_allow(a, b, x),
            final(self).wf(),
            r == old(self)@.states.contains(initial@),
            r ==> final(self)@ == (StateMachineView {
                current: Some(initial@),
                history: old(self)@.history.push(initial@),
                ..old(self)@
            }),
            !r ==> final(self)@ == old(self)@,
            r ==> final(self).state_entered(initial@, old(self)@.current),
            !r ==> final(self).same_state_objects(old(self)),
    {
        if !self.states.contains_key(initial) {
            return false;
        }
        let prev = self.current.take();
        self.current = Some(initial.to_string());
        match self.states.get_mut(initial) {
            Some(st) => match &prev {
                Some(p) => st.on_enter(Some(p.as_str())),
                None => st.on_enter(None),
            },
            None => {},
        }
        let ghost old_h = self.history@;
        self.history.push(initial.to_string());
        assert(self@.history =~= old(self)@.history.push(initial@)) by {
            assert(self.history@ =~= old_h.push(self.history@[old_h.len() as int]));
        }
        assert(self@.states =~= old(self)@.states);
        true
    }

    /// Moves to `target` when it is registered, differs from the current
    /// state and the global guard allows it: the old state is told it is
    /// left, the listeners are told, the new one is told it is entered.
    pub fn transition_to(&mut self, target: &str) -> (r: TransitionResult)
        requires
            old(self).wf(),
            old(self)@.transition_count < u64::MAX,
        ensures
            forall|k: int, a: Seq<char>, b: Seq<char>| #[trigger] final(self).listener_heard(k, a, b) == old(self).listener_heard(k, a, b),
            forall|j: int, x: bool| #[trigger] final(self).condition_may_answer(j, x) == old(self).condition_may_answer(j, x),
            forall|a: &str, b: &str, x: bool| #[trigger] final(self).guard_may_allow(a, b, x) == old(self).guard_may_allow(a, b, x),
            final(self).wf(),
            exists|allowed: bool|
                old(self).guard_consistent(target@, allowed) && #[trigger] spec_transition(old(self)@, target@, allowed)
                    == (r, final(self)@),
            r == TransitionResult::Accepted ==> forall|k: int|
                0 <= k < old(self)@.listeners ==> #[trigger] final(self).listener_heard(
                    k,
                    old(self)@.current->0,
                    target@,
                ),
            r == TransitionResult::Accepted ==> final(self).state_exited(old(self)@.current->0, Some(target@)),
            r == TransitionResult::Accepted ==> final(self).state_entered(target@, old(self)@.current),
            r != TransitionResult::Accepted ==> final(self).same_state_objects(old(self)),
    {
        if !self.states.contains_key(target) {
            assert(spec_transition(old(self)@, target@, true) == (TransitionResult::NotFound, self@));
            return TransitionResult::NotFound;
        }
        let cur: String = match &self.current {
            Some(c) => c.clone(),
            None => {
                assert(spec_transition(old(self)@, target@, true) == (TransitionResult::Rejected, self@));
                return TransitionResult::Rejected;
            },
        };
        if str_eq(cur.as_str(), target) {
            assert(spec_transition(old(self)@, target@, true) == (TransitionResult::Rejected, self@));
            return TransitionResult::Rejected;
        }
        let allowed = match &self.global_guard {
            Some(g) => {
                let cs = cur.as_str();
                let a = g.guard.allows(cs, target);
                assert(old(self).guard_may_allow(cs, target, a));
                a
            },
            None => {
                let cs = cur.as_str();
                assert(old(self).guard_may_allow(cs, target, true));
                true
            },
        };
        assert(old(self).guard_consistent(target@, allowed));
        if !allowed {
            assert(spec_transition(old(self)@, target@, allowed) == (TransitionResult::Rejected, self@));
            return TransitionResult::Rejected;
        }
        let ghost v0 = self@;
        match self.states.get_mut(cur.as_str()) {
            Some(st) => st.on_exit(Some(target)),
            None => {},
        }
        let ghost left = self.states@;
        assert(left[cur@].exited_to(Some(target@)));
        let mut k: usize = 0;
        while k < self.on_change.len()
            invariant
                k <= self.on_change@.len(),
                forall|j: int| 0 <= j < k ==> #[trigger] self.on_change@[j].listener.heard(cur@, target@),
            decreases self.on_change@.len() - k,
        {
            self.on_change[k].listener.notify(cur.as_str(), target);
            k = k + 1;
        }
        let ghost told = self.on_change@;
        self.previous = Some(cur);
        self.current = Some(target.to_string());
        let ghost old_h = self.history@;
        self.history.push(target.to_string());
        self.transition_count = self.transition_count + 1;
        match self.states.get_mut(target) {
            Some(st) => match &self.previous {
                Some(p) => st.on_enter(Some(p.as_str())),
                None => st.on_enter(None),
            },
            None => {},
        }
        proof {
            assert(self.history@ =~= old_h.push(self.history@[old_h.len() as int]));
            assert(self@.history =~= v0.history.push(target@));
            assert(self@.states =~= v0.states);
            assert(cur@ != target@);
            assert(self.states@[cur@] == left[cur@]);
            assert(spec_transition(old(self)@, target@, allowed) == (TransitionResult::Accepted, self@));
        }
        TransitionResult::Accepted
    }

    /// Takes the first transition, highest priority first, that can leave
    /// the current state and whose condition holds, unless it leads back to
    /// the current state.
    fn check_auto_transitions(&mut self)
        requires
            old(self).wf(),
            old(self)@.transition_count < u64::MAX,
        ensures
            final(self).wf(),
            forall|k: int, a: Seq<char>, b: Seq<char>| #[trigger] final(self).listener_heard(k, a, b) == old(self).listener_heard(k, a, b),
            forall|j: int, x: bool| #[trigger] final(self).condition_may_answer(j, x) == old(self).condition_may_answer(j, x),
            forall|a: &str, b: &str, x: bool| #[trigger] final(self).guard_may_allow(a, b, x) == old(self).guard_may_allow(a, b, x),
            old(self).auto_outcome(final(self)@),
            final(self)@.current == old(self)@.current ==> final(self).same_state_objects(old(self)),
            final(self)@.current != old(self)@.current ==> final(self).state_exited(old(self)@.current->0, final(self)@.current),
            final(self)@.current != old(self)@.current ==> final(self).state_entered(final(self)@.current->0, old(self)@.current),
    {
        let cur: String = match &self.current {
            Some(c) => c.clone(),
            None => return ,
        };
        proof {
            reveal_strlit("__any__");
            assert("__any__"@ =~= any_state());
        }
        let ghost v = self@;
        let mut i: usize = 0;
        while i < self.transitions.len()
            invariant
                self.wf(),
                self@ == old(self)@,
                self.states@ == old(self).states@,
                self.transitions@ == old(self).transitions@,
                self.global_guard == old(self).global_guard,
                self.on_change@ == old(self).on_change@,
                v == old(self)@,
                i <= self.transitions@.len(),
                old(self)@.current == Some(cur@),
                old(self)@.transition_count < u64::MAX,
                "__any__"@ == any_state(),
                forall|j: int|
                    0 <= j < i && applies(v.transitions[j], cur@) ==> #[trigger] old(self).condition_may_answer(
                        j,
                        false,
                    ),
            decreases self.transitions@.len() - i,
        {
            let ghost tv = self@.transitions[i as int];
            assert(tv == self.transitions@[i as int]@);
            let from_here = str_eq(self.transitions[i].from.as_str(), cur.as_str()) || str_eq(
                self.transitions[i].from.as_str(),
                "__any__",
            );
            assert(from_here == applies(tv, cur@));
            let answer = if from_here {
                self.transitions[i].condition.holds()
            } else {
                false
            };
            proof {
                if from_here {
                    assert(old(self).condition_may_answer(i as int, answer));
                }
            }
            if answer {
                let to = self.transitions[i].to.clone();
                if !str_eq(to.as_str(), cur.as_str()) {
                    let ghost vb = self@;
                    let ghost mb = *self;
                    let res = self.transition_to(to.as_str());
                    proof {
                        let a = choose|a: bool| mb.guard_consistent(to@, a) && #[trigger] spec_transition(vb, to@, a) == (res, self@);
                        Self::lemma_same_guard(&mb, old(self));
                        assert forall|q: int, a: Seq<char>, b: Seq<char>| #[trigger] self.listener_heard(q, a, b)
                            == old(self).listener_heard(q, a, b) by {
                            assert(mb.listener_heard(q, a, b) == old(self).listener_heard(q, a, b));
                        }
                        assert(old(self).guard_consistent(tv.to, a));
                        assert(spec_transition(old(self)@, tv.to, a).1 == self@);
                        assert(old(self).moves_by_request(tv.to, self@));
                        assert(old(self)@.transitions[i as int] == tv);
                    }
                } else {
                    proof {
                        Self::lemma_same_guard(&*self, old(self));
                    }
                }
                assert(old(self).auto_outcome(self@));
                return ;
            }
            i = i + 1;
        }
        proof {
            Self::lemma_same_guard(&*self, old(self));
        }
        assert(old(self).auto_outcome(self@));
    }

    /// Hands `dt` to the current state, then takes an automatic transition
    /// if one applies.
    pub fn update(&mut self, dt: Dt)
        requires
            old(self).wf(),
            old(self)@.transition_count < u64::MAX,
        ensures
            forall|k: int, a: Seq<char>, b: Seq<char>| #[trigger] final(self).listener_heard(k, a, b) == old(self).listener_heard(k, a, b),
            forall|j: int, x: bool| #[trigger] final(self).condition_may_answer(j, x) == old(self).condition_may_answer(j, x),
            forall|a: &str, b: &str, x: bool| #[trigger] final(self).guard_may_allow(a, b, x) == old(self).guard_may_allow(a, b, x),
            final(self).wf(),
            old(self).auto_outcome(final(self)@),
            old(self)@.current is Some && final(self)@.current == old(self)@.current ==> final(self).state_updated(old(self)@.current->0, dt),
            old(self)@.current is None ==> final(self).same_state_objects(old(self)),
            final(self)@.current != old(self)@.current ==> final(self).state_exited(old(self)@.current->0, final(self)@.current),
            final(self)@.current != old(self)@.current ==> final(self).state_entered(final(self)@.current->0, old(self)@.current),
    {
        let cur: Option<String> = match &self.current {
            Some(c) => Some(c.clone()),
            None => None,
        };
        match cur {
            Some(c) => match self.states.get_mut(c.as_str()) {
                Some(st) => st.on_update(dt),
                None => {},
            },
            None => {},
        }
        assert(self@ == old(self)@) by {
            assert(self@.states =~= old(self)@.states);
        }
        let ghost mid = *self;
        self.check_auto_transitions();
        proof {
            Self::lemma_same_outcome(mid, *old(self), self@);
            Self::lemma_same_guard(&mid, old(self));
        }
    }

    /// The current state's name.
    pub fn get_current(&self) -> (r: Option<&str>)
        ensures
            match r {
                Some(s) => self@.current == Some(s@),
                None => self@.current is None,
            },
    {
        match &self.current {
            Some(c) => Some(c.as_str()),
            None => None,
        }
    }

    /// The name of the state left by the last accepted transition.
    pub fn get_previous(&self) -> (r: Option<&str>)
        ensures
            match r {
                Some(s) => self@.previous == Some(s@),
                None => self@.previous is None,
            },
    {
        match &self.previous {
            Some(c) => Some(c.as_str()),
            None => None,
        }
    }

    /// The state registered under `name`.
    pub fn get_state(&self, name: &str) -> (r: Option<&S>)
        requires
            self.wf(),
        ensures
            r is Some <==> self@.states.contains(name@),
    {
        self.states.get(name)
    }

    /// The state registered under `name`, to be changed in place.
    pub fn get_state_mut(&mut self, name: &str) -> (r: Option<&mut S>)
        requires
            old(self).wf(),
        ensures
            forall|k: int, a: Seq<char>, b: Seq<char>| #[trigger] final(self).listener_heard(k, a, b) == old(self).listener_heard(k, a, b),
            forall|a: &str, b: &str, x: bool| #[trigger] final(self).guard_may_allow(a, b, x) == old(self).guard_may_allow(a, b, x),
            forall|j: int, x: bool| #[trigger] final(self).condition_may_answer(j, x) == old(self).condition_may_answer(j, x),
            final(self).wf(),
            r is Some <==> old(self)@.states.contains(name@),
            final(self)@ == old(self)@,
    {
        self.states.get_mut(name)
    }

    pub fn is_in(&self, name: &str) -> (r: bool)
        ensures
            r == (self@.current == Some(name@)),
    {
        match &self.current {
            Some(c) => str_eq(c.as_str(), name),
            None => false,
        }
    }

    pub fn has_state(&self, name: &str) -> (r: bool)
        requires
            self.wf(),
        ensures
            r == self@.states.contains(name@),
    {
        self.states.contains_key(name)
    }

    pub fn get_transition_count(&self) -> (r: u64)
        ensures
            r == self@.transition_count,
    {
        self.transition_count
    }

    /// Every state entered, in order.
    pub fn get_history(&self) -> (r: &[String])
        ensures
            r@.map_values(|s: String| s@) == self@.history,
    {
        self.history.as_slice()
    }

    pub fn clear_history(&mut self)
        requires
            old(self).wf(),
        ensures
            forall|k: int, a: Seq<char>, b: Seq<char>| #[trigger] final(self).listener_heard(k, a, b) == old(self).listener_heard(k, a, b),
            forall|j: int, x: bool| #[trigger] final(self).condition_may_answer(j, x) == old(self).condition_may_answer(j, x),
            forall|a: &str, b: &str, x: bool| #[trigger] final(self).guard_may_allow(a, b, x) == old(self).guard_may_allow(a, b, x),
            final(self).wf(),
            final(self)@ == (StateMachineView { history: Seq::empty(), ..old(self)@ }),
    {
        self.history.clear();
        assert(self@.history =~= Seq::<Seq<char>>::empty());
    }

    /// Drops the last history entry and returns to the one before it, which
    /// is dropped too since the transition records it again; `false` with
    /// fewer than two entries or when the transition is not accepted.
    pub fn go_back(&mut self) -> (r: bool)
        requires
            old(self).wf(),
            old(self)@.transition_count < u64::MAX,
        ensures
            forall|k: int, a: Seq<char>, b: Seq<char>| #[trigger] final(self).listener_heard(k, a, b) == old(self).listener_heard(k, a, b),
            forall|j: int, x: bool| #[trigger] final(self).condition_may_answer(j, x) == old(self).condition_may_answer(j, x),
            forall|a: &str, b: &str, x: bool| #[trigger] final(self).guard_may_allow(a, b, x) == old(self).guard_may_allow(a, b, x),
            final(self).wf(),
            exists|allowed: bool|
                (old(self)@.history.len() >= 2 ==> old(self).guard_consistent(
                    old(self)@.history[old(self)@.history.len() - 2],
                    allowed,
                )) && #[trigger] spec_go_back(old(self)@, allowed) == (r, final(self)@),
            r ==> final(self).state_exited(old(self)@.current->0, final(self)@.current),
            r ==> final(self).state_entered(final(self)@.current->0, old(self)@.current),
            !r ==> final(self).same_state_objects(old(self)),
    {
        if self.history.len() < 2 {
            assert(spec_go_back(old(self)@, true) == (false, self@));
            return false;
        }
        let ghost h = self.history@;
        self.history.pop();
        let target = self.history.pop();
        let ghost v2 = self@;
        assert(v2 == (StateMachineView { history: old(self)@.history.take(h.len() - 2), ..old(self)@ })) by {
            assert(v2.history =~= old(self)@.history.take(h.len() - 2));
        }
        match target {
            Some(t) => {
                assert(t@ == old(self)@.history[h.len() - 2]);
                let ghost mid = *self;
                assert(mid.global_guard == old(self).global_guard);
                let res = self.transition_to(t.as_str());
                let ok = match res {
                    TransitionResult::Accepted => true,
                    _ => false,
                };
                proof {
                    let a = choose|a: bool| mid.guard_consistent(t@, a) && #[trigger] spec_transition(v2, t@, a) == (res, self@);
                    Self::lemma_same_guard(&mid, old(self));
                    assert(old(self).guard_consistent(t@, a));
                    assert(spec_go_back(old(self)@, a) == (ok, self@));
                }
                ok
            },
            None => false,
        }
    }
}

impl<S: State<Dt>, Dt> Default for StateMachine<S, Dt> {
    fn default() -> (r: Self)
        ensures
            r.wf(),
            r@ == (StateMachineView {
                states: Set::empty(),
                transitions: Seq::empty(),
                current: None,
                previous: None,
                history: Seq::empty(),
                guarded: false,
                listeners: 0,
                transition_count: 0,
            }),
    {
        Self::new()
    }
}

/// Adding a transition by priority keeps the list sorted, highest priority
/// first.
pub proof fn lemma_insert_keeps_sorted(old_s: Seq<TransitionView>, new_s: Seq<TransitionView>, t: TransitionView)
    requires
        priority_sorted(old_s),
        inserted_by_priority(old_s, new_s, t),
    ensures
        priority_sorted(new_s),
        new_s.len() == old_s.len() + 1,
        new_s.contains(t),
{
    let q = choose|q: int|
        0 <= q <= old_s.len() && new_s == old_s.insert(q, t) && (forall|j: int|
            0 <= j < q ==> #[trigger] old_s[j].priority >= t.priority) && (forall|j: int|
            q <= j < old_s.len() ==> #[trigger] old_s[j].priority < t.priority);
    assert(new_s[q] == t);
    assert forall|a: int, b: int| 0 <= a < b < new_s.len() implies new_s[a].priority >= new_s[b].priority by {
        if a < q && b > q {
            assert(old_s[a].priority >= old_s[b - 1].priority);
        } else if a == q && b > q {
            assert(old_s[b - 1].priority < t.priority);
        } else if a < q && b == q {
            assert(old_s[a].priority >= t.priority);
        }
    }
}

/// Going back right after an accepted transition returns to the state that
/// was left, with the history as it was before the transition; only the
/// previous state and the count record that the machine moved.
pub proof fn lemma_go_back_undoes_transition(v: StateMachineView, target: Seq<char>)
    requires
        v.current is Some,
        v.states.contains(v.current->0),
        v.history.len() >= 1,
        v.history.last() == v.current->0,
        spec_transition(v, target, true).0 == TransitionResult::Accepted,
        v.transition_count + 2 <= u64::MAX,
    ensures
        spec_go_back(spec_transition(v, target, true).1, true) == (
            true,
            StateMachineView {
                previous: Some(target),
                transition_count: (v.transition_count + 2) as u64,
                ..v
            },
        ),
{
    let c = v.current->0;
    let w = spec_transition(v, target, true).1;
    let n = w.history.len();
    assert(w.history[n - 2] == c);
    let w2 = StateMachineView { history: w.history.take(n - 2), ..w };
    assert(w2.history.push(c) =~= v.history);
}

} // verus!
