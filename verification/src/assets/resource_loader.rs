use vstd::prelude::*;

use crate::utils::str_map::StrMap;
use crate::utils::text::{chars_of, push_str, starts_with, starts_with_str};

verus! {

broadcast use {vstd::string::group_string_axioms, vstd::slice::group_slice_axioms};

/// Progress of one resource load request.
#[derive(Debug, Clone, Copy, PartialEq, Eq, Structural)]
pub enum LoadStatus {
    Pending,
    Loading,
    Success,
    Failed,
}

/// Identifies a load request.
pub type LoadHandle = u64;

/// Called with the loaded bytes.
trait SuccessCallback {
    /// Whether the callback has been called with `data`.
    spec fn heard(&self, data: Seq<u8>) -> bool;

    fn call(&self, data: &[u8])
        ensures
            self.heard(data@),
    ;
}

/// Called with the error message.
trait ErrorCallback {
    /// Whether the callback has been called with `error`.
    spec fn heard(&self, error: Seq<char>) -> bool;

    fn call(&self, error: &str)
        ensures
            self.heard(error@),
    ;
}

/// Called with the progress in percent.
trait ProgressCallback {
    /// Whether the callback has been called with `percent`.
    spec fn heard(&self, percent: u8) -> bool;

    fn call(&self, percent: u8)
        ensures
            self.heard(percent),
    ;
}

/// A success callback held as a trait object.
struct SuccessSlot {
    cb: Box<dyn SuccessCallback>,
}

/// An error callback held as a trait object.
struct ErrorSlot {
    cb: Box<dyn ErrorCallback>,
}

/// A progress callback held as a trait object.
struct ProgressSlot {
    cb: Box<dyn ProgressCallback>,
}

/// Stores `c` as a trait object: std `Box::new`, then the unsizing coercion.
/// A call through the trait object dispatches to `c`'s own `call`.
#[verifier::external_body]
fn boxed_success<C: SuccessCallback + 'static>(c: C) -> (r: SuccessSlot)
    ensures
        forall|d: Seq<u8>| #[trigger] r.cb.heard(d) == c.heard(d),
{
    SuccessSlot { cb: Box::new(c) }
}

/// Stores `c` as a trait object: std `Box::new`, then the unsizing coercion.
/// A call through the trait object dispatches to `c`'s own `call`.
#[verifier::external_body]
fn boxed_error<C: ErrorCallback + 'static>(c: C) -> (r: ErrorSlot)
    ensures
        forall|e: Seq<char>| #[trigger] r.cb.heard(e) == c.heard(e),
{
    ErrorSlot { cb: Box::new(c) }
}

/// Stores `c` as a trait object: std `Box::new`, then the unsizing coercion.
/// A call through the trait object dispatches to `c`'s own `call`.
#[verifier::external_body]
fn boxed_progress<C: ProgressCallback + 'static>(c: C) -> (r: ProgressSlot)
    ensures
        forall|p: u8| #[trigger] r.cb.heard(p) == c.heard(p),
{
    ProgressSlot { cb: Box::new(c) }
}

/// Produces the bytes of a url, or an error message.
trait DataProvider {
    /// Whether `r` is a result the provider can give for `url`.
    spec fn may_provide(&self, url: &str, r: Result<Vec<u8>, String>) -> bool;

    fn provide(&self, url: &str) -> (r: Result<Vec<u8>, String>)
        ensures
            self.may_provide(url, r),
    ;
}

struct SuccessFn<F: Fn(&[u8])> {
    f: F,
}

impl<F: Fn(&[u8])> SuccessFn<F> {
    #[verifier::type_invariant]
    closed spec fn callable(self) -> bool {
        forall|d: &[u8]| call_requires(self.f, (d,))
    }
}

impl<F: Fn(&[u8])> SuccessCallback for SuccessFn<F> {
    /// Whether the closure has been called with bytes `data`.
    closed spec fn heard(&self, data: Seq<u8>) -> bool {
        exists|d: &[u8]| d@ == data && #[trigger] call_ensures(self.f, (d,), ())
    }

    fn call(&self, data: &[u8]) {
        proof {
            use_type_invariant(self);
        }
        (self.f)(data);
    }
}

struct ErrorFn<F: Fn(&str)> {
    f: F,
}

impl<F: Fn(&str)> ErrorFn<F> {
    #[verifier::type_invariant]
    closed spec fn callable(self) -> bool {
        forall|e: &str| call_requires(self.f, (e,))
    }
}

impl<F: Fn(&str)> ErrorCallback for ErrorFn<F> {
    /// Whether the closure has been called with text `error`.
    closed spec fn heard(&self, error: Seq<char>) -> bool {
        exists|e: &str| e@ == error && #[trigger] call_ensures(self.f, (e,), ())
    }

    fn call(&self, error: &str) {
        proof {
            use_type_invariant(self);
        }
        (self.f)(error);
    }
}

struct ProgressFn<F: Fn(u8)> {
    f: F,
}

impl<F: Fn(u8)> ProgressFn<F> {
    #[verifier::type_invariant]
    closed spec fn callable(self) -> bool {
        forall|p: u8| call_requires(self.f, (p,))
    }
}

impl<F: Fn(u8)> ProgressCallback for ProgressFn<F> {
    /// Whether the closure has been called with `percent`.
    closed spec fn heard(&self, percent: u8) -> bool {
        call_ensures(self.f, (percent,), ())
    }

    fn call(&self, percent: u8) {
        proof {
            use_type_invariant(self);
        }
        (self.f)(percent);
    }
}

struct ProviderFn<F: Fn(&str) -> Result<Vec<u8>, String>> {
    f: F,
}

impl<F: Fn(&str) -> Result<Vec<u8>, String>> ProviderFn<F> {
    #[verifier::type_invariant]
    closed spec fn callable(self) -> bool {
        forall|u: &str| call_requires(self.f, (u,))
    }
}

impl<F: Fn(&str) -> Result<Vec<u8>, String>> DataProvider for ProviderFn<F> {
    /// What the closure can return for `url`.
    closed spec fn may_provide(&self, url: &str, r: Result<Vec<u8>, String>) -> bool {
        call_ensures(self.f, (url,), r)
    }

    fn provide(&self, url: &str) -> (r: Result<Vec<u8>, String>) {
        proof {
            use_type_invariant(self);
        }
        (self.f)(url)
    }
}

/// What the loader knows of one request.
pub struct TaskView {
    pub url: Seq<char>,
    pub status: LoadStatus,
    /// 0 until the load succeeded, then 100.
    pub progress: u8,
    pub data: Option<Seq<u8>>,
    pub error: Option<Seq<char>>,
}

struct LoadTask {
    url: String,
    status: LoadStatus,
    progress: u8,
    on_success: Option<SuccessSlot>,
    on_error: Option<ErrorSlot>,
    on_progress: Option<ProgressSlot>,
    data: Option<Vec<u8>>,
    error: Option<String>,
}

spec fn opt_bytes(d: Option<Vec<u8>>) -> Option<Seq<u8>> {
    match d {
        Some(v) => Some(v@),
        None => None,
    }
}

spec fn opt_text(e: Option<String>) -> Option<Seq<char>> {
    match e {
        Some(s) => Some(s@),
        None => None,
    }
}

impl LoadTask {
    fn done(url: &str, data: Vec<u8>) -> (r: Self)
        ensures
            r.view() == (TaskView {
                url: url@,
                status: LoadStatus::Success,
                progress: 100,
                data: Some(data@),
                error: None,
            }),
    {
        LoadTask {
            url: url.to_string(),
            status: LoadStatus::Success,
            progress: 100,
            on_success: None,
            on_error: None,
            on_progress: None,
            data: Some(data),
            error: None,
        }
    }

    fn pending(url: &str, on_success: SuccessSlot, on_error: ErrorSlot, on_progress: Option<ProgressSlot>) -> (r: Self)
        ensures
            r.view() == pending_task(url@),
            r.on_success == Some(on_success),
            r.on_error == Some(on_error),
            r.on_progress == on_progress,
    {
        LoadTask {
            url: url.to_string(),
            status: LoadStatus::Pending,
            progress: 0,
            on_success: Some(on_success),
            on_error: Some(on_error),
            on_progress,
            data: None,
            error: None,
        }
    }

    spec fn view(self) -> TaskView {
        TaskView {
            url: self.url@,
            status: self.status,
            progress: self.progress,
            data: opt_bytes(self.data),
            error: opt_text(self.error),
        }
    }
}

struct TaskSlot {
    handle: LoadHandle,
    task: LoadTask,
}

impl TaskSlot {
    spec fn view(self) -> (LoadHandle, TaskView) {
        (self.handle, self.task.view())
    }

    fn new(handle: LoadHandle, task: LoadTask) -> (r: Self)
        ensures
            r.view() == (handle, task.view()),
            r.task == task,
    {
        TaskSlot { handle, task }
    }
}

struct ProviderSlot {
    prefix: String,
    provider: Box<dyn DataProvider>,
}

/// The slot for urls starting with `prefix`, holding `provider` as a trait
/// object: std `Box::new`, then the unsizing coercion. A call through the
/// trait object dispatches to `provider`'s own `provide`, so the slot can
/// give exactly what `provider` can give.
#[verifier::external_body]
fn boxed_provider<P: DataProvider + 'static>(prefix: String, provider: P) -> (r: ProviderSlot)
    ensures
        r.prefix == prefix,
        forall|u: &str, x: Result<Vec<u8>, String>| #[trigger] r.provider.may_provide(u, x) == provider.may_provide(u, x),
{
    ProviderSlot { prefix, provider: Box::new(provider) }
}

spec fn task_views(s: Seq<TaskSlot>) -> Seq<(LoadHandle, TaskView)> {
    s.map_values(|t: TaskSlot| t.view())
}

spec fn prefixes_of(s: Seq<ProviderSlot>) -> Seq<Seq<char>> {
    s.map_values(|p: ProviderSlot| p.prefix@)
}

/// The abstract state of a [`ResourceLoader`].
pub struct LoaderView {
    /// The requests by handle, oldest first.
    pub tasks: Seq<(LoadHandle, TaskView)>,
    /// The url prefixes of the providers, in registration order.
    pub providers: Seq<Seq<char>>,
    pub cache: Map<Seq<char>, Seq<u8>>,
    pub cache_enabled: bool,
    pub max_concurrent: usize,
    pub total_loaded: u64,
    pub total_failed: u64,
    pub next_handle: LoadHandle,
}

/// A request waiting for the next pump.
pub open spec fn pending_task(url: Seq<char>) -> TaskView {
    TaskView { url, status: LoadStatus::Pending, progress: 0, data: None, error: None }
}

/// A request served from the cache.
pub open spec fn cached_task(url: Seq<char>, data: Seq<u8>) -> TaskView {
    TaskView { url, status: LoadStatus::Success, progress: 100, data: Some(data), error: None }
}

/// Whether request `h` exists.
pub open spec fn has_task(tasks: Seq<(LoadHandle, TaskView)>, h: LoadHandle) -> bool {
    exists|i: int| 0 <= i < tasks.len() && tasks[i].0 == h
}

/// The position of request `h`, when it exists.
pub open spec fn task_index(tasks: Seq<(LoadHandle, TaskView)>, h: LoadHandle) -> int {
    choose|i: int| 0 <= i < tasks.len() && tasks[i].0 == h
}

/// Handles strictly increase along the requests and stay below `next`.
pub open spec fn handles_ordered(tasks: Seq<(LoadHandle, TaskView)>, next: LoadHandle) -> bool {
    &&& forall|i: int, j: int| 0 <= i < j < tasks.len() ==> tasks[i].0 < tasks[j].0
    &&& forall|i: int| 0 <= i < tasks.len() ==> tasks[i].0 < next
}

/// How many requests are pending.
pub open spec fn pending_count(tasks: Seq<(LoadHandle, TaskView)>) -> nat
    decreases tasks.len(),
{
    if tasks.len() == 0 {
        0
    } else {
        pending_count(tasks.drop_last()) + if tasks.last().1.status == LoadStatus::Pending {
            1nat
        } else {
            0nat
        }
    }
}

/// The position of the first provider whose prefix starts `url`, or -1.
pub open spec fn provider_for(prefixes: Seq<Seq<char>>, url: Seq<char>) -> int
    decreases prefixes.len(),
{
    if prefixes.len() == 0 {
        -1
    } else if starts_with(url, prefixes[0]) {
        0
    } else {
        let r = provider_for(prefixes.drop_first(), url);
        if r < 0 {
            -1
        } else {
            r + 1
        }
    }
}

/// An outcome with its bytes and message as sequences.
pub open spec fn result_view(r: Result<Vec<u8>, String>) -> Result<Seq<u8>, Seq<char>> {
    match r {
        Ok(d) => Ok(d@),
        Err(e) => Err(e@),
    }
}

/// The error of a request no provider serves.
pub open spec fn no_provider_error(url: Seq<char>) -> Seq<char> {
    "No provider for: "@ + url
}

/// The state after request `i` finished with `result`: its bytes stored (and
/// cached when the cache is on) and counted as loaded, or its error stored
/// and counted as failed.
pub open spec fn spec_finish(v: LoaderView, i: int, result: Result<Seq<u8>, Seq<char>>) -> LoaderView {
    let h = v.tasks[i].0;
    let t = v.tasks[i].1;
    match result {
        Ok(d) => LoaderView {
            tasks: v.tasks.update(
                i,
                (h, TaskView { status: LoadStatus::Success, progress: 100, data: Some(d), ..t }),
            ),
            cache: if v.cache_enabled {
                v.cache.insert(t.url, d)
            } else {
                v.cache
            },
            total_loaded: (v.total_loaded + 1) as u64,
            ..v
        },
        Err(e) => LoaderView {
            tasks: v.tasks.update(i, (h, TaskView { status: LoadStatus::Failed, error: Some(e), ..t })),
            total_failed: (v.total_failed + 1) as u64,
            ..v
        },
    }
}

/// Whether a pump over `v0` that starts at most `k` requests starts
/// request `j`: it is pending and fewer than `k` pending ones come before it.
pub open spec fn pump_starts(v0: LoaderView, k: nat, j: int) -> bool {
    v0.tasks[j].1.status == LoadStatus::Pending && pending_count(v0.tasks.take(j)) < k
}

/// The outcome of request `j` in such a pump whose providers answered `rs`
/// in turn: the no-provider error when no provider serves its url.
pub open spec fn pump_outcome(v0: LoaderView, rs: Seq<Result<Seq<u8>, Seq<char>>>, j: int) -> Result<
    Seq<u8>,
    Seq<char>,
> {
    let t = v0.tasks[j].1;
    if provider_for(v0.providers, t.url) < 0 {
        Err(no_provider_error(t.url))
    } else {
        rs[pending_count(v0.tasks.take(j)) as int]
    }
}

/// A request started before position `i` comes before the count of started
/// requests at `i`.
proof fn lemma_started_before(v0: LoaderView, k: nat, i: int, j: int)
    requires
        0 <= j < i <= v0.tasks.len(),
        pump_starts(v0, k, j),
    ensures
        pending_count(v0.tasks.take(j)) < pending_count(v0.tasks.take(i)),
        pending_count(v0.tasks.take(j)) < k,
{
    assert(v0.tasks.take(j + 1).drop_last() =~= v0.tasks.take(j));
    assert(v0.tasks.take(j + 1).last() == v0.tasks[j]);
    lemma_pending_take_mono(v0.tasks.take(i), j + 1);
    assert(v0.tasks.take(i).take(j + 1) =~= v0.tasks.take(j + 1));
}

/// The state after a pump has gone over the first `i` requests of `v0`,
/// starting at most `k` pending ones in order; the started ones take their
/// results from `rs` in turn, except that a request no provider serves fails
/// with [`no_provider_error`].
pub open spec fn pump_upto(
    v0: LoaderView,
    k: nat,
    i: nat,
    rs: Seq<Result<Seq<u8>, Seq<char>>>,
) -> LoaderView
    decreases i,
{
    if i == 0 || i > v0.tasks.len() {
        v0
    } else {
        let j = (i - 1) as nat;
        let v = pump_upto(v0, k, j, rs);
        let c = pending_count(v0.tasks.take(j as int));
        let t = v0.tasks[j as int].1;
        if t.status == LoadStatus::Pending && c < k {
            let r = if provider_for(v0.providers, t.url) < 0 {
                Err(no_provider_error(t.url))
            } else {
                rs[c as int]
            };
            spec_finish(v, j as int, r)
        } else {
            v
        }
    }
}

proof fn lemma_provider_for(ps: Seq<Seq<char>>, url: Seq<char>)
    requires
        forall|j: int| 0 <= j < ps.len() ==> !starts_with(url, #[trigger] ps[j]),
    ensures
        provider_for(ps, url) < 0,
    decreases ps.len(),
{
    if ps.len() > 0 {
        assert(!starts_with(url, ps[0]));
        assert forall|j: int| 0 <= j < ps.drop_first().len() implies !starts_with(url, #[trigger] ps.drop_first()[j]) by {
            assert(ps.drop_first()[j] == ps[j + 1]);
        }
        lemma_provider_for(ps.drop_first(), url);
    }
}

proof fn lemma_provider_found(ps: Seq<Seq<char>>, url: Seq<char>, i: int)
    requires
        0 <= i < ps.len(),
        starts_with(url, ps[i]),
        forall|j: int| 0 <= j < i ==> !starts_with(url, #[trigger] ps[j]),
    ensures
        provider_for(ps, url) == i,
    decreases i,
{
    if i > 0 {
        assert(!starts_with(url, ps[0]));
        assert forall|j: int| 0 <= j < i - 1 implies !starts_with(url, #[trigger] ps.drop_first()[j]) by {
            assert(ps.drop_first()[j] == ps[j + 1]);
        }
        assert(ps.drop_first()[i - 1] == ps[i]);
        lemma_provider_found(ps.drop_first(), url, i - 1);
    }
}

proof fn lemma_pending_count_bound(tasks: Seq<(LoadHandle, TaskView)>)
    ensures
        pending_count(tasks) <= tasks.len(),
    decreases tasks.len(),
{
    if tasks.len() > 0 {
        lemma_pending_count_bound(tasks.drop_last());
    }
}

proof fn lemma_pending_take_mono(tasks: Seq<(LoadHandle, TaskView)>, i: int)
    requires
        0 <= i <= tasks.len(),
    ensures
        pending_count(tasks.take(i)) <= pending_count(tasks),
    decreases tasks.len() - i,
{
    if i < tasks.len() {
        lemma_pending_take_mono(tasks, i + 1);
        assert(tasks.take(i + 1).drop_last() =~= tasks.take(i));
    } else {
        assert(tasks.take(i) =~= tasks);
    }
}

/// A pump over the first `i` requests only reads the results it uses.
proof fn lemma_pump_prefix(
    v0: LoaderView,
    k: nat,
    i: nat,
    rs1: Seq<Result<Seq<u8>, Seq<char>>>,
    rs2: Seq<Result<Seq<u8>, Seq<char>>>,
)
    requires
        i <= v0.tasks.len(),
        forall|j: int| 0 <= j < rs1.len() ==> rs2[j] == rs1[j],
        rs1.len() <= rs2.len(),
        rs1.len() >= (if pending_count(v0.tasks.take(i as int)) < k {
            pending_count(v0.tasks.take(i as int))
        } else {
            k
        }),
    ensures
        pump_upto(v0, k, i, rs1) == pump_upto(v0, k, i, rs2),
    decreases i,
{
    if i > 0 {
        let j = (i - 1) as nat;
        assert(v0.tasks.take(i as int).drop_last() =~= v0.tasks.take(j as int));
        lemma_pump_prefix(v0, k, j, rs1, rs2);
    }
}

/// Whether the results of a pump over the first `i` requests come from their
/// providers only depends on the results it uses.
proof fn lemma_results_prefix(
    m: ResourceLoader,
    k: nat,
    i: nat,
    rs1: Seq<Result<Seq<u8>, Seq<char>>>,
    rs2: Seq<Result<Seq<u8>, Seq<char>>>,
)
    requires
        i <= m@.tasks.len(),
        forall|j: int| 0 <= j < rs1.len() ==> rs2[j] == rs1[j],
        rs1.len() <= rs2.len(),
        rs1.len() >= (if pending_count(m@.tasks.take(i as int)) < k {
            pending_count(m@.tasks.take(i as int))
        } else {
            k
        }),
        m.results_from_providers(k, i, rs1),
    ensures
        m.results_from_providers(k, i, rs2),
    decreases i,
{
    if i > 0 {
        let j = (i - 1) as nat;
        assert(m@.tasks.take(i as int).drop_last() =~= m@.tasks.take(j as int));
        lemma_results_prefix(m, k, j, rs1, rs2);
    }
}

/// Loads resources by url through registered providers, caching the bytes.
pub struct ResourceLoader {
    tasks: Vec<TaskSlot>,
    providers: Vec<ProviderSlot>,
    cache: StrMap<Vec<u8>>,
    cache_enabled: bool,
    max_concurrent: usize,
    loading_count: usize,
    total_loaded: u64,
    total_failed: u64,
    next_handle: LoadHandle,
}

spec fn cache_view(m: Map<Seq<char>, Vec<u8>>) -> Map<Seq<char>, Seq<u8>> {
    m.map_values(|v: Vec<u8>| v@)
}

impl View for ResourceLoader {
    type V = LoaderView;

    closed spec fn view(&self) -> LoaderView {
        LoaderView {
            tasks: task_views(self.tasks@),
            providers: prefixes_of(self.providers@),
            cache: cache_view(self.cache@),
            cache_enabled: self.cache_enabled,
            max_concurrent: self.max_concurrent,
            total_loaded: self.total_loaded,
            total_failed: self.total_failed,
            next_handle: self.next_handle,
        }
    }
}

impl ResourceLoader {
    /// Well-formedness: ordered handles, a consistent cache, nothing in flight.
    /// Whether `r` is a result provider `p` can give for `url`.
    pub closed spec fn provider_may_give(&self, p: int, url: Seq<char>, r: Result<Seq<u8>, Seq<char>>) -> bool {
        exists|u: &str, res: Result<Vec<u8>, String>|
            #![trigger self.providers@[p].provider.may_provide(u, res)]
            u@ == url && result_view(res) == r && self.providers@[p].provider.may_provide(u, res)
    }

    /// Loaders with the same providers answer alike.
    proof fn lemma_same_providers(a: &Self, b: &Self)
        requires
            a.providers@ == b.providers@,
        ensures
            forall|p: int, u: Seq<char>, x: Result<Seq<u8>, Seq<char>>| #[trigger] a.provider_may_give(p, u, x)
                == b.provider_may_give(p, u, x),
    {
        assert forall|p: int, u: Seq<char>, x: Result<Seq<u8>, Seq<char>>| #[trigger] a.provider_may_give(p, u, x)
            == b.provider_may_give(p, u, x) by {
            if a.provider_may_give(p, u, x) {
                let (s, y) = choose|s: &str, y: Result<Vec<u8>, String>|
                    s@ == u && result_view(y) == x && #[trigger] a.providers@[p].provider.may_provide(s, y);
                assert(b.providers@[p] == a.providers@[p]);
            }
            if b.provider_may_give(p, u, x) {
                let (s, y) = choose|s: &str, y: Result<Vec<u8>, String>|
                    s@ == u && result_view(y) == x && #[trigger] b.providers@[p].provider.may_provide(s, y);
                assert(b.providers@[p] == a.providers@[p]);
            }
        }
    }

    /// Whether the results `rs` of a pump over the first `i` requests, at
    /// most `k` of them started, are ones the serving providers can give:
    /// the `c`-th request started is answered by the first provider whose
    /// prefix starts its url, asked for that url.
    pub open spec fn results_from_providers(&self, k: nat, i: nat, rs: Seq<Result<Seq<u8>, Seq<char>>>) -> bool
        decreases i,
    {
        if i == 0 || i > self@.tasks.len() {
            true
        } else {
            let j = (i - 1) as nat;
            let c = pending_count(self@.tasks.take(j as int));
            let t = self@.tasks[j as int].1;
            &&& self.results_from_providers(k, j, rs)
            &&& t.status == LoadStatus::Pending && c < k && provider_for(self@.providers, t.url) >= 0
                ==> self.provider_may_give(provider_for(self@.providers, t.url), t.url, rs[c as int])
        }
    }

    /// Whether the success callback of request `i`, when it has one (a
    /// request served from the cache keeps none), has been called with `d`.
    pub closed spec fn success_heard(&self, i: int, d: Seq<u8>) -> bool {
        match self.tasks@[i].task.on_success {
            Some(c) => c.cb.heard(d),
            None => true,
        }
    }

    /// Whether the error callback of request `i`, when it has one, has been
    /// called with `e`.
    pub closed spec fn error_heard(&self, i: int, e: Seq<char>) -> bool {
        match self.tasks@[i].task.on_error {
            Some(c) => c.cb.heard(e),
            None => true,
        }
    }

    /// Whether the progress callback of request `i`, when it has one, has
    /// been called with `p`.
    pub closed spec fn progress_heard(&self, i: int, p: u8) -> bool {
        match self.tasks@[i].task.on_progress {
            Some(c) => c.cb.heard(p),
            None => true,
        }
    }

    /// Whether request `i`'s callbacks have been told outcome `r`: the bytes
    /// to the success callback and 100 to the progress callback, or the
    /// message to the error callback.
    pub open spec fn told_outcome(&self, i: int, r: Result<Seq<u8>, Seq<char>>) -> bool {
        match r {
            Ok(d) => self.success_heard(i, d) && self.progress_heard(i, 100),
            Err(e) => self.error_heard(i, e),
        }
    }

    /// Request `i` has the same callbacks here as in `other`.
    pub closed spec fn same_callbacks(&self, other: &Self, i: int) -> bool {
        &&& self.tasks@[i].task.on_success == other.tasks@[i].task.on_success
        &&& self.tasks@[i].task.on_error == other.tasks@[i].task.on_error
        &&& self.tasks@[i].task.on_progress == other.tasks@[i].task.on_progress
    }

    /// Requests with the same callbacks were told the same.
    pub proof fn lemma_same_callbacks(&self, other: &Self, i: int)
        requires
            self.same_callbacks(other, i),
        ensures
            forall|d: Seq<u8>| #[trigger] self.success_heard(i, d) == other.success_heard(i, d),
            forall|e: Seq<char>| #[trigger] self.error_heard(i, e) == other.error_heard(i, e),
            forall|p: u8| #[trigger] self.progress_heard(i, p) == other.progress_heard(i, p),
            forall|r: Result<Seq<u8>, Seq<char>>| #[trigger] self.told_outcome(i, r) == other.told_outcome(i, r),
    {
    }

    pub closed spec fn wf(&self) -> bool {
        &&& handles_ordered(self@.tasks, self.next_handle)
        &&& self.cache.wf()
        &&& self.loading_count == 0
    }

    /// An empty loader: cache on, 8 loads per pump, handles from 1.
    pub fn new() -> (r: Self)
        ensures
            r.wf(),
            r@ == (LoaderView {
                tasks: Seq::empty(),
                providers: Seq::empty(),
                cache: Map::empty(),
                cache_enabled: true,
                max_concurrent: 8,
                total_loaded: 0,
                total_failed: 0,
                next_handle: 1,
            }),
    {
        let r = ResourceLoader {
            tasks: Vec::new(),
            providers: Vec::new(),
            cache: StrMap::new(),
            cache_enabled: true,
            max_concurrent: 8,
            loading_count: 0,
            total_loaded: 0,
            total_failed: 0,
            next_handle: 1,
        };
        assert(r@.tasks =~= Seq::<(LoadHandle, TaskView)>::empty());
        assert(r@.providers =~= Seq::<Seq<char>>::empty());
        assert(r@.cache =~= Map::<Seq<char>, Seq<u8>>::empty());
        r
    }

    /// Adds a provider for the urls starting with `prefix` (all urls for an
    /// empty prefix), tried after the ones registered before.
    pub fn register_provider<F: Fn(&str) -> Result<Vec<u8>, String> + Send + Sync + 'static>(
        &mut self,
        prefix: &str,
        provider: F,
    )
        requires
            old(self).wf(),
            forall|u: &str| call_requires(provider, (u,)),
        ensures
            final(self).wf(),
            final(self)@ == (LoaderView { providers: old(self)@.providers.push(prefix@), ..old(self)@ }),
            forall|p: int, u: Seq<char>, res: Result<Seq<u8>, Seq<char>>|
                0 <= p < old(self)@.providers.len() ==> final(self).provider_may_give(p, u, res)
                    == old(self).provider_may_give(p, u, res),
            forall|u: Seq<char>, res: Result<Seq<u8>, Seq<char>>| #[trigger]
                final(self).provider_may_give(old(self)@.providers.len() as int, u, res) == exists|s: &str, x: Result<Vec<u8>, String>|
                    s@ == u && result_view(x) == res && #[trigger] call_ensures(provider, (s,), x),
    {
        let closure = ProviderFn { f: provider };
        assert(forall|u: &str, x: Result<Vec<u8>, String>| #[trigger] closure.may_provide(u, x) == call_ensures(provider, (u,), x));
        let slot = boxed_provider(prefix.to_string(), closure);
        let ghost old_p = self.providers@;
        self.providers.push(slot);
        assert(prefixes_of(self.providers@) =~= prefixes_of(old_p).push(prefix@));
        assert forall|p: int, u: Seq<char>, res: Result<Seq<u8>, Seq<char>>|
            0 <= p < old(self)@.providers.len() implies self.provider_may_give(p, u, res)
                == old(self).provider_may_give(p, u, res) by {
            assert(self.providers@[p] == old_p[p]);
        }
        let ghost n = old_p.len() as int;
        assert(self.providers@[n] == slot);
        assert forall|u: Seq<char>, res: Result<Seq<u8>, Seq<char>>|
            #[trigger] self.provider_may_give(n, u, res) == exists|s: &str, x: Result<Vec<u8>, String>|
                s@ == u && result_view(x) == res && #[trigger] call_ensures(provider, (s,), x) by {
            if self.provider_may_give(n, u, res) {
                let (s, x) = choose|s: &str, x: Result<Vec<u8>, String>|
                    s@ == u && result_view(x) == res && #[trigger] self.providers@[n].provider.may_provide(s, x);
                assert(call_ensures(provider, (s,), x));
            }
            if exists|s: &str, x: Result<Vec<u8>, String>|
                s@ == u && result_view(x) == res && #[trigger] call_ensures(provider, (s,), x) {
                let (s, x) = choose|s: &str, x: Result<Vec<u8>, String>|
                    s@ == u && result_view(x) == res && #[trigger] call_ensures(provider, (s,), x);
                assert(self.providers@[n].provider.may_provide(s, x));
            }
        }
    }

    proof fn lemma_task_index(&self, i: int)
        requires
            self.wf(),
            0 <= i < self@.tasks.len(),
        ensures
            has_task(self@.tasks, self@.tasks[i].0),
            task_index(self@.tasks, self@.tasks[i].0) == i,
    {
        let h = self@.tasks[i].0;
        assert(self@.tasks[i].0 == h);
        let j = task_index(self@.tasks, h);
        if j < i {
            assert(self@.tasks[j].0 < self@.tasks[i].0);
        } else if j > i {
            assert(self@.tasks[i].0 < self@.tasks[j].0);
        }
    }

    fn find(&self, h: LoadHandle) -> (r: Option<usize>)
        requires
            self.wf(),
        ensures
            r matches Some(i) ==> i < self@.tasks.len() && task_index(self@.tasks, h) == i && has_task(self@.tasks, h),
            r is None ==> !has_task(self@.tasks, h),
    {
        let mut i: usize = 0;
        while i < self.tasks.len()
            invariant
                i <= self.tasks@.len(),
                self.wf(),
                forall|j: int| 0 <= j < i ==> self@.tasks[j].0 != h,
            decreases self.tasks@.len() - i,
        {
            assert(self@.tasks[i as int] == self.tasks@[i as int].view());
            if self.tasks[i].handle == h {
                proof {
                    self.lemma_task_index(i as int);
                }
                return Some(i);
            }
            i = i + 1;
        }
        None
    }

    fn add_task(&mut self, slot: TaskSlot)
        requires
            old(self).wf(),
            slot.handle == old(self).next_handle,
            old(self).next_handle < u64::MAX,
        ensures
            final(self).wf(),
            final(self).providers@ == old(self).providers@,
            final(self).tasks@ == old(self).tasks@.push(slot),
            final(self)@ == (LoaderView {
                tasks: old(self)@.tasks.push(slot.view()),
                next_handle: (old(self).next_handle + 1) as u64,
                ..old(self)@
            }),
    {
        let ghost old_t = self.tasks@;
        self.tasks.push(slot);
        self.next_handle = self.next_handle + 1;
        assert(task_views(self.tasks@) =~= task_views(old_t).push(slot.view()));
    }

    /// Requests `url`. With the cache on and the url cached, `on_success` is
    /// called at once and the request is done; otherwise it waits for a pump.
    pub fn load<S: Fn(&[u8]) + Send + Sync + 'static, E: Fn(&str) + Send + Sync + 'static>(
        &mut self,
        url: &str,
        on_success: S,
        on_error: E,
    ) -> (r: LoadHandle)
        requires
            old(self).wf(),
            old(self)@.next_handle < u64::MAX,
            forall|d: &[u8]| call_requires(on_success, (d,)),
            forall|e: &str| call_requires(on_error, (e,)),
        ensures
            forall|p: int, u: Seq<char>, x: Result<Seq<u8>, Seq<char>>| #[trigger] final(self).provider_may_give(p, u, x)
                == old(self).provider_may_give(p, u, x),
            final(self).wf(),
            r == old(self)@.next_handle,
            final(self)@ == (LoaderView {
                tasks: old(self)@.tasks.push(
                    (
                        r,
                        if old(self)@.cache_enabled && old(self)@.cache.dom().contains(url@) {
                            cached_task(url@, old(self)@.cache[url@])
                        } else {
                            pending_task(url@)
                        },
                    ),
                ),
                next_handle: (r + 1) as u64,
                ..old(self)@
            }),
            forall|j: int| 0 <= j < old(self)@.tasks.len() ==> #[trigger] final(self).same_callbacks(old(self), j),
            old(self)@.cache_enabled && old(self)@.cache.dom().contains(url@) ==> exists|d: &[u8]|
                d@ == old(self)@.cache[url@] && #[trigger] call_ensures(on_success, (d,), ()),
            !(old(self)@.cache_enabled && old(self)@.cache.dom().contains(url@)) ==> {
                &&& forall|b: Seq<u8>| #[trigger] final(self).success_heard(old(self)@.tasks.len() as int, b)
                    == exists|d: &[u8]| d@ == b && #[trigger] call_ensures(on_success, (d,), ())
                &&& forall|m: Seq<char>| #[trigger] final(self).error_heard(old(self)@.tasks.len() as int, m)
                    == exists|e: &str| e@ == m && #[trigger] call_ensures(on_error, (e,), ())
                &&& forall|p: u8| #[trigger] final(self).progress_heard(old(self)@.tasks.len() as int, p)
            },
    {
        let h = self.next_handle;
        if self.cache_enabled {
            let hit = match self.cache.get(url) {
                Some(data) => {
                    let d = data.as_slice();
                    on_success(d);
                    assert(call_ensures(on_success, (d,), ()));
                    Some(data.clone())
                },
                None => None,
            };
            match hit {
                Some(data) => {
                    assert(data@ == old(self)@.cache[url@]);
                    let task = LoadTask::done(url, data);
                    let slot = TaskSlot::new(h, task);
                    self.add_task(slot);
                    proof {
                        Self::lemma_same_providers(&*self, old(self));
                    }
                    return h;
                },
                None => {},
            }
        }
        let sf = SuccessFn { f: on_success };
        let ef = ErrorFn { f: on_error };
        proof {
            assert(sf.f == on_success);
            assert(ef.f == on_error);
            assert forall|b: Seq<u8>| #[trigger] sf.heard(b) == exists|d: &[u8]| d@ == b && #[trigger] call_ensures(on_success, (d,), ()) by {
                assert(sf.heard(b) == exists|d: &[u8]| d@ == b && #[trigger] call_ensures(sf.f, (d,), ()));
            }
            assert forall|m: Seq<char>| #[trigger] ef.heard(m) == exists|x: &str| x@ == m && #[trigger] call_ensures(on_error, (x,), ()) by {
                assert(ef.heard(m) == exists|x: &str| x@ == m && #[trigger] call_ensures(ef.f, (x,), ()));
            }
        }
        let s = boxed_success(sf);
        let e = boxed_error(ef);
        let task = LoadTask::pending(url, s, e, None);
        let slot = TaskSlot::new(h, task);
        self.add_task(slot);
        proof {
            Self::lemma_same_providers(&*self, old(self));
        }
        h
    }

    /// Requests `url` with a progress callback (called with 100 once the
    /// bytes are in); the request always waits for a pump.
    pub fn load_with_progress<
        S: Fn(&[u8]) + Send + Sync + 'static,
        E: Fn(&str) + Send + Sync + 'static,
        P: Fn(u8) + Send + Sync + 'static,
    >(&mut self, url: &str, on_success: S, on_error: E, on_progress: P) -> (r: LoadHandle)
        requires
            old(self).wf(),
            old(self)@.next_handle < u64::MAX,
            forall|d: &[u8]| call_requires(on_success, (d,)),
            forall|e: &str| call_requires(on_error, (e,)),
            forall|p: u8| call_requires(on_progress, (p,)),
        ensures
            forall|p: int, u: Seq<char>, x: Result<Seq<u8>, Seq<char>>| #[trigger] final(self).provider_may_give(p, u, x)
                == old(self).provider_may_give(p, u, x),
            final(self).wf(),
            r == old(self)@.next_handle,
            final(self)@ == (LoaderView {
                tasks: old(self)@.tasks.push((r, pending_task(url@))),
                next_handle: (r + 1) as u64,
                ..old(self)@
            }),
            forall|j: int| 0 <= j < old(self)@.tasks.len() ==> #[trigger] final(self).same_callbacks(old(self), j),
            forall|b: Seq<u8>| #[trigger] final(self).success_heard(old(self)@.tasks.len() as int, b)
                == exists|d: &[u8]| d@ == b && #[trigger] call_ensures(on_success, (d,), ()),
            forall|m: Seq<char>| #[trigger] final(self).error_heard(old(self)@.tasks.len() as int, m)
                == exists|e: &str| e@ == m && #[trigger] call_ensures(on_error, (e,), ()),
            forall|p: u8| #[trigger] final(self).progress_heard(old(self)@.tasks.len() as int, p)
                == call_ensures(on_progress, (p,), ()),
    {
        let h = self.next_handle;
        let sf = SuccessFn { f: on_success };
        let ef = ErrorFn { f: on_error };
        let pf = ProgressFn { f: on_progress };
        proof {
            assert(sf.f == on_success);
            assert(ef.f == on_error);
            assert forall|b: Seq<u8>| #[trigger] sf.heard(b) == exists|d: &[u8]| d@ == b && #[trigger] call_ensures(on_success, (d,), ()) by {
                assert(sf.heard(b) == exists|d: &[u8]| d@ == b && #[trigger] call_ensures(sf.f, (d,), ()));
            }
            assert forall|m: Seq<char>| #[trigger] ef.heard(m) == exists|x: &str| x@ == m && #[trigger] call_ensures(on_error, (x,), ()) by {
                assert(ef.heard(m) == exists|x: &str| x@ == m && #[trigger] call_ensures(ef.f, (x,), ()));
            }
            assert(pf.f == on_progress);
            assert forall|q: u8| #[trigger] pf.heard(q) == call_ensures(on_progress, (q,), ()) by {
                assert(pf.heard(q) == call_ensures(pf.f, (q,), ()));
            }
        }
        let s = boxed_success(sf);
        let e = boxed_error(ef);
        let p = boxed_progress(pf);
        let task = LoadTask::pending(url, s, e, Some(p));
        let slot = TaskSlot::new(h, task);
        self.add_task(slot);
        proof {
            Self::lemma_same_providers(&*self, old(self));
        }
        h
    }

    /// Drops request `h` if it is still pending.
    pub fn cancel(&mut self, handle: LoadHandle)
        requires
            old(self).wf(),
        ensures
            forall|p: int, u: Seq<char>, x: Result<Seq<u8>, Seq<char>>| #[trigger] final(self).provider_may_give(p, u, x)
                == old(self).provider_may_give(p, u, x),
            final(self).wf(),
            final(self)@ == if has_task(old(self)@.tasks, handle) && old(self)@.tasks[task_index(
                old(self)@.tasks,
                handle,
            )].1.status == LoadStatus::Pending {
                LoaderView {
                    tasks: old(self)@.tasks.remove(task_index(old(self)@.tasks, handle)),
                    ..old(self)@
                }
            } else {
                old(self)@
            },
    {
        match self.find(handle) {
            Some(i) => {
                assert(self@.tasks[i as int] == self.tasks@[i as int].view());
                if self.tasks[i].task.status == LoadStatus::Pending {
                    let ghost old_t = self.tasks@;
                    let _ = self.tasks.remove(i);
                    assert(task_views(self.tasks@) =~= task_views(old_t).remove(i as int));
                    assert(handles_ordered(self@.tasks, self.next_handle)) by {
                        let t = self@.tasks;
                        let o = task_views(old_t);
                        assert forall|a: int, b: int| 0 <= a < b < t.len() implies t[a].0 < t[b].0 by {
                            let a2 = if a < i { a } else { a + 1 };
                            let b2 = if b < i { b } else { b + 1 };
                            assert(t[a] == o[a2]);
                            assert(t[b] == o[b2]);
                        }
                        assert forall|a: int| 0 <= a < t.len() implies t[a].0 < self.next_handle by {
                            let a2 = if a < i { a } else { a + 1 };
                            assert(t[a] == o[a2]);
                        }
                    }
                }
            },
            None => {},
        }
    }

    /// The status of request `h`, if it exists.
    pub fn get_status(&self, handle: LoadHandle) -> (r: Option<LoadStatus>)
        requires
            self.wf(),
        ensures
            r == if has_task(self@.tasks, handle) {
                Some(self@.tasks[task_index(self@.tasks, handle)].1.status)
            } else {
                None
            },
    {
        match self.find(handle) {
            Some(i) => {
                assert(self@.tasks[i as int] == self.tasks@[i as int].view());
                Some(self.tasks[i].task.status)
            },
            None => None,
        }
    }

    /// The progress of request `h` in percent; 0 when it does not exist.
    pub fn get_progress(&self, handle: LoadHandle) -> (r: u8)
        requires
            self.wf(),
        ensures
            r == if has_task(self@.tasks, handle) {
                self@.tasks[task_index(self@.tasks, handle)].1.progress
            } else {
                0
            },
    {
        match self.find(handle) {
            Some(i) => {
                assert(self@.tasks[i as int] == self.tasks@[i as int].view());
                self.tasks[i].task.progress
            },
            None => 0,
        }
    }

    /// The bytes loaded for request `h`, if it succeeded.
    pub fn get_data(&self, handle: LoadHandle) -> (r: Option<&[u8]>)
        requires
            self.wf(),
        ensures
            match r {
                Some(d) => has_task(self@.tasks, handle) && self@.tasks[task_index(self@.tasks, handle)].1.data
                    == Some(d@),
                None => !has_task(self@.tasks, handle) || self@.tasks[task_index(
                    self@.tasks,
                    handle,
                )].1.data is None,
            },
    {
        match self.find(handle) {
            Some(i) => {
                assert(self@.tasks[i as int] == self.tasks@[i as int].view());
                match &self.tasks[i].task.data {
                    Some(d) => Some(d.as_slice()),
                    None => None,
                }
            },
            None => None,
        }
    }

    /// The error of request `h`, if it failed.
    pub fn get_error(&self, handle: LoadHandle) -> (r: Option<&str>)
        requires
            self.wf(),
        ensures
            match r {
                Some(e) => has_task(self@.tasks, handle) && self@.tasks[task_index(self@.tasks, handle)].1.error
                    == Some(e@),
                None => !has_task(self@.tasks, handle) || self@.tasks[task_index(
                    self@.tasks,
                    handle,
                )].1.error is None,
            },
    {
        match self.find(handle) {
            Some(i) => {
                assert(self@.tasks[i as int] == self.tasks@[i as int].view());
                match &self.tasks[i].task.error {
                    Some(e) => Some(e.as_str()),
                    None => None,
                }
            },
            None => None,
        }
    }

    pub fn set_cache_enabled(&mut self, enabled: bool)
        requires
            old(self).wf(),
        ensures
            forall|p: int, u: Seq<char>, x: Result<Seq<u8>, Seq<char>>| #[trigger] final(self).provider_may_give(p, u, x)
                == old(self).provider_may_give(p, u, x),
            final(self).wf(),
            final(self)@ == (LoaderView { cache_enabled: enabled, ..old(self)@ }),
    {
        self.cache_enabled = enabled;
        proof {
            Self::lemma_same_providers(&*self, old(self));
        }
    }

    pub fn clear_cache(&mut self)
        requires
            old(self).wf(),
        ensures
            forall|p: int, u: Seq<char>, x: Result<Seq<u8>, Seq<char>>| #[trigger] final(self).provider_may_give(p, u, x)
                == old(self).provider_may_give(p, u, x),
            final(self).wf(),
            final(self)@ == (LoaderView { cache: Map::empty(), ..old(self)@ }),
    {
        self.cache = StrMap::new();
        assert(cache_view(self.cache@) =~= Map::<Seq<char>, Seq<u8>>::empty());
        proof {
            Self::lemma_same_providers(&*self, old(self));
        }
    }

    /// The cached bytes of `url`, if any.
    pub fn get_cached(&self, url: &str) -> (r: Option<&[u8]>)
        requires
            self.wf(),
        ensures
            match r {
                Some(d) => self@.cache.dom().contains(url@) && self@.cache[url@] == d@,
                None => !self@.cache.dom().contains(url@),
            },
    {
        match self.cache.get(url) {
            Some(d) => Some(d.as_slice()),
            None => None,
        }
    }

    /// Sets how many pending requests one pump starts.
    pub fn set_max_concurrent(&mut self, n: usize)
        requires
            old(self).wf(),
        ensures
            forall|p: int, u: Seq<char>, x: Result<Seq<u8>, Seq<char>>| #[trigger] final(self).provider_may_give(p, u, x)
                == old(self).provider_may_give(p, u, x),
            final(self).wf(),
            final(self)@ == (LoaderView { max_concurrent: n, ..old(self)@ }),
    {
        self.max_concurrent = n;
        proof {
            Self::lemma_same_providers(&*self, old(self));
        }
    }

    pub fn get_total_loaded(&self) -> (r: u64)
        ensures
            r == self@.total_loaded,
    {
        self.total_loaded
    }

    pub fn get_total_failed(&self) -> (r: u64)
        ensures
            r == self@.total_failed,
    {
        self.total_failed
    }

    /// The bytes for `url` from the first provider whose prefix starts it;
    /// an error naming the url when there is none.
    fn run_provider(&self, url: &str) -> (r: Result<Vec<u8>, String>)
        ensures
            provider_for(self@.providers, url@) < 0 ==> (r matches Err(e) && e@ == no_provider_error(url@)),
            provider_for(self@.providers, url@) >= 0 ==> self.provider_may_give(
                provider_for(self@.providers, url@),
                url@,
                result_view(r),
            ),
    {
        let mut i: usize = 0;
        while i < self.providers.len()
            invariant
                i <= self.providers@.len(),
                forall|j: int| 0 <= j < i ==> !starts_with(url@, #[trigger] self@.providers[j]),
            decreases self.providers@.len() - i,
        {
            let p = self.providers[i].prefix.as_str();
            assert(self@.providers[i as int] == self.providers@[i as int].prefix@);
            let empty = chars_of(p).len() == 0;
            proof {
                if p@.len() == 0 {
                    assert(url@.subrange(0, 0) =~= p@);
                }
            }
            if starts_with_str(url, p) || empty {
                proof {
                    lemma_provider_found(self@.providers, url@, i as int);
                }
                let res = self.providers[i].provider.provide(url);
                assert(self.providers@[i as int].provider.may_provide(url, res));
                return res;
            }
            i = i + 1;
        }
        proof {
            lemma_provider_for(self@.providers, url@);
        }
        let mut msg = String::new();
        push_str(&mut msg, "No provider for: ");
        push_str(&mut msg, url);
        Err(msg)
    }

    /// Stores the outcome of request `i` and calls its callbacks.
    fn finish_at(&mut self, i: usize, result: Result<Vec<u8>, String>)
        requires
            old(self).wf(),
            i < old(self)@.tasks.len(),
            old(self)@.total_loaded < u64::MAX,
            old(self)@.total_failed < u64::MAX,
        ensures
            final(self).wf(),
            final(self)@ == spec_finish(
                old(self)@,
                i as int,
                result_view(result),
            ),
            final(self).providers@ == old(self).providers@,
            final(self).tasks@.len() == old(self).tasks@.len(),
            forall|j: int| 0 <= j < old(self).tasks@.len() && j != i ==> final(self).tasks@[j] == old(self).tasks@[j],
            forall|j: int| 0 <= j < old(self).tasks@.len() ==> #[trigger] final(self).same_callbacks(old(self), j),
            final(self).told_outcome(i as int, result_view(result)),
    {
        let ghost v0 = self@;
        let ghost old_t = self.tasks@;
        let mut slot = self.tasks.remove(i);
        assert(slot.view() == v0.tasks[i as int]);
        let ghost old_c = self.cache@;
        match result {
            Ok(data) => {
                slot.task.status = LoadStatus::Success;
                slot.task.progress = 100;
                match &slot.task.on_progress {
                    Some(cb) => cb.cb.call(100),
                    None => {},
                }
                match &slot.task.on_success {
                    Some(cb) => cb.cb.call(data.as_slice()),
                    None => {},
                }
                if self.cache_enabled {
                    self.cache.insert(slot.task.url.as_str(), data.clone());
                    assert(cache_view(self.cache@) =~= cache_view(old_c).insert(slot.task.url@, data@));
                }
                slot.task.data = Some(data);
                self.total_loaded = self.total_loaded + 1;
            },
            Err(err) => {
                slot.task.status = LoadStatus::Failed;
                slot.task.error = Some(err.clone());
                match &slot.task.on_error {
                    Some(cb) => cb.cb.call(err.as_str()),
                    None => {},
                }
                self.total_failed = self.total_failed + 1;
            },
        }
        let ghost sv = slot.view();
        let ghost sl = slot;
        self.tasks.insert(i, slot);
        assert(self.tasks@ =~= old_t.update(i as int, sl));
        assert(task_views(self.tasks@) =~= v0.tasks.update(i as int, sv));
        assert(handles_ordered(self@.tasks, self.next_handle)) by {
            assert forall|a: int| 0 <= a < self@.tasks.len() implies self@.tasks[a].0 == v0.tasks[a].0 by {}
        }
    }

    /// Stores the outcome `result` for request `handle`: its bytes (cached
    /// when the cache is on), counted as loaded, or its error, counted as
    /// failed; the request's callbacks are called.
    pub fn finish_load(&mut self, handle: LoadHandle, result: Result<Vec<u8>, String>)
        requires
            old(self).wf(),
            old(self)@.total_loaded < u64::MAX,
            old(self)@.total_failed < u64::MAX,
        ensures
            forall|p: int, u: Seq<char>, x: Result<Seq<u8>, Seq<char>>| #[trigger] final(self).provider_may_give(p, u, x)
                == old(self).provider_may_give(p, u, x),
            final(self).wf(),
            final(self)@ == if has_task(old(self)@.tasks, handle) {
                spec_finish(
                    old(self)@,
                    task_index(old(self)@.tasks, handle),
                    match result {
                        Ok(d) => Ok(d@),
                        Err(e) => Err(e@),
                    },
                )
            } else {
                old(self)@
            },
            forall|j: int| 0 <= j < old(self)@.tasks.len() ==> #[trigger] final(self).same_callbacks(old(self), j),
            has_task(old(self)@.tasks, handle) ==> final(self).told_outcome(
                task_index(old(self)@.tasks, handle),
                match result {
                    Ok(d) => Ok(d@),
                    Err(e) => Err(e@),
                },
            ),
    {
        let ghost rv = result_view(result);
        match self.find(handle) {
            Some(i) => self.finish_at(i, result),
            None => {
                assert forall|j: int| 0 <= j < old(self)@.tasks.len() implies #[trigger] self.same_callbacks(old(self), j) by {}
            },
        }
    }

    /// Starts request `i`: its provider's answer, or the no-provider error,
    /// becomes its outcome.
    fn run_task(&mut self, i: usize) -> (r: Ghost<Result<Seq<u8>, Seq<char>>>)
        requires
            old(self).wf(),
            i < old(self)@.tasks.len(),
            old(self)@.total_loaded < u64::MAX,
            old(self)@.total_failed < u64::MAX,
        ensures
            final(self).wf(),
            final(self)@ == spec_finish(old(self)@, i as int, r@),
            provider_for(old(self)@.providers, old(self)@.tasks[i as int].1.url) < 0 ==> r@ == Err::<
                Seq<u8>,
                Seq<char>,
            >(no_provider_error(old(self)@.tasks[i as int].1.url)),
            provider_for(old(self)@.providers, old(self)@.tasks[i as int].1.url) >= 0 ==> old(
                self,
            ).provider_may_give(
                provider_for(old(self)@.providers, old(self)@.tasks[i as int].1.url),
                old(self)@.tasks[i as int].1.url,
                r@,
            ),
            final(self).providers@ == old(self).providers@,
            final(self).tasks@.len() == old(self).tasks@.len(),
            forall|j: int| 0 <= j < old(self).tasks@.len() && j != i ==> final(self).tasks@[j] == old(self).tasks@[j],
            forall|j: int| 0 <= j < old(self).tasks@.len() ==> #[trigger] final(self).same_callbacks(old(self), j),
            final(self).told_outcome(i as int, r@),
    {
        assert(self@.tasks[i as int] == self.tasks@[i as int].view());
        let url = self.tasks[i].task.url.clone();
        let result = self.run_provider(url.as_str());
        let ghost rv = result_view(result);
        self.finish_at(i, result);
        Ghost(rv)
    }

    /// Starts the pending requests in order, at most the concurrency limit of
    /// them: each gets the bytes of the first provider whose prefix starts
    /// its url (or fails when there is none), and its callbacks are called.
    pub fn pump(&mut self)
        requires
            old(self).wf(),
            old(self)@.total_loaded + pending_count(old(self)@.tasks) <= u64::MAX,
            old(self)@.total_failed + pending_count(old(self)@.tasks) <= u64::MAX,
        ensures
            forall|p: int, u: Seq<char>, x: Result<Seq<u8>, Seq<char>>| #[trigger] final(self).provider_may_give(p, u, x)
                == old(self).provider_may_give(p, u, x),
            final(self).wf(),
            exists|rs: Seq<Result<Seq<u8>, Seq<char>>>|
                final(self)@ == #[trigger] pump_upto(
                    old(self)@,
                    old(self)@.max_concurrent as nat,
                    old(self)@.tasks.len(),
                    rs,
                ) && old(self).results_from_providers(
                    old(self)@.max_concurrent as nat,
                    old(self)@.tasks.len(),
                    rs,
                ) && forall|j: int|
                    0 <= j < old(self)@.tasks.len() && pump_starts(old(self)@, old(self)@.max_concurrent as nat, j)
                        ==> #[trigger] final(self).told_outcome(j, pump_outcome(old(self)@, rs, j)),
            forall|j: int| 0 <= j < old(self)@.tasks.len() ==> #[trigger] final(self).same_callbacks(old(self), j),
    {
        let k = self.max_concurrent - self.loading_count;
        let ghost v0 = self@;
        let ghost kk = k as nat;
        let ghost mut rs: Seq<Result<Seq<u8>, Seq<char>>> = Seq::empty();
        let n = self.tasks.len();
        let mut processed: usize = 0;
        let mut i: usize = 0;
        proof {
            lemma_pending_count_bound(v0.tasks);
        }
        while i < n
            invariant
                n == v0.tasks.len(),
                self.tasks@.len() == n,
                i <= n,
                kk == v0.max_concurrent,
                k == v0.max_concurrent,
                self.wf(),
                self@ == pump_upto(v0, kk, i as nat, rs),
                processed == rs.len(),
                processed == if pending_count(v0.tasks.take(i as int)) < kk {
                    pending_count(v0.tasks.take(i as int))
                } else {
                    kk
                },
                forall|j: int| i <= j < n ==> #[trigger] self@.tasks[j] == v0.tasks[j],
                self@.providers == v0.providers,
                self.providers@ == old(self).providers@,
                v0 == old(self)@,
                old(self).results_from_providers(kk, i as nat, rs),
                v0.total_loaded + pending_count(v0.tasks) <= u64::MAX,
                v0.total_failed + pending_count(v0.tasks) <= u64::MAX,
                self@.total_loaded + pending_count(v0.tasks) <= u64::MAX + processed,
                self@.total_failed + pending_count(v0.tasks) <= u64::MAX + processed,
                pending_count(v0.tasks.take(i as int)) <= pending_count(v0.tasks),
                forall|j: int| 0 <= j < n ==> #[trigger] self.same_callbacks(old(self), j),
                forall|j: int|
                    0 <= j < i && pump_starts(v0, kk, j) ==> #[trigger] self.told_outcome(j, pump_outcome(v0, rs, j)),
            decreases n - i,
        {
            assert(self@.tasks.len() == self.tasks@.len());
            proof {
                assert(v0.tasks.take(i + 1).drop_last() =~= v0.tasks.take(i as int));
                lemma_pending_take_mono(v0.tasks, i as int + 1);
            }
            assert(self@.tasks[i as int] == self.tasks@[i as int].view());
            let ghost c = pending_count(v0.tasks.take(i as int));
            let ghost before = self@;
            if self.tasks[i].task.status == LoadStatus::Pending && processed < k {
                let ghost sb = *self;
                let r = self.run_task(i);
                proof {
                    let old_rs = rs;
                    rs = rs.push(r@);
                    lemma_pump_prefix(v0, kk, i as nat, old_rs, rs);
                    assert(rs[c as int] == r@);
                    let t = v0.tasks[i as int].1;
                    assert(before.tasks[i as int] == v0.tasks[i as int]);
                    assert(t.status == LoadStatus::Pending);
                    assert(c < kk);
                    let r_eff = if provider_for(v0.providers, t.url) < 0 {
                        Err(no_provider_error(t.url))
                    } else {
                        rs[c as int]
                    };
                    assert(r_eff == r@);
                    assert(pump_upto(v0, kk, i as nat, rs) == before);
                    assert(pump_upto(v0, kk, (i + 1) as nat, rs) == spec_finish(before, i as int, r_eff));
                    assert(self@ == pump_upto(v0, kk, (i + 1) as nat, rs));
                    assert(self@.tasks.len() == n);
                    lemma_results_prefix(*old(self), kk, i as nat, old_rs, rs);
                    assert(old(self).results_from_providers(kk, (i + 1) as nat, rs));
                    assert forall|j: int| 0 <= j < n implies #[trigger] self.same_callbacks(old(self), j) by {
                        assert(self.same_callbacks(&sb, j));
                        assert(sb.same_callbacks(old(self), j));
                    }
                    assert(c == old_rs.len());
                    assert(pump_outcome(v0, rs, i as int) == r_eff);
                    assert forall|j: int|
                        0 <= j < i + 1 && pump_starts(v0, kk, j) implies #[trigger] self.told_outcome(j, pump_outcome(v0, rs, j)) by {
                        if j < i {
                            assert(sb.told_outcome(j, pump_outcome(v0, old_rs, j)));
                            lemma_started_before(v0, kk, i as int, j);
                            assert(pending_count(v0.tasks.take(j)) < old_rs.len());
                            assert(pump_outcome(v0, rs, j) == pump_outcome(v0, old_rs, j));
                            assert(self.tasks@[j] == sb.tasks@[j]);
                            self.lemma_same_callbacks(&sb, j);
                        }
                    }
                }
                processed = processed + 1;
            } else {
                proof {
                    assert(pump_upto(v0, kk, (i + 1) as nat, rs) == pump_upto(v0, kk, i as nat, rs));
                    assert(old(self).results_from_providers(kk, (i + 1) as nat, rs));
                    assert(!pump_starts(v0, kk, i as int));
                    assert forall|j: int|
                        0 <= j < i + 1 && pump_starts(v0, kk, j) implies #[trigger] self.told_outcome(j, pump_outcome(v0, rs, j)) by {
                        assert(j != i);
                    }
                }
            }
            i = i + 1;
        }
        assert(v0.tasks.take(n as int) =~= v0.tasks);
    }

    /// How many requests wait for a pump.
    pub fn get_pending_count(&self) -> (r: usize)
        ensures
            r == pending_count(self@.tasks),
    {
        let mut n: usize = 0;
        let mut i: usize = 0;
        assert(self@.tasks.take(0) =~= Seq::<(LoadHandle, TaskView)>::empty());
        while i < self.tasks.len()
            invariant
                i <= self.tasks@.len(),
                n <= i,
                n == pending_count(self@.tasks.take(i as int)),
            decreases self.tasks@.len() - i,
        {
            assert(self@.tasks.take(i + 1).drop_last() =~= self@.tasks.take(i as int));
            assert(self@.tasks[i as int] == self.tasks@[i as int].view());
            if self.tasks[i].task.status == LoadStatus::Pending {
                n = n + 1;
            }
            i = i + 1;
        }
        assert(self@.tasks.take(i as int) =~= self@.tasks);
        n
    }
}

impl Default for ResourceLoader {
    fn default() -> (r: Self)
        ensures
            r.wf(),
            r@ == (LoaderView {
                tasks: Seq::empty(),
                providers: Seq::empty(),
                cache: Map::empty(),
                cache_enabled: true,
                max_concurrent: 8,
                total_loaded: 0,
                total_failed: 0,
                next_handle: 1,
            }),
    {
        Self::new()
    }
}

proof fn lemma_pending_update(s: Seq<(LoadHandle, TaskView)>, j: int, x: (LoadHandle, TaskView))
    requires
        0 <= j < s.len(),
        s[j].1.status == LoadStatus::Pending,
        x.1.status != LoadStatus::Pending,
    ensures
        pending_count(s.update(j, x)) + 1 == pending_count(s),
    decreases s.len(),
{
    let u = s.update(j, x);
    if j < s.len() - 1 {
        lemma_pending_update(s.drop_last(), j, x);
        assert(u.drop_last() =~= s.drop_last().update(j, x));
    } else {
        assert(u.drop_last() =~= s.drop_last());
    }
}

/// A pump starts as many pending requests as the concurrency limit allows,
/// and each one it starts ends loaded or failed: afterwards
/// `pending - min(limit, pending)` requests are still pending.
pub proof fn lemma_pump_starts_up_to_limit(
    v0: LoaderView,
    k: nat,
    i: nat,
    rs: Seq<Result<Seq<u8>, Seq<char>>>,
)
    requires
        i <= v0.tasks.len(),
    ensures
        pump_upto(v0, k, i, rs).tasks.len() == v0.tasks.len(),
        forall|j: int| 0 <= j < v0.tasks.len() ==> (#[trigger] pump_upto(v0, k, i, rs).tasks[j]).0 == v0.tasks[j].0,
        forall|j: int| i <= j < v0.tasks.len() ==> #[trigger] pump_upto(v0, k, i, rs).tasks[j] == v0.tasks[j],
        pending_count(pump_upto(v0, k, i, rs).tasks) + (if pending_count(v0.tasks.take(i as int)) < k {
            pending_count(v0.tasks.take(i as int))
        } else {
            k
        }) == pending_count(v0.tasks),
    decreases i,
{
    if i == 0 {
        assert(v0.tasks.take(0) =~= Seq::<(LoadHandle, TaskView)>::empty());
    } else {
        let j = (i - 1) as nat;
        lemma_pump_starts_up_to_limit(v0, k, j, rs);
        assert(v0.tasks.take(i as int).drop_last() =~= v0.tasks.take(j as int));
        let v = pump_upto(v0, k, j, rs);
        let c = pending_count(v0.tasks.take(j as int));
        let t = v0.tasks[j as int].1;
        if t.status == LoadStatus::Pending && c < k {
            let r = if provider_for(v0.providers, t.url) < 0 {
                Err(no_provider_error(t.url))
            } else {
                rs[c as int]
            };
            let nv = spec_finish(v, j as int, r);
            lemma_pending_update(v.tasks, j as int, nv.tasks[j as int]);
            assert(nv.tasks =~= v.tasks.update(j as int, nv.tasks[j as int]));
        }
    }
}

/// A pump settles each request it starts with that request's outcome (its
/// provider's bytes with progress 100, or the error) and leaves every other
/// request as it was.
pub proof fn lemma_pump_settles_started(
    v0: LoaderView,
    k: nat,
    i: nat,
    rs: Seq<Result<Seq<u8>, Seq<char>>>,
)
    requires
        i <= v0.tasks.len(),
    ensures
        forall|j: int|
            0 <= j < i ==> #[trigger] pump_upto(v0, k, i, rs).tasks[j] == if pump_starts(v0, k, j) {
                spec_finish(v0, j, pump_outcome(v0, rs, j)).tasks[j]
            } else {
                v0.tasks[j]
            },
    decreases i,
{
    if i > 0 {
        let jj = (i - 1) as nat;
        lemma_pump_settles_started(v0, k, jj, rs);
        lemma_pump_starts_up_to_limit(v0, k, jj, rs);
        let v = pump_upto(v0, k, jj, rs);
        assert(v.tasks[jj as int] == v0.tasks[jj as int]);
        let w = pump_upto(v0, k, i, rs);
        assert forall|j: int| 0 <= j < i implies #[trigger] w.tasks[j] == if pump_starts(v0, k, j) {
            spec_finish(v0, j, pump_outcome(v0, rs, j)).tasks[j]
        } else {
            v0.tasks[j]
        } by {
            if j < jj {
                assert(w.tasks[j] == v.tasks[j]);
            }
        }
    }
}

} // verus!
