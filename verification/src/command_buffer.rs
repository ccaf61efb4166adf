use std::collections::VecDeque;
use vstd::prelude::*;

verus! {

/// An undoable action. Implementors decide what executing and undoing do;
/// the buffer only decides which command runs when.
pub trait Command: Send + Sync {
    /// Whether the last of `execute` and `undo` run on this command was
    /// `execute`. A command that keeps no such record may leave it true.
    open spec fn ran_execute(&self) -> bool {
        true
    }

    /// Whether the last of `execute` and `undo` run on this command was
    /// `undo`. A command that keeps no such record may leave it true.
    open spec fn ran_undo(&self) -> bool {
        true
    }

    fn execute(&mut self)
        ensures
            final(self).ran_execute(),
    ;

    fn undo(&mut self)
        ensures
            final(self).ran_undo(),
    ;

    /// Whether `d` is a description this command gives of itself.
    open spec fn describes(&self, d: Seq<char>) -> bool {
        true
    }

    fn description(&self) -> (r: &str)
        ensures
            self.describes(r@),
    ;
}

/// A command in one of the buffer's stacks, with the ordinal of the
/// `execute` call that first ran it.
struct Entry {
    cmd: Box<dyn Command>,
    ordinal: Ghost<nat>,
}

/// The abstract state of a [`CommandBuffer`]: the commands that can be
/// undone (oldest first) and redone (the next one to redo last), each named
/// by the ordinal of the `execute` call that first ran it.
pub struct CommandBufferView {
    pub history: Seq<nat>,
    pub redo: Seq<nat>,
    pub max_history: nat,
    pub command_count: nat,
}

/// The history after recording command `n`: when it holds `max` or more
/// commands, the oldest one is dropped first.
pub open spec fn pushed_history(history: Seq<nat>, max: nat, n: nat) -> Seq<nat> {
    if history.len() >= max && history.len() > 0 {
        history.drop_first().push(n)
    } else {
        history.push(n)
    }
}

/// The effect of executing a new command.
pub open spec fn spec_execute(v: CommandBufferView) -> CommandBufferView {
    CommandBufferView {
        history: pushed_history(v.history, v.max_history, v.command_count),
        redo: Seq::empty(),
        max_history: v.max_history,
        command_count: v.command_count + 1,
    }
}

/// The effect of a successful `undo`: the newest command moves to the redo stack.
pub open spec fn spec_undo(v: CommandBufferView) -> CommandBufferView {
    CommandBufferView {
        history: v.history.drop_last(),
        redo: v.redo.push(v.history.last()),
        max_history: v.max_history,
        command_count: v.command_count,
    }
}

/// The effect of a successful `redo`: the last undone command moves back.
pub open spec fn spec_redo(v: CommandBufferView) -> CommandBufferView {
    CommandBufferView {
        history: v.history.push(v.redo.last()),
        redo: v.redo.drop_last(),
        max_history: v.max_history,
        command_count: v.command_count,
    }
}

/// The history trimmed to its `max` newest commands.
pub open spec fn trimmed_history(history: Seq<nat>, max: nat) -> Seq<nat> {
    if history.len() > max {
        history.skip(history.len() - max)
    } else {
        history
    }
}

/// Undo/redo history of executed commands.
pub struct CommandBuffer {
    history: VecDeque<Entry>,
    redo_stack: Vec<Entry>,
    max_history: usize,
    executing: bool,
    command_count: u64,
}

impl View for CommandBuffer {
    type V = CommandBufferView;

    closed spec fn view(&self) -> CommandBufferView {
        CommandBufferView {
            history: self.history@.map_values(|e: Entry| e.ordinal@),
            redo: self.redo_stack@.map_values(|e: Entry| e.ordinal@),
            max_history: self.max_history as nat,
            command_count: self.command_count as nat,
        }
    }
}

impl CommandBuffer {
    /// Whether the `i`-th command to undo (oldest first) last ran `execute`.
    pub closed spec fn history_executed(&self, i: int) -> bool {
        self.history@[i].cmd.ran_execute()
    }

    /// Whether the `i`-th command to redo (the next one last) last ran `undo`.
    pub closed spec fn redo_undone(&self, i: int) -> bool {
        self.redo_stack@[i].cmd.ran_undo()
    }

    /// Whether the `i`-th command to undo (oldest first) describes itself as `d`.
    pub closed spec fn history_describes(&self, i: int, d: Seq<char>) -> bool {
        self.history@[i].cmd.describes(d)
    }

    /// Every command to undo last ran `execute`, every command to redo last
    /// ran `undo`.
    pub open spec fn settled(&self) -> bool {
        &&& forall|i: int| 0 <= i < self@.history.len() ==> #[trigger] self.history_executed(i)
        &&& forall|i: int| 0 <= i < self@.redo.len() ==> #[trigger] self.redo_undone(i)
    }

    /// An empty buffer that keeps at most `max_history` commands to undo.
    pub fn new(max_history: usize) -> (r: Self)
        ensures
            r@.history.len() == 0,
            r@.redo.len() == 0,
            r@.max_history == max_history,
            r@.command_count == 0,
            r.settled(),
    {
        let r = CommandBuffer {
            history: VecDeque::new(),
            redo_stack: Vec::new(),
            max_history,
            executing: false,
            command_count: 0,
        };
        assert(r@.history =~= Seq::empty());
        assert(r@.redo =~= Seq::empty());
        r
    }

    /// Runs `cmd` and records it for undo; whatever could be redone is dropped.
    pub fn execute<C: Command + 'static>(&mut self, cmd: C)
        requires
            old(self)@.command_count < u64::MAX,
        ensures
            final(self)@ == spec_execute(old(self)@),
            final(self).history_executed(final(self)@.history.len() - 1),
            old(self).settled() ==> final(self).settled(),
            forall|i: int, d: Seq<char>|
                0 <= i < final(self)@.history.len() - 1 ==> #[trigger] final(self).history_describes(i, d)
                    == old(self).history_describes(i + old(self)@.history.len() + 1 - final(self)@.history.len(), d),
    {
        let boxed: Box<dyn Command> = Box::new(cmd);
        self.execute_boxed(boxed);
    }

    /// Runs an already boxed command and records it for undo; whatever could
    /// be redone is dropped.
    pub fn execute_boxed(&mut self, cmd: Box<dyn Command>)
        requires
            old(self)@.command_count < u64::MAX,
        ensures
            final(self)@ == spec_execute(old(self)@),
            final(self).history_executed(final(self)@.history.len() - 1),
            old(self).settled() ==> final(self).settled(),
            forall|i: int, d: Seq<char>|
                0 <= i < final(self)@.history.len() - 1 ==> #[trigger] final(self).history_describes(i, d)
                    == old(self).history_describes(i + old(self)@.history.len() + 1 - final(self)@.history.len(), d),
    {
        let ghost n = self.command_count as nat;
        let mut entry = Entry { cmd, ordinal: Ghost(n) };
        entry.cmd.execute();
        self.record(entry);
    }

    fn record(&mut self, entry: Entry)
        requires
            old(self)@.command_count < u64::MAX,
            entry.ordinal@ == old(self)@.command_count,
            entry.cmd.ran_execute(),
        ensures
            final(self)@ == spec_execute(old(self)@),
            final(self).history_executed(final(self)@.history.len() - 1),
            old(self).settled() ==> final(self).settled(),
            forall|i: int, d: Seq<char>|
                0 <= i < final(self)@.history.len() - 1 ==> #[trigger] final(self).history_describes(i, d)
                    == old(self).history_describes(i + old(self)@.history.len() + 1 - final(self)@.history.len(), d),
    {
        self.redo_stack.clear();
        let ghost old_h = self.history@;
        let ghost e = entry;
        self.push_to_history(entry);
        self.command_count = self.command_count + 1;
        assert(self@.redo =~= Seq::empty());
        proof {
            assert forall|i: int, d: Seq<char>| 0 <= i < self@.history.len() - 1 implies #[trigger] self.history_describes(i, d)
                == old(self).history_describes(i + old_h.len() + 1 - self@.history.len(), d) by {
                if old_h.len() >= self.max_history && old_h.len() > 0 {
                    assert(self.history@ == old_h.drop_first().push(e));
                    assert(self.history@[i] == old_h[i + 1]);
                } else {
                    assert(self.history@ == old_h.push(e));
                    assert(self.history@[i] == old_h[i]);
                }
            }
            if old(self).settled() {
                assert forall|i: int| 0 <= i < self@.history.len() implies #[trigger] self.history_executed(i) by {
                    if i < self@.history.len() - 1 {
                        if old_h.len() >= self.max_history && old_h.len() > 0 {
                            assert(self.history@ == old_h.drop_first().push(e));
                            assert(self.history@[i] == old_h[i + 1]);
                            assert(old(self).history_executed(i + 1));
                        } else {
                            assert(self.history@ == old_h.push(e));
                            assert(self.history@[i] == old_h[i]);
                            assert(old(self).history_executed(i));
                        }
                    }
                }
            }
        }
    }

    fn push_to_history(&mut self, entry: Entry)
        ensures
            final(self)@.history == pushed_history(
                old(self)@.history,
                old(self)@.max_history,
                entry.ordinal@,
            ),
            final(self).history@ == if old(self).history@.len() >= old(self).max_history && old(self).history@.len()
                > 0 {
                old(self).history@.drop_first().push(entry)
            } else {
                old(self).history@.push(entry)
            },
            final(self).redo_stack@ == old(self).redo_stack@,
            final(self).max_history == old(self).max_history,
            final(self).command_count == old(self).command_count,
    {
        let ghost old_h = self.history@;
        if self.history.len() >= self.max_history {
            let _ = self.history.pop_front();
        }
        self.history.push_back(entry);
        proof {
            let f = |e: Entry| e.ordinal@;
            if old_h.len() >= self.max_history && old_h.len() > 0 {
                assert(self.history@ == old_h.drop_first().push(entry));
                assert(self.history@.map_values(f) =~= old_h.map_values(f).drop_first().push(
                    entry.ordinal@,
                ));
            } else {
                assert(self.history@ == old_h.push(entry));
                assert(self.history@.map_values(f) =~= old_h.map_values(f).push(entry.ordinal@));
            }
        }
    }

    /// Undoes the newest command and keeps it for redo; `false` when there is
    /// nothing to undo.
    pub fn undo(&mut self) -> (r: bool)
        ensures
            r == (old(self)@.history.len() > 0),
            r ==> final(self)@ == spec_undo(old(self)@),
            r ==> final(self).redo_undone(final(self)@.redo.len() - 1),
            !r ==> final(self)@ == old(self)@,
            old(self).settled() ==> final(self).settled(),
            forall|i: int, d: Seq<char>|
                0 <= i < final(self)@.history.len() && i < old(self)@.history.len() ==> #[trigger] final(self).history_describes(i, d)
                    == old(self).history_describes(i, d),
    {
        let ghost old_h = self.history@;
        let ghost old_r = self.redo_stack@;
        match self.history.pop_back() {
            Some(entry) => {
                let mut entry = entry;
                entry.cmd.undo();
                self.redo_stack.push(entry);
                proof {
                    let f = |e: Entry| e.ordinal@;
                    assert(self.history@ == old_h.drop_last());
                    assert(self.history@.map_values(f) =~= old_h.map_values(f).drop_last());
                    assert(self.redo_stack@ == old_r.push(entry));
                    assert(self.redo_stack@.map_values(f) =~= old_r.map_values(f).push(
                        old_h.map_values(f).last(),
                    ));
                    if old(self).settled() {
                        assert forall|i: int| 0 <= i < self@.history.len() implies #[trigger] self.history_executed(i) by {
                            assert(self.history@[i] == old_h[i]);
                            assert(old(self).history_executed(i));
                        }
                        assert forall|i: int| 0 <= i < self@.redo.len() implies #[trigger] self.redo_undone(i) by {
                            if i < old_r.len() {
                                assert(self.redo_stack@[i] == old_r[i]);
                                assert(old(self).redo_undone(i));
                            } else {
                                assert(self.redo_stack@[i] == entry);
                            }
                        }
                    }
                }
                proof {
                    assert forall|i: int, d: Seq<char>| 0 <= i < self@.history.len() && i < old_h.len() implies #[trigger] self.history_describes(i, d)
                        == old(self).history_describes(i, d) by {
                        assert(self.history@[i] == old_h[i]);
                    }
                }
                true
            },
            None => {
                proof {
                    if old(self).settled() {
                        assert forall|i: int| 0 <= i < self@.history.len() implies #[trigger] self.history_executed(i) by {
                            assert(self.history@[i] == old_h[i]);
                            assert(old(self).history_executed(i));
                        }
                        assert forall|i: int| 0 <= i < self@.redo.len() implies #[trigger] self.redo_undone(i) by {
                            assert(self.redo_stack@[i] == old_r[i]);
                            assert(old(self).redo_undone(i));
                        }
                    }
                }
                proof {
                    assert forall|i: int, d: Seq<char>| 0 <= i < self@.history.len() && i < old_h.len() implies #[trigger] self.history_describes(i, d)
                        == old(self).history_describes(i, d) by {
                        assert(self.history@[i] == old_h[i]);
                    }
                }
                false
            },
        }
    }

    /// Re-executes the last undone command; `false` when there is nothing to redo.
    pub fn redo(&mut self) -> (r: bool)
        ensures
            r == (old(self)@.redo.len() > 0),
            r ==> final(self)@ == spec_redo(old(self)@),
            r ==> final(self).history_executed(final(self)@.history.len() - 1),
            !r ==> final(self)@ == old(self)@,
            old(self).settled() ==> final(self).settled(),
            forall|i: int, d: Seq<char>|
                0 <= i < final(self)@.history.len() && i < old(self)@.history.len() ==> #[trigger] final(self).history_describes(i, d)
                    == old(self).history_describes(i, d),
    {
        let ghost old_h = self.history@;
        let ghost old_r = self.redo_stack@;
        match self.redo_stack.pop() {
            Some(entry) => {
                let mut entry = entry;
                entry.cmd.execute();
                self.history.push_back(entry);
                proof {
                    let f = |e: Entry| e.ordinal@;
                    assert(self.redo_stack@ == old_r.drop_last());
                    assert(self.redo_stack@.map_values(f) =~= old_r.map_values(f).drop_last());
                    assert(self.history@ == old_h.push(entry));
                    assert(self.history@.map_values(f) =~= old_h.map_values(f).push(
                        old_r.map_values(f).last(),
                    ));
                    if old(self).settled() {
                        assert forall|i: int| 0 <= i < self@.history.len() implies #[trigger] self.history_executed(i) by {
                            if i < old_h.len() {
                                assert(self.history@[i] == old_h[i]);
                                assert(old(self).history_executed(i));
                            } else {
                                assert(self.history@[i] == entry);
                            }
                        }
                        assert forall|i: int| 0 <= i < self@.redo.len() implies #[trigger] self.redo_undone(i) by {
                            assert(self.redo_stack@[i] == old_r[i]);
                            assert(old(self).redo_undone(i));
                        }
                    }
                }
                proof {
                    assert forall|i: int, d: Seq<char>| 0 <= i < self@.history.len() && i < old_h.len() implies #[trigger] self.history_describes(i, d)
                        == old(self).history_describes(i, d) by {
                        assert(self.history@[i] == old_h[i]);
                    }
                }
                true
            },
            None => {
                proof {
                    if old(self).settled() {
                        assert forall|i: int| 0 <= i < self@.history.len() implies #[trigger] self.history_executed(i) by {
                            assert(self.history@[i] == old_h[i]);
                            assert(old(self).history_executed(i));
                        }
                        assert forall|i: int| 0 <= i < self@.redo.len() implies #[trigger] self.redo_undone(i) by {
                            assert(self.redo_stack@[i] == old_r[i]);
                            assert(old(self).redo_undone(i));
                        }
                    }
                }
                proof {
                    assert forall|i: int, d: Seq<char>| 0 <= i < self@.history.len() && i < old_h.len() implies #[trigger] self.history_describes(i, d)
                        == old(self).history_describes(i, d) by {
                        assert(self.history@[i] == old_h[i]);
                    }
                }
                false
            },
        }
    }

    pub fn undo_count(&self) -> (r: usize)
        ensures
            r == self@.history.len(),
    {
        self.history.len()
    }

    pub fn redo_count(&self) -> (r: usize)
        ensures
            r == self@.redo.len(),
    {
        self.redo_stack.len()
    }

    pub fn can_undo(&self) -> (r: bool)
        ensures
            r == (self@.history.len() > 0),
    {
        self.history.len() > 0
    }

    pub fn can_redo(&self) -> (r: bool)
        ensures
            r == (self@.redo.len() > 0),
    {
        !self.redo_stack.is_empty()
    }

    /// Forgets every command, to undo and to redo.
    pub fn clear(&mut self)
        ensures
            final(self)@ == (CommandBufferView {
                history: Seq::empty(),
                redo: Seq::empty(),
                ..old(self)@
            }),
            final(self).settled(),
    {
        self.history.clear();
        self.redo_stack.clear();
        assert(self@.history =~= Seq::empty());
        assert(self@.redo =~= Seq::empty());
    }

    /// Forgets the commands that could be redone.
    pub fn clear_redo(&mut self)
        ensures
            final(self)@ == (CommandBufferView { redo: Seq::empty(), ..old(self)@ }),
            old(self).settled() ==> final(self).settled(),
    {
        self.redo_stack.clear();
        assert(self@.redo =~= Seq::empty());
        proof {
            if old(self).settled() {
                assert forall|i: int| 0 <= i < self@.history.len() implies #[trigger] self.history_executed(i) by {
                    assert(old(self).history_executed(i));
                }
            }
        }
    }

    /// How many commands were executed (redos not counted).
    pub fn get_command_count(&self) -> (r: u64)
        ensures
            r == self@.command_count,
    {
        self.command_count
    }

    pub fn get_max_history(&self) -> (r: usize)
        ensures
            r == self@.max_history,
    {
        self.max_history
    }

    /// Sets the limit and drops the oldest commands beyond it.
    pub fn set_max_history(&mut self, max: usize)
        ensures
            final(self)@ == (CommandBufferView {
                history: trimmed_history(old(self)@.history, max as nat),
                max_history: max as nat,
                ..old(self)@
            }),
            forall|i: int|
                0 <= i < final(self)@.history.len() ==> #[trigger] final(self).history_executed(i)
                    == old(self).history_executed(i + old(self)@.history.len() - final(self)@.history.len()),
            forall|i: int| 0 <= i < final(self)@.redo.len() ==> #[trigger] final(self).redo_undone(i) == old(self).redo_undone(i),
            forall|i: int, d: Seq<char>|
                0 <= i < final(self)@.history.len() ==> #[trigger] final(self).history_describes(i, d)
                    == old(self).history_describes(i + old(self)@.history.len() - final(self)@.history.len(), d),
            old(self).settled() ==> final(self).settled(),
    {
        self.max_history = max;
        let ghost old_h = self.history@;
        let ghost f = |e: Entry| e.ordinal@;
        while self.history.len() > max
            invariant
                self.max_history == max,
                self.redo_stack@ == old(self).redo_stack@,
                self.command_count == old(self).command_count,
                old_h == old(self).history@,
                f == (|e: Entry| e.ordinal@),
                self.history@.len() <= old_h.len(),
                self.history@ == old_h.skip(old_h.len() - self.history@.len()),
                old_h.len() > max ==> self.history@.len() >= max,
                old_h.len() <= max ==> self.history@ == old_h,
            decreases self.history@.len(),
        {
            let _ = self.history.pop_front();
            assert(self.history@ =~= old_h.skip(old_h.len() - self.history@.len()));
        }
        proof {
            if old_h.len() > max {
                assert(self.history@.map_values(f) =~= old_h.map_values(f).skip(
                    old_h.len() - max,
                ));
            }
            let sh = old_h.len() - self.history@.len();
            assert forall|i: int| 0 <= i < self.history@.len() implies self.history@[i] == old_h[i + sh] by {}
            assert forall|i: int, d: Seq<char>| 0 <= i < self@.history.len() implies #[trigger] self.history_describes(i, d)
                == old(self).history_describes(i + sh, d) by {
                assert(self.history@[i] == old_h[i + sh]);
            }
            if old(self).settled() {
                assert forall|i: int| 0 <= i < self@.history.len() implies #[trigger] self.history_executed(i) by {
                    assert(self.history@[i] == old_h[i + sh]);
                    assert(old(self).history_executed(i + sh));
                }
                assert forall|i: int| 0 <= i < self@.redo.len() implies #[trigger] self.redo_undone(i) by {
                    assert(old(self).redo_undone(i));
                }
            }
        }
    }

    /// The description of each command that can be undone, oldest first.
    pub fn get_history_descriptions(&self) -> (r: Vec<&str>)
        ensures
            r@.len() == self@.history.len(),
            forall|i: int| 0 <= i < r@.len() ==> #[trigger] self.history_describes(i, r@[i]@),
    {
        let mut r: Vec<&str> = Vec::new();
        let mut i: usize = 0;
        while i < self.history.len()
            invariant
                i <= self.history@.len(),
                r@.len() == i,
                forall|j: int| 0 <= j < i ==> #[trigger] self.history_describes(j, r@[j]@),
            decreases self.history@.len() - i,
        {
            let d = self.history[i].cmd.description();
            r.push(d);
            i = i + 1;
        }
        r
    }
}

impl Default for CommandBuffer {
    fn default() -> (r: Self)
        ensures
            r@.history.len() == 0,
            r@.redo.len() == 0,
            r@.max_history == 100,
            r@.command_count == 0,
    {
        Self::new(100)
    }
}

/// Undoing a command and then redoing it gives back the same history and
/// redo stack.
pub proof fn lemma_redo_after_undo(v: CommandBufferView)
    requires
        v.history.len() > 0,
    ensures
        spec_redo(spec_undo(v)) == v,
{
    assert(spec_redo(spec_undo(v)).history =~= v.history);
    assert(spec_redo(spec_undo(v)).redo =~= v.redo);
}

/// Redoing a command and then undoing it gives back the same history and
/// redo stack.
pub proof fn lemma_undo_after_redo(v: CommandBufferView)
    requires
        v.redo.len() > 0,
    ensures
        spec_undo(spec_redo(v)) == v,
{
    assert(spec_undo(spec_redo(v)).history =~= v.history);
    assert(spec_undo(spec_redo(v)).redo =~= v.redo);
}

/// Executing a command leaves nothing to redo, and the command just run is
/// the one an `undo` would take back.
pub proof fn lemma_execute_then_undo(v: CommandBufferView)
    ensures
        spec_execute(v).redo.len() == 0,
        spec_execute(v).history.len() > 0,
        spec_execute(v).history.last() == v.command_count,
        spec_undo(spec_execute(v)).redo == seq![v.command_count],
{
    assert(spec_undo(spec_execute(v)).redo =~= seq![v.command_count]);
}

/// With a limit of at least one, executing keeps the history within the limit.
pub proof fn lemma_execute_respects_limit(v: CommandBufferView)
    requires
        v.max_history >= 1,
        v.history.len() <= v.max_history,
    ensures
        spec_execute(v).history.len() <= v.max_history,
{
}

/// Shrinking the limit leaves exactly the newest commands, in order.
pub proof fn lemma_trim_keeps_newest(history: Seq<nat>, max: nat)
    ensures
        trimmed_history(history, max).len() == if history.len() > max {
            max
        } else {
            history.len()
        },
        trimmed_history(history, max).len() <= max || history.len() <= max,
        forall|i: int|
            0 <= i < trimmed_history(history, max).len() ==> #[trigger] trimmed_history(
                history,
                max,
            )[i] == history[history.len() - trimmed_history(history, max).len() + i],
{
}

/// A command with a description whose execution and undo are the two
/// closures given.
pub struct LambdaCommand<E: Fn() + Send + Sync, U: Fn() + Send + Sync> {
    desc: String,
    execute_fn: E,
    undo_fn: U,
    last_run: Ghost<Option<bool>>,
}

impl<E: Fn() + Send + Sync, U: Fn() + Send + Sync> LambdaCommand<E, U> {
    #[verifier::type_invariant]
    closed spec fn callable(self) -> bool {
        &&& call_requires(self.execute_fn, ())
        &&& call_requires(self.undo_fn, ())
    }

    /// The text it is described by.
    pub closed spec fn desc(&self) -> Seq<char> {
        self.desc@
    }

    pub closed spec fn execute_action(&self) -> E {
        self.execute_fn
    }

    pub closed spec fn undo_action(&self) -> U {
        self.undo_fn
    }

    pub fn new(desc: &str, execute: E, undo: U) -> (r: Self)
        requires
            call_requires(execute, ()),
            call_requires(undo, ()),
        ensures
            r.desc() == desc@,
            r.execute_action() == execute,
            r.undo_action() == undo,
            !r.ran_execute(),
            !r.ran_undo(),
    {
        LambdaCommand { desc: desc.to_string(), execute_fn: execute, undo_fn: undo, last_run: Ghost(None) }
    }
}

impl<E: Fn() + Send + Sync, U: Fn() + Send + Sync> Command for LambdaCommand<E, U> {
    /// Whether the execute closure ran after the undo closure last did.
    closed spec fn ran_execute(&self) -> bool {
        self.last_run@ == Some(true)
    }

    /// Whether the undo closure ran after the execute closure last did.
    /// A lambda command describes itself by the text it was made with.
    closed spec fn describes(&self, d: Seq<char>) -> bool {
        d == self.desc()
    }

    closed spec fn ran_undo(&self) -> bool {
        self.last_run@ == Some(false)
    }

    /// Runs the execute closure; the command otherwise stays as it is.
    fn execute(&mut self)
        ensures
            call_ensures(old(self).execute_action(), (), ()),
            final(self).desc() == old(self).desc(),
            final(self).execute_action() == old(self).execute_action(),
            final(self).undo_action() == old(self).undo_action(),
            !final(self).ran_undo(),
    {
        proof {
            use_type_invariant(&*self);
        }
        (self.execute_fn)();
        self.last_run = Ghost(Some(true));
    }

    /// Runs the undo closure; the command otherwise stays as it is.
    fn undo(&mut self)
        ensures
            call_ensures(old(self).undo_action(), (), ()),
            final(self).desc() == old(self).desc(),
            final(self).execute_action() == old(self).execute_action(),
            final(self).undo_action() == old(self).undo_action(),
            !final(self).ran_execute(),
    {
        proof {
            use_type_invariant(&*self);
        }
        (self.undo_fn)();
        self.last_run = Ghost(Some(false));
    }

    fn description(&self) -> (r: &str)
        ensures
            r@ == self.desc(),
    {
        self.desc.as_str()
    }
}

} // verus!
