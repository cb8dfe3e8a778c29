//! Computations that spawn sub-tasks, and the scheduler that runs them with
//! their root on one thread of control.

use vstd::prelude::*;
use super::block::{Coroutine, Never, Step};
use super::computation::{settle, settled};
use super::context::Context;
use super::table::{ascending, entries_with, keys_of, with_id, Table};

verus! {

/// A spawn descriptor: it names the task it describes.
pub trait TaskId {
    fn task_id(&self) -> u64;
}

/// A request of a computation under a scheduler: a spawn descriptor, an
/// effect, or neither.
pub trait Request where Self: Sized {
    type Task: TaskId;
    type Effect;

    fn is_task(self) -> Result<Self::Task, Self>;

    fn is_effect(self) -> Result<Self::Effect, Self>;
}

impl TaskId for Never {
    fn task_id(&self) -> u64 {
        0
    }
}

impl Request for Never {
    type Task = Never;
    type Effect = Never;

    fn is_task(self) -> Result<Never, Never> {
        Err(self)
    }

    fn is_effect(self) -> Result<Never, Never> {
        Err(self)
    }
}

/// What a sub-task yields: a request to pass outwards, or a value for the
/// root's mailbox.
#[derive(Debug, PartialEq, Eq)]
pub enum TaskYield<Y, O> {
    Forward(Y),
    Output(O),
}

/// A spawned sub-task. It gets no mailbox of its own: what it yields goes
/// outwards (a forwarded request) or to the root's mailbox (an output).
pub trait SubTask {
    type Yield;

    fn poll(&mut self) -> Step<Self::Yield>;
}

/// Builds the sub-task that a spawn descriptor describes.
pub trait MakeTask<D, S> {
    fn make_task(&self, descriptor: D) -> S;
}

/// Serves effects for a scheduled computation: answers with a value for the
/// mailbox, or passes on a request of the next layer's type.
pub trait EffectHandler<I, O> {
    type Next;

    fn handle(&mut self, effect: I) -> Result<O, Self::Next>;
}

/// The state of a scheduler as its decisions see it.
pub ghost struct Sched {
    /// The root has not completed.
    pub root_alive: bool,
    /// The ids of the live tasks, in the order they are polled.
    pub ids: Seq<u64>,
    /// The root has had its turn in this tick and tasks are being polled.
    pub polling: bool,
    /// The position of the next task to poll in this tick.
    pub cursor: nat,
    /// The number of ticks ended so far.
    pub ticks: nat,
    /// The root has completed and no task is left.
    pub finished: bool,
}

/// The well-formed states: ids ascending, the cursor inside the table, and
/// `finished` only with nothing left to run.
pub open spec fn sched_wf(v: Sched) -> bool {
    &&& ascending(v.ids)
    &&& v.cursor <= v.ids.len()
    &&& !v.polling ==> v.cursor == 0
    &&& v.finished ==> !v.root_alive && v.ids.len() == 0
}

/// Polling starts after the root's turn.
pub open spec fn begin_polling(v: Sched) -> Sched {
    Sched { polling: true, cursor: 0, ..v }
}

/// The end of a tick, once every task has been polled: the next tick starts
/// with the root's turn if the root is alive, else with polling; with the
/// root completed and no task left the scheduler is finished.
pub open spec fn tick_over(v: Sched) -> Sched {
    if v.polling && v.cursor >= v.ids.len() {
        Sched {
            polling: !v.root_alive,
            cursor: 0,
            ticks: v.ticks + 1,
            finished: !v.root_alive && v.ids.len() == 0,
            ..v
        }
    } else {
        v
    }
}

/// The state after the root's turn ended with the root completing.
pub open spec fn after_root_done(v: Sched) -> Sched {
    tick_over(begin_polling(Sched { root_alive: false, ..v }))
}

/// The state after the root's turn ended with a spawn of task `id`.
pub open spec fn after_spawn(v: Sched, id: u64) -> Sched {
    tick_over(begin_polling(Sched { ids: with_id(v.ids, id), ..v }))
}

/// The state after the root's turn ended with a request to pass outwards.
pub open spec fn after_forward(v: Sched) -> Sched {
    tick_over(begin_polling(v))
}

/// The state after the task at the cursor was polled: a completed task
/// leaves the table, a task that yielded stays and the cursor moves on, a
/// task that only made progress is polled again.
pub open spec fn after_task<Y, O>(v: Sched, s: Step<TaskYield<Y, O>>) -> Sched {
    tick_over(
        match s {
            Step::Complete => Sched { ids: v.ids.remove(v.cursor as int), ..v },
            Step::Busy => v,
            Step::Yielded(_) => Sched { cursor: v.cursor + 1, ..v },
        },
    )
}

/// The root's mailbox after a task's step: an output overwrites it.
pub open spec fn mailbox_after<Y, O>(slot: Option<O>, s: Step<TaskYield<Y, O>>) -> Option<O> {
    match s {
        Step::Yielded(TaskYield::Output(x)) => Some(x),
        _ => slot,
    }
}

/// What the scheduler reports for a task's step: a forwarded request is
/// surfaced; the run completes when nothing is left; otherwise it has made
/// progress.
pub open spec fn task_reply<Y, O>(s: Step<TaskYield<Y, O>>, finished: bool) -> Step<Y> {
    match s {
        Step::Yielded(TaskYield::Forward(y)) => Step::Yielded(y),
        _ => if finished {
            Step::Complete
        } else {
            Step::Busy
        },
    }
}

/// A root that completes on its first turn, with no task spawned, finishes
/// the scheduler at the end of that same tick.
pub proof fn lemma_lone_root_one_tick(v: Sched)
    requires
        sched_wf(v),
        v.root_alive,
        !v.polling,
        v.ids.len() == 0,
    ensures
        after_root_done(v).finished,
        after_root_done(v).ticks == v.ticks + 1,
{
}

/// Two tasks that both output in one tick: the one polled later has the
/// larger id, and its value is what the root's mailbox holds.
pub proof fn lemma_later_output_wins<Y, O>(v: Sched, slot: Option<O>, a: O, b: O)
    requires
        sched_wf(v),
        v.polling,
        v.cursor + 1 < v.ids.len(),
    ensures
        ({
            let w = after_task(v, Step::<TaskYield<Y, O>>::Yielded(TaskYield::Output(a)));
            &&& w.polling
            &&& w.ticks == v.ticks
            &&& w.cursor == v.cursor + 1
            &&& v.ids[v.cursor as int] < w.ids[w.cursor as int]
        }),
        mailbox_after(
            mailbox_after(slot, Step::<TaskYield<Y, O>>::Yielded(TaskYield::Output(a))),
            Step::<TaskYield<Y, O>>::Yielded(TaskYield::Output(b)),
        ) == Some(b),
{
}

/// A request that the root passes outwards is surfaced before any task is
/// polled in that tick: the table is untouched and polling starts from the
/// first task afterwards.
pub proof fn lemma_forward_before_tasks(v: Sched)
    requires
        sched_wf(v),
        v.root_alive,
        !v.polling,
        v.ids.len() > 0,
    ensures
        after_forward(v).ids == v.ids,
        after_forward(v).polling,
        after_forward(v).cursor == 0,
        after_forward(v).ticks == v.ticks,
{
}

/// A task that output `x` and then completes: the mailbox holds `x` after
/// its completion, and its id is gone from the table.
pub proof fn lemma_output_then_done<Y, O>(v: Sched, slot: Option<O>, x: O)
    requires
        sched_wf(v),
        v.polling,
        v.cursor < v.ids.len(),
    ensures
        mailbox_after(
            mailbox_after(slot, Step::<TaskYield<Y, O>>::Yielded(TaskYield::Output(x))),
            Step::<TaskYield<Y, O>>::Complete,
        ) == Some(x),
        !after_task(v, Step::<TaskYield<Y, O>>::Complete).ids.contains(v.ids[v.cursor as int]),
{
    let id = v.ids[v.cursor as int];
    let rest = v.ids.remove(v.cursor as int);
    if rest.contains(id) {
        let k = choose|k: int| 0 <= k < rest.len() && rest[k] == id;
        if k < v.cursor {
            assert(v.ids[k] == id);
        } else {
            assert(v.ids[k + 1] == id);
        }
    }
}

/// A root computation run together with the sub-tasks it spawns.
pub struct Scheduler<R, S, F> {
    root: Option<R>,
    table: Table<S>,
    polling: bool,
    cursor: usize,
    finished: bool,
    maker: F,
    ticks: Ghost<nat>,
}

impl<R, S, F> View for Scheduler<R, S, F> {
    type V = Sched;

    closed spec fn view(&self) -> Sched {
        Sched {
            root_alive: self.root is Some,
            ids: self.table.ids(),
            polling: self.polling,
            cursor: self.cursor as nat,
            ticks: self.ticks@,
            finished: self.finished,
        }
    }
}

/// The tasks after the one at position `c` was polled, left as `t`, and came
/// to `s`: it stays in place, or leaves the table if it completed.
pub open spec fn polled<S, Y, O>(e: Seq<(u64, S)>, c: int, t: S, s: Step<TaskYield<Y, O>>) -> Seq<(u64, S)> {
    let kept = e.update(c, (e[c].0, t));
    if s is Complete {
        kept.remove(c)
    } else {
        kept
    }
}

/// One step of a scheduler from `a` to `b`, with the root's mailbox going
/// from `ma` to `mb` and `r` reported. On the root's turn: the root
/// completed, spawned a task (put in under its id, in place of a task with
/// that id), passed a request outwards, or made progress. On a poll: the task
/// at the cursor, and no other, was polled, and its step is applied. At the
/// end of a tick: the tick is over, and `Complete` is reported exactly when
/// the root and every task are done.
pub open spec fn scheduler_step<R, S, F, Out, Y>(
    a: Scheduler<R, S, F>,
    b: Scheduler<R, S, F>,
    ma: Option<Out>,
    mb: Option<Out>,
    r: Step<Y>,
) -> bool {
    let (v, w) = (a@, b@);
    &&& sched_wf(v) ==> sched_wf(w)
    &&& b.maker() == a.maker()
    &&& v.finished ==> w == v && b.tasks() == a.tasks() && r is Complete
    &&& !v.finished && !v.polling ==> {
        ||| w == after_root_done(v) && b.tasks() == a.tasks() && (r is Complete <==> w.finished)
            && !(r is Yielded)
        ||| v.root_alive && (exists|id: u64, t: S|
            w == after_spawn(v, id) && b.tasks() == entries_with(a.tasks(), id, t)) && (sched_wf(
            v,
        ) ==> r is Busy)
        ||| v.root_alive && w == after_forward(v) && b.tasks() == a.tasks() && r is Yielded
        ||| v.root_alive && w == v && b.tasks() == a.tasks() && r is Busy
    }
    &&& !v.finished && v.polling && v.cursor < v.ids.len() ==> exists|
        s: Step<TaskYield<Y, Out>>,
        t: S,
    |
        {
            &&& w == after_task(v, s)
            &&& b.tasks() == polled(a.tasks(), v.cursor as int, t, s)
            &&& mb == mailbox_after(ma, s)
            &&& r == task_reply(s, w.finished)
        }
    &&& !v.finished && v.polling && v.cursor >= v.ids.len() ==> {
        &&& w == tick_over(v)
        &&& b.tasks() == a.tasks()
        &&& !(r is Yielded)
        &&& (r is Complete <==> w.finished)
    }
}

impl<R, S, F> Scheduler<R, S, F> {
    /// The live tasks with their ids, in the order they are polled.
    pub closed spec fn tasks(&self) -> Seq<(u64, S)> {
        self.table.entries()
    }

    /// The ids in the view are those of the tasks.
    pub proof fn lemma_ids_of_tasks(&self)
        ensures
            self@.ids == keys_of(self.tasks()),
    {
    }

    /// The root computation, until it completes.
    pub closed spec fn root(&self) -> Option<R> {
        self.root
    }

    /// What turns spawn descriptors into tasks.
    pub closed spec fn maker(&self) -> F {
        self.maker
    }

    /// A scheduler at the start of its first tick, with no task yet.
    pub fn new(root: R, maker: F) -> (r: Self)
        ensures
            r@ == (Sched {
                root_alive: true,
                ids: Seq::empty(),
                polling: false,
                cursor: 0,
                ticks: 0,
                finished: false,
            }),
            sched_wf(r@),
            r.root() == Some(root),
            r.maker() == maker,
    {
        let table = Table::new();
        proof {
            assert(table.ids() =~= Seq::<u64>::empty());
        }
        Scheduler {
            root: Some(root),
            table,
            polling: false,
            cursor: 0,
            finished: false,
            maker,
            ticks: Ghost(0),
        }
    }

    /// The ids of the live tasks, in the order they are polled.
    pub fn task_ids(&self) -> (r: Vec<u64>)
        ensures
            r@ == self@.ids,
    {
        self.table.task_ids()
    }

    /// Whether the root has not completed.
    pub fn root_alive(&self) -> (r: bool)
        ensures
            r == self@.root_alive,
    {
        self.root.is_some()
    }

    /// Whether the scheduler is finished.
    pub fn is_finished(&self) -> (r: bool)
        ensures
            r == self@.finished,
    {
        self.finished
    }

    /// Ends the tick if every task has been polled.
    fn end_tick<Y>(&mut self) -> (r: Step<Y>)
        ensures
            final(self)@ == tick_over(old(self)@),
            final(self).tasks() == old(self).tasks(),
            final(self).root() == old(self).root(),
            final(self).maker() == old(self).maker(),
            r is Complete <==> final(self)@.finished,
            !(r is Yielded),
            sched_wf(old(self)@) ==> sched_wf(final(self)@),
    {
        if self.polling && self.cursor >= self.table.len() {
            self.polling = self.root.is_none();
            self.cursor = 0;
            self.ticks = Ghost(self.ticks@ + 1);
            self.finished = self.root.is_none() && self.table.len() == 0;
        }
        if self.finished {
            Step::Complete
        } else {
            Step::Busy
        }
    }

    /// The root's turn ended with the root completing.
    pub fn root_done<Y>(&mut self) -> (r: Step<Y>)
        ensures
            final(self)@ == after_root_done(old(self)@),
            final(self).tasks() == old(self).tasks(),
            final(self).maker() == old(self).maker(),
            r is Complete <==> final(self)@.finished,
            !(r is Yielded),
            sched_wf(old(self)@) ==> sched_wf(final(self)@),
    {
        self.root = None;
        self.polling = true;
        self.cursor = 0;
        self.end_tick()
    }

    /// The root's turn ended with a spawn: `task` goes into the table under
    /// `id`, replacing a task with the same id.
    pub fn root_spawned<Y>(&mut self, id: u64, task: S) -> (r: Step<Y>)
        requires
            old(self)@.root_alive,
        ensures
            final(self)@ == after_spawn(old(self)@, id),
            final(self).tasks() == entries_with(old(self).tasks(), id, task),
            final(self).root() == old(self).root(),
            final(self).maker() == old(self).maker(),
            sched_wf(old(self)@) ==> r is Busy,
            sched_wf(old(self)@) ==> sched_wf(final(self)@),
    {
        self.table.insert(id, task);
        assert(with_id(old(self)@.ids, id).len() > 0);
        self.polling = true;
        self.cursor = 0;
        self.end_tick()
    }

    /// The root's turn ended with request `y` for an outer layer: it is
    /// surfaced before any task is polled in this tick.
    pub fn root_forwarded<Y>(&mut self, y: Y) -> (r: Step<Y>)
        ensures
            final(self)@ == after_forward(old(self)@),
            final(self).tasks() == old(self).tasks(),
            final(self).root() == old(self).root(),
            final(self).maker() == old(self).maker(),
            r == Step::Yielded(y),
            sched_wf(old(self)@) ==> sched_wf(final(self)@),
    {
        self.polling = true;
        self.cursor = 0;
        let _ = self.end_tick::<Y>();
        Step::Yielded(y)
    }

    /// The task at the cursor was polled and came to `s`: an output goes to
    /// the root's mailbox, a forwarded request is surfaced, a completed task
    /// leaves the table.
    pub fn task_stepped<Y, O>(&mut self, s: Step<TaskYield<Y, O>>, mailbox: &mut Context<O>) -> (r:
        Step<Y>)
        requires
            old(self)@.polling,
            old(self)@.cursor < old(self)@.ids.len(),
        ensures
            final(self)@ == after_task(old(self)@, s),
            final(self).tasks() == (if s is Complete {
                old(self).tasks().remove(old(self)@.cursor as int)
            } else {
                old(self).tasks()
            }),
            final(self).root() == old(self).root(),
            final(self).maker() == old(self).maker(),
            final(mailbox)@ == mailbox_after(old(mailbox)@, s),
            r == task_reply(s, final(self)@.finished),
            sched_wf(old(self)@) ==> sched_wf(final(self)@),
    {
        // The cursor is below the table's length, so it can move on by one.
        let len = self.table.len();
        assert(self.cursor < len);
        match s {
            Step::Complete => {
                let _ = self.table.remove(self.cursor);
                self.end_tick()
            },
            Step::Busy => self.end_tick(),
            Step::Yielded(TaskYield::Forward(y)) => {
                self.cursor = self.cursor + 1;
                let _ = self.end_tick::<Y>();
                Step::Yielded(y)
            },
            Step::Yielded(TaskYield::Output(x)) => {
                mailbox.put(x);
                self.cursor = self.cursor + 1;
                self.end_tick()
            },
        }
    }
}

impl<R, S, F> Scheduler<R, S, F> {
    /// One step of a tick: the root's turn, or one poll of the task at the
    /// cursor. A finished scheduler stays finished.
    pub fn step<Out, Y>(&mut self, mailbox: &mut Context<Out>) -> (r: Step<Y>) where
        R: Coroutine<Out, Yield = Y>,
        Y: Request,
        S: SubTask<Yield = TaskYield<Y, Out>>,
        F: MakeTask<Y::Task, S>,

        ensures
            scheduler_step(*old(self), *final(self), old(mailbox)@, final(mailbox)@, r),
    {
        if self.finished {
            return Step::Complete;
        }
        if !self.polling {
            match self.root.take() {
                None => self.root_done(),
                Some(mut root) => match root.resume(mailbox) {
                    Step::Complete => self.root_done(),
                    Step::Busy => {
                        self.root = Some(root);
                        assert(self@ == old(self)@);
                        Step::Busy
                    },
                    Step::Yielded(y) => {
                        self.root = Some(root);
                        assert(self@ == old(self)@);
                        match y.is_task() {
                            Ok(task) => {
                                let id = task.task_id();
                                let sub = self.maker.make_task(task);
                                let ghost t = sub;
                                let ghost before = *self;
                                let r = self.root_spawned(id, sub);
                                assert(self@ == after_spawn(before@, id) && self.tasks()
                                    == entries_with(before.tasks(), id, t));
                                assert(before@ == old(self)@);
                                assert(before.tasks() == old(self).tasks());
                                assert(self@ == after_spawn(old(self)@, id));
                                r
                            },
                            Err(y) => {
                                let r = self.root_forwarded(y);
                                assert(self@ == after_forward(old(self)@));
                                assert(self.tasks() == old(self).tasks());
                                r
                            },
                        }
                    },
                },
            }
        } else if self.cursor < self.table.len() {
            let (id, mut task) = self.table.remove(self.cursor);
            let s = task.poll();
            let ghost polled_step = s;
            let ghost left = task;
            self.table.restore(self.cursor, (id, task));
            assert(self.table.ids() =~= old(self).table.ids());
            assert(self@ == old(self)@);
            assert(self.tasks() =~= old(self).tasks().update(self.cursor as int, (id, left)));
            let r = self.task_stepped(s, mailbox);
            assert(self@ == after_task(old(self)@, polled_step));
            assert(self.tasks() == polled(old(self).tasks(), old(self)@.cursor as int, left, polled_step));
            r
        } else {
            self.end_tick()
        }
    }
}

impl<Out, Y, R, S, F> Coroutine<Out> for Scheduler<R, S, F> where
    R: Coroutine<Out, Yield = Y>,
    Y: Request,
    S: SubTask<Yield = TaskYield<Y, Out>>,
    F: MakeTask<Y::Task, S>,
 {
    type Yield = Y;

    fn resume(&mut self, mailbox: &mut Context<Out>) -> (r: Step<Y>)
        ensures
            scheduler_step(*old(self), *final(self), old(mailbox)@, final(mailbox)@, r),
    {
        self.step(mailbox)
    }
}

/// How a scheduled handler layer's step follows from its computation's step
/// `s`: completion and progress are passed on with the mailbox untouched; an
/// effect is settled by the handler's outcome, answered or passed on; any
/// other request is dropped, with the mailbox untouched.
pub open spec fn answered_on<O, Y, N>(s: Step<Y>, r: Step<N>, before: Option<O>, after: Option<O>) -> bool {
    match s {
        Step::Complete => r == Step::<N>::Complete && after == before,
        Step::Busy => r == Step::<N>::Busy && after == before,
        Step::Yielded(_) => (r == Step::<N>::Busy && after == before) || exists|o: Result<O, N>|
            (r, after) == settled(o, before),
    }
}

/// What a scheduled handler layer does with a request: an effect goes to
/// the handler; any other request (a spawn that no scheduler took) is
/// dropped. It cannot be passed on: the layer's request type may be `Never`,
/// of which no value can be made.
pub struct Answered<G, H> {
    inner: G,
    handler: H,
}

impl<G, H> Answered<G, H> {
    /// The computation inside and its handler.
    pub closed spec fn parts(&self) -> (G, H) {
        (self.inner, self.handler)
    }

    /// Follows up the computation's step `s`: an effect goes to the handler,
    /// which is called for nothing else.
    pub fn follow<Out, Y>(&mut self, s: Step<Y>, mailbox: &mut Context<Out>) -> (r: Step<H::Next>) where
        Y: Request,
        H: EffectHandler<Y::Effect, Out>,

        ensures
            answered_on(s, r, old(mailbox)@, final(mailbox)@),
            !(s is Yielded) ==> *final(self) == *old(self),
            final(self).parts().0 == old(self).parts().0,
    {
        match s {
            Step::Complete => Step::Complete,
            Step::Busy => Step::Busy,
            Step::Yielded(y) => match y.is_effect() {
                Ok(effect) => {
                    let outcome = self.handler.handle(effect);
                    let ghost o = outcome;
                    let r = settle(outcome, mailbox);
                    assert((r, mailbox@) == settled(o, old(mailbox)@));
                    r
                },
                Err(_) => Step::Busy,
            },
        }
    }
}

impl<Out, Y, G, H> Coroutine<Out> for Answered<G, H> where
    G: Coroutine<Out, Yield = Y>,
    Y: Request,
    H: EffectHandler<Y::Effect, Out>,
 {
    type Yield = H::Next;

    fn resume(&mut self, mailbox: &mut Context<Out>) -> (r: Step<H::Next>)
        ensures
            r is Complete ==> final(self).parts().1 == old(self).parts().1,
            exists|s: Step<Y>, mid: Option<Out>|
                {
                    &&& answered_on(s, r, mid, final(mailbox)@)
                    &&& !(s is Yielded) ==> final(self).parts().1 == old(self).parts().1
                },
    {
        let s = self.inner.resume(mailbox);
        let ghost st = s;
        let ghost mid = mailbox@;
        let r = self.follow(s, mailbox);
        assert(answered_on(st, r, mid, mailbox@));
        assert(!(st is Yielded) ==> self.parts().1 == old(self).parts().1);
        r
    }
}

/// A computation whose requests may spawn sub-tasks, with its mailbox.
pub struct Block<Output, G> {
    context: Context<Output>,
    generator: G,
    done: bool,
}

/// Turns a computation into a `Block` with an empty mailbox.
pub trait IntoBlock<Output, G> {
    fn into_block(self) -> Block<Output, G>;
}

impl<Output, G: Coroutine<Output>> IntoBlock<Output, G> for G where G::Yield: Request {
    /// A fresh block: an empty mailbox, not completed, driving `self`.
    fn into_block(self) -> (r: Block<Output, G>)
        ensures
            r.mailbox() == None::<Output>,
            r.inner() == self,
            !r.completed(),
    {
        Block::new(self)
    }
}

impl<Output, G> Block<Output, G> {
    /// The value waiting in the mailbox.
    pub closed spec fn mailbox(&self) -> Option<Output> {
        self.context@
    }

    /// The computation inside.
    pub closed spec fn inner(&self) -> G {
        self.generator
    }

    /// Whether the computation has reported `Complete`.
    pub closed spec fn completed(&self) -> bool {
        self.done
    }

    /// A block around `generator`, with an empty mailbox.
    pub fn new(generator: G) -> (r: Self)
        ensures
            r.mailbox() == None::<Output>,
            r.inner() == generator,
            !r.completed(),
    {
        Block { context: Context::empty(), generator, done: false }
    }

    /// Stores `value` in the mailbox; a value not taken yet is discarded.
    pub fn put(&mut self, value: Output)
        ensures
            final(self).mailbox() == Some(value),
            final(self).inner() == old(self).inner(),
            final(self).completed() == old(self).completed(),
    {
        self.context.put(value);
    }

    /// Hands out the value waiting in the mailbox, if any, and empties it.
    pub fn take(&mut self) -> (r: Option<Output>)
        ensures
            r == old(self).mailbox(),
            final(self).mailbox() == None::<Output>,
            final(self).inner() == old(self).inner(),
            final(self).completed() == old(self).completed(),
    {
        self.context.take()
    }

    /// The mailbox.
    pub fn context(&self) -> (r: &Context<Output>)
        ensures
            r@ == self.mailbox(),
    {
        &self.context
    }

    /// The computation inside.
    pub fn generator(&self) -> (r: &G)
        ensures
            *r == self.inner(),
    {
        &self.generator
    }

    /// Whether the computation has reported `Complete`.
    pub fn is_complete(&self) -> (r: bool)
        ensures
            r == self.completed(),
    {
        self.done
    }
}

impl<Output, G: Coroutine<Output>> Block<Output, G> where G::Yield: Request {
    /// Runs the computation up to its next stopping point.
    pub fn resume(&mut self) -> (r: Step<G::Yield>)
        requires
            !old(self).completed(),
        ensures
            final(self).completed() == (r is Complete),
    {
        let r = self.generator.resume(&mut self.context);
        if let Step::Complete = r {
            self.done = true;
        }
        r
    }

    /// Runs the computation together with the sub-tasks it spawns: each
    /// spawn request is turned into a task by `task_gen` and polled once per
    /// tick in ascending order of id; their outputs go to this mailbox.
    pub fn spawn<S, F>(self, task_gen: F) -> (r: Block<Output, Scheduler<G, S, F>>)
        where S: SubTask<Yield = TaskYield<G::Yield, Output>>,
              F: MakeTask<<G::Yield as Request>::Task, S>,
        ensures
            r.mailbox() == self.mailbox(),
            r.completed() == self.completed(),
            r.inner()@ == (Sched {
                root_alive: true,
                ids: Seq::empty(),
                polling: false,
                cursor: 0,
                ticks: 0,
                finished: false,
            }),
            r.inner().root() == Some(self.inner()),
            r.inner().maker() == task_gen,
    {
        let Block { context, generator, done } = self;
        Block { context, generator: Scheduler::new(generator, task_gen), done }
    }

    /// Wraps the computation with `handler`: effects it answers go to the
    /// mailbox, requests it passes on are surfaced as the new request type.
    pub fn add_handler<H>(self, handler: H) -> (r: Block<Output, Answered<G, H>>)
        where H: EffectHandler<<G::Yield as Request>::Effect, Output>, H::Next: Request,
        ensures
            r.mailbox() == self.mailbox(),
            r.completed() == self.completed(),
            r.inner().parts() == (self.inner(), handler),
    {
        let Block { context, generator, done } = self;
        Block { context, generator: Answered { inner: generator, handler }, done }
    }
}

impl<Output, G: Coroutine<Output, Yield = Never>> Block<Output, G> {
    /// Drives a computation that can make no request until it completes,
    /// resuming it at most `rounds` times. Returns whether it completed.
    pub fn run(&mut self, rounds: u64) -> (r: bool)
        ensures
            r == final(self).completed(),
            old(self).completed() ==> r,
    {
        let mut left: u64 = rounds;
        while !self.done && left > 0
            invariant
                old(self).completed() ==> self.completed(),
            decreases left,
        {
            match self.generator.resume(&mut self.context) {
                Step::Complete => {
                    self.done = true;
                },
                Step::Busy => {},
                // No `Never` value exists, so this arm is never taken.
                Step::Yielded(_) => {},
            }
            left = left - 1;
        }
        self.done
    }
}

} // verus!
