use aeiou::new::{
    Block, EffectHandler, IntoBlock, MakeTask, Request, Scheduler, SubTask, TaskId, TaskYield,
};
use aeiou::{Context, Coroutine, Never, Step};

#[derive(Debug, PartialEq)]
struct Desc(u64);

impl TaskId for Desc {
    fn task_id(&self) -> u64 {
        self.0
    }
}

#[derive(Debug, PartialEq)]
enum Req {
    Spawn(Desc),
    Say(u64),
}

impl Request for Req {
    type Task = Desc;
    type Effect = u64;

    fn is_task(self) -> Result<Desc, Req> {
        match self {
            Req::Spawn(d) => Ok(d),
            other => Err(other),
        }
    }

    fn is_effect(self) -> Result<u64, Req> {
        match self {
            Req::Say(n) => Ok(n),
            other => Err(other),
        }
    }
}

/// Makes the requests of its script in turn, then completes.
struct Root {
    script: Vec<Req>,
}

impl Coroutine<u64> for Root {
    type Yield = Req;

    fn resume(&mut self, _mailbox: &mut Context<u64>) -> Step<Req> {
        if self.script.is_empty() {
            Step::Complete
        } else {
            Step::Yielded(self.script.remove(0))
        }
    }
}

/// Yields the steps of its script in turn, then completes.
struct Sub {
    script: Vec<TaskYield<Req, u64>>,
}

impl SubTask for Sub {
    type Yield = TaskYield<Req, u64>;

    fn poll(&mut self) -> Step<TaskYield<Req, u64>> {
        if self.script.is_empty() {
            Step::Complete
        } else {
            Step::Yielded(self.script.remove(0))
        }
    }
}

/// Task `id` forwards `Say(id)` on each of its first `polls` polls.
struct Sayers {
    polls: usize,
}

impl MakeTask<Desc, Sub> for Sayers {
    fn make_task(&self, d: Desc) -> Sub {
        let mut script = Vec::new();
        for _ in 0..self.polls {
            script.push(TaskYield::Forward(Req::Say(d.0)));
        }
        Sub { script }
    }
}

/// Task `id` outputs `10 * id` once, then completes.
struct Outputs;

impl MakeTask<Desc, Sub> for Outputs {
    fn make_task(&self, d: Desc) -> Sub {
        Sub { script: vec![TaskYield::Output(10 * d.0)] }
    }
}

fn root(script: Vec<Req>) -> Root {
    Root { script }
}

#[test]
fn tasks_polled_in_ascending_id_order() {
    let r = root(vec![Req::Spawn(Desc(3)), Req::Spawn(Desc(1)), Req::Spawn(Desc(2))]);
    let mut s = Scheduler::new(r, Sayers { polls: 10 });
    let mut c: Context<u64> = Context::empty();
    // Tick 1: spawn 3, poll 3.
    assert_eq!(s.resume(&mut c), Step::Busy);
    assert_eq!(s.resume(&mut c), Step::Yielded(Req::Say(3)));
    // Tick 2: spawn 1, poll 1 and 3.
    assert_eq!(s.resume(&mut c), Step::Busy);
    assert_eq!(s.resume(&mut c), Step::Yielded(Req::Say(1)));
    assert_eq!(s.resume(&mut c), Step::Yielded(Req::Say(3)));
    // Tick 3: spawn 2, poll 1, 2, 3.
    assert_eq!(s.resume(&mut c), Step::Busy);
    assert_eq!(s.task_ids(), vec![1, 2, 3]);
    assert_eq!(s.resume(&mut c), Step::Yielded(Req::Say(1)));
    assert_eq!(s.resume(&mut c), Step::Yielded(Req::Say(2)));
    assert_eq!(s.resume(&mut c), Step::Yielded(Req::Say(3)));
    // Tick 4: the root completes; the tasks go on in the same order.
    assert_eq!(s.resume(&mut c), Step::Busy);
    assert!(!s.root_alive());
    assert_eq!(s.resume(&mut c), Step::Yielded(Req::Say(1)));
    assert_eq!(s.resume(&mut c), Step::Yielded(Req::Say(2)));
    assert_eq!(s.resume(&mut c), Step::Yielded(Req::Say(3)));
}

#[test]
fn lone_root_finishes_in_one_tick() {
    let mut s = Scheduler::new(root(vec![]), Outputs);
    let mut c: Context<u64> = Context::empty();
    assert_eq!(s.resume(&mut c), Step::Complete);
    assert!(s.is_finished());
    assert!(s.task_ids().is_empty());
}

#[test]
fn tasks_that_end_at_once_output_nothing() {
    let r = root(vec![Req::Spawn(Desc(2)), Req::Spawn(Desc(1))]);
    let mut s = Scheduler::new(r, Sayers { polls: 0 });
    let mut c: Context<u64> = Context::empty();
    // Tick 1: spawn 2, which completes when polled.
    assert_eq!(s.resume(&mut c), Step::Busy);
    assert_eq!(s.resume(&mut c), Step::Busy);
    assert!(s.task_ids().is_empty());
    assert_eq!(c.take(), None);
}

/// Task 1 forwards twice and then outputs 10; task 2 forwards once and
/// then outputs 20: spawned one tick apart, both output in the third tick.
struct Staggered;

impl MakeTask<Desc, Sub> for Staggered {
    fn make_task(&self, d: Desc) -> Sub {
        let mut script = Vec::new();
        for _ in 0..(3 - d.0) {
            script.push(TaskYield::Forward(Req::Say(d.0)));
        }
        script.push(TaskYield::Output(10 * d.0));
        Sub { script }
    }
}

#[test]
fn same_tick_outputs_leave_task_two_value() {
    let r = root(vec![Req::Spawn(Desc(1)), Req::Spawn(Desc(2))]);
    let mut s = Scheduler::new(r, Staggered);
    let mut c: Context<u64> = Context::empty();
    // Tick 1: spawn 1, poll 1.
    assert_eq!(s.resume(&mut c), Step::Busy);
    assert_eq!(s.resume(&mut c), Step::Yielded(Req::Say(1)));
    // Tick 2: spawn 2, poll 1 and 2.
    assert_eq!(s.resume(&mut c), Step::Busy);
    assert_eq!(s.resume(&mut c), Step::Yielded(Req::Say(1)));
    assert_eq!(s.resume(&mut c), Step::Yielded(Req::Say(2)));
    // Tick 3: the root completes; 1 outputs 10, then 2 outputs 20.
    assert_eq!(s.resume(&mut c), Step::Busy);
    assert_eq!(s.resume(&mut c), Step::Busy);
    assert_eq!(s.resume(&mut c), Step::Busy);
    assert_eq!(c.take(), Some(20));
    assert_eq!(s.task_ids(), vec![1, 2]);
}

#[test]
fn forwarded_request_comes_before_polling() {
    let r = root(vec![Req::Spawn(Desc(7)), Req::Say(42)]);
    let mut s = Scheduler::new(r, Sayers { polls: 5 });
    let mut c: Context<u64> = Context::empty();
    assert_eq!(s.resume(&mut c), Step::Busy);
    assert_eq!(s.resume(&mut c), Step::Yielded(Req::Say(7)));
    // The root's forward comes out before task 7 is polled in this tick.
    assert_eq!(s.resume(&mut c), Step::Yielded(Req::Say(42)));
    assert_eq!(s.resume(&mut c), Step::Yielded(Req::Say(7)));
}

#[test]
fn output_then_completion_removes_task() {
    let r = root(vec![Req::Spawn(Desc(4)), Req::Say(1), Req::Say(2)]);
    let mut s = Scheduler::new(r, Outputs);
    let mut c: Context<u64> = Context::empty();
    // Tick 1: spawn 4; task 4 outputs 40.
    assert_eq!(s.resume(&mut c), Step::Busy);
    assert_eq!(s.resume(&mut c), Step::Busy);
    assert_eq!(s.task_ids(), vec![4]);
    // Tick 2: forward; task 4 completes.
    assert_eq!(s.resume(&mut c), Step::Yielded(Req::Say(1)));
    assert_eq!(s.resume(&mut c), Step::Busy);
    assert_eq!(c.take(), Some(40));
    assert!(s.task_ids().is_empty());
}

#[test]
fn duplicate_id_replaces_task() {
    let r = root(vec![Req::Spawn(Desc(1)), Req::Spawn(Desc(1))]);
    let mut s = Scheduler::new(r, Sayers { polls: 3 });
    let mut c: Context<u64> = Context::empty();
    assert_eq!(s.resume(&mut c), Step::Busy);
    assert_eq!(s.resume(&mut c), Step::Yielded(Req::Say(1)));
    assert_eq!(s.resume(&mut c), Step::Busy);
    assert_eq!(s.task_ids(), vec![1]);
}

#[test]
fn scheduler_finishes_when_root_and_tasks_are_done() {
    let r = root(vec![Req::Spawn(Desc(1))]);
    let mut s = Scheduler::new(r, Outputs);
    let mut c: Context<u64> = Context::empty();
    assert_eq!(s.resume(&mut c), Step::Busy);
    assert_eq!(s.resume(&mut c), Step::Busy);
    // Tick 2: root completes, task 1 completes: finished.
    assert_eq!(s.resume(&mut c), Step::Busy);
    assert_eq!(s.resume(&mut c), Step::Complete);
    assert!(s.is_finished());
}

/// Answers every `Say(n)` with `n + 1`.
struct Echo;

impl EffectHandler<u64, u64> for Echo {
    type Next = Never;

    fn handle(&mut self, effect: u64) -> Result<u64, Never> {
        Ok(effect + 1)
    }
}

#[test]
fn spawned_block_runs_to_completion() {
    let r = root(vec![Req::Spawn(Desc(2)), Req::Say(8)]);
    let mut b = r.into_block().spawn(Sayers { polls: 2 }).add_handler(Echo);
    assert!(b.run(100));
    assert!(b.is_complete());
    assert!(b.take().is_some());
}

#[test]
fn handler_answer_reaches_root_mailbox() {
    let r = root(vec![Req::Say(8)]);
    let mut b: Block<u64, _> = Block::new(r).add_handler(Echo);
    assert_eq!(b.resume(), Step::Busy);
    assert_eq!(b.take(), Some(9));
    assert_eq!(b.resume(), Step::Complete);
}
