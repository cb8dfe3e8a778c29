use aeiou::{Block, Context, Coroutine, Effect, Handler, IntoBlock, Step};

#[derive(Debug, PartialEq)]
struct Ask(u32);

#[derive(Debug, PartialEq)]
struct Num(u32);

impl Effect for Num {
    type Input = Ask;
}

/// Asks for each of `asks` in turn, records the answers, then completes.
struct Asker {
    asks: Vec<u32>,
    answers: Vec<u32>,
}

impl Coroutine<Num> for Asker {
    type Yield = Ask;

    fn resume(&mut self, mailbox: &mut Context<Num>) -> Step<Ask> {
        if let Some(Num(n)) = mailbox.take() {
            self.answers.push(n);
        }
        if self.asks.is_empty() {
            Step::Complete
        } else {
            Step::Yielded(Ask(self.asks.remove(0)))
        }
    }
}

struct Doubler {
    calls: u32,
}

impl Handler<Num> for Doubler {
    fn handle(&mut self, effect: Ask) -> Result<Num, Ask> {
        self.calls += 1;
        Ok(Num(effect.0 * 2))
    }
}

struct Decliner;

impl Handler<Num> for Decliner {
    fn handle(&mut self, effect: Ask) -> Result<Num, Ask> {
        Err(effect)
    }
}

/// Answers only even requests.
struct Evens;

impl Handler<Num> for Evens {
    fn handle(&mut self, effect: Ask) -> Result<Num, Ask> {
        if effect.0 % 2 == 0 {
            Ok(Num(effect.0 + 100))
        } else {
            Err(effect)
        }
    }
}

fn asker(asks: Vec<u32>) -> Block<Num, Asker> {
    Asker { asks, answers: Vec::new() }.into_block()
}

#[test]
fn handled_computation_completes_without_yield() {
    let mut b = asker(vec![1, 2, 3]).add_handler(Doubler { calls: 0 }).assert_handled();
    assert!(b.run(100));
    assert!(b.is_complete());
    assert_eq!(b.generator().stray(), &None);
}

#[test]
fn handler_answers_land_in_mailbox() {
    let mut b = asker(vec![5]).add_handler(Doubler { calls: 0 });
    assert_eq!(b.resume(), Step::Busy);
    assert_eq!(b.take(), Some(Num(10)));
    assert_eq!(b.resume(), Step::Complete);
}

#[test]
fn declined_request_surfaces_unchanged() {
    let mut b = asker(vec![4]).add_handler(Decliner);
    b.put(Num(9));
    assert_eq!(b.resume(), Step::Yielded(Ask(4)));
    assert!(!b.is_complete());
}

#[test]
fn declined_request_leaves_mailbox_alone() {
    let mut b = asker(vec![4, 6]).add_handler(Decliner);
    assert_eq!(b.resume(), Step::Yielded(Ask(4)));
    b.put(Num(41));
    assert_eq!(b.resume(), Step::Yielded(Ask(6)));
    assert_eq!(b.take(), None);
}

#[test]
fn stacked_handlers_split_requests() {
    let mut b = asker(vec![2, 3]).add_handler(Evens).add_handler(Doubler { calls: 0 });
    assert_eq!(b.resume(), Step::Busy);
    assert_eq!(b.take(), Some(Num(102)));
    assert_eq!(b.resume(), Step::Busy);
    assert_eq!(b.take(), Some(Num(6)));
    assert_eq!(b.resume(), Step::Complete);
}

#[test]
fn unhandled_request_is_kept_as_stray() {
    let mut b = asker(vec![1, 2]).add_handler(Evens).assert_handled();
    // The run fails: the stray request halts it short of completion.
    assert!(!b.run(100));
    assert!(!b.is_complete());
    assert_eq!(b.generator().stray(), &Some(Ask(1)));
}

#[test]
fn run_stops_after_rounds() {
    let mut b = asker(vec![2, 4, 6]).add_handler(Evens).assert_handled();
    assert!(!b.run(1));
    assert!(!b.is_complete());
    assert!(b.run(10));
}

#[test]
fn handled_layer_passes_completion_on() {
    let mut b = asker(vec![]).add_handler(Decliner);
    assert_eq!(b.resume(), Step::Complete);
    assert!(b.is_complete());
}

#[test]
fn into_block_starts_fresh() {
    let b: Block<Num, Asker> = Asker { asks: vec![1], answers: Vec::new() }.into_block();
    assert!(!b.is_complete());
    assert!(!b.context().is_full());
    assert_eq!(b.generator().asks, vec![1]);
}
