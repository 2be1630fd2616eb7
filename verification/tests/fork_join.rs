use cmpth::fork_join::{
    after_first_branch, join, run, run_root, HelpStep, Latch, Registry, SecondBranch, StackJob,
    WorkerContext,
};
use cmpth::resumable::common::deque::Steal;

/// What the other workers do while a first branch runs: the next one takes the
/// oldest job of this worker's deque, if it is the only one.
fn rob(c: &mut WorkerContext, workers: usize) -> bool {
    let own = c.index;
    let only = c.registry.pop(own);
    let more = c.registry.pop(own);
    if let Some(other) = more {
        c.registry.push(own, other);
    }
    if let Some(job) = only {
        c.registry.push(own, job);
    }
    if workers == 1 || more.is_some() {
        return false;
    }
    c.index = (own + 1) % workers;
    let stolen = matches!(c.try_execute_one(), Steal::Success(_));
    c.index = own;
    stolen
}

fn help<F: FnOnce(&mut WorkerContext) -> R, R>(c: &mut WorkerContext, job: &mut StackJob<F, R>) {
    if !job.probe() {
        job.execute(c);
    }
}

fn fork<A, B, RA, RB>(ctx: &mut WorkerContext, workers: usize, a: A, b: B) -> (RA, RB)
where
    A: FnOnce(&mut WorkerContext) -> RA,
    B: FnOnce(&mut WorkerContext) -> RB,
{
    join(
        ctx,
        a,
        b,
        |c: &mut WorkerContext, job: &mut StackJob<B, RB>| {
            if rob(c, workers) {
                let own = c.index;
                c.index = (own + 1) % workers;
                job.execute(c);
                c.index = own;
            }
        },
        help::<B, RB>,
    )
}

fn fib(ctx: &mut WorkerContext, workers: usize, n: u64) -> u64 {
    if n <= 1 {
        return n;
    }
    let (a, b) = fork(
        ctx,
        workers,
        |c: &mut WorkerContext| fib(c, workers, n - 1),
        |c: &mut WorkerContext| fib(c, workers, n - 2),
    );
    a + b
}

#[test]
fn fib_matches_sequential() {
    for workers in [1, 2, 4] {
        let r = run(workers, |c: &mut WorkerContext| fib(c, workers, 20));
        assert_eq!(r, 6765, "workers={workers}");
    }
}

#[test]
fn nested_join_many_levels() {
    let r = run(2, |c: &mut WorkerContext| fib(c, 2, 24));
    assert_eq!(r, 46368);
}

fn rec(ctx: &mut WorkerContext, s: &[u64]) -> u64 {
    if s.len() <= 1 {
        return s.first().copied().unwrap_or(0);
    }
    let mid = s.len() / 2;
    let (a, b) = fork(
        ctx,
        4,
        |c: &mut WorkerContext| rec(c, &s[..mid]),
        |c: &mut WorkerContext| rec(c, &s[mid..]),
    );
    a + b
}

#[test]
fn borrows_non_static_data() {
    let data = vec![1u64, 2, 3, 4, 5, 6, 7, 8];
    let sum = run(4, |c: &mut WorkerContext| rec(c, &data));
    assert_eq!(sum, 36);
}

#[test]
fn a_second_branch_is_on_offer_while_the_first_runs() {
    let mut ctx = WorkerContext { index: 0, registry: Registry::new(2) };
    let r = join(
        &mut ctx,
        |c: &mut WorkerContext| {
            let popped = c.registry.pop(0);
            c.registry.push(0, popped.unwrap());
            popped
        },
        |c: &mut WorkerContext| c.registry.pop(0),
        |_: &mut WorkerContext, _: &mut StackJob<_, _>| {},
        help,
    );
    assert_eq!(r, (Some(1), None));
}

#[test]
fn nested_forks_offer_different_names() {
    let mut ctx = WorkerContext { index: 0, registry: Registry::new(1) };
    assert_eq!(ctx.registry.name_job(), 1);
    let (names, _) = fork(
        &mut ctx,
        1,
        |c: &mut WorkerContext| {
            fork(c, 1, |c: &mut WorkerContext| (c.registry.pop(0), c.registry.pop(0)), |_| ()).0
        },
        |_: &mut WorkerContext| (),
    );
    assert_eq!(names, (Some(3), Some(2)));
}

#[test]
fn a_stolen_second_branch_gives_its_result() {
    let mut ctx = WorkerContext { index: 0, registry: Registry::new(2) };
    // A thief has it and runs it on its own deque.
    let r = fork(&mut ctx, 2, |c: &mut WorkerContext| c.index, |c: &mut WorkerContext| c.index);
    assert_eq!(r, (0, 1));
    // Nobody steals it.
    let r = fork(&mut ctx, 1, |c: &mut WorkerContext| c.index, |c: &mut WorkerContext| c.index);
    assert_eq!(r, (0, 0));
    // A thief has taken it, and is through with it only later.
    let r = join(
        &mut ctx,
        |_: &mut WorkerContext| 5,
        |_: &mut WorkerContext| 7,
        |c: &mut WorkerContext, _: &mut StackJob<_, _>| assert!(rob(c, 2)),
        help,
    );
    assert_eq!(r, (5, 7));
    assert_eq!(ctx.registry.pop(0), None);
}

#[test]
fn another_job_on_the_deque_stays() {
    let mut ctx = WorkerContext { index: 0, registry: Registry::new(1) };
    assert_eq!(ctx.take_back(9), None);
    ctx.offer(8);
    assert_eq!(ctx.take_back(9), Some(8));
    ctx.offer(9);
    assert_eq!(ctx.take_back(9), Some(9));
    assert_eq!(ctx.registry.pop(0), Some(8));
}

#[test]
fn a_worker_takes_its_own_newest_job_first() {
    let mut ctx = WorkerContext { index: 1, registry: Registry::new(3) };
    ctx.registry.push(1, 10);
    ctx.registry.push(1, 11);
    ctx.registry.push(2, 20);
    assert!(matches!(ctx.try_execute_one(), Steal::Success(11)));
    assert!(matches!(ctx.try_execute_one(), Steal::Success(10)));
}

fn settled(ctx: &mut WorkerContext) -> Option<usize> {
    match ctx.try_execute_one() {
        Steal::Success(job) => Some(job),
        Steal::Empty => None,
        Steal::Retry => panic!("nobody else takes jobs"),
    }
}

#[test]
fn a_thief_takes_the_oldest_job_of_the_next_worker() {
    let mut ctx = WorkerContext { index: 1, registry: Registry::new(3) };
    ctx.registry.push(0, 1);
    ctx.registry.push(0, 2);
    ctx.registry.push(2, 20);
    ctx.registry.push(2, 21);
    assert_eq!(settled(&mut ctx), Some(20));
    assert_eq!(settled(&mut ctx), Some(21));
    assert_eq!(settled(&mut ctx), Some(1));
    assert_eq!(settled(&mut ctx), Some(2));
    assert_eq!(settled(&mut ctx), None);
}

#[test]
fn waiting_ends_with_the_latch() {
    let mut ctx = WorkerContext { index: 0, registry: Registry::new(1) };
    let mut latch = Latch::new();
    assert_eq!(ctx.help_step(&latch), HelpStep::Spin);
    ctx.registry.push(0, 5);
    assert_eq!(ctx.help_step(&latch), HelpStep::Run(5));
    latch.set();
    ctx.registry.push(0, 6);
    assert_eq!(ctx.help_step(&latch), HelpStep::Done);
    assert_eq!(ctx.registry.pop(0), Some(6));
}

#[test]
fn a_worker_leaves_only_when_no_job_is_left() {
    let mut ctx = WorkerContext { index: 0, registry: Registry::new(1) };
    assert_eq!(ctx.worker_step(), HelpStep::Spin);
    ctx.registry.push(0, 5);
    ctx.registry.shut_down();
    assert_eq!(ctx.worker_step(), HelpStep::Run(5));
    assert_eq!(ctx.worker_step(), HelpStep::Done);
}

#[test]
fn the_second_branch_runs_here_unless_it_was_stolen() {
    assert_eq!(after_first_branch(Some(7), 7), SecondBranch::RunInline);
    assert_eq!(after_first_branch(None, 7), SecondBranch::Help { put_back: None });
    assert_eq!(after_first_branch(Some(8), 7), SecondBranch::Help { put_back: Some(8) });
}

#[test]
fn a_stolen_job_keeps_its_result_for_its_owner() {
    let mut job = StackJob::new(|x: &mut i32| *x * 7);
    assert!(!job.probe());
    job.execute(&mut 6);
    assert!(job.probe());
    assert_eq!(job.take_result(), 42);
    let mut own = StackJob::new(|x: &mut i32| *x);
    assert_eq!(own.run_inline(&mut 5), 5);
    assert!(!own.probe());
    let mut back = StackJob::new(|x: &mut i32| *x);
    assert_eq!(back.second_result(&mut 3, Some(16), 16), 3);
    let mut gone = StackJob::new(|x: &mut i32| *x);
    gone.execute(&mut 4);
    assert_eq!(gone.second_result(&mut 3, None, 16), 4);
}

#[test]
fn the_root_job_begins_with_nothing_to_do_and_nobody_leaving() {
    let step = run(3, |c: &mut WorkerContext| {
        assert_eq!((c.index, c.registry.pop(0)), (0, None));
        c.worker_step()
    });
    assert_eq!(step, HelpStep::Spin);
}

#[test]
fn the_workers_are_told_to_leave_when_the_root_job_is_done() {
    let (during, mut ctx) = run_root(2, |c: &mut WorkerContext| c.worker_step());
    assert_eq!(during, HelpStep::Spin);
    assert_eq!(ctx.worker_step(), HelpStep::Done);
}
