use cmpth::bench::{
    abt_ensure_init, abt_succeeded, fib, may_ensure_workers, may_run, myth_ensure_init, nqueens,
    nqueens_sum, AbtCall, FixedWorkers, RayonBench, WorkersFixed, MAY_STACK_SIZE,
};

#[test]
fn fib_over_rayon() {
    assert_eq!(fib::<RayonBench>(0), 0);
    assert_eq!(fib::<RayonBench>(1), 1);
    assert_eq!(fib::<RayonBench>(20), 6765);
}

#[test]
fn nqueens_does_not_depend_on_the_depth() {
    assert_eq!(nqueens::<RayonBench>(vec![], 0, 3), 1);
    assert_eq!(nqueens::<RayonBench>(vec![], 1, 3), 1);
    assert_eq!(nqueens::<RayonBench>(vec![], 2, 3), 0);
    assert_eq!(nqueens::<RayonBench>(vec![], 6, 0), 4);
    for depth in 0..4 {
        assert_eq!(nqueens::<RayonBench>(vec![], 8, depth), 92);
    }
}

#[test]
fn nqueens_of_a_larger_board() {
    assert_eq!(nqueens::<RayonBench>(vec![], 11, 3), 2680);
}

#[test]
fn columns_are_counted_one_by_one() {
    let sum = |cols: &[u32], depth| nqueens_sum::<RayonBench>(cols.to_vec(), vec![], 6, depth);
    assert_eq!(sum(&[], 2), 0);
    for col in 0..6 {
        assert_eq!(sum(&[col], 1), nqueens::<RayonBench>(vec![col], 6, 0));
    }
    let all = [0, 1, 2, 3, 4, 5];
    for mid in 0..6 {
        assert_eq!(sum(&all, 2), sum(&all[..mid], 0) + sum(&all[mid..], 1));
    }
    assert_eq!(sum(&all, 3), 4);
}

#[test]
fn nqueens_goes_on_from_what_is_placed() {
    assert_eq!(nqueens::<RayonBench>(vec![1], 4, 1), 1);
    assert_eq!(nqueens::<RayonBench>(vec![0], 4, 1), 0);
    assert_eq!(nqueens::<RayonBench>(vec![1, 3, 0, 2], 4, 1), 1);
    assert_eq!(nqueens::<RayonBench>(vec![1, 3, 0, 2], 3, 1), 0);
}

#[test]
fn worker_count_is_fixed_by_the_first_request() {
    let mut w = FixedWorkers::new();
    assert_eq!(w.ensure_workers(4), WorkersFixed::Initialize);
    assert_eq!(w.ensure_workers(4), WorkersFixed::Same);
    assert_eq!(w.ensure_workers(2), WorkersFixed::Ignored(4));
    assert_eq!(w.ensure_workers(4), WorkersFixed::Same);
}

#[test]
fn may_is_set_up_once() {
    let mut w = FixedWorkers::new();
    assert_eq!(may_ensure_workers(&mut w, 4), Ok(Some((4, 65536))));
    assert_eq!(MAY_STACK_SIZE, 64 * 1024);
    assert_eq!(may_ensure_workers(&mut w, 4), Ok(None));
    assert_eq!(may_ensure_workers(&mut w, 2), Err(4));
    assert_eq!(may_ensure_workers(&mut w, 4), Ok(None));
}

#[test]
fn may_runs_the_root_once_unless_refused() {
    let mut w = FixedWorkers::new();
    let mut seen = None;
    let r = may_run(may_ensure_workers(&mut w, 4), |n, s| seen = Some((n, s)), || 7);
    assert_eq!((r, seen), (Ok(7), Some((4, 65536))));
    let r = may_run(may_ensure_workers(&mut w, 4), |_, _| panic!("set up twice"), || 8);
    assert_eq!(r, Ok(8));
    let r: Result<u32, usize> = may_run(
        may_ensure_workers(&mut w, 2),
        |_, _| panic!("set up twice"),
        || panic!("run on another number of workers"),
    );
    assert_eq!(r, Err(4));
}

#[test]
fn massive_threads_refuses_another_count() {
    let mut w = FixedWorkers::new();
    assert_eq!(myth_ensure_init(&mut w, 3), Ok(true));
    assert_eq!(myth_ensure_init(&mut w, 3), Ok(false));
    assert_eq!(myth_ensure_init(&mut w, 1), Err(3));
}

#[test]
fn argobots_is_initialized_stream_by_stream() {
    let mut w = FixedWorkers::new();
    let (answer, calls) = abt_ensure_init(&mut w, 3);
    assert_eq!(answer, WorkersFixed::Initialize);
    assert_eq!(
        calls,
        vec![
            AbtCall::Init,
            AbtCall::CreatePool,
            AbtCall::FindPrimary,
            AbtCall::CreateSched,
            AbtCall::SetMainSched,
            AbtCall::CreateSched,
            AbtCall::CreateStream,
            AbtCall::CreateSched,
            AbtCall::CreateStream,
        ]
    );
    let (answer, calls) = abt_ensure_init(&mut w, 1);
    assert_eq!(answer, WorkersFixed::Ignored(3));
    assert!(calls.is_empty());
    let mut none = FixedWorkers::new();
    assert_eq!(abt_ensure_init(&mut none, 0).1.len(), 5);
}

#[test]
fn argobots_calls_succeed_with_zero() {
    assert!(abt_succeeded(AbtCall::Init, 0));
    assert!(!abt_succeeded(AbtCall::Init, 1));
    assert!(!abt_succeeded(AbtCall::CreateStream, -1));
    assert!(abt_succeeded(AbtCall::FindPrimary, 7));
}
