//! Fork-join programs that threading libraries are compared by.
//!
//! A library takes part through [`BenchSystem`].
use vstd::prelude::*;

verus! {

// ---------------------------------------------------------------------------
// Systems
// ---------------------------------------------------------------------------

/// A threading library that takes part.
pub trait BenchSystem: Send + Sync + 'static {
    /// Runs `a` and `b`, in parallel where it can, and returns both results.
    fn par_join<A, B, RA, RB>(a: A, b: B) -> (r: (RA, RB)) where
        A: FnOnce() -> RA + Send + 'static,
        B: FnOnce() -> RB + Send + 'static,
        RA: Send + 'static,
        RB: Send + 'static,

        requires
            call_requires(a, ()),
            call_requires(b, ()),
        ensures
            call_ensures(a, (), r.0),
            call_ensures(b, (), r.1),
    ;
}

/// `rayon::join`: calls both closures once, possibly on two threads, waits for
/// both, and returns what each of them returned.
#[verifier::external_body]
fn rayon_join<A, B, RA, RB>(a: A, b: B) -> (r: (RA, RB)) where
    A: FnOnce() -> RA + Send,
    B: FnOnce() -> RB + Send,
    RA: Send,
    RB: Send,

    requires
        call_requires(a, ()),
        call_requires(b, ()),
    ensures
        call_ensures(a, (), r.0),
        call_ensures(b, (), r.1),
{
    rayon::join(a, b)
}

/// Rayon, whose own join helps with other work while it waits.
pub struct RayonBench;

impl BenchSystem for RayonBench {
    fn par_join<A, B, RA, RB>(a: A, b: B) -> (r: (RA, RB)) where
        A: FnOnce() -> RA + Send + 'static,
        B: FnOnce() -> RB + Send + 'static,
        RA: Send + 'static,
        RB: Send + 'static,
     {
        rayon_join(a, b)
    }
}

/// What a request for a number of workers comes to, for a library that fixes
/// the number once for the whole process.
#[derive(Clone, Copy, PartialEq, Eq, Structural, Debug)]
pub enum WorkersFixed {
    /// This is the first request: initialize with as many.
    Initialize,
    /// It is the number that was fixed.
    Same,
    /// Another number was fixed, and stays.
    Ignored(usize),
}

/// The number of workers that a library was initialized with.
pub struct FixedWorkers {
    stored: Option<usize>,
}

impl FixedWorkers {
    /// The number, once it is fixed.
    pub closed spec fn fixed(&self) -> Option<usize> {
        self.stored
    }

    /// The number that is fixed once `num_workers` were asked for.
    pub open spec fn fixed_or(&self, num_workers: usize) -> usize {
        match self.fixed() {
            Some(n) => n,
            None => num_workers,
        }
    }

    /// What a request for `num_workers` comes to.
    pub open spec fn answer(&self, num_workers: usize) -> WorkersFixed {
        match self.fixed() {
            None => WorkersFixed::Initialize,
            Some(n) => if n == num_workers {
                WorkersFixed::Same
            } else {
                WorkersFixed::Ignored(n)
            },
        }
    }

    /// Nothing is fixed.
    pub fn new() -> (r: Self)
        ensures
            r.fixed() is None,
    {
        FixedWorkers { stored: None }
    }

    /// Asks for a number of workers. The first request fixes it.
    pub fn ensure_workers(&mut self, num_workers: usize) -> (r: WorkersFixed)
        ensures
            final(self).fixed() == Some(old(self).fixed_or(num_workers)),
            r == old(self).answer(num_workers),
    {
        match self.stored {
            None => {
                self.stored = Some(num_workers);
                WorkersFixed::Initialize
            },
            Some(n) => if n == num_workers {
                WorkersFixed::Same
            } else {
                WorkersFixed::Ignored(n)
            },
        }
    }
}

/// The first request fixes the number of workers for good: whatever is asked for
/// later, it stays, and every request for another number is refused with it.
pub proof fn law_worker_count_is_fixed(states: Seq<FixedWorkers>, requests: Seq<usize>, m: usize)
    requires
        requests.len() > 0,
        states.len() == requests.len() + 1,
        states[0].fixed() is None,
        forall|i: int|
            0 <= i < requests.len() ==> (#[trigger] states[i + 1]).fixed() == Some(
                states[i].fixed_or(requests[i]),
            ),
    ensures
        states[0].answer(requests[0]) == WorkersFixed::Initialize,
        forall|i: int|
            1 <= i < states.len() ==> (#[trigger] states[i]).fixed() == Some(requests[0]),
        states.last().answer(m) == (if m == requests[0] {
            WorkersFixed::Same
        } else {
            WorkersFixed::Ignored(requests[0])
        }),
    decreases requests.len(),
{
    let n = requests.len() as int;
    assert(states[n] == states[n - 1 + 1]);
    if n > 1 {
        let earlier = states.take(n);
        let before = requests.take(n - 1);
        assert forall|i: int| 0 <= i < before.len() implies (#[trigger] earlier[i + 1]).fixed()
            == Some(earlier[i].fixed_or(before[i])) by {
            assert(states[i + 1].fixed() == Some(states[i].fixed_or(requests[i])));
        }
        law_worker_count_is_fixed(earlier, before, m);
        assert forall|i: int| 1 <= i < states.len() implies (#[trigger] states[i]).fixed() == Some(
            requests[0],
        ) by {
            if i < n {
                assert(earlier[i].fixed() == Some(before[0]));
            } else {
                assert(earlier[n - 1].fixed() == Some(before[0]));
            }
        }
    }
}

/// The stack size that may is set up with.
pub const MAY_STACK_SIZE: usize = 65536;

/// Asks may for a number of workers. The first request is answered with the
/// number of workers and the stack size to set may up with; a later one has to
/// ask for the same number, and the one that was fixed is handed out when it
/// does not.
pub fn may_ensure_workers(fixed: &mut FixedWorkers, num_workers: usize) -> (r: Result<
    Option<(usize, usize)>,
    usize,
>)
    ensures
        final(fixed).fixed() == Some(old(fixed).fixed_or(num_workers)),
        r == (match old(fixed).answer(num_workers) {
            WorkersFixed::Initialize => Ok::<Option<(usize, usize)>, usize>(
                Some((num_workers, MAY_STACK_SIZE)),
            ),
            WorkersFixed::Same => Ok::<Option<(usize, usize)>, usize>(None),
            WorkersFixed::Ignored(n) => Err::<Option<(usize, usize)>, usize>(n),
        }),
{
    match fixed.ensure_workers(num_workers) {
        WorkersFixed::Initialize => Ok(Some((num_workers, MAY_STACK_SIZE))),
        WorkersFixed::Same => Ok(None),
        WorkersFixed::Ignored(n) => Err(n),
    }
}

/// Runs `f` on may, as [`may_ensure_workers`] answered: may is set up first by
/// `configure`, if it has to be, and then `f` is run. When another number of
/// workers is fixed neither is called, and that number is handed out.
pub fn may_run<C: FnOnce(usize, usize), F: FnOnce() -> R, R>(
    answer: Result<Option<(usize, usize)>, usize>,
    configure: C,
    f: F,
) -> (r: Result<R, usize>)
    requires
        answer matches Ok(Some(settings)) ==> call_requires(configure, settings),
        answer is Ok ==> call_requires(f, ()),
    ensures
        answer matches Ok(Some(settings)) ==> call_ensures(configure, settings, ()),
        answer is Ok ==> r is Ok && call_ensures(f, (), r->Ok_0),
        answer matches Err(n) ==> r == Err::<R, usize>(n),
{
    match answer {
        Ok(Some((workers, stack_size))) => {
            configure(workers, stack_size);
            Ok(f())
        },
        Ok(None) => Ok(f()),
        Err(n) => Err(n),
    }
}

/// Asks MassiveThreads for a number of workers. The first request, which is
/// answered with true, initializes it; a later one has to ask for the same
/// number, and the one that was fixed is handed out when it does not.
pub fn myth_ensure_init(fixed: &mut FixedWorkers, num_workers: usize) -> (r: Result<bool, usize>)
    ensures
        final(fixed).fixed() == Some(old(fixed).fixed_or(num_workers)),
        r == (match old(fixed).answer(num_workers) {
            WorkersFixed::Initialize => Ok::<bool, usize>(true),
            WorkersFixed::Same => Ok::<bool, usize>(false),
            WorkersFixed::Ignored(n) => Err::<bool, usize>(n),
        }),
{
    match fixed.ensure_workers(num_workers) {
        WorkersFixed::Initialize => Ok(true),
        WorkersFixed::Same => Ok(false),
        WorkersFixed::Ignored(n) => Err(n),
    }
}

/// A call that initializes Argobots.
#[derive(Clone, Copy, PartialEq, Eq, Structural, Debug)]
pub enum AbtCall {
    /// Initialize the library.
    Init,
    /// Create the pool that all execution streams share.
    CreatePool,
    /// Find the primary execution stream.
    FindPrimary,
    /// Create a scheduler on the shared pool.
    CreateSched,
    /// Give the primary execution stream the scheduler that was created last.
    SetMainSched,
    /// Create an execution stream with the scheduler that was created last.
    CreateStream,
}

/// The calls that initialize Argobots with a number of execution streams, in
/// order.
pub open spec fn abt_calls(num_workers: nat) -> Seq<AbtCall>
    decreases num_workers,
{
    if num_workers <= 1 {
        seq![
            AbtCall::Init,
            AbtCall::CreatePool,
            AbtCall::FindPrimary,
            AbtCall::CreateSched,
            AbtCall::SetMainSched,
        ]
    } else {
        abt_calls((num_workers - 1) as nat) + seq![AbtCall::CreateSched, AbtCall::CreateStream]
    }
}

/// Argobots gets as many execution streams as workers were asked for, and each
/// its own scheduler: the library is initialized and a pool created first, the
/// primary stream gets the first scheduler, and every further one is created
/// right after a scheduler for it.
pub proof fn law_argobots_gets_a_scheduler_for_each_stream(n: nat, i: int)
    requires
        n >= 1,
    ensures
        abt_calls(n).len() == 5 + 2 * (n - 1),
        abt_calls(n)[0] == AbtCall::Init,
        abt_calls(n)[1] == AbtCall::CreatePool,
        abt_calls(n)[2] == AbtCall::FindPrimary,
        abt_calls(n)[3] == AbtCall::CreateSched,
        abt_calls(n)[4] == AbtCall::SetMainSched,
        1 <= i < n ==> abt_calls(n)[3 + 2 * i] == AbtCall::CreateSched,
        1 <= i < n ==> abt_calls(n)[4 + 2 * i] == AbtCall::CreateStream,
    decreases n,
{
    if n > 1 {
        law_argobots_gets_a_scheduler_for_each_stream((n - 1) as nat, i);
    }
}

/// Asks Argobots for a number of workers. The first request initializes it, by
/// the calls that are handed out: a pool that all share, a scheduler on it for
/// the primary execution stream, and one for each further stream.
pub fn abt_ensure_init(fixed: &mut FixedWorkers, num_workers: usize) -> (r: (
    WorkersFixed,
    Vec<AbtCall>,
))
    ensures
        final(fixed).fixed() == Some(old(fixed).fixed_or(num_workers)),
        r.0 == old(fixed).answer(num_workers),
        r.1@ == (if old(fixed).fixed() is None {
            abt_calls(num_workers as nat)
        } else {
            Seq::empty()
        }),
{
    let answer = fixed.ensure_workers(num_workers);
    let mut calls: Vec<AbtCall> = Vec::new();
    if let WorkersFixed::Initialize = answer {
        calls.push(AbtCall::Init);
        calls.push(AbtCall::CreatePool);
        calls.push(AbtCall::FindPrimary);
        calls.push(AbtCall::CreateSched);
        calls.push(AbtCall::SetMainSched);
        assert(calls@ =~= abt_calls(1));
        let mut streams: usize = 1;
        while streams < num_workers
            invariant
                1 <= streams,
                num_workers >= 1 ==> streams <= num_workers,
                num_workers < 1 ==> streams == 1,
                calls@ == abt_calls(streams as nat),
            decreases num_workers - streams,
        {
            calls.push(AbtCall::CreateSched);
            calls.push(AbtCall::CreateStream);
            assert(calls@ =~= abt_calls(streams as nat) + seq![
                AbtCall::CreateSched,
                AbtCall::CreateStream,
            ]);
            streams += 1;
        }
        assert(abt_calls(0) =~= abt_calls(1));
    }
    (answer, calls)
}

/// Whether a call that initializes Argobots went well. Finding the primary
/// execution stream is not asked for.
pub fn abt_succeeded(call: AbtCall, ret: i32) -> (r: bool)
    ensures
        r == (call == AbtCall::FindPrimary || ret == 0),
{
    match call {
        AbtCall::FindPrimary => true,
        _ => ret == 0,
    }
}

// ---------------------------------------------------------------------------
// Fibonacci
// ---------------------------------------------------------------------------

/// The Fibonacci numbers.
pub open spec fn fibonacci(n: nat) -> nat
    decreases n,
{
    if n <= 1 {
        n
    } else {
        fibonacci((n - 1) as nat) + fibonacci((n - 2) as nat)
    }
}

/// Every Fibonacci number is the sum of the two before it, and the first two are
/// zero and one. So what one run counts for `n + 2` is what two runs count for
/// `n + 1` and for `n`, together.
pub proof fn law_fibonacci_adds_up(n: nat)
    ensures
        fibonacci(0) == 0,
        fibonacci(1) == 1,
        fibonacci(n + 2) == fibonacci(n + 1) + fibonacci(n),
{
}

/// A Fibonacci number, by a fork for every sum.
pub fn fib<S: BenchSystem>(n: u64) -> (r: u64)
    requires
        fibonacci(n as nat) <= u64::MAX,
    ensures
        r == fibonacci(n as nat),
    decreases n,
{
    if n <= 1 {
        return n;
    }
    let a = move || -> (x: u64)
        requires
            n > 1,
            fibonacci((n - 1) as nat) <= u64::MAX,
        ensures
            x == fibonacci((n - 1) as nat),
        { fib::<S>(n - 1) };
    let b = move || -> (x: u64)
        requires
            n > 1,
            fibonacci((n - 2) as nat) <= u64::MAX,
        ensures
            x == fibonacci((n - 2) as nat),
        { fib::<S>(n - 2) };
    let (r1, r2) = S::par_join(a, b);
    r1 + r2
}

// ---------------------------------------------------------------------------
// N queens
// ---------------------------------------------------------------------------

/// The distance of two columns or rows.
pub open spec fn distance(a: int, b: int) -> int {
    if a < b {
        b - a
    } else {
        a - b
    }
}

/// Whether a queen in column `col` of the next row is attacked by none of the
/// queens in `placed`, one in each row above.
pub open spec fn is_safe(placed: Seq<u32>, col: u32) -> bool {
    forall|r: int|
        0 <= r < placed.len() ==> (#[trigger] placed[r]) != col && distance(
            r,
            placed.len() as int,
        ) != distance(placed[r] as int, col as int)
}

/// Whether `board` is a full board of `n` rows that begins with `placed` and
/// in which every later queen is attacked by none above it.
pub open spec fn completes(board: Seq<u32>, placed: Seq<u32>, n: u32) -> bool {
    &&& board.len() == n
    &&& placed.len() <= n
    &&& board.take(placed.len() as int) == placed
    &&& forall|r: int|
        placed.len() <= r < n ==> (#[trigger] board[r]) < n && is_safe(board.take(r), board[r])
}

/// How many boards of `n` rows begin with `placed`.
pub open spec fn solutions(placed: Seq<u32>, n: u32) -> nat
    decreases n - placed.len(), n + 1,
{
    if placed.len() == n {
        1
    } else if placed.len() > n {
        0
    } else {
        solutions_from(placed, n, 0)
    }
}

/// How many of them have the next queen in column `col` or to the right of it.
pub open spec fn solutions_from(placed: Seq<u32>, n: u32, col: u32) -> nat
    decreases n - placed.len(), n - col,
{
    if placed.len() >= n || col >= n {
        0
    } else {
        (if is_safe(placed, col) {
            solutions(placed.push(col), n)
        } else {
            0
        }) + solutions_from(placed, n, (col + 1) as u32)
    }
}

/// How many of them have the next queen in one of the columns `cols`.
pub open spec fn solutions_in(cols: Seq<u32>, placed: Seq<u32>, n: u32) -> nat
    decreases cols.len(),
{
    if cols.len() == 0 {
        0
    } else {
        solutions_in(cols.drop_last(), placed, n) + solutions(placed.push(cols.last()), n)
    }
}

/// The boards of `n` rows that begin with `placed`.
pub open spec fn boards(placed: Seq<u32>, n: u32) -> Set<Seq<u32>> {
    Set::new(|b: Seq<u32>| completes(b, placed, n))
}

/// Those of them that have the next queen in column `col` or to the right of
/// it.
spec fn boards_from(placed: Seq<u32>, n: u32, col: u32) -> Set<Seq<u32>> {
    Set::new(|b: Seq<u32>| completes(b, placed, n) && b[placed.len() as int] >= col)
}

proof fn lemma_next_queen(b: Seq<u32>, placed: Seq<u32>, n: u32, col: u32)
    requires
        placed.len() < n,
        col < n,
    ensures
        is_safe(placed, col) ==> (completes(b, placed.push(col), n) == (completes(b, placed, n)
            && b[placed.len() as int] == col)),
        completes(b, placed, n) && b[placed.len() as int] == col ==> is_safe(placed, col),
{
    let row = placed.len() as int;
    if completes(b, placed, n) && b[row] == col {
        assert(is_safe(b.take(row), b[row]));
        assert(b.take(row + 1) =~= placed.push(col));
    }
    if is_safe(placed, col) && completes(b, placed.push(col), n) {
        assert(b.take(row + 1).take(row) =~= b.take(row));
        assert(placed.push(col).take(row) =~= placed);
        assert(b[row] == b.take(row + 1)[row]);
        assert forall|r: int| row <= r < n implies (#[trigger] b[r]) < n && is_safe(
            b.take(r),
            b[r],
        ) by {
        }
    }
}

proof fn lemma_boards_from(placed: Seq<u32>, n: u32, col: u32)
    requires
        placed.len() < n,
        col <= n,
    ensures
        boards_from(placed, n, col).finite(),
        boards_from(placed, n, col).len() == solutions_from(placed, n, col),
    decreases n - placed.len(), n - col,
{
    let all = boards_from(placed, n, col);
    let row = placed.len() as int;
    if col == n {
        assert forall|b: Seq<u32>| !all.contains(b) by {
            if completes(b, placed, n) {
                assert(b[row] < n);
            }
        }
        assert(all =~= Set::empty());
    } else {
        let rest = boards_from(placed, n, (col + 1) as u32);
        lemma_boards_from(placed, n, (col + 1) as u32);
        let here = if is_safe(placed, col) {
            boards(placed.push(col), n)
        } else {
            Set::empty()
        };
        if is_safe(placed, col) {
            law_solutions_counts_boards(placed.push(col), n);
        }
        assert forall|b: Seq<u32>| all.contains(b) == (here.contains(b) || rest.contains(b)) by {
            lemma_next_queen(b, placed, n, col);
        }
        assert forall|b: Seq<u32>| !(here.contains(b) && rest.contains(b)) by {
            lemma_next_queen(b, placed, n, col);
        }
        assert(all =~= here.union(rest));
        assert(here.disjoint(rest));
        vstd::set_lib::lemma_set_disjoint_lens(here, rest);
    }
}

/// The number that is counted is the number of boards: those of `n` rows that
/// begin with the given queens and in which every later queen is attacked by
/// none above it.
pub proof fn law_solutions_counts_boards(placed: Seq<u32>, n: u32)
    ensures
        boards(placed, n).finite(),
        boards(placed, n).len() == solutions(placed, n),
    decreases n - placed.len(), n + 1,
{
    let all = boards(placed, n);
    if placed.len() == n {
        assert forall|b: Seq<u32>| all.contains(b) == (b == placed) by {
            if completes(b, placed, n) {
                assert(b.take(n as int) =~= b);
            }
            assert(placed.take(n as int) =~= placed);
        }
        assert(all =~= Set::empty().insert(placed));
    } else if placed.len() > n {
        assert(all =~= Set::empty());
    } else {
        lemma_boards_from(placed, n, 0);
        assert(all =~= boards_from(placed, n, 0));
    }
}

/// The boards that are counted are exactly those on which no later queen is
/// attacked: a board of `n` rows that begins with the given queens is counted if
/// and only if each queen below them is on the board, and shares neither its
/// column nor a diagonal with any queen above it.
pub proof fn law_counted_boards_are_attack_free(board: Seq<u32>, placed: Seq<u32>, n: u32)
    ensures
        boards(placed, n).contains(board) <==> {
            &&& board.len() == n
            &&& placed.len() <= n
            &&& forall|i: int| 0 <= i < placed.len() ==> #[trigger] board[i] == placed[i]
            &&& forall|r: int| placed.len() <= r < n ==> #[trigger] board[r] < n
            &&& forall|q: int, r: int|
                placed.len() <= r < n && 0 <= q < r ==> {
                    &&& #[trigger] board[q] != #[trigger] board[r]
                    &&& board[q] - board[r] != r - q
                    &&& board[r] - board[q] != r - q
                }
        },
{
    if completes(board, placed, n) {
        assert forall|i: int| 0 <= i < placed.len() implies #[trigger] board[i] == placed[i] by {
            assert(board.take(placed.len() as int)[i] == board[i]);
        }
        assert forall|q: int, r: int| placed.len() <= r < n && 0 <= q < r implies {
            &&& #[trigger] board[q] != #[trigger] board[r]
            &&& board[q] - board[r] != r - q
            &&& board[r] - board[q] != r - q
        } by {
            assert(is_safe(board.take(r), board[r]));
            assert(board.take(r)[q] == board[q]);
        }
    }
    if board.len() == n && placed.len() <= n && (forall|i: int|
        0 <= i < placed.len() ==> #[trigger] board[i] == placed[i]) && (forall|r: int|
        placed.len() <= r < n ==> #[trigger] board[r] < n) && (forall|q: int, r: int|
        placed.len() <= r < n && 0 <= q < r ==> {
            &&& #[trigger] board[q] != #[trigger] board[r]
            &&& board[q] - board[r] != r - q
            &&& board[r] - board[q] != r - q
        }) {
        assert(board.take(placed.len() as int) =~= placed);
        assert forall|r: int| placed.len() <= r < n implies (#[trigger] board[r]) < n && is_safe(
            board.take(r),
            board[r],
        ) by {
            assert forall|q: int| 0 <= q < board.take(r).len() implies (#[trigger] board.take(r)[q])
                != board[r] && distance(q, r) != distance(
                board.take(r)[q] as int,
                board[r] as int,
            ) by {
                assert(board.take(r)[q] == board[q]);
            }
        }
        assert(completes(board, placed, n));
    }
}

/// What is counted for some columns is the sum of what is counted for each:
/// nothing for none, the boards that begin with its queen for one, and for two
/// groups of columns, however they are divided, the sum of both.
pub proof fn law_sums_add_up(left: Seq<u32>, right: Seq<u32>, placed: Seq<u32>, n: u32)
    ensures
        solutions_in(left + right, placed, n) == solutions_in(left, placed, n) + solutions_in(
            right,
            placed,
            n,
        ),
        solutions_in(Seq::<u32>::empty(), placed, n) == 0,
        forall|col: u32| #[trigger]
            solutions_in(seq![col], placed, n) == solutions(placed.push(col), n),
    decreases right.len(),
{
    assert forall|col: u32| #[trigger]
        solutions_in(seq![col], placed, n) == solutions(placed.push(col), n) by {
        let none = Seq::<u32>::empty();
        assert(seq![col].drop_last() =~= none);
        assert(solutions_in(none, placed, n) == 0);
        assert(seq![col].last() == col);
    }
    if right.len() == 0 {
        assert(left + right =~= left);
    } else {
        law_sums_add_up(left, right.drop_last(), placed, n);
        assert((left + right).drop_last() =~= left + right.drop_last());
    }
}

/// Whether columns can be told apart from each other by their signed distance.
pub open spec fn in_range(cols: Seq<u32>) -> bool {
    forall|i: int| 0 <= i < cols.len() ==> (#[trigger] cols[i]) <= i32::MAX
}

/// Whether the queen in row `r` attacks column `col` of row `row`.
fn attacks(r: usize, c: u32, row: usize, col: u32) -> (b: bool)
    requires
        r <= row,
    ensures
        b == (c == col || distance(r as int, row as int) == distance(c as int, col as int)),
{
    let rows: usize = row - r;
    let cols: u32 = if c < col {
        col - c
    } else {
        c - col
    };
    c == col || rows == cols as usize
}

/// Counts the boards of `n` rows that begin with `placed`. The number does not
/// depend on `par_depth`, which only says how many levels of the search fork.
pub fn nqueens<S: BenchSystem>(placed: Vec<u32>, n: u32, par_depth: usize) -> (r: u32)
    requires
        n <= i32::MAX,
        in_range(placed@),
        solutions(placed@, n) <= u32::MAX,
    ensures
        r == solutions(placed@, n),
        r == boards(placed@, n).len(),
    decreases n - placed@.len(), par_depth + 1,
{
    proof {
        law_solutions_counts_boards(placed@, n);
    }
    let row: usize = placed.len();
    if row == n as usize {
        return 1;
    }
    if row > n as usize {
        return 0;
    }
    let mut candidates: Vec<u32> = Vec::new();
    let mut col: u32 = 0;
    while col < n
        invariant
            col <= n,
            row == placed@.len(),
            row < n,
            n <= i32::MAX,
            in_range(candidates@),
            solutions_in(candidates@, placed@, n) + solutions_from(placed@, n, col)
                == solutions_from(placed@, n, 0),
        decreases n - col,
    {
        let mut safe = true;
        let mut r: usize = 0;
        while r < row
            invariant
                r <= row,
                row == placed@.len(),
                safe == forall|q: int|
                    0 <= q < r ==> (#[trigger] placed@[q]) != col && distance(q, row as int)
                        != distance(placed@[q] as int, col as int),
            decreases row - r,
        {
            if attacks(r, placed[r], row, col) {
                safe = false;
            }
            r += 1;
        }
        if safe {
            let ghost before = candidates@;
            candidates.push(col);
            assert(candidates@.drop_last() =~= before);
        }
        col += 1;
    }
    nqueens_sum::<S>(candidates, placed, n, par_depth)
}

/// Counts the boards of `n` rows that begin with `placed` and have the next
/// queen in one of the columns `candidates`, which are halved for every fork.
pub fn nqueens_sum<S: BenchSystem>(
    candidates: Vec<u32>,
    placed: Vec<u32>,
    n: u32,
    par_depth: usize,
) -> (r: u32)
    requires
        n <= i32::MAX,
        in_range(placed@),
        in_range(candidates@),
        placed@.len() < n,
        solutions_in(candidates@, placed@, n) <= u32::MAX,
    ensures
        r == solutions_in(candidates@, placed@, n),
    decreases n - placed@.len(), par_depth,
{
    let len: usize = candidates.len();
    if len == 0 {
        return 0;
    }
    if len == 1 {
        let mut next = placed;
        next.push(candidates[0]);
        assert(candidates@.drop_last() =~= Seq::<u32>::empty());
        assert(solutions_in(candidates@, placed@, n) == solutions_in(
            Seq::<u32>::empty(),
            placed@,
            n,
        ) + solutions(next@, n));
        return nqueens::<S>(next, n, par_depth.saturating_sub(1));
    }
    if par_depth == 0 {
        let mut sum: u32 = 0;
        let mut i: usize = 0;
        while i < len
            invariant
                i <= len,
                len == candidates@.len(),
                placed@.len() < n,
                n <= i32::MAX,
                in_range(placed@),
                in_range(candidates@),
                sum == solutions_in(candidates@.take(i as int), placed@, n),
                solutions_in(candidates@, placed@, n) <= u32::MAX,
            decreases len - i,
        {
            proof {
                let head = candidates@.take(i + 1);
                assert(head.drop_last() =~= candidates@.take(i as int));
                law_sums_add_up(head, candidates@.skip(i + 1), placed@, n);
                assert(head + candidates@.skip(i + 1) =~= candidates@);
            }
            let mut next = placed.clone();
            assert(next@ =~= placed@);
            next.push(candidates[i]);
            sum = sum + nqueens::<S>(next, n, 0);
            i += 1;
        }
        assert(candidates@.take(len as int) =~= candidates@);
        return sum;
    }
    let mid: usize = len / 2;
    let mut left = candidates;
    let right = left.split_off(mid);
    let placed_r = placed.clone();
    proof {
        assert(placed_r@ =~= placed@);
        assert(left@ + right@ =~= candidates@);
        law_sums_add_up(left@, right@, placed@, n);
    }
    let a = move || -> (x: u32)
        requires
            par_depth > 0,
            n <= i32::MAX,
            in_range(placed@),
            in_range(left@),
            placed@.len() < n,
            solutions_in(left@, placed@, n) <= u32::MAX,
        ensures
            x == solutions_in(left@, placed@, n),
        { nqueens_sum::<S>(left, placed, n, par_depth - 1) };
    let b = move || -> (x: u32)
        requires
            par_depth > 0,
            n <= i32::MAX,
            in_range(placed_r@),
            in_range(right@),
            placed_r@.len() < n,
            solutions_in(right@, placed_r@, n) <= u32::MAX,
        ensures
            x == solutions_in(right@, placed_r@, n),
        { nqueens_sum::<S>(right, placed_r, n, par_depth - 1) };
    let (l, r) = S::par_join(a, b);
    l + r
}

} // verus!
