//! Measuring a path: the result record, the fallback over strategies, and the reading of
//! what Finder answers.
use vstd::prelude::*;
use vstd::string::*;
use crate::config::Strategy;
use crate::text::{decimal_text, i64_to_text, parse_i64, spec_parse_i64};
use std::time::Instant;

verus! {

/// The moment a measure started.
#[verifier::external_type_specification]
#[verifier::external_body]
pub struct ExInstant(Instant);

/// `Instant::now`: the current time. Nothing is claimed of it.
#[verifier::external_body]
fn instant_now() -> Instant {
    Instant::now()
}

/// `Instant::elapsed`: the nanoseconds since `start`. Nothing is claimed of it.
#[verifier::external_body]
fn elapsed_nanos(start: &Instant) -> u128 {
    start.elapsed().as_nanos()
}

/// A copy of `v`.
fn copy_bytes(v: &Vec<u8>) -> (res: Vec<u8>)
    ensures
        res@ == v@,
{
    let mut res: Vec<u8> = Vec::new();
    let mut i: usize = 0;
    while i < v.len()
        invariant
            i <= v@.len(),
            res@ =~= v@.subrange(0, i as int),
        decreases v@.len() - i,
    {
        res.push(v[i]);
        i = i + 1;
    }
    res
}

/// A copy of `s`.
fn copy_message(s: &Option<String>) -> (res: Option<String>)
    ensures
        res == *s,
{
    match s {
        Some(m) => Some(m.clone()),
        None => None,
    }
}

/// The outcome of measuring one path.
#[derive(Debug)]
pub struct PathResult {
    /// The bytes of the path measured.
    pub path: Vec<u8>,
    /// The size found, in bytes (0 when none was found).
    pub size: i64,
    /// How long the successful measure took, in nanoseconds.
    pub duration_nanos: u128,
    /// The strategy that found the size.
    pub strategy: Option<Strategy>,
    /// Why no size was found.
    pub error_message: Option<String>,
    /// When the measure started.
    pub start_time: Instant,
}

impl PathResult {
    /// A pending result for `path`, started now.
    pub fn new(path: &Vec<u8>) -> (res: Self)
        ensures
            res.path@ == path@,
            res.size == 0,
            res.duration_nanos == 0,
            res.strategy is None,
            res.error_message is None,
    {
        PathResult {
            path: copy_bytes(path),
            size: 0,
            duration_nanos: 0,
            strategy: None,
            error_message: None,
            start_time: instant_now(),
        }
    }

    /// This result, measured as `size` by `strategy`, with the time elapsed since it started.
    pub fn success(&self, size: i64, strategy: Strategy) -> (res: Self)
        ensures
            res.path@ == self.path@,
            res.size == size,
            res.strategy == Some(strategy),
            res.error_message == self.error_message,
            res.start_time == self.start_time,
    {
        PathResult {
            path: copy_bytes(&self.path),
            size,
            duration_nanos: elapsed_nanos(&self.start_time),
            strategy: Some(strategy),
            error_message: copy_message(&self.error_message),
            start_time: self.start_time,
        }
    }

    /// This result, failed with `error_message`; everything else is kept.
    pub fn error(&self, error_message: String) -> (res: Self)
        ensures
            res.path@ == self.path@,
            res.size == self.size,
            res.duration_nanos == self.duration_nanos,
            res.strategy == self.strategy,
            res.error_message == Some(error_message),
            res.start_time == self.start_time,
    {
        PathResult {
            path: copy_bytes(&self.path),
            size: self.size,
            duration_nanos: self.duration_nanos,
            strategy: self.strategy,
            error_message: Some(error_message),
            start_time: self.start_time,
        }
    }
}

impl Clone for PathResult {
    fn clone(&self) -> (res: Self)
        ensures
            res.path@ == self.path@,
            res.size == self.size,
            res.duration_nanos == self.duration_nanos,
            res.strategy == self.strategy,
            res.error_message == self.error_message,
            res.start_time == self.start_time,
    {
        PathResult {
            path: copy_bytes(&self.path),
            size: self.size,
            duration_nanos: self.duration_nanos,
            strategy: self.strategy,
            error_message: copy_message(&self.error_message),
            start_time: self.start_time,
        }
    }
}

/// The message of a path that no strategy could measure.
pub open spec fn no_strategy_message() -> Seq<char> {
    "No strategy worked"@
}

/// What to do next while measuring a path.
#[derive(Debug)]
pub enum FallbackAction {
    /// Measure the path with this strategy, then report the outcome with `step`.
    Run(Strategy),
    /// The measure is over.
    Finish(PathResult),
}

/// What a step of the fallback comes to, as the specification sees it.
pub enum FallbackStep {
    /// This strategy runs next.
    Run(Strategy),
    /// This strategy found this size; the measure is over.
    Found(Strategy, i64),
    /// No strategy is left; the measure failed.
    Exhausted,
}

/// What the action `a` comes to: a finished result with a strategy found a size with it.
pub open spec fn step_of(a: FallbackAction) -> FallbackStep {
    match a {
        FallbackAction::Run(s) => FallbackStep::Run(s),
        FallbackAction::Finish(r) => match r.strategy {
            Some(s) => FallbackStep::Found(s, r.size),
            None => FallbackStep::Exhausted,
        },
    }
}

/// The first step over `strats`, and how many strategies it hands out.
pub open spec fn spec_start(strats: Seq<Strategy>) -> (FallbackStep, nat) {
    if strats.len() == 0 {
        (FallbackStep::Exhausted, 0)
    } else {
        (FallbackStep::Run(strats[0]), 1)
    }
}

/// The step after the strategy run last (the `tried`-th) came back with `outcome`, and how
/// many strategies were handed out then.
pub open spec fn spec_step(strats: Seq<Strategy>, tried: nat, outcome: Option<i64>) -> (
    FallbackStep,
    nat,
) {
    match outcome {
        Some(size) => (FallbackStep::Found(strats[tried - 1], size), tried),
        None => if tried < strats.len() {
            (FallbackStep::Run(strats[tried as int]), tried + 1)
        } else {
            (FallbackStep::Exhausted, tried)
        },
    }
}

/// Where the fallback ends when, from the step `step` with `tried` strategies handed out,
/// each strategy run comes back with the next of `outcomes`.
pub open spec fn drive(strats: Seq<Strategy>, tried: nat, step: FallbackStep, outcomes: Seq<
    Option<i64>,
>) -> FallbackStep
    decreases outcomes.len(),
{
    match step {
        FallbackStep::Run(_) => if outcomes.len() == 0 {
            step
        } else {
            let (next, t) = spec_step(strats, tried, outcomes[0]);
            drive(strats, t, next, outcomes.drop_first())
        },
        _ => step,
    }
}

/// The first of the strategies from the `i`-th on whose outcome is a size, with that size.
pub open spec fn first_found(strats: Seq<Strategy>, outcomes: Seq<Option<i64>>, i: int) -> FallbackStep
    decreases strats.len() - i,
{
    if i < 0 || i >= strats.len() {
        FallbackStep::Exhausted
    } else {
        match outcomes[i] {
            Some(size) => FallbackStep::Found(strats[i], size),
            None => first_found(strats, outcomes, i + 1),
        }
    }
}

proof fn lemma_drive_from(strats: Seq<Strategy>, outcomes: Seq<Option<i64>>, i: int)
    requires
        0 <= i < strats.len(),
        outcomes.len() >= strats.len(),
    ensures
        drive(strats, (i + 1) as nat, FallbackStep::Run(strats[i]), outcomes.skip(i))
            == first_found(strats, outcomes, i),
    decreases strats.len() - i,
{
    let rest = outcomes.skip(i);
    assert(rest[0] == outcomes[i]);
    assert(rest.drop_first() =~= outcomes.skip(i + 1));
    let (next, t) = spec_step(strats, (i + 1) as nat, outcomes[i]);
    assert(drive(strats, (i + 1) as nat, FallbackStep::Run(strats[i]), rest) == drive(
        strats,
        t,
        next,
        outcomes.skip(i + 1),
    ));
    match outcomes[i] {
        Some(size) => {
            assert(next == FallbackStep::Found(strats[i], size));
            assert(drive(strats, t, next, outcomes.skip(i + 1)) == next);
            assert(first_found(strats, outcomes, i) == next);
        },
        None => {
            if i + 1 < strats.len() {
                assert(next == FallbackStep::Run(strats[i + 1]));
                assert(t == i + 2);
                lemma_drive_from(strats, outcomes, i + 1);
                assert(first_found(strats, outcomes, i) == first_found(strats, outcomes, i + 1));
            } else {
                assert(next == FallbackStep::Exhausted);
                assert(drive(strats, t, next, outcomes.skip(i + 1)) == next);
                assert(first_found(strats, outcomes, i + 1) == FallbackStep::Exhausted);
                assert(first_found(strats, outcomes, i) == first_found(strats, outcomes, i + 1));
            }
        },
    }
}

/// Driving the fallback with one outcome per strategy ends with the first strategy, in
/// order, whose outcome is a size, and with that size; when none finds one, with no
/// strategy.
pub proof fn law_first_size_wins(strats: Seq<Strategy>, outcomes: Seq<Option<i64>>)
    requires
        outcomes.len() >= strats.len(),
    ensures
        drive(strats, spec_start(strats).1, spec_start(strats).0, outcomes) == first_found(
            strats,
            outcomes,
            0,
        ),
{
    if strats.len() > 0 {
        lemma_drive_from(strats, outcomes, 0);
        assert(outcomes.skip(0) =~= outcomes);
    }
}

/// The strategies tried in turn on one path until one of them finds a size.
pub struct StrategyFallback {
    path: Vec<u8>,
    strategies: Vec<Strategy>,
    next: usize,
}

impl StrategyFallback {
    /// The path measured.
    pub closed spec fn path_bytes(&self) -> Seq<u8> {
        self.path@
    }

    /// The strategies, in the order they are tried.
    pub closed spec fn strategies(&self) -> Seq<Strategy> {
        self.strategies@
    }

    /// How many strategies were handed out so far.
    pub closed spec fn tried(&self) -> nat {
        self.next as nat
    }

    /// A fallback over `strategies` for `path`, nothing tried yet.
    pub fn new(path: &Vec<u8>, strategies: Vec<Strategy>) -> (res: Self)
        ensures
            res.path_bytes() == path@,
            res.strategies() == strategies@,
            res.tried() == 0,
    {
        StrategyFallback { path: copy_bytes(path), strategies, next: 0 }
    }

    /// The result when every strategy failed.
    fn give_up(&self) -> (res: PathResult)
        ensures
            res.path@ == self.path_bytes(),
            res.size == 0,
            res.duration_nanos == 0,
            res.strategy is None,
            res.error_message is Some && res.error_message->0@ == no_strategy_message(),
    {
        PathResult::new(&self.path).error(String::from_str("No strategy worked"))
    }

    /// The first action: run the first strategy, or give up when there is none.
    pub fn start(&mut self) -> (res: FallbackAction)
        requires
            old(self).tried() == 0,
        ensures
            step_of(res) == spec_start(old(self).strategies()).0,
            final(self).tried() == spec_start(old(self).strategies()).1,
            final(self).path_bytes() == old(self).path_bytes(),
            final(self).strategies() == old(self).strategies(),
            old(self).strategies().len() > 0 ==> res == FallbackAction::Run(
                old(self).strategies()[0],
            ) && final(self).tried() == 1,
            old(self).strategies().len() == 0 ==> final(self).tried() == 0 && match res {
                FallbackAction::Finish(r) => r.path@ == old(self).path_bytes() && r.size == 0 && r.duration_nanos == 0
                    && r.strategy is None && r.error_message is Some
                    && r.error_message->0@ == no_strategy_message(),
                FallbackAction::Run(_) => false,
            },
    {
        if self.strategies.len() == 0 {
            FallbackAction::Finish(self.give_up())
        } else {
            self.next = 1;
            FallbackAction::Run(self.strategies[0])
        }
    }

    /// Takes the outcome of the strategy run last (measured under `attempt`, the result
    /// started just before it ran): a size ends the measure with that strategy; otherwise
    /// the next strategy runs, or, when none is left, the measure fails.
    pub fn step(&mut self, attempt: PathResult, outcome: Option<i64>) -> (res: FallbackAction)
        requires
            0 < old(self).tried() <= old(self).strategies().len(),
        ensures
            step_of(res) == spec_step(old(self).strategies(), old(self).tried(), outcome).0,
            final(self).tried() == spec_step(old(self).strategies(), old(self).tried(), outcome).1,
            final(self).path_bytes() == old(self).path_bytes(),
            final(self).strategies() == old(self).strategies(),
            match outcome {
                Some(size) => final(self).tried() == old(self).tried() && match res {
                    FallbackAction::Finish(r) => r.path@ == attempt.path@ && r.size == size
                        && r.strategy == Some(old(self).strategies()[old(self).tried() - 1])
                        && r.error_message == attempt.error_message && r.start_time
                        == attempt.start_time,
                    FallbackAction::Run(_) => false,
                },
                None => if old(self).tried() < old(self).strategies().len() {
                    res == FallbackAction::Run(old(self).strategies()[old(self).tried() as int])
                        && final(self).tried() == old(self).tried() + 1
                } else {
                    final(self).tried() == old(self).tried() && match res {
                        FallbackAction::Finish(r) => r.path@ == old(self).path_bytes() && r.size
                            == 0 && r.duration_nanos == 0 && r.strategy is None && r.error_message is Some
                            && r.error_message->0@ == no_strategy_message(),
                        FallbackAction::Run(_) => false,
                    }
                },
            },
    {
        match outcome {
            Some(size) => FallbackAction::Finish(attempt.success(size, self.strategies[self.next - 1])),
            None => {
                if self.next < self.strategies.len() {
                    let s = self.strategies[self.next];
                    self.next = self.next + 1;
                    FallbackAction::Run(s)
                } else {
                    FallbackAction::Finish(self.give_up())
                }
            },
        }
    }
}

/// The result of measuring a file, which is always a walk: `result` with the size found, or
/// with the error met reading it.
pub fn measure_file(result: &PathResult, size: Result<i64, String>) -> (res: PathResult)
    ensures
        res.path@ == result.path@,
        res.start_time == result.start_time,
        match size {
            Ok(s) => res.size == s && res.strategy == Some(Strategy::Live)
                && res.error_message == result.error_message,
            Err(e) => res.size == result.size && res.strategy == result.strategy
                && res.duration_nanos == result.duration_nanos && res.error_message == Some(e),
        },
{
    match size {
        Ok(s) => result.success(s, Strategy::Live),
        Err(e) => result.error(e),
    }
}

/// The strategies that a measure through this library tries, in order.
pub fn fffs_strategies() -> (res: Vec<Strategy>)
    ensures
        res@ == seq![Strategy::Dstore, Strategy::Aev, Strategy::Live],
{
    let r = vec![Strategy::Dstore, Strategy::Aev, Strategy::Live];
    assert(r@ =~= seq![Strategy::Dstore, Strategy::Aev, Strategy::Live]);
    r
}

/// The size of a finished measure, or its error message.
pub fn get_fffs(rr: PathResult) -> (res: Result<i64, String>)
    ensures
        match rr.error_message {
            Some(err) => res == Err::<i64, String>(err),
            None => res == Ok::<i64, String>(rr.size),
        },
{
    match rr.error_message {
        Some(err) => Err(err),
        None => Ok(rr.size),
    }
}

/// The folder size that the AppleScript answered, or the answer itself when it is not a
/// decimal `i64`.
pub fn get_osa_folder_size(output: String) -> (res: Result<i64, String>)
    ensures
        match spec_parse_i64(output@) {
            Some(v) => res == Ok::<i64, String>(v),
            None => res is Err && res->Err_0@ == output@,
        },
{
    match parse_i64(output.as_str()) {
        Some(v) => Ok(v),
        None => Err(output),
    }
}

/// The text of a negative answer of Finder's fast folder size.
pub open spec fn finder_error_message(resp: i64) -> Seq<char> {
    "Error - get_finder_fast_folder_size : "@ + decimal_text(resp as int) + " "@
}

/// Finder's fast folder size answer `resp`: a size, or an error when it is negative.
pub fn finder_size_result(resp: i64) -> (res: Result<i64, String>)
    ensures
        resp >= 0 ==> res == Ok::<i64, String>(resp),
        resp < 0 ==> res is Err && res->Err_0@ == finder_error_message(resp),
{
    if resp < 0 {
        let mut msg = String::from_str("Error - get_finder_fast_folder_size : ");
        let n = i64_to_text(resp);
        msg.append(n.as_str());
        msg.append(" ");
        return Err(msg);
    }
    Ok(resp)
}

/// The sum of `s`.
pub open spec fn sum_sizes(s: Seq<u64>) -> int
    decreases s.len(),
{
    if s.len() == 0 {
        0
    } else {
        sum_sizes(s.drop_last()) + s.last()
    }
}

/// The total of the file sizes `sizes`, as the `i64` that a 64-bit sum casts to, or `None`
/// when the sum does not fit in 64 bits.
pub fn sum_file_sizes(sizes: &Vec<u64>) -> (res: Option<i64>)
    ensures
        sum_sizes(sizes@) <= u64::MAX ==> res == Some((sum_sizes(sizes@) as u64) as i64),
        sum_sizes(sizes@) > u64::MAX ==> res is None,
{
    let mut acc: u128 = 0;
    let mut i: usize = 0;
    let n = sizes.len();
    while i < n
        invariant
            n == sizes@.len(),
            i <= n,
            acc == sum_sizes(sizes@.subrange(0, i as int)),
            acc <= i * 0xffff_ffff_ffff_ffff,
        decreases sizes@.len() - i,
    {
        assert(sizes@.subrange(0, i + 1).drop_last() =~= sizes@.subrange(0, i as int));
        acc = acc + sizes[i] as u128;
        i = i + 1;
    }
    assert(sizes@.subrange(0, sizes@.len() as int) =~= sizes@);
    if acc > 0xffff_ffff_ffff_ffff {
        None
    } else {
        Some((acc as u64) as i64)
    }
}

} // verus!
