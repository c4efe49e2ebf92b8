use vstd::prelude::*;
use vstd::arithmetic::div_mod::lemma_fundamental_div_mod;
use vstd::arithmetic::mul::lemma_mul_inequality;

use crate::rng::PcgRng;

verus! {

/// Capability of a Monte Carlo result: an empty value, a merge that
/// folds another result in, and a copy. The spec members give the
/// output's vocabulary — its shape invariant, what "empty" and "folded"
/// mean, and what holds after absorbing a number of trials — and each
/// defaults to trivial until the output says otherwise.
pub trait MonteCarloOutput: Sized {
    /// The output's shape invariant.
    open spec fn inv(&self) -> bool {
        true
    }

    /// What the merge identity looks like.
    open spec fn is_zero(&self) -> bool {
        true
    }

    /// Whether this output is the fold of `a` and `b`.
    open spec fn folds(&self, a: &Self, b: &Self) -> bool {
        true
    }

    /// Whether this output could be the fold of `n` absorbed trials.
    open spec fn absorbed(&self, n: nat) -> bool {
        true
    }

    /// Whether this output carries the same content as `src`.
    open spec fn copy_of(&self, src: &Self) -> bool {
        true
    }

    /// An empty output to accumulate into.
    fn new() -> (r: Self)
        ensures
            r.inv(),
            r.is_zero(),
            r.absorbed(0),
    ;

    /// Folds another output into this one; what two absorbed trial
    /// counts fold into is their sum.
    fn merge(&mut self, other: &Self)
        requires
            old(self).inv(),
            other.inv(),
        ensures
            final(self).inv(),
            final(self).folds(old(self), other),
            forall|n1: nat, n2: nat|
                old(self).absorbed(n1) && other.absorbed(n2) ==> final(self).absorbed(
                    (n1 + n2) as nat,
                ),
    ;

    /// A copy carrying the same content.
    fn duplicate(&self) -> (r: Self)
        requires
            self.inv(),
        ensures
            r.inv(),
            r.copy_of(self),
            forall|n: nat| self.absorbed(n) ==> r.absorbed(n),
    ;
}

/// One Monte Carlo trial: draws from its own state and accumulates into
/// an output. `wf` is whatever well-formedness the trial needs of its
/// state; the factory establishes it and `sample` keeps it. `sample_rel`
/// is what one trial does to the output, whatever the draw; both default
/// to trivial until the sampler says otherwise.
pub trait MonteCarloAlgorithm: Sized {
    type Output: MonteCarloOutput;

    /// Well-formedness of the sampler's state.
    open spec fn wf(&self) -> bool {
        true
    }

    /// What one trial does to the output, for every outcome of the draw.
    open spec fn sample_rel(before: &Self::Output, after: &Self::Output) -> bool {
        true
    }

    /// Runs one trial: the output absorbs it.
    fn sample(&mut self, output: &mut Self::Output)
        requires
            old(self).wf(),
            old(output).inv(),
        ensures
            final(self).wf(),
            final(output).inv(),
            Self::sample_rel(old(output), final(output)),
            forall|n: nat| old(output).absorbed(n) ==> final(output).absorbed(n + 1),
    ;
}

/// Builds one sampler per worker from a per-worker seed.
pub trait MonteCarloAlgorithmFactory: Sized {
    type Algorithm: MonteCarloAlgorithm;

    /// Whether this factory holds what its samplers need; trivial
    /// unless the factory says otherwise.
    open spec fn can_make(&self) -> bool {
        true
    }

    /// Whether `a` is a sampler this factory would build: trivial until
    /// the factory ties its samplers to its own state.
    open spec fn makes(&self, a: &Self::Algorithm) -> bool {
        true
    }

    /// Builds a sampler seeded for one worker.
    fn make(&self, seed: u64) -> (a: Self::Algorithm)
        requires
            self.can_make(),
        ensures
            a.wf(),
            self.makes(&a),
    ;
}

/// How a run is split: the number of workers, and how many trials each
/// accumulates between two reports.
pub struct MonteCarloConfiguration {
    pub threads: usize,
    pub chunk_size: usize,
}

/// What one worker accumulated between two reports.
pub struct Chunk<Output: MonteCarloOutput> {
    pub output: Output,
    pub iterations_done: usize,
}

impl<O: MonteCarloOutput> Chunk<O> {
    /// An empty chunk.
    pub fn new() -> (c: Self)
        ensures
            c.iterations_done == 0,
            c.output.inv(),
            c.output.is_zero(),
            c.output.absorbed(0),
    {
        Chunk { output: O::new(), iterations_done: 0 }
    }

    /// Folds another chunk into this one: the outputs merge, the
    /// iteration counts add, and absorbed trial counts add with them.
    pub fn merge(&mut self, other: &Self)
        requires
            old(self).iterations_done + other.iterations_done <= usize::MAX,
            old(self).output.inv(),
            other.output.inv(),
        ensures
            final(self).iterations_done == old(self).iterations_done + other.iterations_done,
            final(self).output.inv(),
            final(self).output.folds(&old(self).output, &other.output),
            forall|n1: nat, n2: nat|
                old(self).output.absorbed(n1) && other.output.absorbed(n2)
                    ==> final(self).output.absorbed((n1 + n2) as nat),
    {
        self.output.merge(&other.output);
        self.iterations_done = self.iterations_done + other.iterations_done;
    }
}

/// A worker's report: one more chunk, or completion.
pub enum MessageContent<Output: MonteCarloOutput> {
    Chunk(Chunk<Output>),
    Done,
}

/// A report tagged with the worker that produced it.
pub struct Message<Output: MonteCarloOutput> {
    pub thread_id: usize,
    pub content: MessageContent<Output>,
}

/// One worker: a sampler plus its batching discipline.
pub struct MonteCarloThread<Algorithm: MonteCarloAlgorithm> {
    thread_id: usize,
    algorithm: Algorithm,
    chunk_size: usize,
}

impl<A: MonteCarloAlgorithm> MonteCarloThread<A> {
    /// Well-formedness: the sampler is usable and batches are non-empty.
    pub closed spec fn wf(&self) -> bool {
        self.algorithm.wf() && self.chunk_size >= 1
    }

    /// The worker's batch size.
    pub closed spec fn spec_chunk_size(&self) -> usize {
        self.chunk_size
    }

    /// The worker's identifier.
    pub closed spec fn spec_thread_id(&self) -> usize {
        self.thread_id
    }

    /// Builds a worker around a sampler.
    pub fn new(thread_id: usize, algorithm: A, chunk_size: usize) -> (t: Self)
        requires
            chunk_size >= 1,
        ensures
            algorithm.wf() ==> t.wf(),
            t.spec_chunk_size() == chunk_size,
            t.spec_thread_id() == thread_id,
    {
        MonteCarloThread { thread_id, algorithm, chunk_size }
    }

    /// Runs one batch: as many trials as remain, the batch size at most.
    pub fn run_chunk(&mut self, remaining: usize) -> (c: Chunk<A::Output>)
        requires
            old(self).wf(),
            remaining >= 1,
        ensures
            final(self).wf(),
            final(self).spec_chunk_size() == old(self).spec_chunk_size(),
            final(self).spec_thread_id() == old(self).spec_thread_id(),
            c.iterations_done == if remaining < old(self).spec_chunk_size() {
                remaining
            } else {
                old(self).spec_chunk_size()
            },
            c.output.inv(),
            c.output.absorbed(c.iterations_done as nat),
    {
        let batch = if remaining < self.chunk_size {
            remaining
        } else {
            self.chunk_size
        };
        let mut chunk: Chunk<A::Output> = Chunk::new();
        let mut done: usize = 0;
        while done < batch
            invariant
                self.wf(),
                self.spec_chunk_size() == old(self).spec_chunk_size(),
                self.spec_thread_id() == old(self).spec_thread_id(),
                done <= batch,
                batch <= remaining,
                chunk.iterations_done == done,
                chunk.output.inv(),
                chunk.output.absorbed(done as nat),
            decreases batch - done,
        {
            self.algorithm.sample(&mut chunk.output);
            chunk.iterations_done = chunk.iterations_done + 1;
            done = done + 1;
        }
        chunk
    }

    /// Runs all `iterations` trials in batches, returning the merged
    /// result: exactly `iterations` trials are performed.
    pub fn run(&mut self, iterations: usize) -> (c: Chunk<A::Output>)
        requires
            old(self).wf(),
        ensures
            final(self).wf(),
            final(self).spec_chunk_size() == old(self).spec_chunk_size(),
            final(self).spec_thread_id() == old(self).spec_thread_id(),
            c.iterations_done == iterations,
            c.output.inv(),
            c.output.absorbed(iterations as nat),
    {
        let mut total: Chunk<A::Output> = Chunk::new();
        let mut remaining = iterations;
        while remaining > 0
            invariant
                self.wf(),
                self.spec_chunk_size() == old(self).spec_chunk_size(),
                self.spec_thread_id() == old(self).spec_thread_id(),
                total.iterations_done + remaining == iterations,
                total.output.inv(),
                total.output.absorbed(total.iterations_done as nat),
            decreases remaining,
        {
            let c = self.run_chunk(remaining);
            total.merge(&c);
            remaining = remaining - c.iterations_done;
        }
        total
    }
}

/// The sum of the iteration quotas of the first `t` workers: worker `w`
/// gets `total / threads` trials, plus one while `w < total % threads`.
pub open spec fn partition_sum(total: int, threads: int, t: int) -> int
    decreases t,
{
    if t <= 0 {
        0
    } else {
        partition_sum(total, threads, t - 1) + total / threads + if t - 1 < total % threads {
            1int
        } else {
            0int
        }
    }
}

proof fn lemma_partition_sum_form(total: int, threads: int, t: int)
    requires
        total >= 0,
        threads >= 1,
        t >= 0,
    ensures
        partition_sum(total, threads, t) == t * (total / threads) + if t <= total % threads {
            t
        } else {
            total % threads
        },
    decreases t,
{
    if t > 0 {
        lemma_partition_sum_form(total, threads, t - 1);
        let q = total / threads;
        let r = total % threads;
        assert(partition_sum(total, threads, t) == partition_sum(total, threads, t - 1) + q + if t
            - 1 < r {
            1int
        } else {
            0int
        });
        assert(t * q == (t - 1) * q + q) by (nonlinear_arith);
        assert(partition_sum(total, threads, t) == t * q + if t <= r {
            t
        } else {
            r
        });
    } else {
        assert(t * (total / threads) == 0) by (nonlinear_arith)
            requires
                t == 0,
        ;
    }
}

/// Splitting `total` trials over `threads` workers loses none: the first
/// `total % threads` workers take one extra, and the quotas add back up.
pub proof fn lemma_partition_sum_total(total: int, threads: int, t: int)
    requires
        total >= 0,
        threads >= 1,
        0 <= t <= threads,
    ensures
        0 <= partition_sum(total, threads, t) <= total,
        t == threads ==> partition_sum(total, threads, t) == total,
    decreases t,
{
    lemma_partition_sum_form(total, threads, t);
    lemma_fundamental_div_mod(total, threads);
    vstd::arithmetic::div_mod::lemma_div_pos_is_pos(total, threads);
    lemma_mul_inequality(t, threads, total / threads);
}

/// The Monte Carlo driver: it partitions an iteration budget over the
/// configured workers, seeds each one deterministically from its own
/// generator, runs them, and merges their chunks. A run performs the
/// requested number of trials exactly.
pub struct MonteCarlo<Factory: MonteCarloAlgorithmFactory> {
    chunk: Chunk<
        <<Factory as MonteCarloAlgorithmFactory>::Algorithm as MonteCarloAlgorithm>::Output,
    >,
    factory: Factory,
    configuration: MonteCarloConfiguration,
    rng: PcgRng,
}

impl<Factory: MonteCarloAlgorithmFactory> MonteCarlo<Factory> {
    /// The factory the driver was built around.
    pub closed spec fn spec_factory(&self) -> Factory {
        self.factory
    }

    /// The configured number of workers.
    pub closed spec fn spec_threads(&self) -> usize {
        self.configuration.threads
    }

    /// The configured batch size.
    pub closed spec fn spec_chunk_size(&self) -> usize {
        self.configuration.chunk_size
    }

    /// Trials accumulated so far and not yet taken by a `run`.
    pub closed spec fn spec_done(&self) -> usize {
        self.chunk.iterations_done
    }

    /// Whether the accumulated output keeps its shape invariant.
    pub closed spec fn chunk_inv(&self) -> bool {
        self.chunk.output.inv()
    }

    /// Whether the accumulated output has absorbed exactly the trials
    /// counted so far.
    pub closed spec fn chunk_absorbed(&self) -> bool {
        self.chunk.output.absorbed(self.chunk.iterations_done as nat)
    }

    /// The output retained by the driver.
    pub closed spec fn spec_output(&self) -> <<Factory as MonteCarloAlgorithmFactory>::Algorithm as MonteCarloAlgorithm>::Output {
        self.chunk.output
    }

    /// Builds a driver with its own seeded generator.
    pub fn new(factory: Factory, configuration: MonteCarloConfiguration, seed: u64) -> (s: Self)
        ensures
            s.spec_factory() == factory,
            s.spec_threads() == configuration.threads,
            s.spec_chunk_size() == configuration.chunk_size,
            s.spec_done() == 0,
            s.chunk_inv(),
            s.chunk_absorbed(),
    {
        MonteCarlo { chunk: Chunk::new(), factory, configuration, rng: PcgRng::new(seed) }
    }

    /// Runs `iterations` further trials over the workers, merging each
    /// worker's result into the driver's retained chunk; the returned
    /// chunk is a copy of everything accumulated so far, and the driver
    /// keeps accumulating across runs.
    pub fn run(&mut self, iterations: usize) -> (r: Chunk<
        <<Factory as MonteCarloAlgorithmFactory>::Algorithm as MonteCarloAlgorithm>::Output,
    >)
        requires
            old(self).spec_factory().can_make(),
            old(self).spec_threads() >= 1,
            old(self).spec_chunk_size() >= 1,
            old(self).spec_done() + iterations <= usize::MAX,
            old(self).chunk_inv(),
            old(self).chunk_absorbed(),
        ensures
            r.iterations_done == old(self).spec_done() + iterations,
            r.output.inv(),
            r.output.absorbed(r.iterations_done as nat),
            r.output.copy_of(&final(self).spec_output()),
            final(self).spec_done() == r.iterations_done,
            final(self).chunk_inv(),
            final(self).chunk_absorbed(),
            final(self).spec_factory() == old(self).spec_factory(),
            final(self).spec_threads() == old(self).spec_threads(),
            final(self).spec_chunk_size() == old(self).spec_chunk_size(),
    {
        let ghost initial = self.chunk.iterations_done as int;
        let threads = self.configuration.threads;
        let base = iterations / threads;
        let remainder = iterations % threads;
        let mut thread_id: usize = 0;
        while thread_id < threads
            invariant
                threads >= 1,
                threads == self.spec_threads(),
                self.spec_threads() == old(self).spec_threads(),
                self.spec_chunk_size() == old(self).spec_chunk_size(),
                self.spec_chunk_size() >= 1,
                self.spec_factory() == old(self).spec_factory(),
                self.spec_factory().can_make(),
                base == iterations as int / threads as int,
                remainder == iterations as int % threads as int,
                thread_id <= threads,
                initial + iterations <= usize::MAX,
                initial == old(self).spec_done(),
                self.chunk_inv(),
                self.chunk_absorbed(),
                self.spec_done() == initial + partition_sum(
                    iterations as int,
                    threads as int,
                    thread_id as int,
                ),
            decreases threads - thread_id,
        {
            proof {
                lemma_partition_sum_total(iterations as int, threads as int, thread_id as int);
                lemma_partition_sum_total(iterations as int, threads as int, thread_id + 1);
            }
            let seed = self.rng.next_u64();
            let algorithm = self.factory.make(seed);
            let quota = if thread_id < remainder {
                base + 1
            } else {
                base
            };
            let mut worker = MonteCarloThread::new(thread_id, algorithm, self.configuration.chunk_size);
            let c = worker.run(quota);
            self.chunk.merge(&c);
            thread_id = thread_id + 1;
        }
        proof {
            lemma_partition_sum_total(iterations as int, threads as int, threads as int);
        }
        let output = self.chunk.output.duplicate();
        Chunk { output, iterations_done: self.chunk.iterations_done }
    }
}

} // verus!
