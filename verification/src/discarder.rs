use vstd::prelude::*;
use vstd::slice::slice_to_vec;
use itertools::Itertools;

use crate::card::Card;
use crate::card::valid_cards;
use crate::deck::Deck;
use crate::deck::is_draw_of;
use crate::hand_spec::category_delta;
use crate::monte_carlo::{
    Chunk, MonteCarlo, MonteCarloAlgorithm, MonteCarloAlgorithmFactory, MonteCarloConfiguration,
    MonteCarloOutput,
};
use crate::poker_hand_resolver::PokerHandResolver;
use crate::poker_hands_count::PokerHandsCount;
use crate::rng::PcgRng;
use crate::utils::{binomial, combinations, factorial, falling_product, lemma_binomial_full};

verus! {

broadcast use vstd::seq_lib::group_to_multiset_ensures;

/// Workloads up to this many completions are enumerated exhaustively;
/// larger ones are sampled.
pub const MAX_COMBINATIONS: usize = 30000;

/// Per-worker batch size of the Monte Carlo path.
pub const MONTE_CARLO_CHUNK_SIZE: usize = 1000000;

/// All `k`-element combinations of `s`, in lexicographic order of
/// positions: the combinations that keep the first element come first.
pub open spec fn combination_seqs(s: Seq<Card>, k: nat) -> Seq<Seq<Card>>
    decreases s.len(),
{
    if k == 0 {
        seq![Seq::<Card>::empty()]
    } else if s.len() == 0 {
        Seq::<Seq<Card>>::empty()
    } else {
        combination_seqs(s.drop_first(), (k - 1) as nat).map_values(|c: Seq<Card>| seq![s[0]] + c)
            + combination_seqs(s.drop_first(), k)
    }
}

/// There are exactly `C(|s|, k)` combinations.
pub proof fn lemma_combination_seqs_len(s: Seq<Card>, k: nat)
    ensures
        combination_seqs(s, k).len() == binomial(s.len(), k),
    decreases s.len(),
{
    if k == 0 {
    } else if s.len() == 0 {
    } else {
        lemma_combination_seqs_len(s.drop_first(), (k - 1) as nat);
        lemma_combination_seqs_len(s.drop_first(), k);
    }
}

/// Every combination has `k` cards, and each is a card of `s`.
pub proof fn lemma_combination_seqs_items(s: Seq<Card>, k: nat)
    ensures
        forall|i: int|
            0 <= i < combination_seqs(s, k).len() ==> (#[trigger] combination_seqs(s, k)[i]).len()
                == k,
        forall|i: int, j: int|
            0 <= i < combination_seqs(s, k).len() && 0 <= j < k ==> s.contains(
                #[trigger] combination_seqs(s, k)[i][j],
            ),
    decreases s.len(),
{
    if k == 0 {
    } else if s.len() == 0 {
    } else {
        lemma_combination_seqs_items(s.drop_first(), (k - 1) as nat);
        lemma_combination_seqs_items(s.drop_first(), k);
        let left = combination_seqs(s.drop_first(), (k - 1) as nat).map_values(
            |c: Seq<Card>| seq![s[0]] + c,
        );
        let right = combination_seqs(s.drop_first(), k);
        assert forall|x: Card| s.drop_first().contains(x) implies s.contains(x) by {
            let ix = choose|ix: int| 0 <= ix < s.drop_first().len() && s.drop_first()[ix] == x;
            assert(s[ix + 1] == x);
        }
        assert forall|i: int, j: int|
            0 <= i < combination_seqs(s, k).len() && 0 <= j < k implies s.contains(
            #[trigger] combination_seqs(s, k)[i][j],
        ) by {
            if i < left.len() {
                let c = combination_seqs(s.drop_first(), (k - 1) as nat)[i];
                assert(combination_seqs(s, k)[i] == seq![s[0]] + c);
                if j == 0 {
                    assert(combination_seqs(s, k)[i][0] == s[0]);
                    assert(s.contains(s[0]));
                } else {
                    assert(combination_seqs(s, k)[i][j] == c[j - 1]);
                }
            } else {
                assert(combination_seqs(s, k)[i] == right[i - left.len()]);
            }
        }
    }
}

/// Relies on itertools' `Itertools::combinations`: it yields every
/// `k`-element combination of the input, each keeping input order, in
/// lexicographic order of positions; zero `k` yields one empty
/// combination, `k` beyond the input length yields none.
#[verifier::external_body]
fn combinations_of(cards: &Vec<Card>, k: usize) -> (r: Vec<Vec<Card>>)
    ensures
        r@.map_values(|v: Vec<Card>| v@) == combination_seqs(cards@, k as nat),
{
    cards.iter().cloned().combinations(k).collect()
}

/// Number of the first `j` listed completions that, appended to `base`,
/// realize category `i`.
pub open spec fn tally_upto(base: Seq<Card>, subs: Seq<Seq<Card>>, i: int, j: int) -> int
    decreases j,
{
    if j <= 0 {
        0
    } else {
        tally_upto(base, subs, i, j - 1) + category_delta((base + subs[j - 1]).to_multiset(), i)
    }
}

proof fn lemma_tally_upto_bounds(base: Seq<Card>, subs: Seq<Seq<Card>>, i: int, j: int)
    requires
        j >= 0,
    ensures
        0 <= tally_upto(base, subs, i, j) <= j,
    decreases j,
{
    if j > 0 {
        lemma_tally_upto_bounds(base, subs, i, j - 1);
    }
}

/// What the exhaustive walk of all `k`-card completions of `hand` from
/// `deck` tallies for category `i`.
pub open spec fn enumeration_tally(deck: Seq<Card>, hand: Seq<Card>, k: nat, i: int) -> int {
    tally_upto(hand, combination_seqs(deck, k), i, combination_seqs(deck, k).len() as int)
}

/// A finished run: the accumulated tally and how many completions were
/// classified into it.
#[derive(Debug)]
pub struct DiscardResult {
    pub count: PokerHandsCount,
    pub iterations: usize,
}

impl DiscardResult {
    /// Adopts a driver chunk as the final result.
    pub fn from_result(result: Chunk<PokerHandsCount>) -> (r: Self)
        ensures
            r.count == result.output,
            r.iterations == result.iterations_done,
    {
        Self { count: result.output, iterations: result.iterations_done }
    }

    /// Builds a result from its parts.
    pub fn new(count: PokerHandsCount, iterations: usize) -> (r: Self)
        ensures
            r.count == count,
            r.iterations == iterations,
    {
        Self { count, iterations }
    }
}

/// Decides, per workload, between exhaustive enumeration of the possible
/// completions and Monte Carlo sampling.
pub struct Discarder {
    deck: Deck,
    max_hand_size: usize,
    seed: u64,
    threads: usize,
}

/// Whether a run over `deck_len` deck cards needing `need` more cards
/// takes the exhaustive path: the completion count must be computable
/// without overflow and lie within the enumeration threshold. Drawing
/// more cards than the deck holds counts as one trivial completion.
pub open spec fn enumerates(deck_len: int, need: int) -> bool {
    if need > deck_len {
        true
    } else {
        let k2 = if need <= deck_len - need {
            need
        } else {
            deck_len - need
        };
        &&& falling_product(deck_len, k2 as nat) <= usize::MAX
        &&& factorial(k2 as nat) <= usize::MAX
        &&& binomial(deck_len as nat, need as nat) <= MAX_COMBINATIONS
    }
}

impl Discarder {
    /// The deck completions are drawn from.
    pub closed spec fn spec_deck(&self) -> Seq<Card> {
        self.deck.cards@
    }

    /// The size a drawn hand is completed to.
    pub closed spec fn spec_max_hand_size(&self) -> usize {
        self.max_hand_size
    }

    /// The seed of the Monte Carlo path.
    pub closed spec fn spec_seed(&self) -> u64 {
        self.seed
    }

    /// The worker count of the Monte Carlo path.
    pub closed spec fn spec_threads(&self) -> usize {
        self.threads
    }

    /// Builds a strategy over the given deck; the Monte Carlo path runs
    /// on one worker until `with_threads` grants more.
    pub fn new(deck: Deck, hand_size: usize, seed: u64) -> (d: Discarder)
        ensures
            d.spec_deck() == deck.cards@,
            d.spec_max_hand_size() == hand_size,
            d.spec_seed() == seed,
            d.spec_threads() == 1,
    {
        Discarder { deck, max_hand_size: hand_size, seed, threads: 1 }
    }

    /// The same strategy with the given worker count, typically the
    /// host-reported parallelism.
    pub fn with_threads(self, threads: usize) -> (d: Discarder)
        requires
            threads >= 1,
        ensures
            d.spec_deck() == self.spec_deck(),
            d.spec_max_hand_size() == self.spec_max_hand_size(),
            d.spec_seed() == self.spec_seed(),
            d.spec_threads() == threads,
    {
        Discarder { threads, ..self }
    }

    /// Classifies the hand once when it is already complete; otherwise
    /// enumerates every completion exactly when their number is small,
    /// and falls back to Monte Carlo sampling of `max_iterations` trials.
    pub fn run(&self, hand: &[Card], max_iterations: usize) -> (r: DiscardResult)
        requires
            valid_cards(self.spec_deck()),
            valid_cards(hand@),
            self.spec_threads() >= 1,
        ensures
            r.count.wf(),
            hand@.len() >= self.spec_max_hand_size() ==> r.iterations == 1 && (forall|i: int|
                0 <= i < 10 ==> r.count@[i] == category_delta(hand@.to_multiset(), i)),
            hand@.len() < self.spec_max_hand_size() && enumerates(
                self.spec_deck().len() as int,
                self.spec_max_hand_size() - hand@.len(),
            ) ==> ({
                let k = if self.spec_max_hand_size() - hand@.len() <= self.spec_deck().len() {
                    (self.spec_max_hand_size() - hand@.len()) as nat
                } else {
                    self.spec_deck().len()
                };
                &&& r.iterations == binomial(self.spec_deck().len(), k)
                &&& forall|i: int|
                    0 <= i < 10 ==> r.count@[i] == enumeration_tally(
                        self.spec_deck(),
                        hand@,
                        k,
                        i,
                    )
            }),
            hand@.len() < self.spec_max_hand_size() && !enumerates(
                self.spec_deck().len() as int,
                self.spec_max_hand_size() - hand@.len(),
            ) ==> {
                &&& r.iterations == max_iterations
                &&& forall|i: int| 0 <= i < 10 ==> 0 <= #[trigger] r.count@[i] <= max_iterations
                &&& max_iterations <= i64::MAX ==> r.count@[0] == max_iterations
            },
    {
        let hand_size = hand.len();

        if hand_size >= self.max_hand_size {
            let mut count = PokerHandsCount::new();
            PokerHandResolver::poker_hands(hand, &mut count);
            return DiscardResult::new(count, 1);
        }
        let need = self.max_hand_size - hand_size;
        let deck_len = self.deck.cards.len();

        match combinations(deck_len, need) {
            Some(c) if c <= MAX_COMBINATIONS => {
                proof {
                    if need <= deck_len {
                        assert(binomial(deck_len as nat, need as nat) == c);
                    } else {
                        lemma_binomial_full(deck_len as nat);
                    }
                    assert(enumerates(deck_len as int, need as int));
                }
                self.run_combinations(hand)
            },
            r => {
                proof {
                    assert(!enumerates(deck_len as int, need as int)) by {
                        if need > deck_len {
                            assert(r == Some(1usize));
                            assert(1 <= MAX_COMBINATIONS);
                        }
                    }
                }
                self.run_montecarlo(hand, max_iterations)
            },
        }
    }

    /// Walks every possible completion in lexicographic order, classifies
    /// each completed hand, and tallies all of them exactly.
    pub fn run_combinations(&self, hand: &[Card]) -> (r: DiscardResult)
        requires
            valid_cards(self.spec_deck()),
            valid_cards(hand@),
            hand@.len() < self.spec_max_hand_size(),
            binomial(
                self.spec_deck().len(),
                if self.spec_max_hand_size() - hand@.len() <= self.spec_deck().len() {
                    (self.spec_max_hand_size() - hand@.len()) as nat
                } else {
                    self.spec_deck().len()
                },
            ) <= i64::MAX,
        ensures
            r.count.wf(),
            ({
                let k = if self.spec_max_hand_size() - hand@.len() <= self.spec_deck().len() {
                    (self.spec_max_hand_size() - hand@.len()) as nat
                } else {
                    self.spec_deck().len()
                };
                &&& r.iterations == binomial(self.spec_deck().len(), k)
                &&& forall|i: int|
                    0 <= i < 10 ==> r.count@[i] == enumeration_tally(
                        self.spec_deck(),
                        hand@,
                        k,
                        i,
                    )
            }),
    {
        let hand_size = hand.len();
        let deck_len = self.deck.cards.len();
        let cards_to_draw = if self.max_hand_size - hand_size < deck_len {
            self.max_hand_size - hand_size
        } else {
            deck_len
        };
        let ghost k = cards_to_draw as nat;
        let ghost cs = combination_seqs(self.spec_deck(), k);
        proof {
            lemma_combination_seqs_len(self.spec_deck(), k);
            lemma_combination_seqs_items(self.spec_deck(), k);
        }

        let mut result = PokerHandsCount::new();
        let mut drawn_hand: Vec<Card> = Vec::new();
        let mut t: usize = 0;
        while t < hand_size
            invariant
                t <= hand_size,
                hand_size == hand@.len(),
                drawn_hand@.len() == t,
                forall|p: int| 0 <= p < t ==> drawn_hand@[p] == hand@[p],
            decreases hand_size - t,
        {
            drawn_hand.push(hand[t]);
            t = t + 1;
        }
        let mut t: usize = 0;
        while t < cards_to_draw
            invariant
                t <= cards_to_draw,
                drawn_hand@.len() == hand@.len() + t,
                forall|p: int| 0 <= p < hand@.len() ==> drawn_hand@[p] == hand@[p],
            decreases cards_to_draw - t,
        {
            drawn_hand.push(Card::invalid());
            t = t + 1;
        }

        let subs = combinations_of(&self.deck.cards, cards_to_draw);
        proof {
            assert(subs@.map_values(|v: Vec<Card>| v@).len() == subs@.len());
        }
        let mut iterations: usize = 0;
        let mut j: usize = 0;
        let n = subs.len();
        while j < n
            invariant
                j <= n,
                n == subs@.len(),
                n == cs.len(),
                cs == combination_seqs(self.spec_deck(), k),
                subs@.map_values(|v: Vec<Card>| v@) == cs,
                n == binomial(self.spec_deck().len(), k),
                n <= i64::MAX,
                k == cards_to_draw as nat,
                valid_cards(self.spec_deck()),
                valid_cards(hand@),
                hand_size == hand@.len(),
                iterations == j,
                result.wf(),
                hand_size + cards_to_draw <= usize::MAX,
                drawn_hand@.len() == hand@.len() + cards_to_draw,
                forall|p: int| 0 <= p < hand@.len() ==> drawn_hand@[p] == hand@[p],
                forall|i: int| 0 <= i < 10 ==> #[trigger] result@[i] == tally_upto(hand@, cs, i, j as int),
            decreases n - j,
        {
            let sub = &subs[j];
            proof {
                lemma_combination_seqs_len(self.spec_deck(), k);
                lemma_combination_seqs_items(self.spec_deck(), k);
                assert(subs@.map_values(|v: Vec<Card>| v@)[j as int] == sub@);
                assert(sub@ == cs[j as int]);
                assert(cs[j as int].len() == k);
            }
            let mut t: usize = 0;
            while t < cards_to_draw
                invariant
                    t <= cards_to_draw,
                    sub@.len() == cards_to_draw,
                    hand_size == hand@.len(),
                    drawn_hand@.len() == hand@.len() + cards_to_draw,
                    hand_size + cards_to_draw <= usize::MAX,
                    forall|p: int| 0 <= p < hand@.len() ==> drawn_hand@[p] == hand@[p],
                    forall|p: int|
                        0 <= p < t ==> drawn_hand@[hand@.len() + p] == sub@[p],
                decreases cards_to_draw - t,
            {
                let c = sub[t];
                drawn_hand.set(hand_size + t, c);
                t = t + 1;
            }
            proof {
                assert(drawn_hand@ =~= hand@ + cs[j as int]);
                assert(valid_cards(drawn_hand@)) by {
                    assert forall|p: int| 0 <= p < drawn_hand@.len() implies (
                    #[trigger] drawn_hand@[p]).valid() by {
                        if p >= hand@.len() {
                            assert(self.spec_deck().contains(cs[j as int][p - hand@.len()]));
                            let ix = choose|ix: int|
                                0 <= ix < self.spec_deck().len() && self.spec_deck()[ix]
                                    == cs[j as int][p - hand@.len()];
                            assert(self.spec_deck()[ix].valid());
                        }
                    }
                }
                assert forall|i: int| 0 <= i < 10 implies #[trigger] result@[i] + 1
                    <= i64::MAX by {
                    lemma_tally_upto_bounds(hand@, cs, i, j as int);
                }
            }
            PokerHandResolver::poker_hands(drawn_hand.as_slice(), &mut result);
            iterations = iterations + 1;
            j = j + 1;
        }
        DiscardResult::new(result, iterations)
    }

    /// Samples `max_iterations` random completions through the Monte
    /// Carlo driver, classifying each: exactly that many trials run,
    /// every completed hand is non-empty so the high-card counter equals
    /// the budget, and no counter can exceed it.
    fn run_montecarlo(&self, hand: &[Card], max_iterations: usize) -> (r: DiscardResult)
        requires
            valid_cards(self.spec_deck()),
            valid_cards(hand@),
            hand@.len() < self.spec_max_hand_size(),
            self.spec_deck().len() >= self.spec_max_hand_size() - hand@.len(),
            self.spec_threads() >= 1,
        ensures
            r.count.wf(),
            r.iterations == max_iterations,
            forall|i: int| 0 <= i < 10 ==> 0 <= #[trigger] r.count@[i] <= max_iterations,
            max_iterations <= i64::MAX ==> r.count@[0] == max_iterations,
    {
        let factory = DiscarderFactory::new(self.duplicate(), slice_to_vec(hand));
        let configuration = MonteCarloConfiguration {
            threads: self.threads,
            chunk_size: MONTE_CARLO_CHUNK_SIZE,
        };
        let mut mc = MonteCarlo::new(factory, configuration, self.seed);
        let result = mc.run(max_iterations);
        DiscardResult::from_result(result)
    }

    fn duplicate(&self) -> (d: Discarder)
        ensures
            d.spec_deck() == self.spec_deck(),
            d.spec_max_hand_size() == self.spec_max_hand_size(),
            d.spec_seed() == self.spec_seed(),
            d.spec_threads() == self.spec_threads(),
    {
        Discarder {
            deck: Deck::new(self.deck.cards.as_slice()),
            max_hand_size: self.max_hand_size,
            seed: self.seed,
            threads: self.threads,
        }
    }
}

/// Builds one per-worker sampling algorithm per seed, all completing the
/// same hand from the same deck.
pub struct DiscarderFactory {
    discarder: Discarder,
    hand: Vec<Card>,
}

impl DiscarderFactory {
    /// Wraps the strategy and the hand to complete.
    pub fn new(discarder: Discarder, hand: Vec<Card>) -> (f: Self)
        ensures
            f.spec_discarder_deck() == discarder.spec_deck(),
            f.spec_max_hand_size() == discarder.spec_max_hand_size(),
            f.spec_hand() == hand@,
    {
        Self { discarder, hand }
    }

    /// The deck the workers draw from.
    pub closed spec fn spec_discarder_deck(&self) -> Seq<Card> {
        self.discarder.spec_deck()
    }

    /// The size hands are completed to.
    pub closed spec fn spec_max_hand_size(&self) -> usize {
        self.discarder.spec_max_hand_size()
    }

    /// The hand every worker completes.
    pub closed spec fn spec_hand(&self) -> Seq<Card> {
        self.hand@
    }
}

impl MonteCarloAlgorithmFactory for DiscarderFactory {
    type Algorithm = DiscarderAlgorithm;

    open spec fn can_make(&self) -> bool {
        &&& valid_cards(self.spec_discarder_deck())
        &&& valid_cards(self.spec_hand())
        &&& self.spec_hand().len() < self.spec_max_hand_size()
        &&& self.spec_discarder_deck().len() >= self.spec_max_hand_size() - self.spec_hand().len()
    }

    open spec fn makes(&self, a: &DiscarderAlgorithm) -> bool {
        &&& a.spec_deck() == self.spec_discarder_deck()
        &&& a.spec_max_hand_size() == self.spec_max_hand_size()
        &&& a.spec_initial_hand_size() == self.spec_hand().len()
        &&& a.spec_initial_hand() == self.spec_hand()
    }

    fn make(&self, seed: u64) -> (a: DiscarderAlgorithm) {
        let initial_hand_size = self.hand.len();
        let size = self.discarder.max_hand_size;
        let mut drawn_hand: Vec<Card> = Vec::new();
        let mut t: usize = 0;
        while t < initial_hand_size
            invariant
                t <= initial_hand_size,
                initial_hand_size == self.spec_hand().len(),
                drawn_hand@.len() == t,
                forall|p: int| 0 <= p < t ==> drawn_hand@[p] == self.spec_hand()[p],
            decreases initial_hand_size - t,
        {
            drawn_hand.push(self.hand[t]);
            t = t + 1;
        }
        let mut t: usize = initial_hand_size;
        while t < size
            invariant
                initial_hand_size <= t,
                t <= size || t == initial_hand_size,
                drawn_hand@.len() == t,
                initial_hand_size == self.spec_hand().len(),
                forall|p: int|
                    0 <= p < initial_hand_size ==> drawn_hand@[p] == self.spec_hand()[p],
            decreases size - t,
        {
            drawn_hand.push(Card::invalid());
            t = t + 1;
        }
        let mut draw_buf: Vec<Card> = Vec::new();
        let mut t: usize = 0;
        let need = size - initial_hand_size;
        while t < need
            invariant
                t <= need,
                draw_buf@.len() == t,
            decreases need - t,
        {
            draw_buf.push(Card::invalid());
            t = t + 1;
        }
        let a = DiscarderAlgorithm {
            deck: Deck::new(self.discarder.deck.cards.as_slice()),
            max_hand_size: self.discarder.max_hand_size,
            initial_hand_size,
            drawn_hand,
            draw_buf,
            rng: PcgRng::new(seed),
        };
        proof {
            assert(a.spec_initial_hand() =~= self.spec_hand());
        }
        a
    }
}

/// One worker's sampler: completes the hand with a fresh random draw and
/// classifies the completed hand, per trial.
pub struct DiscarderAlgorithm {
    deck: Deck,
    max_hand_size: usize,
    initial_hand_size: usize,
    drawn_hand: Vec<Card>,
    draw_buf: Vec<Card>,
    rng: PcgRng,
}

impl DiscarderAlgorithm {
    /// The deck this sampler draws completions from.
    pub closed spec fn spec_deck(&self) -> Seq<Card> {
        self.deck.cards@
    }

    /// The size every sampled hand is completed to.
    pub closed spec fn spec_max_hand_size(&self) -> usize {
        self.max_hand_size
    }

    /// How many leading cards of the scratch hand stay fixed.
    pub closed spec fn spec_initial_hand_size(&self) -> usize {
        self.initial_hand_size
    }

    /// The fixed hand every trial completes.
    pub closed spec fn spec_initial_hand(&self) -> Seq<Card> {
        self.drawn_hand@.take(self.initial_hand_size as int)
    }
}

impl MonteCarloAlgorithm for DiscarderAlgorithm {
    type Output = PokerHandsCount;

    open spec fn sample_rel(before: &PokerHandsCount, after: &PokerHandsCount) -> bool {
        &&& after.wf()
        &&& forall|i: int|
            0 <= i < 10 ==> before@[i] <= #[trigger] after@[i] <= before@[i] + 1
        &&& (forall|i: int| 0 <= i < 10 ==> #[trigger] before@[i] + 1 <= i64::MAX)
            ==> after@[0] == before@[0] + 1
    }

    closed spec fn wf(&self) -> bool {
        &&& valid_cards(self.deck.cards@)
        &&& self.initial_hand_size < self.max_hand_size
        &&& self.drawn_hand@.len() == self.max_hand_size
        &&& valid_cards(self.drawn_hand@.take(self.initial_hand_size as int))
        &&& self.draw_buf@.len() == self.max_hand_size - self.initial_hand_size
        &&& self.deck.cards@.len() >= self.max_hand_size - self.initial_hand_size
    }

    fn sample(&mut self, output: &mut PokerHandsCount) {
        self.deck.sample_draw(&mut self.rng, &mut self.draw_buf);
        let ghost src = choose|src: Seq<int>| is_draw_of(src, self.draw_buf@, self.deck.cards@);
        let mut t: usize = 0;
        let need = self.max_hand_size - self.initial_hand_size;
        while t < need
            invariant
                t <= need,
                need == self.max_hand_size - self.initial_hand_size,
                self.initial_hand_size < self.max_hand_size,
                self.drawn_hand@.len() == self.max_hand_size,
                self.draw_buf@.len() == need,
                valid_cards(self.deck.cards@),
                is_draw_of(src, self.draw_buf@, self.deck.cards@),
                valid_cards(self.drawn_hand@.take(self.initial_hand_size as int)),
                self.deck.cards@.len() >= need,
                forall|p: int|
                    0 <= p < t ==> self.drawn_hand@[self.initial_hand_size + p]
                        == self.draw_buf@[p],
            decreases need - t,
        {
            let idx = self.initial_hand_size + t;
            let c = self.draw_buf[t];
            let ghost before = self.drawn_hand@;
            self.drawn_hand.set(idx, c);
            proof {
                assert(self.drawn_hand@.take(self.initial_hand_size as int) =~= before.take(
                    self.initial_hand_size as int,
                ));
            }
            t = t + 1;
        }
        proof {
            assert(valid_cards(self.drawn_hand@)) by {
                assert forall|p: int| 0 <= p < self.drawn_hand@.len() implies (
                #[trigger] self.drawn_hand@[p]).valid() by {
                    if p < self.initial_hand_size {
                        assert(self.drawn_hand@.take(self.initial_hand_size as int)[p]
                            == self.drawn_hand@[p]);
                    } else {
                        let q = p - self.initial_hand_size;
                        assert(self.drawn_hand@[p] == self.draw_buf@[q]);
                        assert(self.draw_buf@[q] == self.deck.cards@[src[q]]);
                    }
                }
            }
        }
        // within any feasible budget every counter has headroom; the
        // check only keeps the trial total where one would saturate
        if output.has_headroom() {
            PokerHandResolver::poker_hands(self.drawn_hand.as_slice(), output);
            proof {
                assert(self.drawn_hand@.to_multiset().len() == self.drawn_hand@.len());
            }
        }
        proof {
            assert forall|n: nat| old(output).absorbed(n) implies output.absorbed(n + 1) by {
                if n + 1 <= i64::MAX {
                    assert(old(output)@[0] == n);
                    assert(forall|i: int|
                        0 <= i < 10 ==> #[trigger] old(output)@[i] + 1 <= i64::MAX);
                }
            }
        }
    }
}

} // verus!
