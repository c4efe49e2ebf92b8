use rand::Rng;
use rand::SeedableRng;

use discarder::monte_carlo::{
    MonteCarlo, MonteCarloAlgorithm, MonteCarloAlgorithmFactory, MonteCarloConfiguration,
    MonteCarloOutput, MonteCarloThread,
};

#[derive(Clone)]
pub struct PiEstimator {
    rng: rand::rngs::StdRng,
}

impl PiEstimator {
    pub fn new_with_seed(seed: u64) -> Self {
        Self {
            rng: rand::rngs::StdRng::seed_from_u64(seed),
        }
    }
}

pub struct PiEstimatorFactory;

impl MonteCarloAlgorithmFactory for PiEstimatorFactory {
    type Algorithm = PiEstimator;

    fn make(&self, seed: u64) -> Self::Algorithm {
        PiEstimator::new_with_seed(seed)
    }
}

#[derive(Debug, Clone)]
pub struct PiResult {
    pub points_inside_circle: u64,
    pub total_points: u64,
}

impl PiResult {
    pub fn estimate_pi(&self) -> f64 {
        if self.total_points == 0 {
            0.0
        } else {
            4.0 * (self.points_inside_circle as f64) / (self.total_points as f64)
        }
    }
}

impl MonteCarloOutput for PiResult {
    fn new() -> Self {
        Self {
            points_inside_circle: 0,
            total_points: 0,
        }
    }

    fn merge(&mut self, other: &Self) {
        self.points_inside_circle += other.points_inside_circle;
        self.total_points += other.total_points;
    }

    fn duplicate(&self) -> Self {
        self.clone()
    }
}

impl MonteCarloAlgorithm for PiEstimator {
    type Output = PiResult;

    fn sample(&mut self, output: &mut Self::Output) {
        let x: f64 = self.rng.gen_range(0.0..1.0);
        let y: f64 = self.rng.gen_range(0.0..1.0);

        // Check if point is inside unit circle
        if x * x + y * y <= 1.0 {
            output.points_inside_circle += 1;
        }
        output.total_points += 1;
    }
}

#[test]
fn test_pi_estimation_seeded() {
    let factory = PiEstimatorFactory;
    let config = MonteCarloConfiguration {
        threads: 8,
        chunk_size: 100,
    };

    // Test with a specific seed for reproducible results
    let mut monte_carlo = MonteCarlo::new(factory, config, 12345);
    let chunk = monte_carlo.run(5000);

    let pi_estimate = chunk.output.estimate_pi();
    let total_iterations = chunk.output.total_points;

    println!("Seeded Pi estimate: {}", pi_estimate);
    println!("Seeded Total iterations performed: {}", total_iterations);
    println!("Seeded Expected iterations: 5000");
    println!("Seeded Error: {}", (pi_estimate - std::f64::consts::PI).abs());

    // Verify we performed exactly the expected number of iterations
    assert_eq!(total_iterations, 5000);

    // Pi should be approximately 3.14159, allow for Monte Carlo variance
    assert!((pi_estimate - std::f64::consts::PI).abs() < 0.1);
}

// A stub algorithm that counts its own trials, to pin the driver's
// arithmetic: the returned chunk reports exactly the requested total.
struct CountingOutput {
    count: u64,
}

impl MonteCarloOutput for CountingOutput {
    fn new() -> Self {
        CountingOutput { count: 0 }
    }

    fn merge(&mut self, other: &Self) {
        self.count += other.count;
    }

    fn duplicate(&self) -> Self {
        CountingOutput { count: self.count }
    }
}

struct CountingAlgorithm;

impl MonteCarloAlgorithm for CountingAlgorithm {
    type Output = CountingOutput;

    fn sample(&mut self, output: &mut CountingOutput) {
        output.count += 1;
    }
}

struct CountingFactory;

impl MonteCarloAlgorithmFactory for CountingFactory {
    type Algorithm = CountingAlgorithm;

    fn make(&self, _seed: u64) -> CountingAlgorithm {
        CountingAlgorithm
    }
}

#[test]
fn test_driver_counts_exactly() {
    for threads in [1usize, 2, 3, 7, 16] {
        for total in [0usize, 1, 5, 1000, 1001] {
            let config = MonteCarloConfiguration {
                threads,
                chunk_size: 64,
            };
            let mut mc = MonteCarlo::new(CountingFactory, config, 9);
            let chunk = mc.run(total);
            assert_eq!(chunk.iterations_done, total);
            assert_eq!(chunk.output.count, total as u64);
        }
    }
}

#[test]
fn test_driver_accumulates_across_runs() {
    // The driver retains its global chunk: a second run returns the
    // earlier trials plus the new budget.
    let config = MonteCarloConfiguration {
        threads: 3,
        chunk_size: 16,
    };
    let mut mc = MonteCarlo::new(CountingFactory, config, 11);
    let first = mc.run(100);
    assert_eq!(first.iterations_done, 100);
    assert_eq!(first.output.count, 100);
    let second = mc.run(50);
    assert_eq!(second.iterations_done, 150);
    assert_eq!(second.output.count, 150);
}

#[test]
fn test_worker_runs_in_batches() {
    let mut worker = MonteCarloThread::new(0, CountingAlgorithm, 10);
    let chunk = worker.run_chunk(25);
    assert_eq!(chunk.iterations_done, 10);
    let chunk = worker.run_chunk(7);
    assert_eq!(chunk.iterations_done, 7);
    let total = worker.run(123);
    assert_eq!(total.iterations_done, 123);
    assert_eq!(total.output.count, 123);
}
