use sparrow_core::best_samples::BestSamples;
use sparrow_core::eval::SampleEval;
use sparrow_core::geom::Transform;

fn at(x: i32, y: i32) -> Transform {
    Transform { x, y, rot: 0 }
}

fn coll(loss: u64) -> SampleEval {
    SampleEval::Collision { loss }
}

#[test]
fn keeps_best_first_and_evicts_worst() {
    let mut b = BestSamples::new(2, 1);
    b.report(at(0, 0), coll(5));
    b.report(at(100, 0), coll(3));
    b.report(at(200, 0), coll(4));
    assert_eq!(b.samples.len(), 2);
    assert_eq!(b.samples[0], (at(100, 0), coll(3)));
    assert_eq!(b.samples[1], (at(200, 0), coll(4)));
    assert_eq!(b.upper_bound(), coll(4));
    assert_eq!(b.best(), Some(at(100, 0)));
}

#[test]
fn not_better_than_upper_bound_is_dropped() {
    let mut b = BestSamples::new(1, 1);
    b.report(at(0, 0), coll(3));
    b.report(at(50, 50), coll(3));
    assert_eq!(b.samples, vec![(at(0, 0), coll(3))]);
}

#[test]
fn invalid_samples_are_never_kept() {
    let mut b = BestSamples::new(3, 1);
    b.report(at(0, 0), SampleEval::Invalid);
    assert!(b.samples.is_empty());
    assert_eq!(b.upper_bound(), SampleEval::Invalid);
    assert_eq!(b.best(), None);
}

#[test]
fn near_and_better_replaces_near_and_worse_is_dropped() {
    let mut b = BestSamples::new(3, 10);
    b.report(at(0, 0), coll(5));
    b.report(at(3, 4), coll(6));
    assert_eq!(b.samples, vec![(at(0, 0), coll(5))]);
    b.report(at(3, 4), coll(2));
    assert_eq!(b.samples, vec![(at(3, 4), coll(2))]);
    b.report(at(6, 8), SampleEval::Clear { worst_quality_proxy: 9 });
    assert_eq!(b.samples, vec![(at(6, 8), SampleEval::Clear { worst_quality_proxy: 9 })]);
}

#[test]
fn threshold_distance_is_not_near() {
    let mut b = BestSamples::new(3, 5);
    b.report(at(0, 0), coll(5));
    b.report(at(3, 4), coll(6));
    assert_eq!(b.samples.len(), 2);
    assert_eq!(b.samples[1], (at(3, 4), coll(6)));
}
