use rand_xoshiro::rand_core::SeedableRng;
use rand_xoshiro::Xoshiro256PlusPlus;
use sparrow_core::best_samples::BestSamples;
use sparrow_core::config::SampleConfig;
use sparrow_core::eval::{is_better, SampleEval};
use sparrow_core::geom::{RotationRange, Transform};
use sparrow_core::search::{
    collect_samples, descent_step, evaluate_samples, final_refine_cd_config, rotation_probes, translation_probes, prerefine_cd_config, refine_configs, refine_coord_desc, refine_samples, search_placement, BBox,
    CDConfig, UniformBBoxSampler,
};

fn bbox(x0: i32, y0: i32, x1: i32, y1: i32) -> BBox {
    BBox { x_min: x0, y_min: y0, x_max: x1, y_max: y1 }
}

fn distance_eval(target: (i32, i32)) -> impl Fn(Transform, SampleEval) -> SampleEval {
    move |t: Transform, _ub: SampleEval| {
        let d = (t.x - target.0).unsigned_abs() as u64 + (t.y - target.1).unsigned_abs() as u64;
        if d == 0 {
            SampleEval::Clear { worst_quality_proxy: 0 }
        } else {
            SampleEval::Collision { loss: d }
        }
    }
}

#[test]
fn sampler_draws_inside_clipped_box_with_allowed_rotation() {
    let s = UniformBBoxSampler::new(bbox(-50, -50, 20, 20), RotationRange::Discrete(vec![0, 90_000]), bbox(0, 0, 100, 100)).unwrap();
    assert_eq!(s.bbox, bbox(0, 0, 20, 20));
    let mut rng = Xoshiro256PlusPlus::seed_from_u64(1);
    let mut xs = std::collections::BTreeSet::new();
    for _ in 0..200 {
        let t = s.sample(&mut rng);
        assert!(0 <= t.x && t.x <= 20 && 0 <= t.y && t.y <= 20);
        assert!(t.rot == 0 || t.rot == 90_000);
        xs.insert(t.x);
    }
    assert!(xs.len() > 5);
}

#[test]
fn sampler_over_empty_region_is_none() {
    assert!(UniformBBoxSampler::new(bbox(200, 0, 300, 10), RotationRange::Continuous, bbox(0, 0, 100, 100)).is_none());
    assert!(UniformBBoxSampler::new(bbox(0, 0, 10, 10), RotationRange::Discrete(vec![]), bbox(0, 0, 100, 100)).is_none());
}

#[test]
fn samples_start_with_reference_then_focussed_then_container() {
    let cfg = SampleConfig { n_container_samples: 7, n_focussed_samples: 3, n_coord_descents: 2, parallel: false };
    let mut rng = Xoshiro256PlusPlus::seed_from_u64(2);
    let reference = Transform { x: 5, y: 5, rot: 0 };
    let s = collect_samples(Some((reference, bbox(0, 0, 10, 10))), bbox(0, 0, 100, 100), &RotationRange::Continuous, cfg, &mut rng);
    assert_eq!(s.len(), 11);
    assert_eq!(s[0], reference);
    for t in &s[1..4] {
        assert!(t.x <= 10 && t.y <= 10);
    }
    let none = collect_samples(None, bbox(0, 0, 100, 100), &RotationRange::Continuous, cfg, &mut rng);
    assert_eq!(none.len(), 7);
}

#[test]
fn coordinate_descent_walks_to_the_target() {
    let eval = distance_eval((37, -12));
    let cfg = CDConfig { t_step_init: 64, t_step_limit: 0, r_step_init: 0, r_step_limit: 0, wiggle: false };
    let start = Transform { x: 0, y: 0, rot: 0 };
    let mut rng = Xoshiro256PlusPlus::seed_from_u64(3);
    let r = refine_coord_desc((start, eval(start, SampleEval::Invalid)), &eval, cfg, &RotationRange::Discrete(vec![0]), &mut rng);
    assert_eq!(r.0, Transform { x: 37, y: -12, rot: 0 });
    assert_eq!(r.1, SampleEval::Clear { worst_quality_proxy: 0 });
}

#[test]
fn search_finds_a_clear_spot() {
    let eval = distance_eval((40, 60));
    let cfg = SampleConfig { n_container_samples: 50, n_focussed_samples: 0, n_coord_descents: 3, parallel: false };
    let (configs, thr) = refine_configs(200, &RotationRange::Discrete(vec![0]));
    let mut rng = Xoshiro256PlusPlus::seed_from_u64(4);
    let (best, evals) = search_placement(None, bbox(0, 0, 100, 100), &RotationRange::Discrete(vec![0]), &eval, cfg, thr, configs, &mut rng);
    assert_eq!(evals.len(), 50);
    let r = best.unwrap();
    assert_eq!(r.0, Transform { x: 40, y: 60, rot: 0 });
    assert_eq!(r.1, SampleEval::Clear { worst_quality_proxy: 0 });
}

#[test]
fn search_where_everything_is_invalid_gives_none() {
    let eval = |_t: Transform, _ub: SampleEval| SampleEval::Invalid;
    let cfg = SampleConfig { n_container_samples: 20, n_focussed_samples: 0, n_coord_descents: 3, parallel: false };
    let (configs, thr) = refine_configs(10, &RotationRange::Continuous);
    let mut rng = Xoshiro256PlusPlus::seed_from_u64(4);
    let (best, evals) = search_placement(None, bbox(0, 0, 100, 100), &RotationRange::Continuous, &eval, cfg, thr, configs, &mut rng);
    assert!(best.is_none());
    assert_eq!(evals.iter().map(|e| e.1).collect::<Vec<SampleEval>>(), vec![SampleEval::Invalid; 20]);
}

#[test]
fn evaluations_feed_the_buffer_in_sample_order() {
    let eval = distance_eval((0, 0));
    let samples = vec![Transform { x: 5, y: 0, rot: 0 }, Transform { x: 100, y: 100, rot: 0 }, Transform { x: 1, y: 1, rot: 0 }];
    let (best, evals) = evaluate_samples(&samples, &eval, 2, 1);
    assert_eq!(
        evals,
        vec![
            (samples[0], SampleEval::Collision { loss: 5 }),
            (samples[1], SampleEval::Collision { loss: 200 }),
            (samples[2], SampleEval::Collision { loss: 2 })
        ]
    );
    assert_eq!(best.samples, vec![(samples[2], SampleEval::Collision { loss: 2 }), (samples[0], SampleEval::Collision { loss: 5 })]);
}

#[test]
fn refining_an_empty_buffer_gives_none() {
    let eval = distance_eval((0, 0));
    let mut b = BestSamples::new(2, 1);
    let (configs, _) = refine_configs(10, &RotationRange::Continuous);
    let mut rng = Xoshiro256PlusPlus::seed_from_u64(4);
    assert!(refine_samples(&mut b, &eval, configs, &RotationRange::Continuous, &mut rng).is_none());
}

#[test]
fn refine_presets_scale_with_item_size() {
    let pre = prerefine_cd_config(200, &RotationRange::Continuous);
    assert_eq!((pre.t_step_init, pre.t_step_limit, pre.wiggle), (50, 4, true));
    let fin = final_refine_cd_config(200, &RotationRange::Discrete(vec![0]));
    assert_eq!((fin.t_step_init, fin.t_step_limit, fin.wiggle), (2, 0, false));
    let (_, thr) = refine_configs(200, &RotationRange::Continuous);
    assert_eq!(thr, 10);
}

#[test]
fn search_with_reference_evaluates_it_first_and_beats_it() {
    let eval = distance_eval((40, 60));
    let cfg = SampleConfig { n_container_samples: 20, n_focussed_samples: 5, n_coord_descents: 3, parallel: false };
    let (configs, thr) = refine_configs(200, &RotationRange::Discrete(vec![0]));
    let mut rng = Xoshiro256PlusPlus::seed_from_u64(8);
    let reference = Transform { x: 90, y: 90, rot: 0 };
    let (best, evals) =
        search_placement(Some((reference, bbox(80, 80, 120, 120))), bbox(0, 0, 100, 100), &RotationRange::Discrete(vec![0]), &eval, cfg, thr, configs, &mut rng);
    assert_eq!(evals.len(), 26);
    assert_eq!(evals[0], (reference, SampleEval::Collision { loss: 80 }));
    for (t, _) in &evals[1..] {
        assert!(0 <= t.x && t.x <= 100 && 0 <= t.y && t.y <= 100 && t.rot == 0);
    }
    for (t, _) in &evals[1..6] {
        assert!(t.x >= 80 && t.y >= 80);
    }
    let best = best.unwrap();
    for (_, e) in &evals {
        assert!(!is_better(*e, best.1));
    }
}

#[test]
fn probes_are_the_axis_and_rotation_neighbours() {
    let t = Transform { x: 10, y: 20, rot: 1000 };
    assert_eq!(
        translation_probes(t, 3),
        vec![
            Transform { x: 13, y: 20, rot: 1000 },
            Transform { x: 7, y: 20, rot: 1000 },
            Transform { x: 10, y: 23, rot: 1000 },
            Transform { x: 10, y: 17, rot: 1000 }
        ]
    );
    assert_eq!(
        rotation_probes(t, 500, &RotationRange::Discrete(vec![0, 1400])),
        vec![Transform { x: 10, y: 20, rot: 1400 }, Transform { x: 10, y: 20, rot: 0 }]
    );
    assert_eq!(translation_probes(Transform { x: i32::MAX, y: 0, rot: 0 }, 5)[0].x, i32::MAX);
}

#[test]
fn descent_step_moves_to_best_probe_or_halves() {
    let cur = (Transform { x: 0, y: 0, rot: 0 }, SampleEval::Collision { loss: 10 });
    let a = (Transform { x: 1, y: 0, rot: 0 }, SampleEval::Collision { loss: 7 });
    let b = (Transform { x: 2, y: 0, rot: 0 }, SampleEval::Collision { loss: 4 });
    let c = (Transform { x: 3, y: 0, rot: 0 }, SampleEval::Collision { loss: 4 });
    assert_eq!(descent_step(cur, &vec![a, b, c], 8), (b, 8));
    let worse = (Transform { x: 1, y: 0, rot: 0 }, SampleEval::Collision { loss: 10 });
    assert_eq!(descent_step(cur, &vec![worse], 8), (cur, 4));
    assert_eq!(descent_step(cur, &vec![], 9), (cur, 4));
}

#[test]
fn no_step_above_limit_returns_start() {
    let eval = distance_eval((5, 5));
    let cfg = CDConfig { t_step_init: 2, t_step_limit: 2, r_step_init: 100, r_step_limit: 1, wiggle: true };
    let start = (Transform { x: 0, y: 0, rot: 0 }, SampleEval::Collision { loss: 10 });
    let mut rng = Xoshiro256PlusPlus::seed_from_u64(3);
    assert_eq!(refine_coord_desc(start, &eval, cfg, &RotationRange::Discrete(vec![0]), &mut rng), start);
}

#[test]
fn evaluations_made_elsewhere_are_reported_in_order() {
    let mut b = BestSamples::new(2, 1);
    let s = vec![
        (Transform { x: 0, y: 0, rot: 0 }, SampleEval::Collision { loss: 9 }),
        (Transform { x: 50, y: 0, rot: 0 }, SampleEval::Invalid),
        (Transform { x: 90, y: 0, rot: 0 }, SampleEval::Collision { loss: 3 }),
        (Transform { x: 70, y: 0, rot: 0 }, SampleEval::Collision { loss: 5 }),
    ];
    b.report_evaluations(&s);
    assert_eq!(b.samples, vec![s[2], s[3]]);
}
