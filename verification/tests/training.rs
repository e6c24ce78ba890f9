use nanotracer::adam::AdamConfig;
use nanotracer::float_bits::Vec3;
use nanotracer::splat_store::SplatBuffer;
use nanotracer::train::{
    begin_checkpoint, densify, finish_checkpoint, iteration_plan, lcg_draws, lcg_next, plan_densify,
    prune_low_opacity, remove_all, AccumulatorUpload, SplitChildren, TrainClock, LOG_SCALE_MAX,
    LOG_SCALE_MIN, OPACITY_LOGIT_MAX,
};
use nanotracer::trainer::{AdamBank, Trainer};

fn b(x: f32) -> u32 {
    x.to_bits()
}

fn splat(x: f32) -> Vec3 {
    Vec3::new(b(x), b(x), b(x))
}

const IDENTITY: [f32; 4] = [1.0, 0.0, 0.0, 0.0];

fn push(splats: &mut SplatBuffer, pos: Vec3, log_scale: f32, opacity: f32, dc: [f32; 3]) {
    splats.push_splat(
        pos,
        [b(IDENTITY[0]), b(IDENTITY[1]), b(IDENTITY[2]), b(IDENTITY[3])],
        [b(log_scale), b(log_scale), b(log_scale)],
        b(opacity),
        [b(dc[0]), b(dc[1]), b(dc[2])],
        &[0; 45],
    );
}

fn trainer_of(splats: SplatBuffer, grads: &[f32]) -> Trainer {
    let n = splats.len();
    Trainer {
        splats,
        bank: AdamBank::new(AdamConfig::default(), AdamConfig::default(), n),
        grad_acc: grads.iter().map(|g| b(*g)).collect(),
    }
}

fn averages(t: &Trainer, count: u32) -> Vec<u32> {
    t.grad_acc
        .iter()
        .map(|g| b(f32::from_bits(*g) / count as f32))
        .collect()
}

#[test]
fn densify_clones_small_and_splits_large() {
    let mut splats = SplatBuffer::default();
    push(&mut splats, splat(0.0), -3.0, 2.0, [0.5, 0.5, 0.5]);
    push(&mut splats, splat(5.0), 0.0, 2.0, [0.3, 0.3, 0.3]);
    push(&mut splats, splat(-1.0), -1.0, 2.0, [0.1, 0.2, 0.3]);
    let mut t = trainer_of(splats, &[1.0, 1.0, 0.0001]);

    let avg = averages(&t, 1);
    let plan = plan_densify(&t, &avg, b(0.5), b(-2.3), 100);
    assert_eq!(plan.to_clone, vec![0]);
    assert_eq!(plan.to_split, vec![1]);
    let halved = b(-(1.0 + 2.0 * (-2.0f32).exp()).ln());
    let child = SplitChildren {
        first: splat(4.0),
        second: splat(6.0),
        log_scale: [b(-0.47), b(-0.47), b(-0.47)],
    };
    let (cloned, split_children, removed) = densify(&mut t, &plan, &[halved], &[child]);

    assert_eq!(cloned, 1, "should clone splat 0");
    assert_eq!(split_children, 2, "should produce 2 children from splat 1");
    assert_eq!(removed, 1, "should remove the original split parent");
    assert_eq!(t.splats.len(), 5);
    assert_eq!(t.grad_acc.len(), 5);
    assert_eq!(t.bank.pos.m.len(), 5 * 3);
    assert_eq!(t.bank.rot.m.len(), 5 * 4);
    assert_eq!(t.bank.scale.m.len(), 5 * 3);
    assert_eq!(t.bank.op.m.len(), 5);
    assert_eq!(t.bank.dc.m.len(), 5 * 3);
    assert_eq!(t.bank.rest.m.len(), 5 * 45);

    // The clone and its parent share the halved opacity; the parent of the
    // split is gone and both children are there.
    let halves = t.splats.opacities.iter().filter(|o| **o == halved).count();
    assert_eq!(halves, 2);
    assert!(t.splats.positions.iter().all(|p| *p != splat(5.0)));
    assert!(t.splats.positions.contains(&splat(4.0)));
    assert!(t.splats.positions.contains(&splat(6.0)));
    // The clone's parent and the untouched splat keep their places.
    assert_eq!(t.splats.positions[0], splat(0.0));
    assert_eq!(t.splats.opacities[0], halved);
    assert_eq!(t.splats.positions[2], splat(-1.0));
    assert_eq!(t.splats.opacities[2], b(2.0));
}

#[test]
fn densify_stays_within_its_budget() {
    let mut splats = SplatBuffer::default();
    for i in 0..4 {
        push(&mut splats, splat(i as f32), -3.0, 1.0, [0.0; 3]);
    }
    let t = trainer_of(splats, &[1.0, 1.0, 1.0, f32::NAN]);
    let avg = averages(&t, 1);
    let plan = plan_densify(&t, &avg, b(0.5), b(-2.3), 6);
    assert_eq!(plan.to_clone, vec![0, 1]);
    assert!(plan.to_split.is_empty());
    let full = plan_densify(&t, &avg, b(0.5), b(-2.3), 4);
    assert!(full.to_clone.is_empty() && full.to_split.is_empty());
}

#[test]
fn prune_drops_low_opacity_splats() {
    let mut splats = SplatBuffer::default();
    for i in 0..5 {
        push(
            &mut splats,
            splat(i as f32),
            -1.0,
            if i % 2 == 0 { 2.0 } else { -10.0 },
            [0.0, 0.0, 0.0],
        );
    }
    let mut t = trainer_of(splats, &[10.0, 20.0, 30.0, 40.0, 50.0]);
    let removed = prune_low_opacity(&mut t, b(-5.3));
    assert_eq!(removed, 2, "should drop indices 1 and 3 (opacity = -10)");
    assert_eq!(t.splats.len(), 3);
    assert_eq!(t.grad_acc.len(), 3);
    assert_eq!(t.bank.pos.m.len(), 3 * 3);
    assert_eq!(t.bank.rot.m.len(), 3 * 4);
    assert_eq!(t.bank.scale.m.len(), 3 * 3);
    assert_eq!(t.bank.op.m.len(), 3);
    assert_eq!(t.bank.dc.m.len(), 3 * 3);
    assert_eq!(t.bank.rest.m.len(), 3 * 45);
    for o in &t.splats.opacities {
        let o = f32::from_bits(*o);
        assert!((o - 2.0).abs() < 1e-6, "opacity should be 2.0, got {o}");
    }
}

#[test]
fn accumulators_and_moments_follow_their_splats() {
    let mut splats = SplatBuffer::default();
    for i in 0..4 {
        push(&mut splats, splat(i as f32), -1.0, 1.0, [0.0; 3]);
    }
    let mut t = trainer_of(splats, &[10.0, 20.0, 30.0, 40.0]);
    for i in 0..4 {
        t.bank.op.m[i] = i as u32;
        t.bank.pos.v[i * 3] = i as u32;
    }
    remove_all(&mut t, &vec![0, 2]);
    assert_eq!(t.splats.len(), 2);
    for k in 0..2 {
        let id = f32::from_bits(t.splats.positions[k].x);
        assert_eq!(f32::from_bits(t.grad_acc[k]), (id + 1.0) * 10.0);
        assert_eq!(t.bank.op.m[k], id as u32);
        assert_eq!(t.bank.pos.v[k * 3], id as u32);
    }
}

#[test]
fn iterations_follow_their_schedule() {
    let first = iteration_plan(0, 1000, 7);
    assert!(first.dump && first.log && !first.prune && !first.densify);
    assert_eq!(iteration_plan(23, 1000, 7).view, 2);
    let hundred = iteration_plan(100, 1000, 7);
    assert!(hundred.prune && !hundred.densify && hundred.log);
    let two = iteration_plan(200, 1000, 7);
    assert!(two.prune && two.densify);
    let last = iteration_plan(999, 1000, 7);
    assert!(last.log && !last.prune);
}

#[test]
fn a_checkpoint_resets_what_densify_used_up() {
    let mut splats = SplatBuffer::default();
    push(&mut splats, splat(0.0), -1.0, 1.0, [0.0; 3]);
    let mut t = trainer_of(splats, &[3.0]);
    let mut clock = TrainClock::new();
    assert_eq!(clock.next_step(), 1);
    clock.step();
    assert_eq!((clock.t, clock.grad_count), (1, 1));

    assert_eq!(finish_checkpoint(&mut t, &mut clock, false, 1), AccumulatorUpload::Write);
    assert_eq!(t.grad_acc, vec![b(3.0)]);
    assert_eq!(finish_checkpoint(&mut t, &mut clock, true, 1), AccumulatorUpload::Zero);
    assert_eq!(t.grad_acc, vec![0]);
    assert_eq!((clock.t, clock.grad_count), (1, 0));
    assert_eq!(finish_checkpoint(&mut t, &mut clock, false, 2), AccumulatorUpload::Reallocate);
}

#[test]
fn random_draws_depend_on_the_iteration_alone() {
    let seed = 42u32.wrapping_mul(1_664_525).wrapping_add(1_013_904_223);
    let draws = lcg_draws(42, 3);
    assert_eq!(draws[0], lcg_next(seed));
    assert_eq!(draws[2], lcg_next(lcg_next(draws[0])));
    assert_eq!(draws, lcg_draws(42, 3));
    assert_eq!(lcg_next(0), 1_013_904_223);
}

#[test]
fn a_checkpoint_prunes_before_it_densifies() {
    let mut splats = SplatBuffer::default();
    push(&mut splats, splat(0.0), -1.0, -9.0, [0.0; 3]);
    push(&mut splats, splat(1.0), -1.0, 1.0, [0.0; 3]);
    let mut t = trainer_of(splats, &[3.0, 4.0]);
    let mut clock = TrainClock::new();
    let plan = iteration_plan(200, 1000, 1);
    assert_eq!(begin_checkpoint(&mut t, &clock, &plan), (1, false));
    assert_eq!(t.grad_acc, vec![b(4.0)]);
    clock.step();
    assert_eq!(begin_checkpoint(&mut t, &clock, &plan), (0, true));
    let quiet = iteration_plan(7, 1000, 1);
    assert_eq!(begin_checkpoint(&mut t, &clock, &quiet), (0, false));
}

#[test]
fn steps_stay_within_physical_bounds() {
    assert_eq!(LOG_SCALE_MIN, b(-10.0));
    assert_eq!(LOG_SCALE_MAX, b(5.0));
    assert_eq!(OPACITY_LOGIT_MAX, b(10.0));
}
