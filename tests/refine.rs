use brush_train::splats::Splats;
use brush_train::trainer::{CycleInputs, PruneError, RefineConfig, SplatTrainer, StepAction};

type Cloud = Splats<[f32; 3], [f32; 4], [f32; 3], f32>;

fn make_set(n: usize) -> Cloud {
    let mut s = Cloud {
        means: Vec::new(),
        rotation: Vec::new(),
        sh_coeffs: Vec::new(),
        raw_opacity: Vec::new(),
        log_scales: Vec::new(),
    };
    for i in 0..n {
        let f = i as f32;
        s.means.push([f, f + 0.5, -f]);
        s.rotation.push([1.0, 0.0, 0.0, f / 100.0]);
        s.sh_coeffs.push([f * 0.1, 0.2, 0.3]);
        s.raw_opacity.push(f - 3.0);
        s.log_scales.push([-f, -2.0, -3.0]);
    }
    s
}

fn config() -> RefineConfig {
    RefineConfig { warmup_steps: 3, refine_every: 5, reset_alpha_every: 2, densify_grad_thresh: 10 }
}

fn sigmoid(x: f32) -> f32 {
    1.0 / (1.0 + (-x).exp())
}

fn same_row(a: &Cloud, i: usize, b: &Cloud, j: usize) -> bool {
    a.means[i] == b.means[j]
        && a.rotation[i] == b.rotation[j]
        && a.sh_coeffs[i] == b.sh_coeffs[j]
        && a.raw_opacity[i] == b.raw_opacity[j]
        && a.log_scales[i] == b.log_scales[j]
}

fn assert_lengths(t: &SplatTrainer, s: &Cloud) {
    let n = s.num_splats();
    assert!(s.is_consistent());
    assert_eq!(t.grad_2d_accum.len(), n);
    assert_eq!(t.xy_grad_counts.len(), n);
}

#[test]
fn prune_with_no_mark_changes_nothing() {
    let mut s = make_set(6);
    let mut t = SplatTrainer::new(6, config());
    t.update_stats(&vec![0, 3], &vec![7, 9]);
    let before = make_set(6);
    let accum = t.grad_2d_accum.clone();
    assert_eq!(t.prune_points(&mut s, &vec![false; 6]), Ok(()));
    for i in 0..6 {
        assert!(same_row(&s, i, &before, i));
    }
    assert_eq!(t.grad_2d_accum, accum);
    assert_eq!(t.prune_points(&mut s, &vec![]), Ok(()));
    assert_eq!(s.num_splats(), 6);
}

#[test]
fn prune_of_every_row_is_refused() {
    let mut s = make_set(4);
    let mut t = SplatTrainer::new(4, config());
    assert_eq!(t.prune_points(&mut s, &vec![true; 4]), Err(PruneError::WouldRemoveAll));
    assert_eq!(s.num_splats(), 4);
    assert_lengths(&t, &s);
}

#[test]
fn prune_keeps_order_and_short_mask_pads() {
    let mut s = make_set(5);
    let mut t = SplatTrainer::new(5, config());
    t.update_stats(&vec![0, 1, 2, 3, 4], &vec![10, 11, 12, 13, 14]);
    let before = make_set(5);
    assert_eq!(t.prune_points(&mut s, &vec![true, false, true]), Ok(()));
    assert_eq!(s.num_splats(), 3);
    assert!(same_row(&s, 0, &before, 1));
    assert!(same_row(&s, 1, &before, 3));
    assert!(same_row(&s, 2, &before, 4));
    assert_eq!(t.grad_2d_accum, vec![11, 13, 14]);
    assert_eq!(t.xy_grad_counts, vec![1, 1, 1]);
    assert_lengths(&t, &s);
}

#[test]
fn clone_appends_exact_copies() {
    let mut s = make_set(4);
    let mut t = SplatTrainer::new(4, config());
    t.update_stats(&vec![1], &vec![5]);
    let before = make_set(4);
    t.clone_points(&mut s, &vec![false, true, false, true]);
    assert_eq!(s.num_splats(), 6);
    for i in 0..4 {
        assert!(same_row(&s, i, &before, i));
    }
    assert!(same_row(&s, 4, &before, 1));
    assert!(same_row(&s, 5, &before, 3));
    assert_eq!(t.grad_2d_accum, vec![0, 5, 0, 0, 0, 0]);
    assert_lengths(&t, &s);
}

#[test]
fn split_replaces_parents_by_two_children() {
    let mut s = make_set(4);
    let mut t = SplatTrainer::new(4, config());
    let before = make_set(4);
    let mask = vec![false, true, true, false];
    let child_means = vec![[10.0, 0.0, 0.0], [20.0, 0.0, 0.0], [11.0, 0.0, 0.0], [21.0, 0.0, 0.0]];
    let child_scales = vec![[-1.5; 3], [-2.5; 3], [-1.5; 3], [-2.5; 3]];
    t.split_points(&mut s, &mask, child_means.clone(), child_scales.clone());
    assert_eq!(s.num_splats(), 6);
    assert!(same_row(&s, 0, &before, 0));
    assert!(same_row(&s, 1, &before, 3));
    assert_eq!(&s.means[2..], &child_means[..]);
    assert_eq!(&s.log_scales[2..], &child_scales[..]);
    for (c, parent) in [1usize, 2, 1, 2].iter().enumerate() {
        assert_eq!(s.rotation[2 + c], before.rotation[*parent]);
        assert_eq!(s.sh_coeffs[2 + c], before.sh_coeffs[*parent]);
        assert_eq!(s.raw_opacity[2 + c], before.raw_opacity[*parent]);
    }
    assert_eq!(t.grad_2d_accum, vec![0; 6]);
    assert_lengths(&t, &s);
}

#[test]
fn split_with_no_mark_changes_nothing() {
    let mut s = make_set(3);
    let mut t = SplatTrainer::new(3, config());
    t.split_points(&mut s, &vec![false; 3], vec![], vec![]);
    let before = make_set(3);
    for i in 0..3 {
        assert!(same_row(&s, i, &before, i));
    }
    assert_lengths(&t, &s);
}

fn cycle(low: Vec<bool>, over: Vec<bool>, small: Vec<bool>) -> CycleInputs<[f32; 3], f32> {
    let n = low.len();
    CycleInputs {
        low_opacity: low,
        oversized: over,
        small,
        child_means_a: (0..n).map(|i| [100.0 + i as f32, 0.0, 0.0]).collect(),
        child_means_b: (0..n).map(|i| [200.0 + i as f32, 0.0, 0.0]).collect(),
        child_scales: (0..n).map(|i| [-10.0 - i as f32; 3]).collect(),
        opacity_reset: 0.5,
    }
}

fn copy_of(s: &Cloud) -> Cloud {
    Cloud {
        means: s.means.clone(),
        rotation: s.rotation.clone(),
        sh_coeffs: s.sh_coeffs.clone(),
        raw_opacity: s.raw_opacity.clone(),
        log_scales: s.log_scales.clone(),
    }
}

#[test]
fn lengths_agree_after_every_operation() {
    let mut s = make_set(8);
    let mut t = SplatTrainer::new(8, config());
    t.update_stats(&vec![0, 1, 2, 3, 4, 5, 6, 7], &vec![50, 0, 50, 0, 50, 0, 50, 1]);
    assert_eq!(t.prune_points(&mut s, &vec![false, true]), Ok(()));
    assert_lengths(&t, &s);
    t.clone_points(&mut s, &vec![true, false, true]);
    assert_lengths(&t, &s);
    let n = s.num_splats();
    let mut mask = vec![false; n];
    mask[0] = true;
    t.split_points(&mut s, &mask, vec![[0.0; 3]; 2], vec![[0.0; 3]; 2]);
    assert_lengths(&t, &s);
    let n = s.num_splats();
    let cy = cycle(vec![false; n], vec![false; n], vec![true; n]);
    assert_eq!(t.densify_and_prune(&mut s, &cy, false), Ok(()));
    assert_lengths(&t, &s);
    assert!(t.grad_2d_accum.iter().all(|g| *g == 0));
}

#[test]
fn all_low_opacity_cycle_is_refused() {
    let mut s = make_set(10);
    for o in s.raw_opacity.iter_mut() {
        *o = -6.0;
    }
    let mut t = SplatTrainer::new(10, config());
    let cull_alpha_thresh = 0.1;
    let low: Vec<bool> = s.raw_opacity.iter().map(|o| sigmoid(*o) < cull_alpha_thresh).collect();
    let cy = cycle(low, vec![false; 10], vec![true; 10]);
    let r = t.densify_and_prune(&mut s, &cy, false);
    assert_eq!(r, Err(PruneError::WouldRemoveAll));
    assert_eq!(s.num_splats(), 10);
    assert_lengths(&t, &s);
}

#[test]
fn one_visible_point_survives_the_cycle() {
    let mut s = make_set(10);
    for o in s.raw_opacity.iter_mut() {
        *o = -6.0;
    }
    s.raw_opacity[7] = 2.0;
    let before = copy_of(&s);
    let mut t = SplatTrainer::new(10, config());
    let cull_alpha_thresh = 0.1;
    let low: Vec<bool> = s.raw_opacity.iter().map(|o| sigmoid(*o) < cull_alpha_thresh).collect();
    let cy = cycle(low, vec![false; 10], vec![true; 10]);
    assert_eq!(t.densify_and_prune(&mut s, &cy, false), Ok(()));
    assert_eq!(s.num_splats(), 1);
    assert!(same_row(&s, 0, &before, 7));
    assert_eq!(t.grad_2d_accum, vec![0]);
    assert_lengths(&t, &s);
}

#[test]
fn cycle_culls_clones_and_splits() {
    let mut s = make_set(5);
    let before = make_set(5);
    let mut t = SplatTrainer::new(5, config());
    // rows 1 and 3 get a large average gradient (40 and 30), row 4 a small one.
    t.update_stats(&vec![1, 3, 4], &vec![40, 30, 9]);
    t.update_stats(&vec![1], &vec![0]);
    assert_eq!(t.average_grad(1), 40);
    let cy = cycle(
        vec![true, false, false, false, false],
        vec![false; 5],
        vec![false, true, true, false, true],
    );
    assert_eq!(t.densify_and_prune(&mut s, &cy, false), Ok(()));
    // rows left: 1, 2, 3, 4; row 1 is cloned, row 3 is split into two.
    assert_eq!(s.num_splats(), 6);
    assert!(same_row(&s, 0, &before, 1));
    assert!(same_row(&s, 1, &before, 2));
    assert!(same_row(&s, 2, &before, 4));
    assert!(same_row(&s, 3, &before, 1));
    assert_eq!(s.means[4], cy.child_means_a[3]);
    assert_eq!(s.means[5], cy.child_means_b[3]);
    for c in 4..6 {
        assert_eq!(s.log_scales[c], cy.child_scales[3]);
        assert_eq!(s.rotation[c], before.rotation[3]);
        assert_eq!(s.sh_coeffs[c], before.sh_coeffs[3]);
        assert_eq!(s.raw_opacity[c], before.raw_opacity[3]);
    }
    assert_eq!(t.grad_2d_accum, vec![0; 6]);
    assert_eq!(t.xy_grad_counts, vec![0; 6]);
}

#[test]
fn cycle_splitting_every_point_keeps_children() {
    let mut s = make_set(3);
    let mut t = SplatTrainer::new(3, config());
    t.update_stats(&vec![0, 1, 2], &vec![11, 12, 13]);
    let cy = cycle(vec![false; 3], vec![false; 3], vec![false; 3]);
    assert_eq!(t.densify_and_prune(&mut s, &cy, false), Ok(()));
    assert_eq!(s.num_splats(), 6);
    assert_eq!(&s.means[..3], &cy.child_means_a[..]);
    assert_eq!(&s.means[3..], &cy.child_means_b[..]);
    assert_lengths(&t, &s);
}

#[test]
fn cycle_resets_opacity_when_asked() {
    let mut s = make_set(4);
    let mut t = SplatTrainer::new(4, config());
    let cy = cycle(vec![false; 4], vec![false; 4], vec![true; 4]);
    assert_eq!(t.densify_and_prune(&mut s, &cy, true), Ok(()));
    assert_eq!(s.raw_opacity, vec![0.5; 4]);
    assert_eq!(s.means, make_set(4).means);
}

#[test]
fn oversized_points_are_deleted() {
    let mut s = make_set(3);
    let mut t = SplatTrainer::new(3, config());
    let cy = cycle(vec![false; 3], vec![false, false, true], vec![true; 3]);
    assert_eq!(t.densify_and_prune(&mut s, &cy, false), Ok(()));
    assert_eq!(s.num_splats(), 2);
    assert!(same_row(&s, 1, &make_set(3), 1));
}

#[test]
fn average_counts_only_steps_with_gradient() {
    // Magnitudes in micro-pixels: 5.0 px is 5_000_000.
    let five = 5_000_000u64;
    let cfg = RefineConfig { warmup_steps: 3, refine_every: 100, reset_alpha_every: 2, densify_grad_thresh: 10 };
    let mut t = SplatTrainer::new(1, cfg);
    let mut s = make_set(1);
    let cy = cycle(vec![false], vec![false], vec![true]);
    let ids = vec![0usize];
    // Warmup steps 0..=3: magnitudes 5, 0, 0, 0 are not recorded.
    for m in [five, 0, 0, 0] {
        assert_eq!(t.step(&mut s, &ids, &vec![m], &cy), Ok(StepAction::Continue));
    }
    assert_eq!(t.grad_2d_accum, vec![0]);
    assert_eq!(t.step(&mut s, &ids, &vec![five], &cy), Ok(StepAction::Continue));
    assert_eq!(t.average_grad(0), five);
    for m in [0, 0, 0, five] {
        t.step(&mut s, &ids, &vec![m], &cy).unwrap();
    }
    assert_eq!(t.xy_grad_counts, vec![2]);
    assert_eq!(t.average_grad(0), five);
}

#[test]
fn step_schedule_refines_and_resets() {
    let mut t = SplatTrainer::new(2, config());
    let mut s = make_set(2);
    let cy = cycle(vec![false; 2], vec![false; 2], vec![true; 2]);
    let ids = vec![0usize];
    let mut actions = Vec::new();
    for i in 0..21 {
        assert_eq!(t.refines_now(), i > 3 && i % 5 == 0);
        actions.push(t.step(&mut s, &ids, &vec![1], &cy).unwrap());
        if i == 19 {
            // recorded on steps 16..=19, after the reset of step 15
            assert_eq!(t.grad_2d_accum, vec![4, 0]);
            assert_eq!(t.xy_grad_counts, vec![4, 0]);
        }
    }
    assert_eq!(t.iter, 21);
    for (i, a) in actions.iter().enumerate() {
        let expected = if i == 5 || i == 15 {
            StepAction::Refine { reset_opacity: false }
        } else if i == 10 || i == 20 {
            StepAction::Refine { reset_opacity: true }
        } else {
            StepAction::Continue
        };
        assert_eq!(*a, expected, "step {}", i);
    }
    // Step 20 refined: statistics restart, opacities were reset.
    assert_eq!(t.grad_2d_accum, vec![0, 0]);
    assert_eq!(t.xy_grad_counts, vec![0, 0]);
    assert_eq!(s.raw_opacity, vec![0.5, 0.5]);
    assert_eq!(s.num_splats(), 2);
}

#[test]
fn refusing_step_leaves_points_in_place() {
    let cfg = RefineConfig { warmup_steps: 0, refine_every: 1, reset_alpha_every: 1, densify_grad_thresh: 10 };
    let mut t = SplatTrainer::new(2, cfg);
    t.iter = 1;
    let mut s = make_set(2);
    let cy = cycle(vec![true; 2], vec![false; 2], vec![true; 2]);
    assert_eq!(t.step(&mut s, &vec![1], &vec![3], &cy), Err(PruneError::WouldRemoveAll));
    assert_eq!(s.num_splats(), 2);
    assert_eq!(t.grad_2d_accum, vec![0, 3]);
    assert_eq!(t.iter, 2);
}

#[test]
fn update_maps_compacted_points_to_rows() {
    let mut t = SplatTrainer::new(5, config());
    t.update_stats(&vec![4, 0, 2], &vec![3, 0, 8]);
    assert_eq!(t.grad_2d_accum, vec![0, 0, 8, 0, 3]);
    assert_eq!(t.xy_grad_counts, vec![0, 0, 1, 0, 1]);
    t.update_stats(&vec![4], &vec![u64::MAX]);
    assert_eq!(t.grad_2d_accum[4], u64::MAX);
    assert_eq!(t.xy_grad_counts[4], 2);
}

#[test]
fn average_of_unobserved_point_is_its_sum() {
    let mut t = SplatTrainer::new(2, config());
    t.update_stats(&vec![0, 1], &vec![0, 7]);
    t.update_stats(&vec![1], &vec![8]);
    assert_eq!(t.average_grad(0), 0);
    assert_eq!(t.average_grad(1), 7);
}

#[test]
fn reset_stats_zeroes_new_length() {
    let mut t = SplatTrainer::new(2, config());
    t.update_stats(&vec![1], &vec![8]);
    t.reset_stats(3);
    assert_eq!(t.grad_2d_accum, vec![0; 3]);
    assert_eq!(t.xy_grad_counts, vec![0; 3]);
}

#[test]
fn reset_opacity_overwrites_every_logit() {
    let mut s = make_set(4);
    s.reset_opacity(0.25);
    assert_eq!(s.raw_opacity, vec![0.25; 4]);
    assert_eq!(s.means, make_set(4).means);
}

#[test]
fn select_and_concat_rows() {
    let s = make_set(4);
    let mut picked = s.select_rows(&vec![3, 0, 3]);
    assert_eq!(picked.num_splats(), 3);
    assert!(same_row(&picked, 0, &s, 3));
    assert!(same_row(&picked, 1, &s, 0));
    assert!(same_row(&picked, 2, &s, 3));
    picked.concat_splats(make_set(2));
    assert_eq!(picked.num_splats(), 5);
    assert!(same_row(&picked, 4, &s, 1));
}

#[test]
fn inconsistent_columns_are_detected() {
    let mut s = make_set(3);
    assert!(s.is_consistent());
    s.rotation.pop();
    assert!(!s.is_consistent());
}
