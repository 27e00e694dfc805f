use raytrace::gather_in_order;
use raytrace::nearest_hit;
use raytrace::pixel_order;
use raytrace::quantize_channel;
use raytrace::resolve_step;
use raytrace::sample_position;
use raytrace::subsample_grid;
use raytrace::Step;
use raytrace::MAX_DEPTH;

#[test]
fn grid_walks_horizontal_offset_outermost() {
    let g = subsample_grid(3);
    assert_eq!(g.len(), 9);
    assert_eq!(
        g,
        vec![(0, 0), (0, 1), (0, 2), (1, 0), (1, 1), (1, 2), (2, 0), (2, 1), (2, 2)]
    );
}

#[test]
fn grid_of_size_zero_is_empty() {
    assert!(subsample_grid(0).is_empty());
}

#[test]
fn grid_of_size_one_is_the_pixel_corner() {
    assert_eq!(subsample_grid(1), vec![(0, 0)]);
}

#[test]
fn pixels_are_emitted_top_row_first() {
    assert_eq!(
        pixel_order(3, 2),
        vec![(0, 1), (1, 1), (2, 1), (0, 0), (1, 0), (2, 0)]
    );
}

#[test]
fn empty_image_has_no_pixels() {
    assert!(pixel_order(0, 5).is_empty());
    assert!(pixel_order(5, 0).is_empty());
}

#[test]
fn sample_position_is_a_fraction_of_the_extent() {
    assert_eq!(sample_position(2, 3, 10, 800), (23, 8000));
    assert_eq!(sample_position(0, 0, 10, 400), (0, 4000));
    assert_eq!(sample_position(399, 9, 10, 400), (3999, 4000));
}

#[test]
fn channels_are_clamped_not_wrapped() {
    assert_eq!(quantize_channel(-5), 0);
    assert_eq!(quantize_channel(0), 0);
    assert_eq!(quantize_channel(128), 128);
    assert_eq!(quantize_channel(255), 255);
    assert_eq!(quantize_channel(256), 255);
    assert_eq!(quantize_channel(i64::MAX), 255);
}

#[test]
fn no_primitives_means_no_hit() {
    assert_eq!(nearest_hit(&vec![]), None);
    assert_eq!(nearest_hit(&vec![None, None]), None);
}

#[test]
fn nearest_hit_takes_the_smallest_key_first_listed() {
    assert_eq!(nearest_hit(&vec![Some(5), None, Some(3), Some(3)]), Some(2));
    assert_eq!(nearest_hit(&vec![Some(5), Some(3)]), Some(1));
    assert_eq!(nearest_hit(&vec![Some(0), Some(3)]), Some(0));
}

#[test]
fn nearest_hit_orders_distance_bit_patterns() {
    let keys = vec![
        Some(6.0f64.to_bits()),
        None,
        Some(4.0f64.to_bits()),
        Some(4.5f64.to_bits()),
    ];
    assert_eq!(nearest_hit(&keys), Some(2));
}

#[test]
fn depth_zero_absorbs_whatever_the_scene() {
    assert_eq!(resolve_step(0, &vec![Some(1), Some(2)]), Step::Absorb);
    assert_eq!(resolve_step(0, &vec![]), Step::Absorb);
    assert_eq!(resolve_step(0, &vec![None]), Step::Absorb);
}

#[test]
fn empty_scene_shows_the_sky() {
    assert_eq!(resolve_step(MAX_DEPTH, &vec![]), Step::Sky);
    assert_eq!(resolve_step(1, &vec![]), Step::Sky);
    assert_eq!(resolve_step(3, &vec![None, None]), Step::Sky);
}

#[test]
fn a_hit_bounces_with_one_bounce_less() {
    assert_eq!(
        resolve_step(MAX_DEPTH, &vec![None, Some(9), Some(4)]),
        Step::Bounce { primitive: 2, depth: 9 }
    );
    assert_eq!(
        resolve_step(1, &vec![Some(7)]),
        Step::Bounce { primitive: 0, depth: 0 }
    );
}

#[test]
fn bounce_budget_runs_out_against_facing_mirrors() {
    let keys = vec![Some(1), Some(1)];
    let mut depth = MAX_DEPTH;
    let mut bounces = 0;
    loop {
        match resolve_step(depth, &keys) {
            Step::Bounce { depth: next, .. } => {
                bounces += 1;
                depth = next;
            }
            Step::Absorb => break,
            Step::Sky => panic!("the mirrors are always hit"),
        }
    }
    assert_eq!(bounces, MAX_DEPTH);
}

#[test]
fn gather_restores_sample_order() {
    let done = vec![(2, 'c'), (0, 'a'), (1, 'b')];
    assert_eq!(gather_in_order(3, &done), Some(vec!['a', 'b', 'c']));
}

#[test]
fn gather_of_nothing_is_empty() {
    let done: Vec<(usize, u8)> = vec![];
    assert_eq!(gather_in_order(0, &done), Some(vec![]));
    assert_eq!(gather_in_order(1, &done), None);
}

#[test]
fn gather_refuses_a_sample_finished_twice() {
    assert_eq!(gather_in_order(2, &vec![(0, 1u8), (0, 1u8)]), None);
    assert_eq!(gather_in_order(3, &vec![(0, 1u8), (1, 2u8), (0, 3u8)]), None);
}

#[test]
fn gather_refuses_a_missing_sample() {
    assert_eq!(gather_in_order(3, &vec![(0, 1u8), (2, 2u8)]), None);
}

#[test]
fn gather_refuses_a_sample_out_of_range() {
    assert_eq!(gather_in_order(2, &vec![(0, 1u8), (2, 2u8)]), None);
}

#[test]
fn gathered_sum_does_not_depend_on_completion_order() {
    let values = [0.1f64, 0.7, 1e-17, 0.3, 1e17, -1e17];
    let first: Vec<(usize, f64)> = values.iter().copied().enumerate().collect();
    let mut second = first.clone();
    second.reverse();
    second.swap(1, 4);
    let a = gather_in_order(values.len(), &first).unwrap();
    let b = gather_in_order(values.len(), &second).unwrap();
    assert_eq!(a, b);
    let sum_a: f64 = a.iter().sum();
    let sum_b: f64 = b.iter().sum();
    assert_eq!(sum_a.to_bits(), sum_b.to_bits());
}
