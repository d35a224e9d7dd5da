use pixel_fluter::{partition, Geometry, Region};

fn check_tiling(g: &Geometry, workers: u16) {
    let regions = partition(g, workers);
    let sw = (g.width / g.x_shards) as usize;
    let total = sw * g.height as usize;
    let mut owners = vec![0u32; total];
    for r in &regions {
        assert!(r.len > 0);
        for i in r.start..r.start + r.len {
            owners[i] += 1;
        }
        assert_eq!(r.x0 as usize, (g.x_shard as usize - 1) * sw + r.start % sw);
        assert_eq!(r.y0 as usize, r.start / sw);
    }
    assert!(owners.iter().all(|&n| n == 1));
}

#[test]
fn partition_into_equal_runs() {
    let g = Geometry::new(4, 2, 1, 1).unwrap();
    let regions = partition(&g, 3);
    assert_eq!(
        regions,
        vec![
            Region { start: 0, len: 3, x0: 0, y0: 0 },
            Region { start: 3, len: 3, x0: 3, y0: 0 },
            Region { start: 6, len: 2, x0: 2, y0: 1 },
        ]
    );
}

#[test]
fn partition_for_one_worker_is_the_whole_slice() {
    let g = Geometry::new(5, 3, 1, 1).unwrap();
    assert_eq!(partition(&g, 1), vec![Region { start: 0, len: 15, x0: 0, y0: 0 }]);
}

#[test]
fn partition_with_more_workers_than_cells() {
    let g = Geometry::new(2, 1, 1, 1).unwrap();
    assert_eq!(
        partition(&g, 5),
        vec![Region { start: 0, len: 1, x0: 0, y0: 0 }, Region { start: 1, len: 1, x0: 1, y0: 0 }]
    );
}

#[test]
fn partition_of_a_shard() {
    let g = Geometry::new(6, 2, 2, 3).unwrap();
    assert_eq!(
        partition(&g, 2),
        vec![Region { start: 0, len: 2, x0: 2, y0: 0 }, Region { start: 2, len: 2, x0: 2, y0: 1 }]
    );
}

#[test]
fn partition_covers_every_cell_once() {
    for (w, h, shard, shards) in [(4u16, 2u16, 1u16, 1u16), (7, 5, 1, 1), (12, 3, 2, 3), (9, 9, 3, 3)] {
        let g = Geometry::new(w, h, shard, shards).unwrap();
        for workers in 1..12u16 {
            check_tiling(&g, workers);
        }
    }
}
