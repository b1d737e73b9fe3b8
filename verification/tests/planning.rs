use dasd_install::{
    build_partition_config, compute_plan, dec_string, render_descriptor, DasdError, Geometry,
    PartitionSpan, TrackDescriptor, TrackEnd, validate_sectors_per_track,
};

fn geo_512_12() -> Geometry {
    Geometry::new(512, 12).expect("valid geometry")
}

#[test]
fn geometry_rejects_zero_block_size() {
    assert_eq!(Geometry::new(0, 12), Err(DasdError::Geometry));
}

#[test]
fn geometry_rejects_zero_blocks_per_track() {
    assert_eq!(Geometry::new(512, 0), Err(DasdError::Geometry));
}

#[test]
fn geometry_accepts_positive_figures() {
    let geo = geo_512_12();
    assert_eq!(geo.bytes_per_block, 512);
    assert_eq!(geo.blocks_per_track, 12);
}

#[test]
fn zero_sectors_per_track_is_a_geometry_error() {
    assert_eq!(validate_sectors_per_track(0), Err(DasdError::Geometry));
    assert_eq!(validate_sectors_per_track(15), Ok(15));
}

#[test]
fn no_used_partitions_is_rejected() {
    let parts: Vec<PartitionSpan> = vec![];
    assert_eq!(compute_plan(&parts, geo_512_12()), Err(DasdError::NoPartitions));
}

#[test]
fn inverted_span_is_a_malformed_table() {
    let parts = vec![PartitionSpan { starting_block: 99, ending_block: 34 }];
    assert_eq!(compute_plan(&parts, geo_512_12()), Err(DasdError::PartitionTable));
}

#[test]
fn two_partition_scenario_matches_expected_layout() {
    let parts = vec![
        PartitionSpan { starting_block: 34, ending_block: 99 },
        PartitionSpan { starting_block: 100, ending_block: 199 },
    ];
    let plan = compute_plan(&parts, geo_512_12()).expect("plan");

    assert_eq!(plan.ranges.len(), 2);
    assert_eq!(plan.ranges[0].in_offset, 34 * 512);
    assert_eq!(plan.ranges[0].out_offset, 2 * 12 * 512);
    assert_eq!(plan.ranges[0].length, 66 * 512);
    assert_eq!(plan.ranges[1].in_offset, 100 * 512);
    assert_eq!(plan.ranges[1].out_offset, 8 * 12 * 512);
    assert_eq!(plan.ranges[1].length, 100 * 512);

    assert_eq!(plan.descriptors.len(), 2);
    assert_eq!(
        plan.descriptors[0],
        TrackDescriptor { start_track: 2, end: TrackEnd::Track(7) }
    );
    assert_eq!(plan.descriptors[1], TrackDescriptor { start_track: 8, end: TrackEnd::Last });

    assert_eq!(render_descriptor(&plan.descriptors[0]), "[2, 7, native]");
    assert_eq!(render_descriptor(&plan.descriptors[1]), "[8, last, native]");
}

#[test]
fn out_offsets_are_track_aligned_and_increasing() {
    let parts = vec![
        PartitionSpan { starting_block: 34, ending_block: 99 },
        PartitionSpan { starting_block: 100, ending_block: 199 },
        PartitionSpan { starting_block: 200, ending_block: 210 },
    ];
    let plan = compute_plan(&parts, geo_512_12()).expect("plan");
    let track = 12 * 512;
    let mut prev = None;
    for r in &plan.ranges {
        assert_eq!(r.out_offset % track, 0);
        if let Some(p) = prev {
            assert!(r.out_offset > p);
        }
        prev = Some(r.out_offset);
    }
}

#[test]
fn unsorted_table_yields_ranges_sorted_by_in_offset() {
    let parts = vec![
        PartitionSpan { starting_block: 100, ending_block: 199 },
        PartitionSpan { starting_block: 34, ending_block: 99 },
    ];
    let plan = compute_plan(&parts, geo_512_12()).expect("plan");
    assert_eq!(plan.ranges[0].in_offset, 34 * 512);
    assert_eq!(plan.ranges[1].in_offset, 100 * 512);
    assert!(plan.ranges[0].in_offset + plan.ranges[0].length <= plan.ranges[1].in_offset);
    // descriptors stay in on-disk order: first entry got the first tracks
    assert_eq!(
        plan.descriptors[0],
        TrackDescriptor { start_track: 2, end: TrackEnd::Track(10) }
    );
    assert_eq!(plan.descriptors[1], TrackDescriptor { start_track: 11, end: TrackEnd::Last });
}

#[test]
fn single_partition_is_last() {
    let parts = vec![PartitionSpan { starting_block: 34, ending_block: 45 }];
    let plan = compute_plan(&parts, geo_512_12()).expect("plan");
    assert_eq!(plan.descriptors.len(), 1);
    assert_eq!(plan.descriptors[0], TrackDescriptor { start_track: 2, end: TrackEnd::Last });
    assert_eq!(render_descriptor(&plan.descriptors[0]), "[2, last, native]");
}

#[test]
fn decimal_rendering() {
    assert_eq!(dec_string(0), "0");
    assert_eq!(dec_string(7), "7");
    assert_eq!(dec_string(42), "42");
    assert_eq!(dec_string(1048576), "1048576");
    assert_eq!(dec_string(u64::MAX), "18446744073709551615");
}

#[test]
fn config_body_is_newline_terminated_records() {
    let descs = vec![
        TrackDescriptor { start_track: 2, end: TrackEnd::Track(7) },
        TrackDescriptor { start_track: 8, end: TrackEnd::Last },
    ];
    let config = build_partition_config(&descs).expect("config");
    assert_eq!(config, "[2, 7, native]\n[8, last, native]\n");
}

#[test]
fn four_records_hit_the_config_limit() {
    let d = TrackDescriptor { start_track: 2, end: TrackEnd::Last };
    let descs = vec![d, d, d, d];
    assert_eq!(
        build_partition_config(&descs),
        Err(DasdError::ConfigLimit { requested: 4 })
    );
}
