use dasd_install::{plan_from_header, DasdError, Geometry};
use gptman::{GPTPartitionEntry, GPT};

fn empty_disk_image() -> Vec<u8> {
    vec![0u8; 1024 * 1024]
}

fn write_table(entries: &[(u64, u64)]) -> Vec<u8> {
    let mut cur = std::io::Cursor::new(empty_disk_image());
    let mut gpt = GPT::new_from(&mut cur, 512, [0xaa; 16]).expect("create table");
    for (i, &(start, end)) in entries.iter().enumerate() {
        gpt[i as u32 + 1] = GPTPartitionEntry {
            partition_type_guid: [0x11; 16],
            unique_partition_guid: [i as u8 + 1; 16],
            starting_lba: start,
            ending_lba: end,
            attribute_bits: 0,
            partition_name: "data".into(),
        };
    }
    gpt.write_into(&mut cur).expect("write table");
    cur.into_inner()
}

#[test]
fn garbage_header_is_a_malformed_table() {
    let header = vec![0u8; 4096];
    let geo = Geometry::new(512, 12).unwrap();
    assert_eq!(plan_from_header(&header, geo), Err(DasdError::PartitionTable));
}

#[test]
fn table_without_used_entries_has_no_partitions() {
    let header = write_table(&[]);
    let geo = Geometry::new(512, 12).unwrap();
    assert_eq!(plan_from_header(&header, geo), Err(DasdError::NoPartitions));
}

#[test]
fn parsed_table_yields_the_expected_plan() {
    let header = write_table(&[(34, 99), (100, 199)]);
    let geo = Geometry::new(512, 12).unwrap();
    let plan = plan_from_header(&header, geo).expect("plan");

    assert_eq!(plan.ranges.len(), 2);
    assert_eq!(plan.ranges[0].in_offset, 34 * 512);
    assert_eq!(plan.ranges[0].out_offset, 2 * 12 * 512);
    assert_eq!(plan.ranges[0].length, 66 * 512);
    assert_eq!(plan.ranges[1].in_offset, 100 * 512);
    assert_eq!(plan.ranges[1].out_offset, 8 * 12 * 512);
    assert_eq!(plan.ranges[1].length, 100 * 512);
    assert_eq!(dasd_install::render_descriptor(&plan.descriptors[0]), "[2, 7, native]");
    assert_eq!(dasd_install::render_descriptor(&plan.descriptors[1]), "[8, last, native]");
}

#[test]
fn header_with_foreign_entry_size_is_rejected_before_parsing() {
    // a crafted header that declares 64-byte entries would drive the
    // parsing library into its entry-array checksum assertion
    let mut header = write_table(&[(34, 99)]);
    header[512 + 84] = 64;
    let geo = Geometry::new(512, 12).unwrap();
    assert_eq!(plan_from_header(&header, geo), Err(DasdError::PartitionTable));
}

#[test]
fn used_partition_at_block_zero_is_rejected_before_parsing() {
    // a used partition starting at block zero would leave the parsing
    // library's alignment search without any candidate
    let mut header = write_table(&[(34, 99)]);
    // the entry array begins at block 2; zero the first entry's starting block
    for b in &mut header[1024 + 32..1024 + 40] {
        *b = 0;
    }
    let geo = Geometry::new(512, 12).unwrap();
    assert_eq!(plan_from_header(&header, geo), Err(DasdError::PartitionTable));
}

#[test]
fn unused_entries_are_ignored() {
    // one used entry among empty slots
    let header = write_table(&[(34, 45)]);
    let geo = Geometry::new(512, 12).unwrap();
    let plan = plan_from_header(&header, geo).expect("plan");
    assert_eq!(plan.ranges.len(), 1);
    assert_eq!(dasd_install::render_descriptor(&plan.descriptors[0]), "[2, last, native]");
}
