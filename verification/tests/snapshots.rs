use fuse_planner::fuse_snapshot::uuid_simple_bytes;
use fuse_planner::fuse_snapshot::FuseSnapshot;
use fuse_planner::fuse_snapshot::SnapshotLite;
use fuse_planner::types::TableDataType;
use fuse_planner::versioned_reader::loaded_bytes;
use fuse_planner::versioned_reader::read_error_code;
use fuse_planner::versioned_reader::ErrorCode;
use fuse_planner::versioned_reader::ReadFailure;

fn snap(id: u128, prev: Option<(u128, u64)>, rows: u32) -> SnapshotLite {
    SnapshotLite {
        snapshot_id: id,
        prev_snapshot_id: prev,
        format_version: 2,
        segment_count: 1,
        block_count: 2,
        row_count: rows,
        compressed_byte_size: 10,
        uncompressed_byte_size: 20,
        index_size: 3,
        timestamp_micros: Some(1_000_000),
    }
}

#[test]
fn uuid_simple_form() {
    assert_eq!(
        uuid_simple_bytes(0x0123456789abcdef0123456789ABCDEF),
        b"0123456789abcdef0123456789abcdef".to_vec()
    );
    assert_eq!(uuid_simple_bytes(0), b"00000000000000000000000000000000".to_vec());
    assert_eq!(uuid_simple_bytes(u128::MAX), b"ffffffffffffffffffffffffffffffff".to_vec());
}

#[test]
fn location_versions_follow_the_chain() {
    let snaps = vec![snap(3, Some((2, 1)), 30), snap(2, Some((1, 0)), 20), snap(1, None, 10)];
    assert_eq!(FuseSnapshot::location_versions(&snaps, 2), vec![2, 1, 0]);
    assert_eq!(FuseSnapshot::location_versions(&[], 7), Vec::<u64>::new());
}

fn loc(id: u128, v: u64) -> Result<Vec<u8>, String> {
    if v > 5 {
        Err(format!("bad version {}", v))
    } else {
        Ok(format!("{:x}_v{}", id, v).into_bytes())
    }
}

#[test]
fn to_block_one_row_per_snapshot() {
    let f = FuseSnapshot::new(Some("loc".to_string()), 2);
    assert_eq!(f.snapshot_location.as_deref(), Some("loc"));
    let snaps = vec![snap(0xab, Some((0xcd, 1)), 30), snap(0xcd, None, 10)];
    let b = f.to_block(&loc, &snaps, 2).unwrap();
    assert_eq!(b.snapshot_id[0], b"000000000000000000000000000000ab".to_vec());
    // each location uses the version its successor records: 2 for the newest, then 1
    assert_eq!(b.snapshot_location, vec![b"ab_v2".to_vec(), b"cd_v1".to_vec()]);
    assert_eq!(b.previous_snapshot_id, vec![Some(b"000000000000000000000000000000cd".to_vec()), None]);
    assert_eq!(b.row_count, vec![30, 10]);
    assert_eq!(b.format_version, vec![2, 2]);
    assert_eq!(b.bytes_uncompressed, vec![20, 20]);
    assert_eq!(b.bytes_compressed, vec![10, 10]);
    assert_eq!(b.index_size, vec![3, 3]);
    assert_eq!(b.segment_count, vec![1, 1]);
    assert_eq!(b.block_count, vec![2, 2]);
    assert_eq!(b.timestamp, vec![Some(1_000_000), Some(1_000_000)]);
    let e = FuseSnapshot::empty_block();
    assert!(e.snapshot_id.is_empty() && e.timestamp.is_empty());
}

#[test]
fn to_block_returns_the_location_error() {
    let f = FuseSnapshot::new(Some("loc".to_string()), 2);
    let snaps = vec![snap(0xab, Some((0xcd, 9)), 30), snap(0xcd, None, 10)];
    assert_eq!(f.to_block(&loc, &snaps, 2).err(), Some("bad version 9".to_string()));
}

#[test]
fn get_snapshots_without_location_is_empty() {
    let snaps = vec![snap(0xab, None, 30)];
    let none = FuseSnapshot::new(None, 2);
    let b = none.get_snapshots(&loc, &snaps).unwrap();
    assert!(b.snapshot_id.is_empty() && b.snapshot_location.is_empty());
    let some = FuseSnapshot::new(Some("l".to_string()), 3);
    let b = some.get_snapshots(&loc, &snaps).unwrap();
    assert_eq!(b.snapshot_location, vec![b"ab_v3".to_vec()]);
}

#[test]
fn snapshot_schema_columns() {
    let s = FuseSnapshot::schema();
    let names: Vec<String> = s.fields().iter().map(|f| f.name().clone()).collect();
    assert_eq!(
        names,
        vec![
            "snapshot_id",
            "snapshot_location",
            "format_version",
            "previous_snapshot_id",
            "segment_count",
            "block_count",
            "row_count",
            "bytes_uncompressed",
            "bytes_compressed",
            "index_size",
            "timestamp"
        ]
    );
    assert!(matches!(s.fields()[10].data_type(), TableDataType::Nullable(_)));
}

#[test]
fn read_errors_are_classified() {
    assert!(matches!(read_error_code(true, "m".to_string()), ErrorCode::DalPathNotFound(m) if m == "m"));
    assert!(matches!(read_error_code(false, "t".to_string()), ErrorCode::DalTransportError(m) if m == "t"));
    assert_eq!(loaded_bytes(Ok(vec![1, 2])).unwrap(), vec![1, 2]);
    let gone = ReadFailure { not_found: true, message: "gone".to_string() };
    assert!(matches!(loaded_bytes(Err(gone)), Err(ErrorCode::DalPathNotFound(m)) if m == "gone"));
    let denied = ReadFailure { not_found: false, message: "no".to_string() };
    assert!(matches!(loaded_bytes(Err(denied)), Err(ErrorCode::DalTransportError(m)) if m == "no"));
}
