//! The rows of the `fuse_snapshot` table function: one row per snapshot of a
//! fuse table, newest first.
use vstd::prelude::*;

use crate::types::{FieldView, NumberDataType, TableDataType, TableField, TableSchema, TypeView};

verus! {

/// What the table function reads of one snapshot.
pub struct SnapshotLite {
    /// The snapshot's UUID.
    pub snapshot_id: u128,
    /// The previous snapshot's UUID and the format version it was written in.
    pub prev_snapshot_id: Option<(u128, u64)>,
    pub format_version: u64,
    pub segment_count: u32,
    pub block_count: u32,
    pub row_count: u32,
    pub compressed_byte_size: u32,
    pub uncompressed_byte_size: u32,
    pub index_size: u32,
    /// Creation time, in microseconds since the UNIX epoch.
    pub timestamp_micros: Option<i64>,
}

/// The columns of the table function's result, in schema order.
pub struct SnapshotBlock {
    pub snapshot_id: Vec<Vec<u8>>,
    pub snapshot_location: Vec<Vec<u8>>,
    pub format_version: Vec<u64>,
    pub previous_snapshot_id: Vec<Option<Vec<u8>>>,
    pub segment_count: Vec<u32>,
    pub block_count: Vec<u32>,
    pub row_count: Vec<u32>,
    pub bytes_uncompressed: Vec<u32>,
    pub bytes_compressed: Vec<u32>,
    pub index_size: Vec<u32>,
    pub timestamp: Vec<Option<i64>>,
}

/// The lower-case hexadecimal digit for `d < 16`.
pub open spec fn hex_digit(d: nat) -> u8 {
    if d < 10 {
        (48 + d) as u8
    } else {
        (87 + d) as u8
    }
}

/// The last `n` hexadecimal digits of `x`, most significant first.
pub open spec fn hex_lower(x: nat, n: nat) -> Seq<u8>
    decreases n,
{
    if n == 0 {
        Seq::empty()
    } else {
        hex_lower(x / 16, (n - 1) as nat) + seq![hex_digit(x % 16)]
    }
}

/// The "simple" text form of a UUID: its 32 hexadecimal digits, lower case,
/// without hyphens.
pub open spec fn uuid_simple(id: u128) -> Seq<u8> {
    hex_lower(id as nat, 32)
}

fn hex_lower_exec(x: u128, n: usize) -> (res: Vec<u8>)
    ensures
        res@ == hex_lower(x as nat, n as nat),
    decreases n,
{
    if n == 0 {
        Vec::new()
    } else {
        let mut res = hex_lower_exec(x / 16, n - 1);
        let d = (x % 16) as u8;
        let c = if d < 10 {
            48 + d
        } else {
            87 + d
        };
        res.push(c);
        res
    }
}

/// The UUID `id` in its simple text form, as bytes.
pub fn uuid_simple_bytes(id: u128) -> (res: Vec<u8>)
    ensures
        res@ == uuid_simple(id),
{
    hex_lower_exec(id, 32)
}

/// The format version a snapshot's successor records for it; 0 when it has no
/// predecessor.
pub open spec fn prev_version(s: SnapshotLite) -> u64 {
    match s.prev_snapshot_id {
        Some((_, v)) => v,
        None => 0,
    }
}

/// The format version each snapshot's location is built with: the newest one
/// uses the table's current format version, and each older one the version
/// its successor records for it.
pub open spec fn location_versions(snapshots: Seq<SnapshotLite>, latest: u64) -> Seq<u64> {
    Seq::new(snapshots.len(), |i: int| if i == 0 { latest } else { prev_version(snapshots[i - 1]) })
}

pub open spec fn prev_id_bytes(s: SnapshotLite) -> Option<Seq<u8>> {
    match s.prev_snapshot_id {
        Some((id, _)) => Some(uuid_simple(id)),
        None => None,
    }
}

pub open spec fn bytes_view(s: Seq<Vec<u8>>) -> Seq<Seq<u8>> {
    s.map_values(|v: Vec<u8>| v@)
}

pub open spec fn option_bytes_view(s: Seq<Option<Vec<u8>>>) -> Seq<Option<Seq<u8>>> {
    s.map_values(|v: Option<Vec<u8>>| match v { Some(v) => Some(v@), None => None })
}

/// `block` holds one row per snapshot of `snapshots`, in order, the location
/// column taken from `locations`.
pub open spec fn block_of(block: SnapshotBlock, snapshots: Seq<SnapshotLite>, locations: Seq<Seq<u8>>) -> bool {
    let n = snapshots.len();
    &&& bytes_view(block.snapshot_id@) =~= Seq::new(n, |i: int| uuid_simple(snapshots[i].snapshot_id))
    &&& bytes_view(block.snapshot_location@) =~= locations
    &&& block.format_version@ =~= Seq::new(n, |i: int| snapshots[i].format_version)
    &&& option_bytes_view(block.previous_snapshot_id@) =~= Seq::new(n, |i: int| prev_id_bytes(snapshots[i]))
    &&& block.segment_count@ =~= Seq::new(n, |i: int| snapshots[i].segment_count)
    &&& block.block_count@ =~= Seq::new(n, |i: int| snapshots[i].block_count)
    &&& block.row_count@ =~= Seq::new(n, |i: int| snapshots[i].row_count)
    &&& block.bytes_uncompressed@ =~= Seq::new(n, |i: int| snapshots[i].uncompressed_byte_size)
    &&& block.bytes_compressed@ =~= Seq::new(n, |i: int| snapshots[i].compressed_byte_size)
    &&& block.index_size@ =~= Seq::new(n, |i: int| snapshots[i].index_size)
    &&& block.timestamp@ =~= Seq::new(n, |i: int| snapshots[i].timestamp_micros)
}

/// `location` returned `locs[j]` for each of the first `k` snapshots, asked
/// with the snapshot's UUID and its format version from `versions`.
pub open spec fn rows_located<E, F: Fn(u128, u64) -> Result<Vec<u8>, E>>(
    location: F,
    snapshots: Seq<SnapshotLite>,
    versions: Seq<u64>,
    locs: Seq<Vec<u8>>,
    k: int,
) -> bool {
    &&& locs.len() == k
    &&& forall|j: int|
        0 <= j < k ==> call_ensures(location, (snapshots[j].snapshot_id, versions[j]), Ok(#[trigger] locs[j]))
}

/// `res` is what building the rows of `snapshots` gives when the location of
/// each snapshot is asked of `location` with the snapshot's UUID and the
/// format version of [`location_versions`], newest first: on success, one row
/// per snapshot whose location is what `location` returned for it; on
/// failure, the error `location` returned for some snapshot, every newer one
/// having been given a location.
pub open spec fn block_result<E, F: Fn(u128, u64) -> Result<Vec<u8>, E>>(
    res: Result<SnapshotBlock, E>,
    location: F,
    snapshots: Seq<SnapshotLite>,
    latest: u64,
) -> bool {
    let versions = location_versions(snapshots, latest);
    match res {
        Ok(b) => {
            &&& block_of(b, snapshots, bytes_view(b.snapshot_location@))
            &&& b.snapshot_location@.len() == snapshots.len()
            &&& forall|i: int|
                0 <= i < snapshots.len() ==> call_ensures(
                    location,
                    (snapshots[i].snapshot_id, versions[i]),
                    Ok(#[trigger] b.snapshot_location@[i]),
                )
        },
        Err(e) => exists|k: int, locs: Seq<Vec<u8>>|
            #![trigger rows_located(location, snapshots, versions, locs, k)]
            0 <= k < snapshots.len() && rows_located(location, snapshots, versions, locs, k) && call_ensures(
                location,
                (snapshots[k].snapshot_id, versions[k]),
                Err(e),
            ),
    }
}

/// The table function over a fuse table: what it reads of the table is where
/// the table's latest snapshot is, and the format version it is written in.
pub struct FuseSnapshot {
    pub snapshot_location: Option<String>,
    pub snapshot_format_version: u64,
}

pub open spec fn snapshot_schema() -> Seq<FieldView> {
    seq![
        FieldView { name: "snapshot_id"@, data_type: TypeView::String },
        FieldView { name: "snapshot_location"@, data_type: TypeView::String },
        FieldView { name: "format_version"@, data_type: TypeView::Number(NumberDataType::UInt64) },
        FieldView { name: "previous_snapshot_id"@, data_type: TypeView::Nullable(Box::new(TypeView::String)) },
        FieldView { name: "segment_count"@, data_type: TypeView::Number(NumberDataType::UInt32) },
        FieldView { name: "block_count"@, data_type: TypeView::Number(NumberDataType::UInt32) },
        FieldView { name: "row_count"@, data_type: TypeView::Number(NumberDataType::UInt32) },
        FieldView { name: "bytes_uncompressed"@, data_type: TypeView::Number(NumberDataType::UInt32) },
        FieldView { name: "bytes_compressed"@, data_type: TypeView::Number(NumberDataType::UInt32) },
        FieldView { name: "index_size"@, data_type: TypeView::Number(NumberDataType::UInt32) },
        FieldView { name: "timestamp"@, data_type: TypeView::Nullable(Box::new(TypeView::Timestamp)) },
    ]
}

impl FuseSnapshot {
    pub fn new(snapshot_location: Option<String>, snapshot_format_version: u64) -> (res: Self)
        ensures
            res.snapshot_location == snapshot_location,
            res.snapshot_format_version == snapshot_format_version,
    {
        FuseSnapshot { snapshot_location, snapshot_format_version }
    }

    /// The format version to build each snapshot's location with, newest first.
    pub fn location_versions(snapshots: &[SnapshotLite], latest_snapshot_version: u64) -> (res: Vec<u64>)
        ensures
            res@ == location_versions(snapshots@, latest_snapshot_version),
    {
        let mut res: Vec<u64> = Vec::new();
        let mut current_snapshot_version = latest_snapshot_version;
        let mut i: usize = 0;
        while i < snapshots.len()
            invariant
                i <= snapshots@.len(),
                res@ =~= location_versions(snapshots@, latest_snapshot_version).take(i as int),
                current_snapshot_version == if i == 0 {
                    latest_snapshot_version
                } else {
                    prev_version(snapshots@[i - 1])
                },
            decreases snapshots.len() - i,
        {
            res.push(current_snapshot_version);
            let ver = match snapshots[i].prev_snapshot_id {
                Some((_, v)) => v,
                None => 0,
            };
            current_snapshot_version = ver;
            i = i + 1;
        }
        assert(location_versions(snapshots@, latest_snapshot_version).take(snapshots@.len() as int)
            =~= location_versions(snapshots@, latest_snapshot_version));
        res
    }

    /// One row per snapshot, newest first. The location of each snapshot is
    /// built by `location` from its UUID and the format version it was
    /// written in: the newest with `latest_snapshot_version`, each older one
    /// with the version its successor records for it. The first error of
    /// `location` is returned.
    pub fn to_block<E, F: Fn(u128, u64) -> Result<Vec<u8>, E>>(
        &self,
        location: &F,
        snapshots: &[SnapshotLite],
        latest_snapshot_version: u64,
    ) -> (res: Result<SnapshotBlock, E>)
        requires
            forall|i: int|
                0 <= i < snapshots@.len() ==> call_requires(
                    *location,
                    (#[trigger] snapshots@[i].snapshot_id, location_versions(snapshots@, latest_snapshot_version)[i]),
                ),
        ensures
            block_result(res, *location, snapshots@, latest_snapshot_version),
    {
        let ghost versions = location_versions(snapshots@, latest_snapshot_version);
        let len = snapshots.len();
        let mut snapshot_locations: Vec<Vec<u8>> = Vec::new();
        let mut current_snapshot_version = latest_snapshot_version;
        let mut snapshot_ids: Vec<Vec<u8>> = Vec::new();
        let mut prev_snapshot_ids: Vec<Option<Vec<u8>>> = Vec::new();
        let mut format_versions: Vec<u64> = Vec::new();
        let mut segment_count: Vec<u32> = Vec::new();
        let mut block_count: Vec<u32> = Vec::new();
        let mut row_count: Vec<u32> = Vec::new();
        let mut compressed: Vec<u32> = Vec::new();
        let mut uncompressed: Vec<u32> = Vec::new();
        let mut index_size: Vec<u32> = Vec::new();
        let mut timestamps: Vec<Option<i64>> = Vec::new();
        let mut i: usize = 0;
        while i < len
            invariant
                len == snapshots@.len(),
                i <= len,
                bytes_view(snapshot_ids@) =~= Seq::new(i as nat, |k: int| uuid_simple(snapshots@[k].snapshot_id)),
                option_bytes_view(prev_snapshot_ids@) =~= Seq::new(i as nat, |k: int| prev_id_bytes(snapshots@[k])),
                format_versions@ =~= Seq::new(i as nat, |k: int| snapshots@[k].format_version),
                segment_count@ =~= Seq::new(i as nat, |k: int| snapshots@[k].segment_count),
                block_count@ =~= Seq::new(i as nat, |k: int| snapshots@[k].block_count),
                row_count@ =~= Seq::new(i as nat, |k: int| snapshots@[k].row_count),
                compressed@ =~= Seq::new(i as nat, |k: int| snapshots@[k].compressed_byte_size),
                uncompressed@ =~= Seq::new(i as nat, |k: int| snapshots@[k].uncompressed_byte_size),
                index_size@ =~= Seq::new(i as nat, |k: int| snapshots@[k].index_size),
                timestamps@ =~= Seq::new(i as nat, |k: int| snapshots@[k].timestamp_micros),
                versions == location_versions(snapshots@, latest_snapshot_version),
                i < len ==> current_snapshot_version == versions[i as int],
                snapshot_locations@.len() == i,
                forall|k: int|
                    0 <= k < i ==> call_ensures(
                        *location,
                        (#[trigger] snapshots@[k].snapshot_id, versions[k]),
                        Ok(snapshot_locations@[k]),
                    ),
                forall|k: int|
                    0 <= k < len ==> call_requires(
                        *location,
                        (#[trigger] snapshots@[k].snapshot_id, versions[k]),
                    ),
            decreases len - i,
        {
            let s = &snapshots[i];
            let loc = location(s.snapshot_id, current_snapshot_version);
            assert(call_ensures(*location, (snapshots@[i as int].snapshot_id, versions[i as int]), loc));
            match loc {
                Ok(l) => {
                    snapshot_locations.push(l);
                },
                Err(e) => {
                    proof {
                        let k = i as int;
                        assert(call_ensures(*location, (snapshots@[k].snapshot_id, versions[k]), Err(e)));
                        assert(rows_located(*location, snapshots@, versions, snapshot_locations@, k));
                        let r: Result<SnapshotBlock, E> = Err(e);
                        assert(block_result(r, *location, snapshots@, latest_snapshot_version));
                    }
                    return Err(e);
                },
            }
            let ghost ids_before = snapshot_ids@;
            let ghost prev_before = prev_snapshot_ids@;
            let sid = uuid_simple_bytes(s.snapshot_id);
            snapshot_ids.push(sid);
            assert(bytes_view(snapshot_ids@) =~= bytes_view(ids_before).push(sid@));
            let id = match s.prev_snapshot_id {
                Some((id, _)) => Some(uuid_simple_bytes(id)),
                None => None,
            };
            assert(match id { Some(v) => Some(v@), None => None::<Seq<u8>> } == prev_id_bytes(snapshots@[i as int]));
            prev_snapshot_ids.push(id);
            assert(option_bytes_view(prev_snapshot_ids@) =~= option_bytes_view(prev_before).push(prev_id_bytes(snapshots@[i as int])));
            format_versions.push(s.format_version);
            segment_count.push(s.segment_count);
            block_count.push(s.block_count);
            row_count.push(s.row_count);
            compressed.push(s.compressed_byte_size);
            uncompressed.push(s.uncompressed_byte_size);
            index_size.push(s.index_size);
            timestamps.push(s.timestamp_micros);
            current_snapshot_version = match s.prev_snapshot_id {
                Some((_, v)) => v,
                None => 0,
            };
            i = i + 1;
        }
        assert(bytes_view(snapshot_locations@) =~= bytes_view(snapshot_locations@));
        Ok(SnapshotBlock {
            snapshot_id: snapshot_ids,
            snapshot_location: snapshot_locations,
            format_version: format_versions,
            previous_snapshot_id: prev_snapshot_ids,
            segment_count,
            block_count,
            row_count,
            bytes_uncompressed: uncompressed,
            bytes_compressed: compressed,
            index_size,
            timestamp: timestamps,
        })
    }

    /// The result when the table has no snapshot: no rows.
    pub fn empty_block() -> (res: SnapshotBlock)
        ensures
            block_of(res, Seq::empty(), Seq::empty()),
    {
        let res = SnapshotBlock {
            snapshot_id: Vec::new(),
            snapshot_location: Vec::new(),
            format_version: Vec::new(),
            previous_snapshot_id: Vec::new(),
            segment_count: Vec::new(),
            block_count: Vec::new(),
            row_count: Vec::new(),
            bytes_uncompressed: Vec::new(),
            bytes_compressed: Vec::new(),
            index_size: Vec::new(),
            timestamp: Vec::new(),
        };
        assert(bytes_view(res.snapshot_id@) =~= Seq::<Seq<u8>>::empty());
        assert(bytes_view(res.snapshot_location@) =~= Seq::<Seq<u8>>::empty());
        assert(option_bytes_view(res.previous_snapshot_id@) =~= Seq::<Option<Seq<u8>>>::empty());
        assert(res.format_version@ =~= Seq::<u64>::empty());
        assert(res.segment_count@ =~= Seq::<u32>::empty());
        assert(res.block_count@ =~= Seq::<u32>::empty());
        assert(res.row_count@ =~= Seq::<u32>::empty());
        assert(res.bytes_uncompressed@ =~= Seq::<u32>::empty());
        assert(res.bytes_compressed@ =~= Seq::<u32>::empty());
        assert(res.index_size@ =~= Seq::<u32>::empty());
        assert(res.timestamp@ =~= Seq::<Option<i64>>::empty());
        res
    }

    /// The rows of the table function: none when the table has no snapshot,
    /// else one per snapshot of `snapshots` (the table's snapshots, newest
    /// first), located by `location` from the table's current format version.
    pub fn get_snapshots<E, F: Fn(u128, u64) -> Result<Vec<u8>, E>>(
        &self,
        location: &F,
        snapshots: &[SnapshotLite],
    ) -> (res: Result<SnapshotBlock, E>)
        requires
            self.snapshot_location is Some ==> forall|i: int|
                0 <= i < snapshots@.len() ==> call_requires(
                    *location,
                    (#[trigger] snapshots@[i].snapshot_id, location_versions(snapshots@, self.snapshot_format_version)[i]),
                ),
        ensures
            self.snapshot_location is None ==> (res matches Ok(b) && block_of(b, Seq::empty(), Seq::empty())),
            self.snapshot_location is Some ==> block_result(res, *location, snapshots@, self.snapshot_format_version),
    {
        if self.snapshot_location.is_some() {
            return self.to_block(location, snapshots, self.snapshot_format_version);
        }
        Ok(FuseSnapshot::empty_block())
    }

    pub fn schema() -> (res: TableSchema)
        ensures
            res@ == snapshot_schema(),
    {
        let mut fields: Vec<TableField> = Vec::new();
        let f0 = TableField::new("snapshot_id", TableDataType::String);
        fields.push(f0);
        let f1 = TableField::new("snapshot_location", TableDataType::String);
        fields.push(f1);
        let f2 = TableField::new("format_version", TableDataType::Number(NumberDataType::UInt64));
        fields.push(f2);
        let f3 = TableField::new("previous_snapshot_id", TableDataType::Nullable(Box::new(TableDataType::String)));
        fields.push(f3);
        let f4 = TableField::new("segment_count", TableDataType::Number(NumberDataType::UInt32));
        fields.push(f4);
        let f5 = TableField::new("block_count", TableDataType::Number(NumberDataType::UInt32));
        fields.push(f5);
        let f6 = TableField::new("row_count", TableDataType::Number(NumberDataType::UInt32));
        fields.push(f6);
        let f7 = TableField::new("bytes_uncompressed", TableDataType::Number(NumberDataType::UInt32));
        fields.push(f7);
        let f8 = TableField::new("bytes_compressed", TableDataType::Number(NumberDataType::UInt32));
        fields.push(f8);
        let f9 = TableField::new("index_size", TableDataType::Number(NumberDataType::UInt32));
        fields.push(f9);
        let f10 = TableField::new("timestamp", TableDataType::Nullable(Box::new(TableDataType::Timestamp)));
        fields.push(f10);
        proof {
            assert(fields@[0]@ == snapshot_schema()[0]);
            assert(fields@[1]@ == snapshot_schema()[1]);
            assert(fields@[2]@ == snapshot_schema()[2]);
            assert(fields@[3]@ == snapshot_schema()[3]);
            assert(fields@[4]@ == snapshot_schema()[4]);
            assert(fields@[5]@ == snapshot_schema()[5]);
            assert(fields@[6]@ == snapshot_schema()[6]);
            assert(fields@[7]@ == snapshot_schema()[7]);
            assert(fields@[8]@ == snapshot_schema()[8]);
            assert(fields@[9]@ == snapshot_schema()[9]);
            reveal_with_fuel(crate::types::type_view, 2);
            assert(fields@[10]@ == snapshot_schema()[10]);
        }
        assert(crate::types::fields_view(fields@) =~= snapshot_schema());
        TableSchema::new(fields)
    }
}


// ---------------------------------------------------------------------------
// Laws
// ---------------------------------------------------------------------------

/// Whether `b` is one of the bytes `0`-`9`, `a`-`f`.
pub open spec fn is_lower_hex_digit(b: u8) -> bool {
    (48 <= b && b <= 57) || (97 <= b && b <= 102)
}

/// The value of a hexadecimal digit byte.
pub open spec fn hex_digit_value(b: u8) -> int {
    if 48 <= b && b <= 57 {
        b - 48
    } else {
        b - 87
    }
}

/// The number a string of hexadecimal digits stands for, most significant first.
pub open spec fn hex_value(s: Seq<u8>) -> int
    decreases s.len(),
{
    if s.len() == 0 {
        0
    } else {
        hex_value(s.drop_last()) * 16 + hex_digit_value(s.last())
    }
}

pub open spec fn pow16(n: nat) -> int
    decreases n,
{
    if n == 0 {
        1
    } else {
        16 * pow16((n - 1) as nat)
    }
}

pub proof fn lemma_pow16_pos(n: nat)
    ensures
        pow16(n) > 0,
    decreases n,
{
    if n > 0 {
        lemma_pow16_pos((n - 1) as nat);
    }
}

/// The last `n` hexadecimal digits of `x` are `n` lower-case digits that read
/// back as `x` modulo `16^n`.
pub proof fn lemma_hex_lower_reads_back(x: nat, n: nat)
    ensures
        hex_lower(x, n).len() == n,
        forall|i: int| 0 <= i < n ==> is_lower_hex_digit(#[trigger] hex_lower(x, n)[i]),
        hex_value(hex_lower(x, n)) == (x as int) % pow16(n),
    decreases n,
{
    if n > 0 {
        let m = (n - 1) as nat;
        lemma_hex_lower_reads_back(x / 16, m);
        let s = hex_lower(x, n);
        let d = x % 16;
        assert(s.drop_last() =~= hex_lower(x / 16, m));
        assert(s.last() == hex_digit(d));
        assert(hex_digit_value(hex_digit(d)) == d);
        lemma_pow16_pos(m);
        vstd::arithmetic::div_mod::lemma_breakdown(x as int, 16, pow16(m));
        assert(pow16(n) == 16 * pow16(m));
        assert(hex_value(s) == ((x / 16) as int) % pow16(m) * 16 + d);
        assert(((x / 16) as int) % pow16(m) * 16 == 16 * (((x / 16) as int) % pow16(m))) by (nonlinear_arith);
    }
}

/// The text of a UUID is 32 lower-case hexadecimal digits that read back,
/// most significant first, as the UUID itself.
pub proof fn law_uuid_simple_reads_back(id: u128)
    ensures
        uuid_simple(id).len() == 32,
        forall|i: int| 0 <= i < 32 ==> is_lower_hex_digit(#[trigger] uuid_simple(id)[i]),
        hex_value(uuid_simple(id)) == id,
{
    lemma_hex_lower_reads_back(id as nat, 32);
    reveal_with_fuel(pow16, 33);
    assert(pow16(32) == 0x1_0000_0000_0000_0000_0000_0000_0000_0000int);
    vstd::arithmetic::div_mod::lemma_small_mod(id as nat, pow16(32) as nat);
}

} // verus!
