//! Planning the columns of an UPDATE on a fuse table.
use std::collections::BTreeMap;

use vstd::prelude::*;
use vstd::std_specs::cmp::OrdSpec;

use crate::types::{FieldView, TableDataType, TableField, TableSchema, TypeView, fields_view};

verus! {

broadcast use {vstd::std_specs::btree::group_btree_axioms, vstd::laws_cmp::group_laws_cmp};

/// Each element of `s` is smaller than every later one.
pub open spec fn strictly_increasing(s: Seq<usize>) -> bool {
    forall|i: int, j: int| 0 <= i < j < s.len() ==> s[i] < s[j]
}

/// The values of `m`, in increasing order of their keys.
fn ordered_values(m: &BTreeMap<usize, usize>) -> (res: Vec<usize>)
    ensures
        exists|keys: Seq<usize>|
            {
                &&& strictly_increasing(keys)
                &&& keys.to_set() == m@.dom()
                &&& keys.no_duplicates()
                &&& res@ == keys.map_values(|k: usize| m@[k])
            },
{
    let mut res: Vec<usize> = Vec::new();
    let values = m.values();
    let ghost keys = choose|keys: Seq<usize>|
        {
            &&& vstd::std_specs::btree::increasing_seq(keys)
            &&& keys.to_set() == m@.dom()
            &&& keys.no_duplicates()
            &&& vstd::std_specs::iter::IteratorSpec::remaining(&values) == keys.map(|i: int, k: usize| &m@[k])
        };
    for v in it: values
        invariant
            res@ == it.seq().take(it.index()).map_values(|r: &usize| *r),
    {
        res.push(*v);
    }
    proof {
        assert(vstd::laws_cmp::obeys_cmp::<usize>());
        vstd::std_specs::btree::axiom_increasing_seq_meaning(keys);
        assert forall|i: int, j: int| 0 <= i < j < keys.len() implies keys[i] < keys[j] by {
            assert(keys[i].cmp_spec(&keys[j]) is Less);
        }
    }
    assert(strictly_increasing(keys));
    assert(res@ =~= keys.map_values(|k: usize| m@[k]));
    res
}


/// `m` with `ids[0]`, `ids[1]`, ... mapped to `start`, `start + 1`, ...; an id
/// met again takes its later position.
pub open spec fn assign_positions(m: Map<usize, usize>, ids: Seq<usize>, start: nat) -> Map<usize, usize>
    decreases ids.len(),
{
    if ids.len() == 0 {
        m
    } else {
        assign_positions(m.insert(ids[0], start as usize), ids.drop_first(), start + 1)
    }
}

/// The columns of `all` that are not in `named`, in order.
pub open spec fn remaining_columns(all: Seq<usize>, named: Seq<usize>) -> Seq<usize> {
    all.filter_map(|id: usize| if named.contains(id) { None } else { Some(id) })
}

/// Where each output column of the update is found in the block being
/// rewritten: the read columns come first (all of them when no column is
/// named; else the named ones, then the others, then the `_predicate` column),
/// then one new column for each assignment.
pub open spec fn update_offsets(all: Seq<usize>, named: Seq<usize>, updated: Seq<usize>) -> Map<usize, usize> {
    if named.len() == 0 {
        assign_positions(assign_positions(Map::empty(), all, 0), updated, all.len())
    } else {
        let remain = remaining_columns(all, named);
        assign_positions(
            assign_positions(assign_positions(Map::empty(), named, 0), remain, named.len()),
            updated,
            named.len() + remain.len() + 1,
        )
    }
}

/// The columns an UPDATE reads and writes.
pub struct UpdateColumns {
    /// Columns the main reader reads: every column when none is named,
    /// otherwise the named ones.
    pub projection: Vec<usize>,
    /// Columns a second reader fills in: the ones not named (none when no
    /// column is named).
    pub remain_col_ids: Vec<usize>,
    /// For each output column, in increasing column id, its offset in the block.
    pub output_offsets: Vec<usize>,
}

fn assign_positions_exec(map: &mut BTreeMap<usize, usize>, ids: &[usize], pos: &mut usize)
    requires
        *old(pos) + ids@.len() <= usize::MAX,
    ensures
        final(map)@ == assign_positions(old(map)@, ids@, *old(pos) as nat),
        *final(pos) == *old(pos) + ids@.len(),
{
    let mut i: usize = 0;
    assert(ids@.subrange(0, ids@.len() as int) =~= ids@);
    while i < ids.len()
        invariant
            i <= ids@.len(),
            *pos == *old(pos) + i,
            *old(pos) + ids@.len() <= usize::MAX,
            assign_positions(old(map)@, ids@, *old(pos) as nat) == assign_positions(
                map@,
                ids@.subrange(i as int, ids@.len() as int),
                *pos as nat,
            ),
        decreases ids.len() - i,
    {
        proof {
            let rest = ids@.subrange(i as int, ids@.len() as int);
            assert(rest.drop_first() =~= ids@.subrange(i + 1, ids@.len() as int));
        }
        map.insert(ids[i], *pos);
        *pos = *pos + 1;
        i = i + 1;
    }
}

pub proof fn lemma_remaining_columns_len(all: Seq<usize>, named: Seq<usize>)
    ensures
        remaining_columns(all, named).len() <= all.len(),
    decreases all.len(),
{
    if all.len() > 0 {
        lemma_remaining_columns_len(all.drop_last(), named);
    }
}

/// The columns of `all_col_ids` that are not in `col_indices`, in order.
fn remaining_column_ids(all_col_ids: &[usize], col_indices: &[usize]) -> (res: Vec<usize>)
    ensures
        res@ == remaining_columns(all_col_ids@, col_indices@),
{
    let mut res: Vec<usize> = Vec::new();
    let mut i: usize = 0;
    while i < all_col_ids.len()
        invariant
            i <= all_col_ids@.len(),
            res@ == remaining_columns(all_col_ids@.take(i as int), col_indices@),
        decreases all_col_ids.len() - i,
    {
        assert(all_col_ids@.take(i + 1).drop_last() =~= all_col_ids@.take(i as int));
        let id = all_col_ids[i];
        let mut named = false;
        let mut j: usize = 0;
        while j < col_indices.len()
            invariant
                j <= col_indices@.len(),
                named == (exists|k: int| 0 <= k < j && col_indices@[k] == id),
            decreases col_indices.len() - j,
        {
            if col_indices[j] == id {
                named = true;
            }
            j = j + 1;
        }
        assert(named == col_indices@.contains(id));
        if !named {
            res.push(id);
        }
        i = i + 1;
    }
    assert(all_col_ids@.take(all_col_ids@.len() as int) =~= all_col_ids@);
    res
}

/// The column planning of an UPDATE: which columns are read, by which reader,
/// and where each output column is taken from.
pub fn plan_update_columns(all_col_ids: &[usize], col_indices: &[usize], update_ids: &[usize]) -> (res: UpdateColumns)
    requires
        all_col_ids@.len() + col_indices@.len() + update_ids@.len() < usize::MAX,
    ensures
        col_indices@.len() == 0 ==> res.projection@ == all_col_ids@ && res.remain_col_ids@.len() == 0,
        col_indices@.len() != 0 ==> res.projection@ == col_indices@ && res.remain_col_ids@ == remaining_columns(
            all_col_ids@,
            col_indices@,
        ),
        exists|keys: Seq<usize>|
            {
                &&& strictly_increasing(keys)
                &&& keys.to_set() == update_offsets(all_col_ids@, col_indices@, update_ids@).dom()
                &&& keys.no_duplicates()
                &&& res.output_offsets@ == keys.map_values(
                    |k: usize| update_offsets(all_col_ids@, col_indices@, update_ids@)[k],
                )
            },
{
    let mut offset_map: BTreeMap<usize, usize> = BTreeMap::new();
    let mut pos: usize = 0;
    let mut projection: Vec<usize> = Vec::new();
    let mut remain_col_ids: Vec<usize> = Vec::new();
    if col_indices.len() == 0 {
        assign_positions_exec(&mut offset_map, all_col_ids, &mut pos);
        projection = slice_to_vec(all_col_ids);
    } else {
        assign_positions_exec(&mut offset_map, col_indices, &mut pos);
        let remain = remaining_column_ids(all_col_ids, col_indices);
        proof {
            lemma_remaining_columns_len(all_col_ids@, col_indices@);
        }
        if remain.len() > 0 {
            assign_positions_exec(&mut offset_map, remain.as_slice(), &mut pos);
        }
        pos = pos + 1;
        projection = slice_to_vec(col_indices);
        remain_col_ids = remain;
    }
    assign_positions_exec(&mut offset_map, update_ids, &mut pos);
    let output_offsets = ordered_values(&offset_map);
    UpdateColumns { projection, remain_col_ids, output_offsets }
}

fn slice_to_vec(s: &[usize]) -> (res: Vec<usize>)
    ensures
        res@ == s@,
{
    let mut res: Vec<usize> = Vec::new();
    let mut i: usize = 0;
    while i < s.len()
        invariant
            i <= s@.len(),
            res@ == s@.take(i as int),
        decreases s.len() - i,
    {
        res.push(s[i]);
        assert(s@.take(i + 1) =~= s@.take(i as int).push(s@[i as int]));
        i = i + 1;
    }
    assert(s@.take(s@.len() as int) =~= s@);
    res
}


/// The schema of the block an UPDATE works on: the table's schema when no
/// column is named; otherwise the named columns, the other columns (as the
/// second reader projects them from the table schema), then a boolean
/// `_predicate` column.
pub fn update_input_schema(schema: &TableSchema, col_indices: &[usize], remain_col_ids: &[usize]) -> (res: TableSchema)
    requires
        forall|i: int| 0 <= i < col_indices@.len() ==> #[trigger] col_indices@[i] < schema@.len(),
        forall|i: int| 0 <= i < remain_col_ids@.len() ==> #[trigger] remain_col_ids@[i] < schema@.len(),
    ensures
        col_indices@.len() == 0 ==> res@ == schema@,
        col_indices@.len() != 0 ==> res@ == col_indices@.map_values(|i: usize| schema@[i as int])
            + remain_col_ids@.map_values(|i: usize| schema@[i as int]) + seq![
            FieldView { name: "_predicate"@, data_type: TypeView::Boolean },
        ],
{
    if col_indices.len() == 0 {
        return schema.clone();
    }
    let all_fields = schema.fields();
    let mut fields: Vec<TableField> = Vec::new();
    let mut i: usize = 0;
    while i < col_indices.len()
        invariant
            i <= col_indices@.len(),
            fields_view(all_fields@) == schema@,
            forall|k: int| 0 <= k < col_indices@.len() ==> #[trigger] col_indices@[k] < schema@.len(),
            fields_view(fields@) =~= col_indices@.take(i as int).map_values(|i: usize| schema@[i as int]),
        decreases col_indices.len() - i,
    {
        let ghost before = fields@;
        fields.push(all_fields[col_indices[i]].clone());
        assert(fields_view(fields@) =~= fields_view(before).push(schema@[col_indices@[i as int] as int]));
        assert(col_indices@.take(i + 1) =~= col_indices@.take(i as int).push(col_indices@[i as int]));
        i = i + 1;
    }
    assert(col_indices@.take(col_indices@.len() as int) =~= col_indices@);
    let ghost named = fields_view(fields@);
    let mut i: usize = 0;
    while i < remain_col_ids.len()
        invariant
            i <= remain_col_ids@.len(),
            fields_view(all_fields@) == schema@,
            forall|k: int| 0 <= k < remain_col_ids@.len() ==> #[trigger] remain_col_ids@[k] < schema@.len(),
            fields_view(fields@) =~= named + remain_col_ids@.take(i as int).map_values(|i: usize| schema@[i as int]),
        decreases remain_col_ids.len() - i,
    {
        let ghost before = fields@;
        fields.push(all_fields[remain_col_ids[i]].clone());
        assert(fields_view(fields@) =~= fields_view(before).push(schema@[remain_col_ids@[i as int] as int]));
        assert(remain_col_ids@.take(i + 1) =~= remain_col_ids@.take(i as int).push(remain_col_ids@[i as int]));
        i = i + 1;
    }
    assert(remain_col_ids@.take(remain_col_ids@.len() as int) =~= remain_col_ids@);
    let ghost before = fields@;
    fields.push(TableField::new("_predicate", TableDataType::Boolean));
    assert(fields_view(fields@) =~= fields_view(before).push(FieldView { name: "_predicate"@, data_type: TypeView::Boolean }));
    TableSchema::new(fields)
}

/// What an UPDATE does once the table's latest snapshot, or its absence, is known.
pub enum UpdateAction {
    /// Nothing to update: the table has no snapshot, no rows, or the filter never holds.
    Skip,
    /// No column is read and there is a filter: it must be evaluated as a constant first.
    EvalConstFilter,
    /// Build the update pipeline, keeping the filter or not.
    BuildPipeline { keep_filter: bool },
}

/// The first decision of an UPDATE, from the row count of the table's latest
/// snapshot (`None` when there is no snapshot), whether the update reads no
/// column, and whether it has a filter.
pub fn update_action(snapshot_row_count: Option<u64>, no_columns: bool, has_filter: bool) -> (res: UpdateAction)
    ensures
        res == (match snapshot_row_count {
            None => UpdateAction::Skip,
            Some(0) => UpdateAction::Skip,
            Some(_) => if no_columns && has_filter {
                UpdateAction::EvalConstFilter
            } else {
                UpdateAction::BuildPipeline { keep_filter: has_filter }
            },
        }),
{
    let row_count = match snapshot_row_count {
        // no snapshot, no update
        None => return UpdateAction::Skip,
        Some(n) => n,
    };
    if row_count == 0 {
        // empty snapshot, no update
        return UpdateAction::Skip;
    }
    if no_columns && has_filter {
        UpdateAction::EvalConstFilter
    } else {
        UpdateAction::BuildPipeline { keep_filter: has_filter }
    }
}

/// The decision after a filter has been evaluated as a constant: when it never
/// holds there is nothing to do; when it always holds it is dropped.
pub fn update_action_after_const_filter(always_true: bool) -> (res: UpdateAction)
    ensures
        res == (if always_true {
            UpdateAction::BuildPipeline { keep_filter: false }
        } else {
            UpdateAction::Skip
        }),
{
    if !always_true {
        // The condition is always false, do nothing.
        return UpdateAction::Skip;
    }
    // The condition is always true.
    UpdateAction::BuildPipeline { keep_filter: false }
}


pub proof fn lemma_assign_positions(m: Map<usize, usize>, ids: Seq<usize>, start: nat)
    requires
        start + ids.len() <= usize::MAX + 1,
    ensures
        forall|k: usize| #[trigger]
            assign_positions(m, ids, start).dom().contains(k) <==> m.dom().contains(k) || ids.contains(k),
        forall|k: usize|
            ids.contains(k) ==> start <= #[trigger] assign_positions(m, ids, start)[k] < start + ids.len(),
        forall|k: usize|
            m.dom().contains(k) && !ids.contains(k) ==> #[trigger] assign_positions(m, ids, start)[k] == m[k],
    decreases ids.len(),
{
    if ids.len() > 0 {
        let m1 = m.insert(ids[0], start as usize);
        let rest = ids.drop_first();
        lemma_assign_positions(m1, rest, start + 1);
        assert(assign_positions(m, ids, start) == assign_positions(m1, rest, start + 1));
        assert forall|k: usize| ids.contains(k) <==> k == ids[0] || rest.contains(k) by {
            if ids.contains(k) {
                let j = choose|j: int| 0 <= j < ids.len() && ids[j] == k;
                if j > 0 {
                    assert(rest[j - 1] == k);
                }
            }
            if rest.contains(k) {
                let j = choose|j: int| 0 <= j < rest.len() && rest[j] == k;
                assert(ids[j + 1] == k);
            }
            if k == ids[0] {
                assert(ids.contains(ids[0]));
            }
        }
    } else {
        assert(assign_positions(m, ids, start) == m);
        assert forall|k: usize| !ids.contains(k) by {}
    }
}

/// `s[j]` is the last occurrence of `k` in `s`.
pub open spec fn last_at(s: Seq<usize>, k: usize, j: int) -> bool {
    &&& 0 <= j < s.len()
    &&& s[j] == k
    &&& forall|j2: int| j < j2 < s.len() ==> s[j2] != k
}

pub proof fn lemma_assign_positions_last(m: Map<usize, usize>, ids: Seq<usize>, start: nat)
    requires
        start + ids.len() <= usize::MAX + 1,
    ensures
        forall|k: usize|
            ids.contains(k) ==> exists|j: int|
                #[trigger] last_at(ids, k, j) && assign_positions(m, ids, start)[k] == start + j,
    decreases ids.len(),
{
    if ids.len() > 0 {
        let m1 = m.insert(ids[0], start as usize);
        let rest = ids.drop_first();
        lemma_assign_positions(m1, rest, start + 1);
        lemma_assign_positions_last(m1, rest, start + 1);
        assert(assign_positions(m, ids, start) == assign_positions(m1, rest, start + 1));
        assert forall|k: usize| ids.contains(k) implies exists|j: int|
            #[trigger] last_at(ids, k, j) && assign_positions(m, ids, start)[k] == start + j by {
            if rest.contains(k) {
                let j1 = choose|j: int| #[trigger] last_at(rest, k, j) && assign_positions(m1, rest, start + 1)[k] == start + 1 + j;
                assert forall|j2: int| j1 + 1 < j2 < ids.len() implies ids[j2] != k by {
                    assert(ids[j2] == rest[j2 - 1]);
                }
                assert(last_at(ids, k, j1 + 1));
            } else {
                let j0 = choose|j: int| 0 <= j < ids.len() && ids[j] == k;
                if j0 > 0 {
                    assert(rest[j0 - 1] == k);
                }
                assert forall|j2: int| 0 < j2 < ids.len() implies ids[j2] != k by {
                    if ids[j2] == k {
                        assert(rest[j2 - 1] == k);
                    }
                }
                assert(m1.dom().contains(k));
                assert(last_at(ids, k, 0));
            }
        }
    }
}

pub proof fn lemma_remaining_columns_contains(all: Seq<usize>, named: Seq<usize>)
    ensures
        forall|k: usize| #[trigger] remaining_columns(all, named).contains(k) <==> all.contains(k) && !named.contains(k),
    decreases all.len(),
{
    if all.len() > 0 {
        let rest = all.drop_last();
        lemma_remaining_columns_contains(rest, named);
        assert forall|k: usize| all.contains(k) <==> rest.contains(k) || k == all.last() by {
            if all.contains(k) {
                let j = choose|j: int| 0 <= j < all.len() && all[j] == k;
                if j < all.len() - 1 {
                    assert(rest[j] == k);
                }
            }
            if rest.contains(k) {
                let j = choose|j: int| 0 <= j < rest.len() && rest[j] == k;
                assert(all[j] == k);
            }
            if k == all.last() {
                assert(all[all.len() - 1] == k);
            }
        }
        let r = remaining_columns(rest, named);
        if named.contains(all.last()) {
            assert(remaining_columns(all, named) == r);
        } else {
            assert(remaining_columns(all, named) == r + seq![all.last()]);
            assert forall|k: usize| (r + seq![all.last()]).contains(k) <==> r.contains(k) || k == all.last() by {
                if (r + seq![all.last()]).contains(k) {
                    let j = choose|j: int| 0 <= j < r.len() + 1 && (r + seq![all.last()])[j] == k;
                    if j < r.len() {
                        assert(r[j] == k);
                    }
                }
                if r.contains(k) {
                    let j = choose|j: int| 0 <= j < r.len() && r[j] == k;
                    assert((r + seq![all.last()])[j] == k);
                }
                if k == all.last() {
                    assert((r + seq![all.last()])[r.len() as int] == k);
                }
            }
        }
        assert forall|k: usize| #[trigger] remaining_columns(all, named).contains(k) <==> all.contains(k) && !named.contains(k) by {
            assert(r.contains(k) <==> rest.contains(k) && !named.contains(k));
        }
    } else {
        assert(remaining_columns(all, named) =~= Seq::<usize>::empty());
        assert forall|k: usize| !all.contains(k) by {}
    }
}

/// How many columns the block holds before the assigned values: every
/// column when none is named; else the named ones, the others, and the
/// `_predicate` column.
pub open spec fn read_width(all: Seq<usize>, named: Seq<usize>) -> nat {
    if named.len() == 0 {
        all.len()
    } else {
        named.len() + remaining_columns(all, named).len() + 1
    }
}

/// An UPDATE writes back every column it reads, and every column it assigns:
/// an assigned column is taken from the values computed for it, after all
/// the columns read; any other column is taken from where it was read.
pub proof fn law_update_output_columns(all: Seq<usize>, named: Seq<usize>, updated: Seq<usize>)
    requires
        all.len() + named.len() + updated.len() < usize::MAX,
    ensures
        forall|k: usize| #[trigger]
            update_offsets(all, named, updated).dom().contains(k) <==> all.contains(k) || named.contains(k)
                || updated.contains(k),
        forall|k: usize|
            updated.contains(k) ==> read_width(all, named) <= #[trigger] update_offsets(all, named, updated)[k],
        forall|k: usize|
            update_offsets(all, named, updated).dom().contains(k) && !updated.contains(k) ==> #[trigger] update_offsets(
                all,
                named,
                updated,
            )[k] < read_width(all, named),
        // an assigned column is taken from its last assignment
        forall|k: usize|
            updated.contains(k) ==> exists|j: int|
                #[trigger] last_at(updated, k, j) && update_offsets(all, named, updated)[k] == read_width(all, named) + j,
        // any other column from where it was last read
        named.len() == 0 ==> forall|k: usize|
            all.contains(k) && !updated.contains(k) ==> exists|j: int|
                #[trigger] last_at(all, k, j) && update_offsets(all, named, updated)[k] == j,
        named.len() != 0 ==> forall|k: usize|
            named.contains(k) && !updated.contains(k) ==> exists|j: int|
                #[trigger] last_at(named, k, j) && update_offsets(all, named, updated)[k] == j,
        named.len() != 0 ==> forall|k: usize|
            all.contains(k) && !named.contains(k) && !updated.contains(k) ==> exists|j: int|
                #[trigger] last_at(remaining_columns(all, named), k, j) && update_offsets(all, named, updated)[k]
                    == named.len() + j,
{
    let e = Map::<usize, usize>::empty();
    let w = read_width(all, named);
    if named.len() == 0 {
        lemma_assign_positions(e, all, 0);
        lemma_assign_positions(assign_positions(e, all, 0), updated, all.len());
        lemma_assign_positions_last(e, all, 0);
        lemma_assign_positions_last(assign_positions(e, all, 0), updated, all.len());
    } else {
        let remain = remaining_columns(all, named);
        lemma_remaining_columns_len(all, named);
        lemma_remaining_columns_contains(all, named);
        let m1 = assign_positions(e, named, 0);
        lemma_assign_positions(e, named, 0);
        let m2 = assign_positions(m1, remain, named.len());
        lemma_assign_positions(m1, remain, named.len());
        lemma_assign_positions(m2, updated, w);
        lemma_assign_positions_last(e, named, 0);
        lemma_assign_positions_last(m1, remain, named.len());
        lemma_assign_positions_last(m2, updated, w);
        assert forall|k: usize| named.contains(k) implies !remain.contains(k) by {}
        assert forall|k: usize| all.contains(k) && !named.contains(k) && !updated.contains(k) implies exists|j: int|
            #[trigger] last_at(remain, k, j) && update_offsets(all, named, updated)[k] == named.len() + j by {
            assert(remain.contains(k));
            assert(m2.dom().contains(k));
            let j = choose|j: int| #[trigger] last_at(remain, k, j) && m2[k] == named.len() + j;
            assert(update_offsets(all, named, updated)[k] == m2[k]);
            assert(last_at(remain, k, j));
        }
        assert forall|k: usize| m2.dom().contains(k) implies m2[k] < w by {
            if remain.contains(k) {
            } else {
                assert(m1.dom().contains(k));
            }
        }
    }
}

} // verus!
