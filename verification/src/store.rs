//! The board's tables and every change the board makes to them.
use vstd::prelude::*;
use crate::change::{
    candidate_id, card_order_overflows, create_spec, created_object, first_free_candidate, id_base,
    id_in_use, lane_max, move_refused, move_spec, new_tag_rows, next_card_order_spec,
    trimmed_acronym, unique_id_spec, update_spec, update_tag_spec, updated_object,
    upsert_tags_spec,
};
use crate::model::{
    lane_of_record, record_of_lane, views, BoardData, BoardDataView, BoardDefinition,
    BoardDefinitionView, BoardError, BoardLane, BoardLaneView, CreateObjectInput, LaneRecord,
    LaneRecordView, MoveObjectInput, ObjectBoardPlacement, ObjectIdentity, ObjectMetadata,
    ObjectRecord, ObjectRecordView, ObjectView, OperationalObject, Stored, TagDefinition,
    TagDefinitionView, UpdateObjectInput, Workspace, WorkspaceView, record_of_object, shown_object,
};
use crate::order::{rows_sorted, sorted_copy, RowOrder};
use crate::seed::{
    default_boards, default_boards_spec, default_lanes, default_lanes_spec, default_objects,
    default_objects_spec, default_tags, default_tags_spec, default_workspace,
    default_workspace_spec,
};
use crate::table::{
    check_keys_distinct, find_key, ignore_all_spec, ignore_row, keys_distinct, lemma_key_index,
    replace_all_spec, replace_row, replace_spec, update_row, upsert_row, Keyed,
};
use crate::text::{
    clean_tags, decimal_spec, is_blank, lemma_decimal_injective, lemma_decimal_len, owned,
    push_char, push_decimal, slugify, text_eq, trim_text,
};

verus! {

/// The version of the table layout that this library reads and writes.
pub open spec fn current_schema() -> Seq<char> {
    "typed-operations-control-surface-v1"@
}

/// The text of the current table layout version.
pub fn current_schema_text() -> (r: String)
    ensures
        r@ == current_schema(),
{
    owned("typed-operations-control-surface-v1")
}

/// The tables of the board.
pub struct Store {
    schema_version: Option<String>,
    workspaces: Vec<Workspace>,
    boards: Vec<BoardDefinition>,
    lanes: Vec<LaneRecord>,
    objects: Vec<ObjectRecord>,
    tags: Vec<TagDefinition>,
}

/// The tables as sequences of row views, each in the order its rows were
/// written.
pub struct StoreView {
    pub schema_version: Option<Seq<char>>,
    pub workspaces: Seq<WorkspaceView>,
    pub boards: Seq<BoardDefinitionView>,
    pub lanes: Seq<LaneRecordView>,
    pub objects: Seq<ObjectRecordView>,
    pub tags: Seq<TagDefinitionView>,
}

impl View for Store {
    type V = StoreView;

    closed spec fn view(&self) -> StoreView {
        StoreView {
            schema_version: self.schema_version.deep_view(),
            workspaces: views(self.workspaces@),
            boards: views(self.boards@),
            lanes: views(self.lanes@),
            objects: views(self.objects@),
            tags: views(self.tags@),
        }
    }
}

/// Every table keeps its key unique.
pub open spec fn store_wf(s: StoreView) -> bool {
    &&& keys_distinct::<Workspace>(s.workspaces)
    &&& keys_distinct::<BoardDefinition>(s.boards)
    &&& keys_distinct::<LaneRecord>(s.lanes)
    &&& keys_distinct::<ObjectRecord>(s.objects)
    &&& keys_distinct::<TagDefinition>(s.tags)
}

/// Empty tables with no layout version.
pub open spec fn empty_store() -> StoreView {
    StoreView {
        schema_version: None,
        workspaces: Seq::empty(),
        boards: Seq::empty(),
        lanes: Seq::empty(),
        objects: Seq::empty(),
        tags: Seq::empty(),
    }
}

/// The tables dropped and made again: all empty, with the current version.
pub open spec fn reset_spec(s: StoreView) -> StoreView {
    StoreView { schema_version: Some(current_schema()), ..empty_store() }
}

/// The lane records of a new board: each default lane at its index.
pub open spec fn default_lane_records() -> Seq<LaneRecordView> {
    Seq::new(
        default_lanes_spec().len(),
        |i: int| record_of_lane(default_lanes_spec()[i], i as i64),
    )
}

/// The rows that store the objects of a new board.
pub open spec fn default_object_records() -> Seq<ObjectRecordView> {
    default_objects_spec().map_values(|o: ObjectView| record_of_object(o))
}

/// The objects that rows show, in the same order.
pub open spec fn objects_shown(records: Seq<ObjectRecordView>) -> Seq<ObjectView> {
    records.map_values(|r: ObjectRecordView| shown_object(r))
}

/// The default rows written into the tables: the workspace, the boards and
/// the lanes replace rows with their keys, the tag colours are added where
/// the tag is missing, and the default objects are added only to an empty
/// object table.
pub open spec fn seed_spec(s: StoreView) -> StoreView {
    StoreView {
        schema_version: s.schema_version,
        workspaces: replace_spec::<Workspace>(s.workspaces, default_workspace_spec()),
        boards: replace_all_spec::<BoardDefinition>(s.boards, default_boards_spec()),
        lanes: replace_all_spec::<LaneRecord>(s.lanes, default_lane_records()),
        objects: if s.objects.len() == 0 {
            replace_all_spec::<ObjectRecord>(s.objects, default_object_records())
        } else {
            s.objects
        },
        tags: ignore_all_spec::<TagDefinition>(s.tags, default_tags_spec()),
    }
}

/// Tables of another layout version are dropped first; then the default rows
/// are written.
pub open spec fn initialize_spec(s: StoreView) -> StoreView {
    seed_spec(
        if s.schema_version == Some(current_schema()) {
            s
        } else {
            reset_spec(s)
        },
    )
}

/// The lanes that lane records show, in the same order.
pub open spec fn lanes_shown(records: Seq<LaneRecordView>) -> Seq<BoardLaneView> {
    records.map_values(|r: LaneRecordView| lane_of_record(r))
}

/// `rows` holds the rows of `table`, each once, listed in the order of `T`.
pub open spec fn listing<T: RowOrder>(table: Seq<T::V>, rows: Seq<T::V>) -> bool {
    rows_sorted::<T>(rows) && rows.to_multiset() == table.to_multiset()
}

/// What the board shows of the tables: the first workspace row, and every
/// board, lane, object and tag in its listing order (boards with `primary`
/// first then by id; lanes by position then id; objects by board, lane, place
/// and id; tags by name).
pub open spec fn board_data_of(s: StoreView, d: BoardDataView) -> bool {
    &&& s.workspaces.len() > 0
    &&& d.workspace == s.workspaces[0]
    &&& listing::<BoardDefinition>(s.boards, d.boards)
    &&& exists|records: Seq<LaneRecordView>|
        listing::<LaneRecord>(s.lanes, records) && d.lanes == lanes_shown(records)
    &&& exists|records: Seq<ObjectRecordView>|
        listing::<ObjectRecord>(s.objects, records) && d.objects == objects_shown(records)
    &&& listing::<TagDefinition>(s.tags, d.tag_definitions)
}

/// The board as `load_board_data` answers for these tables: its data where
/// the workspace table has a row, the missing workspace otherwise.
pub open spec fn loaded(s: StoreView, r: Result<BoardDataView, BoardError>) -> bool {
    match r {
        Ok(d) => board_data_of(s, d),
        Err(e) => e is MissingWorkspace && s.workspaces.len() == 0,
    }
}

/// The view of a result of the board.
pub open spec fn result_view(r: Result<BoardData, BoardError>) -> Result<BoardDataView, BoardError> {
    match r {
        Ok(d) => Ok(d@),
        Err(e) => Err(e),
    }
}

/// A copy of a list of tags.
fn copy_tags(tags: &Vec<String>) -> (r: Vec<String>)
    ensures
        r.deep_view() == tags.deep_view(),
{
    crate::model::copy_strings(tags)
}

/// Writes each row of `rows` with `replace_row`, in order.
fn replace_each<T: Keyed>(table: &mut Vec<T>, rows: Vec<T>)
    requires
        keys_distinct::<T>(views(old(table)@)),
    ensures
        views(final(table)@) == replace_all_spec::<T>(views(old(table)@), views(rows@)),
        keys_distinct::<T>(views(final(table)@)),
{
    let ghost start = views(table@);
    let ghost all = views(rows@);
    let mut rest = rows;
    let ghost mut k: int = 0;
    assert(views(rest@) =~= all.subrange(0, all.len() as int));
    assert(all.subrange(0, 0) =~= Seq::<T::V>::empty());
    while rest.len() > 0
        invariant
            0 <= k <= all.len(),
            views(rest@) == all.subrange(k, all.len() as int),
            views(table@) == replace_all_spec::<T>(start, all.subrange(0, k)),
            keys_distinct::<T>(views(table@)),
        decreases rest.len(),
    {
        let ghost r0 = rest@;
        let x = rest.remove(0);
        proof {
            crate::order::lemma_views_remove(r0, 0);
            assert(views(r0)[0] == x@);
            assert(all[k] == x@);
            assert(views(rest@) =~= all.subrange(k + 1, all.len() as int));
            let pre = all.subrange(0, k + 1);
            assert(pre.drop_last() =~= all.subrange(0, k));
            assert(pre.last() == x@);
        }
        replace_row(table, x);
        proof {
            k = k + 1;
        }
    }
    assert(all.subrange(0, k) =~= all);
}

/// Writes each row of `rows` with `ignore_row`, in order.
fn ignore_each<T: Keyed>(table: &mut Vec<T>, rows: Vec<T>)
    requires
        keys_distinct::<T>(views(old(table)@)),
    ensures
        views(final(table)@) == ignore_all_spec::<T>(views(old(table)@), views(rows@)),
        keys_distinct::<T>(views(final(table)@)),
{
    let ghost start = views(table@);
    let ghost all = views(rows@);
    let mut rest = rows;
    let ghost mut k: int = 0;
    assert(views(rest@) =~= all.subrange(0, all.len() as int));
    assert(all.subrange(0, 0) =~= Seq::<T::V>::empty());
    while rest.len() > 0
        invariant
            0 <= k <= all.len(),
            views(rest@) == all.subrange(k, all.len() as int),
            views(table@) == ignore_all_spec::<T>(start, all.subrange(0, k)),
            keys_distinct::<T>(views(table@)),
        decreases rest.len(),
    {
        let ghost r0 = rest@;
        let x = rest.remove(0);
        proof {
            crate::order::lemma_views_remove(r0, 0);
            assert(views(r0)[0] == x@);
            assert(all[k] == x@);
            assert(views(rest@) =~= all.subrange(k + 1, all.len() as int));
            let pre = all.subrange(0, k + 1);
            assert(pre.drop_last() =~= all.subrange(0, k));
            assert(pre.last() == x@);
        }
        ignore_row(table, x);
        proof {
            k = k + 1;
        }
    }
    assert(all.subrange(0, k) =~= all);
}

/// The rows that store the default objects.
fn default_object_record_rows() -> (r: Vec<ObjectRecord>)
    ensures
        views(r@) == default_object_records(),
{
    let mut objects = default_objects();
    let ghost all = views(objects@);
    let mut out: Vec<ObjectRecord> = Vec::new();
    let mut i: usize = 0;
    while objects.len() > 0
        invariant
            all == default_objects_spec(),
            i + objects.len() == all.len(),
            views(objects@) == all.subrange(i as int, all.len() as int),
            views(out@) == default_object_records().subrange(0, i as int),
        decreases objects.len(),
    {
        let ghost l0 = objects@;
        let object = objects.remove(0);
        proof {
            crate::order::lemma_views_remove(l0, 0);
            assert(views(l0)[0] == object@);
            assert(views(objects@) =~= all.subrange(i + 1, all.len() as int));
        }
        let ghost o0 = out@;
        let rec = ObjectRecord::from_object(object);
        assert(rec@ == default_object_records()[i as int]);
        out.push(rec);
        proof {
            crate::order::lemma_views_push(o0, rec);
            assert(views(out@) =~= default_object_records().subrange(0, i + 1));
        }
        i = i + 1;
    }
    assert(default_object_records().subrange(0, i as int) =~= default_object_records());
    out
}

/// The default lanes as records, each at its index.
fn default_lane_record_rows() -> (r: Vec<LaneRecord>)
    ensures
        views(r@) == default_lane_records(),
{
    let mut lanes = default_lanes();
    let ghost all = views(lanes@);
    let mut out: Vec<LaneRecord> = Vec::new();
    let mut i: usize = 0;
    while lanes.len() > 0
        invariant
            all == default_lanes_spec(),
            i + lanes.len() == all.len(),
            views(lanes@) == all.subrange(i as int, all.len() as int),
            views(out@) == default_lane_records().subrange(0, i as int),
        decreases lanes.len(),
    {
        let ghost l0 = lanes@;
        let lane = lanes.remove(0);
        proof {
            crate::order::lemma_views_remove(l0, 0);
            assert(views(l0)[0] == lane@);
            assert(views(lanes@) =~= all.subrange(i + 1, all.len() as int));
        }
        let ghost o0 = out@;
        let rec = LaneRecord::from_lane(lane, i as i64);
        assert(rec@ == default_lane_records()[i as int]);
        out.push(rec);
        proof {
            crate::order::lemma_views_push(o0, rec);
            assert(out@ == o0.push(rec));
            assert(default_lane_records().len() == all.len());
            assert(i < all.len());
            assert(views(out@) == views(o0).push(rec@));
            assert(views(out@) =~= default_lane_records().subrange(0, i + 1));
        }
        i = i + 1;
    }
    assert(default_lane_records().subrange(0, i as int) =~= default_lane_records());
    out
}

impl Store {
    /// Whether the tables keep their keys unique.
    pub open spec fn wf(&self) -> bool {
        store_wf(self@)
    }

    /// Empty tables with no layout version.
    pub fn new() -> (r: Store)
        ensures
            r@ == empty_store(),
            r.wf(),
    {
        let r = Store {
            schema_version: None,
            workspaces: Vec::new(),
            boards: Vec::new(),
            lanes: Vec::new(),
            objects: Vec::new(),
            tags: Vec::new(),
        };
        assert(views(r.workspaces@) =~= Seq::<WorkspaceView>::empty());
        assert(views(r.boards@) =~= Seq::<BoardDefinitionView>::empty());
        assert(views(r.lanes@) =~= Seq::<LaneRecordView>::empty());
        assert(views(r.objects@) =~= Seq::<ObjectRecordView>::empty());
        assert(views(r.tags@) =~= Seq::<TagDefinitionView>::empty());
        r
    }

    /// Tables holding the given rows, in the given order; `None` where some
    /// table holds two rows with one key.
    pub fn from_tables(
        schema_version: Option<String>,
        workspaces: Vec<Workspace>,
        boards: Vec<BoardDefinition>,
        lanes: Vec<LaneRecord>,
        objects: Vec<ObjectRecord>,
        tags: Vec<TagDefinition>,
    ) -> (r: Option<Store>)
        ensures
            match r {
                Some(s) => s.wf() && s@ == (StoreView {
                    schema_version: schema_version.deep_view(),
                    workspaces: views(workspaces@),
                    boards: views(boards@),
                    lanes: views(lanes@),
                    objects: views(objects@),
                    tags: views(tags@),
                }),
                None => !store_wf(
                    StoreView {
                        schema_version: schema_version.deep_view(),
                        workspaces: views(workspaces@),
                        boards: views(boards@),
                        lanes: views(lanes@),
                        objects: views(objects@),
                        tags: views(tags@),
                    },
                ),
            },
    {
        if check_keys_distinct(&workspaces) && check_keys_distinct(&boards)
            && check_keys_distinct(&lanes) && check_keys_distinct(&objects)
            && check_keys_distinct(&tags) {
            Some(Store { schema_version, workspaces, boards, lanes, objects, tags })
        } else {
            None
        }
    }

    /// The stored layout version.
    pub fn schema_version(&self) -> (r: &Option<String>)
        ensures
            r.deep_view() == self@.schema_version,
    {
        &self.schema_version
    }

    /// The rows of the workspace table, in the order they were written.
    pub fn workspace_rows(&self) -> (r: &Vec<Workspace>)
        ensures
            views(r@) == self@.workspaces,
    {
        &self.workspaces
    }

    /// The rows of the board table, in the order they were written.
    pub fn board_rows(&self) -> (r: &Vec<BoardDefinition>)
        ensures
            views(r@) == self@.boards,
    {
        &self.boards
    }

    /// The rows of the lane table, in the order they were written.
    pub fn lane_rows(&self) -> (r: &Vec<LaneRecord>)
        ensures
            views(r@) == self@.lanes,
    {
        &self.lanes
    }

    /// The rows of the object table, in the order they were written.
    pub fn object_rows(&self) -> (r: &Vec<ObjectRecord>)
        ensures
            views(r@) == self@.objects,
    {
        &self.objects
    }

    /// The rows of the tag table, in the order they were written.
    pub fn tag_rows(&self) -> (r: &Vec<TagDefinition>)
        ensures
            views(r@) == self@.tags,
    {
        &self.tags
    }

    /// Drops every table and records the current layout version.
    pub fn reset_database(&mut self)
        ensures
            final(self)@ == reset_spec(old(self)@),
            final(self).wf(),
    {
        *self = Store::new();
        self.schema_version = Some(current_schema_text());
    }

    /// Writes the default lanes, each at its index.
    pub fn seed_lanes(&mut self)
        requires
            old(self).wf(),
        ensures
            final(self)@ == (StoreView {
                lanes: replace_all_spec::<LaneRecord>(old(self)@.lanes, default_lane_records()),
                ..old(self)@
            }),
            final(self).wf(),
    {
        let rows = default_lane_record_rows();
        replace_each(&mut self.lanes, rows);
    }

    /// Adds the default tag colours for tags that are missing.
    pub fn seed_tag_definitions(&mut self)
        requires
            old(self).wf(),
        ensures
            final(self)@ == (StoreView {
                tags: ignore_all_spec::<TagDefinition>(old(self)@.tags, default_tags_spec()),
                ..old(self)@
            }),
            final(self).wf(),
    {
        let rows = default_tags();
        ignore_each(&mut self.tags, rows);
    }

    /// Writes the default objects.
    pub fn seed_objects(&mut self)
        requires
            old(self).wf(),
        ensures
            final(self)@ == (StoreView {
                objects: replace_all_spec::<ObjectRecord>(
                    old(self)@.objects,
                    default_object_records(),
                ),
                ..old(self)@
            }),
            final(self).wf(),
    {
        let rows = default_object_record_rows();
        replace_each(&mut self.objects, rows);
    }

    /// Writes the default workspace, boards, lanes and tag colours, and the
    /// default objects where there is no object yet.
    pub fn seed_database(&mut self)
        requires
            old(self).wf(),
        ensures
            final(self)@ == seed_spec(old(self)@),
            final(self).wf(),
    {
        replace_row(&mut self.workspaces, default_workspace());
        let boards = default_boards();
        replace_each(&mut self.boards, boards);
        self.seed_lanes();
        self.seed_tag_definitions();
        if self.objects.len() == 0 {
            self.seed_objects();
        }
    }

    /// The first row of the workspace table.
    pub fn load_workspace(&self) -> (r: Result<Workspace, BoardError>)
        ensures
            match r {
                Ok(w) => self@.workspaces.len() > 0 && w@ == self@.workspaces[0],
                Err(e) => e is MissingWorkspace && self@.workspaces.len() == 0,
            },
    {
        if self.workspaces.len() == 0 {
            Err(BoardError::MissingWorkspace)
        } else {
            Ok(self.workspaces[0].duplicate())
        }
    }

    /// The boards, `primary` first, then by id.
    pub fn load_boards(&self) -> (r: Vec<BoardDefinition>)
        ensures
            listing::<BoardDefinition>(self@.boards, views(r@)),
    {
        sorted_copy(&self.boards)
    }

    /// The lanes, by position, then by id.
    pub fn load_lanes(&self) -> (r: Vec<BoardLane>)
        ensures
            exists|records: Seq<LaneRecordView>|
                listing::<LaneRecord>(self@.lanes, records) && views(r@) == lanes_shown(records),
    {
        let records = sorted_copy(&self.lanes);
        let mut out: Vec<BoardLane> = Vec::new();
        let mut i: usize = 0;
        while i < records.len()
            invariant
                i <= records.len(),
                out@.len() == i,
                views(out@) == lanes_shown(views(records@).subrange(0, i as int)),
            decreases records.len() - i,
        {
            let l = records[i].to_lane();
            let ghost o0 = out@;
            out.push(l);
            proof {
                crate::order::lemma_views_push(o0, l);
                assert(views(out@) =~= lanes_shown(views(records@).subrange(0, i + 1)));
            }
            i = i + 1;
        }
        assert(views(records@).subrange(0, i as int) =~= views(records@));
        out
    }

    /// The objects, by board, lane, place in the lane and id; each JSON
    /// column that cannot be read shows its fallback.
    pub fn load_objects(&self) -> (r: Vec<OperationalObject>)
        ensures
            exists|records: Seq<ObjectRecordView>|
                listing::<ObjectRecord>(self@.objects, records) && views(r@) == objects_shown(
                    records,
                ),
    {
        let records = sorted_copy(&self.objects);
        let mut out: Vec<OperationalObject> = Vec::new();
        let mut i: usize = 0;
        while i < records.len()
            invariant
                i <= records.len(),
                out@.len() == i,
                views(out@) == objects_shown(views(records@).subrange(0, i as int)),
            decreases records.len() - i,
        {
            let o = records[i].to_object();
            let ghost o0 = out@;
            out.push(o);
            proof {
                crate::order::lemma_views_push(o0, o);
                assert(views(out@) =~= objects_shown(views(records@).subrange(0, i + 1)));
            }
            i = i + 1;
        }
        assert(views(records@).subrange(0, i as int) =~= views(records@));
        out
    }

    /// The tag colours, by tag.
    pub fn load_tag_definitions(&self) -> (r: Vec<TagDefinition>)
        ensures
            listing::<TagDefinition>(self@.tags, views(r@)),
    {
        sorted_copy(&self.tags)
    }

    /// Everything the board shows; an error where the workspace table is
    /// empty.
    pub fn load_board_data(&self) -> (r: Result<BoardData, BoardError>)
        ensures
            loaded(self@, result_view(r)),
    {
        let workspace = match self.load_workspace() {
            Ok(w) => w,
            Err(e) => {
                return Err(e);
            },
        };
        let boards = self.load_boards();
        let lanes = self.load_lanes();
        let objects = self.load_objects();
        let tag_definitions = self.load_tag_definitions();
        Ok(BoardData { workspace, boards, lanes, objects, tag_definitions })
    }

    /// Whether the tables hold another layout version than the current one
    /// (or none), so that starting the board drops them.
    pub fn needs_reset(&self) -> (r: bool)
        ensures
            r == (self@.schema_version != Some(current_schema())),
    {
        match &self.schema_version {
            Some(v) => !text_eq(v.as_str(), "typed-operations-control-surface-v1"),
            None => true,
        }
    }

    /// Brings the tables to the current layout, dropping them if they hold
    /// another version, and writes the default rows.
    pub fn initialize_database(&mut self)
        requires
            old(self).wf(),
        ensures
            final(self)@ == initialize_spec(old(self)@),
            final(self).wf(),
    {
        if self.needs_reset() {
            self.reset_database();
        }
        self.seed_database();
    }
}


/// Two different tries give two different ids.
pub proof fn lemma_candidate_injective(base: Seq<char>, j: nat, k: nat)
    requires
        1 <= j,
        1 <= k,
        j != k,
    ensures
        candidate_id(base, j) != candidate_id(base, k),
{
    lemma_decimal_len(j);
    lemma_decimal_len(k);
    if j >= 2 && k >= 2 {
        if candidate_id(base, j) == candidate_id(base, k) {
            let cj = candidate_id(base, j);
            let ck = candidate_id(base, k);
            let n: int = base.len() as int + 1;
            assert(cj.subrange(n, cj.len() as int) =~= decimal_spec(j));
            assert(ck.subrange(n, ck.len() as int) =~= decimal_spec(k));
            lemma_decimal_injective(j, k);
        }
    } else if j >= 2 {
        assert(candidate_id(base, j).len() > base.len());
    } else {
        assert(candidate_id(base, k).len() > base.len());
    }
}

/// The least free try is the only one.
proof fn lemma_first_free_unique(objects: Seq<ObjectRecordView>, base: Seq<char>, k: nat, k2: nat)
    requires
        first_free_candidate(objects, base, k),
        first_free_candidate(objects, base, k2),
    ensures
        k == k2,
{
    if k2 < k {
        assert(id_in_use(objects, candidate_id(base, k2)));
    } else if k < k2 {
        assert(id_in_use(objects, candidate_id(base, k)));
    }
}

/// The `k`-th id tried for `base`.
fn candidate(base: &String, k: u128) -> (r: String)
    requires
        k >= 1,
    ensures
        r@ == candidate_id(base@, k as nat),
{
    let mut c = base.clone();
    if k > 1 {
        push_char(&mut c, '-');
        push_decimal(&mut c, k);
        assert(c@ =~= base@ + seq!['-'] + decimal_spec(k as nat));
    }
    c
}

/// The trimmed acronym, dropped where blank.
fn trim_acronym(a: Option<String>) -> (r: Option<String>)
    ensures
        r.deep_view() == trimmed_acronym(a.deep_view()),
{
    match a {
        Some(x) => {
            let t = trim_text(x.as_str());
            if t.as_str().unicode_len() > 0 {
                Some(t)
            } else {
                None
            }
        },
        None => None,
    }
}

/// The tag rows for `tags` with the default colour.
fn new_tag_row_values(tags: &Vec<String>) -> (r: Vec<TagDefinition>)
    ensures
        views(r@) == new_tag_rows(tags.deep_view()),
{
    let mut out: Vec<TagDefinition> = Vec::new();
    let mut i: usize = 0;
    while i < tags.len()
        invariant
            i <= tags.len(),
            out@.len() == i,
            views(out@) == new_tag_rows(tags.deep_view().subrange(0, i as int)),
        decreases tags.len() - i,
    {
        let row = TagDefinition {
            tag: tags[i].clone(),
            color: owned("#8b5cf6"),
            description: None,
        };
        let ghost o0 = out@;
        out.push(row);
        proof {
            crate::order::lemma_views_push(o0, row);
            assert(views(out@) =~= new_tag_rows(tags.deep_view().subrange(0, i + 1)));
        }
        i = i + 1;
    }
    assert(tags.deep_view().subrange(0, i as int) =~= tags.deep_view());
    out
}

impl Store {
    /// Whether some object has id `id`.
    pub fn object_exists(&self, id: &str) -> (r: bool)
        ensures
            r == id_in_use(self@.objects, id@),
    {
        proof {
            lemma_key_index::<ObjectRecord>(self@.objects, id@);
        }
        find_key(&self.objects, id).is_some()
    }

    /// The place after the last object of a lane: one more than the largest
    /// place there, or `1` for an empty lane; an error where that is beyond
    /// the largest 64-bit integer.
    pub fn next_card_order(&self, board: &str, lane: &str) -> (r: Result<i64, BoardError>)
        ensures
            match r {
                Ok(n) => !card_order_overflows(self@.objects, board@, lane@) && n
                    == next_card_order_spec(self@.objects, board@, lane@),
                Err(e) => e is CardOrderOverflow && card_order_overflows(
                    self@.objects,
                    board@,
                    lane@,
                ),
            },
    {
        let mut m: Option<i64> = None;
        let mut i: usize = 0;
        while i < self.objects.len()
            invariant
                i <= self.objects.len(),
                m == lane_max(views(self.objects@).subrange(0, i as int), board@, lane@),
            decreases self.objects.len() - i,
        {
            let o = &self.objects[i];
            let ghost pre = views(self.objects@).subrange(0, i + 1);
            assert(pre.drop_last() =~= views(self.objects@).subrange(0, i as int));
            assert(pre.last() == o@);
            if text_eq(o.board.board.as_str(), board) && text_eq(o.board.lane.as_str(), lane) {
                m = match m {
                    Some(x) => Some(if x >= o.card_order { x } else { o.card_order }),
                    None => Some(o.card_order),
                };
            }
            i = i + 1;
        }
        assert(views(self.objects@).subrange(0, i as int) =~= views(self.objects@));
        match m {
            Some(x) => if x == i64::MAX {
                Err(BoardError::CardOrderOverflow)
            } else {
                Ok(x + 1)
            },
            None => Ok(1),
        }
    }

    /// A new object id: the slug of the identity id (or of the name where the
    /// identity id is blank, or `object` where the slug is empty), followed
    /// by `-2`, `-3`, ... until no object has it.
    pub fn unique_object_id(&self, identity_id: &str, name: &str) -> (r: String)
        ensures
            r@ == unique_id_spec(self@.objects, identity_id@, name@),
            !id_in_use(self@.objects, r@),
    {
        let mut base = if is_blank(identity_id) {
            slugify(name)
        } else {
            slugify(identity_id)
        };
        if base.as_str().unicode_len() == 0 {
            base = owned("object");
        }
        let ghost b = base@;
        assert(b == id_base(identity_id@, name@));
        let ghost objects = self@.objects;
        let ghost ids = objects.map_values(|o: ObjectRecordView| o.id);
        let ghost idset = ids.to_set();
        proof {
            ids.lemma_cardinality_of_set();
            vstd::seq_lib::seq_to_set_is_finite(ids);
            assert(objects.len() == self.objects@.len());
        }
        let n_objects = self.objects.len();
        assert(objects.len() == n_objects);
        let mut k: u128 = 1;
        let mut id = candidate(&base, k);
        let ghost mut tried: Set<Seq<char>> = Set::empty();
        while self.object_exists(id.as_str())
            invariant
                base@ == b,
                objects == self@.objects,
                ids == objects.map_values(|o: ObjectRecordView| o.id),
                idset == ids.to_set(),
                idset.finite(),
                idset.len() <= objects.len(),
                objects.len() <= usize::MAX,
                1 <= k <= objects.len() + 1,
                id@ == candidate_id(b, k as nat),
                tried.finite(),
                tried.len() == k - 1,
                tried.subset_of(idset),
                forall|x: Seq<char>|
                    tried.contains(x) ==> exists|j: nat| 1 <= j < k && x == candidate_id(b, j),
                forall|j: nat| 1 <= j < k ==> id_in_use(objects, #[trigger] candidate_id(b, j)),
            decreases objects.len() + 1 - k,
        {
            proof {
                let c = candidate_id(b, k as nat);
                assert(!tried.contains(c)) by {
                    if tried.contains(c) {
                        let j = choose|j: nat| 1 <= j < k && c == candidate_id(b, j);
                        lemma_candidate_injective(b, j, k as nat);
                    }
                }
                let oi = choose|oi: int| 0 <= oi < objects.len() && #[trigger] objects[oi].id == c;
                assert(ids[oi] == c);
                assert(idset.contains(c));
                tried = tried.insert(c);
                vstd::set_lib::lemma_len_subset(tried, idset);
                assert forall|x: Seq<char>| tried.contains(x) implies exists|j: nat|
                    1 <= j < k + 1 && x == candidate_id(b, j) by {
                    if x == c {
                        assert(1 <= k < k + 1 && x == candidate_id(b, k as nat));
                    } else {
                        let j = choose|j: nat| 1 <= j < k && x == candidate_id(b, j);
                        assert(1 <= j < k + 1 && x == candidate_id(b, j));
                    }
                }
            }
            k = k + 1;
            id = candidate(&base, k);
        }
        proof {
            assert(first_free_candidate(objects, b, k as nat));
            let kk = choose|kk: nat| first_free_candidate(objects, b, kk);
            lemma_first_free_unique(objects, b, k as nat, kk);
        }
        id
    }

    /// Writes an object as `INSERT OR REPLACE` does.
    pub fn insert_object(&mut self, object: OperationalObject)
        requires
            old(self).wf(),
        ensures
            final(self)@ == (StoreView {
                objects: replace_spec::<ObjectRecord>(
                    old(self)@.objects,
                    record_of_object(object@),
                ),
                ..old(self)@
            }),
            final(self).wf(),
    {
        replace_row(&mut self.objects, ObjectRecord::from_object(object));
    }

    /// Gives every tag that has no colour the default colour.
    pub fn upsert_tags(&mut self, tags: &Vec<String>)
        requires
            old(self).wf(),
        ensures
            final(self)@ == (StoreView {
                tags: upsert_tags_spec(old(self)@.tags, tags.deep_view()),
                ..old(self)@
            }),
            final(self).wf(),
    {
        let rows = new_tag_row_values(tags);
        ignore_each(&mut self.tags, rows);
    }

    /// Adds an object: a fresh id made from its identity, its texts trimmed,
    /// its blank tags dropped, the place after the last object of its lane,
    /// and `now` as its creation and update time; its tags get colours. The
    /// board is answered as `load_board_data` answers it. Where the next place
    /// of the lane is beyond the largest 64-bit integer, nothing changes.
    pub fn create_object(&mut self, input: CreateObjectInput, now: &str) -> (r: Result<
        BoardData,
        BoardError,
    >)
        requires
            old(self).wf(),
        ensures
            final(self).wf(),
            card_order_overflows(old(self)@.objects, input.board.board@, input.board.lane@) ==> (
            r matches Err(e) && e is CardOrderOverflow && final(self)@ == old(self)@),
            !card_order_overflows(old(self)@.objects, input.board.board@, input.board.lane@) ==> (
            final(self)@ == create_spec(
                old(self)@,
                input.object_type@,
                input.identity@,
                input.board@,
                input.metadata.tags.deep_view(),
                input.metadata.notes@,
                input.payload@,
                now@,
            ) && loaded(final(self)@, result_view(r))),
    {
        let ghost s0 = self@;
        let ghost in_type = input.object_type@;
        let ghost in_identity = input.identity@;
        let ghost in_board = input.board@;
        let ghost in_tags = input.metadata.tags.deep_view();
        let ghost in_notes = input.metadata.notes@;
        let ghost in_payload = input.payload@;
        let (schema, schema_version) = crate::seed::object_definition(input.object_type.as_str());
        let id = self.unique_object_id(input.identity.id.as_str(), input.identity.name.as_str());
        let card_order = match self.next_card_order(
            input.board.board.as_str(),
            input.board.lane.as_str(),
        ) {
            Ok(n) => n,
            Err(e) => {
                return Err(e);
            },
        };
        let CreateObjectInput { object_type, identity, board, metadata, payload } = input;
        let identity_id = if is_blank(identity.id.as_str()) {
            id.clone()
        } else {
            identity.id
        };
        let new_identity = ObjectIdentity {
            id: identity_id,
            name: trim_text(identity.name.as_str()),
            acronym: trim_acronym(identity.acronym),
            summary: trim_text(identity.summary.as_str()),
        };
        let new_metadata = ObjectMetadata {
            tags: clean_tags(metadata.tags),
            notes: trim_text(metadata.notes.as_str()),
            created_at: owned(now),
            updated_at: owned(now),
        };
        let object = OperationalObject {
            id,
            object_type,
            schema: owned(schema),
            schema_version: owned(schema_version),
            identity: new_identity,
            board,
            metadata: new_metadata,
            payload,
            created_at: owned(now),
            updated_at: owned(now),
            card_order,
        };
        let ghost ov = object@;
        assert(ov == created_object(
            in_type,
            in_identity,
            in_board,
            in_tags,
            in_notes,
            in_payload,
            unique_id_spec(s0.objects, in_identity.id, in_identity.name),
            next_card_order_spec(s0.objects, in_board.board, in_board.lane),
            now@,
        ));
        let tags = copy_tags(&object.metadata.tags);
        proof {
            lemma_key_index::<ObjectRecord>(s0.objects, ov.id);
        }
        self.insert_object(object);
        self.upsert_tags(&tags);
        self.load_board_data()
    }
}


impl Store {
    /// Rewrites the identity (every text trimmed), placement, tags (trimmed,
    /// blank ones dropped), notes (trimmed) and payload of the object with the
    /// given id, where it stands, with `now` as its update time; its id, type,
    /// schema, place and creation times stay. The tags get colours whether or
    /// not the object exists. The board is answered as `load_board_data`
    /// answers it.
    pub fn update_object(&mut self, update: UpdateObjectInput, now: &str) -> (r: Result<
        BoardData,
        BoardError,
    >)
        requires
            old(self).wf(),
        ensures
            final(self).wf(),
            final(self)@ == update_spec(
                old(self)@,
                update.id@,
                update.identity@,
                update.board@,
                update.metadata.tags.deep_view(),
                update.metadata.notes@,
                update.payload@,
                now@,
            ),
            loaded(final(self)@, result_view(r)),
    {
        let ghost s0 = self@;
        let ghost in_identity = update.identity@;
        let ghost in_board = update.board@;
        let ghost in_tags = update.metadata.tags.deep_view();
        let ghost in_notes = update.metadata.notes@;
        let ghost in_payload = update.payload@;
        let UpdateObjectInput { id, identity, board, metadata, payload } = update;
        let new_identity = ObjectIdentity {
            id: trim_text(identity.id.as_str()),
            name: trim_text(identity.name.as_str()),
            acronym: trim_acronym(identity.acronym),
            summary: trim_text(identity.summary.as_str()),
        };
        let tags = clean_tags(metadata.tags);
        let notes = trim_text(metadata.notes.as_str());
        proof {
            lemma_key_index::<ObjectRecord>(s0.objects, id@);
        }
        match find_key(&self.objects, id.as_str()) {
            Some(i) => {
                let old_obj = &self.objects[i];
                let created_at = match &old_obj.metadata {
                    Stored::Read(m) => m.created_at.clone(),
                    Stored::Unreadable(_) => old_obj.created_at.clone(),
                };
                let object = ObjectRecord {
                    id: old_obj.id.clone(),
                    object_type: old_obj.object_type.clone(),
                    schema: old_obj.schema.clone(),
                    schema_version: old_obj.schema_version.clone(),
                    identity: Stored::Read(new_identity),
                    board,
                    metadata: Stored::Read(
                        ObjectMetadata {
                            tags: copy_tags(&tags),
                            notes,
                            created_at,
                            updated_at: owned(now),
                        },
                    ),
                    payload: Stored::Read(payload),
                    created_at: old_obj.created_at.clone(),
                    updated_at: owned(now),
                    card_order: old_obj.card_order,
                };
                assert(object@ == updated_object(
                    s0.objects[i as int],
                    in_identity,
                    in_board,
                    in_tags,
                    in_notes,
                    in_payload,
                    now@,
                ));
                update_row(&mut self.objects, i, object);
            },
            None => {},
        }
        self.upsert_tags(&tags);
        self.load_board_data()
    }

    /// Moves the object with the given id to a lane and a place, where it
    /// stands in the table, with `now` as its update time; nothing else of it
    /// changes, and no other row changes. The board is answered as
    /// `load_board_data` answers it. Where the object's stored metadata
    /// cannot be read, nothing changes and the move is refused.
    pub fn move_object(&mut self, input: MoveObjectInput, now: &str) -> (r: Result<
        BoardData,
        BoardError,
    >)
        requires
            old(self).wf(),
        ensures
            final(self).wf(),
            final(self)@ == move_spec(
                old(self)@,
                input.object_id@,
                input.board_id@,
                input.lane_id@,
                input.card_order,
                now@,
            ),
            move_refused(old(self)@, input.object_id@) ==> (r matches Err(e)
                && e is UnreadableMetadata),
            !move_refused(old(self)@, input.object_id@) ==> loaded(final(self)@, result_view(r)),
    {
        let ghost s0 = self@;
        let MoveObjectInput { object_id, board_id, lane_id, card_order } = input;
        proof {
            lemma_key_index::<ObjectRecord>(s0.objects, object_id@);
        }
        match find_key(&self.objects, object_id.as_str()) {
            Some(i) => {
                let old_obj = &self.objects[i];
                let metadata = match &old_obj.metadata {
                    Stored::Read(m) => ObjectMetadata {
                        tags: copy_tags(&m.tags),
                        notes: m.notes.clone(),
                        created_at: m.created_at.clone(),
                        updated_at: owned(now),
                    },
                    Stored::Unreadable(_) => {
                        return Err(BoardError::UnreadableMetadata);
                    },
                };
                let object = ObjectRecord {
                    id: old_obj.id.clone(),
                    object_type: old_obj.object_type.clone(),
                    schema: old_obj.schema.clone(),
                    schema_version: old_obj.schema_version.clone(),
                    identity: crate::model::copy_stored_identity(&old_obj.identity),
                    board: ObjectBoardPlacement {
                        board: board_id,
                        lane: lane_id,
                        pinned: old_obj.board.pinned,
                    },
                    metadata: Stored::Read(metadata),
                    payload: crate::model::copy_stored_payload(&old_obj.payload),
                    created_at: old_obj.created_at.clone(),
                    updated_at: owned(now),
                    card_order,
                };
                update_row(&mut self.objects, i, object);
            },
            None => {},
        }
        self.load_board_data()
    }

    /// Sets the colour and description of a tag, where its row stands, or
    /// adds the tag. The board is answered as `load_board_data` answers it.
    pub fn update_tag_definition(&mut self, tag_definition: TagDefinition) -> (r: Result<
        BoardData,
        BoardError,
    >)
        requires
            old(self).wf(),
        ensures
            final(self).wf(),
            final(self)@ == update_tag_spec(old(self)@, tag_definition@),
            loaded(final(self)@, result_view(r)),
    {
        upsert_row(&mut self.tags, tag_definition);
        self.load_board_data()
    }

}

} // verus!
