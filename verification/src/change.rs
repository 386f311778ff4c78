//! What each request of the board does to its tables, stated over views.
use vstd::prelude::*;
use crate::json::JsonView;
use crate::model::{
    record_of_object, MetadataView, ObjectIdentityView, ObjectRecord, ObjectRecordView, ObjectView,
    PlacementView, StoredView, TagDefinition, TagDefinitionView,
};
use crate::seed::{default_tag_color, schema_of, schema_version_of};
use crate::store::StoreView;
use crate::table::{has_key, ignore_all_spec, key_index, upsert_spec};
use crate::text::{clean_tags_spec, decimal_spec, slugify_spec, trim_spec};

verus! {

// ---------------------------------------------------------------------------
// Places in a lane
// ---------------------------------------------------------------------------

/// The largest place among the objects in lane `lane` of board `board`.
pub open spec fn lane_max(objects: Seq<ObjectRecordView>, board: Seq<char>, lane: Seq<char>) -> Option<
    i64,
>
    decreases objects.len(),
{
    if objects.len() == 0 {
        None
    } else {
        let m = lane_max(objects.drop_last(), board, lane);
        let o = objects.last();
        if o.board.board == board && o.board.lane == lane {
            match m {
                Some(x) => Some(if x >= o.card_order { x } else { o.card_order }),
                None => Some(o.card_order),
            }
        } else {
            m
        }
    }
}

/// The next place lies beyond the largest 64-bit integer.
pub open spec fn card_order_overflows(objects: Seq<ObjectRecordView>, board: Seq<char>, lane: Seq<char>) -> bool {
    lane_max(objects, board, lane) == Some(i64::MAX)
}

/// The place after the last object of the lane, or `1` in an empty lane.
pub open spec fn next_card_order_spec(objects: Seq<ObjectRecordView>, board: Seq<char>, lane: Seq<char>) -> i64 {
    match lane_max(objects, board, lane) {
        Some(m) => (m + 1) as i64,
        None => 1,
    }
}

// ---------------------------------------------------------------------------
// Object ids
// ---------------------------------------------------------------------------

/// The slug an object id is made from: that of the identity id, or of the
/// name where the identity id is blank; `object` where that slug is empty.
pub open spec fn id_base(identity_id: Seq<char>, name: Seq<char>) -> Seq<char> {
    let b = slugify_spec(if trim_spec(identity_id).len() == 0 { name } else { identity_id });
    if b.len() == 0 {
        "object"@
    } else {
        b
    }
}

/// The `k`-th id tried: the base itself, then `base-2`, `base-3`, ...
pub open spec fn candidate_id(base: Seq<char>, k: nat) -> Seq<char> {
    if k <= 1 {
        base
    } else {
        base + seq!['-'] + decimal_spec(k)
    }
}

/// Some object has id `id`.
pub open spec fn id_in_use(objects: Seq<ObjectRecordView>, id: Seq<char>) -> bool {
    has_key::<ObjectRecord>(objects, id)
}

/// The `k`-th id is free and every earlier one is taken.
pub open spec fn first_free_candidate(objects: Seq<ObjectRecordView>, base: Seq<char>, k: nat) -> bool {
    &&& k >= 1
    &&& !id_in_use(objects, candidate_id(base, k))
    &&& forall|j: nat| 1 <= j < k ==> id_in_use(objects, #[trigger] candidate_id(base, j))
}

/// The first id in the row `base`, `base-2`, `base-3`, ... that no object
/// has.
pub open spec fn unique_id_spec(objects: Seq<ObjectRecordView>, identity_id: Seq<char>, name: Seq<char>) -> Seq<
    char,
> {
    let base = id_base(identity_id, name);
    candidate_id(base, choose|k: nat| first_free_candidate(objects, base, k))
}

// ---------------------------------------------------------------------------
// Objects written by requests
// ---------------------------------------------------------------------------

/// An acronym trimmed, and dropped where it is blank.
pub open spec fn trimmed_acronym(a: Option<Seq<char>>) -> Option<Seq<char>> {
    match a {
        Some(x) => if trim_spec(x).len() > 0 {
            Some(trim_spec(x))
        } else {
            None
        },
        None => None,
    }
}

/// The identity of a new object: its name, acronym and summary trimmed, and
/// the new object id where the given id is blank.
pub open spec fn created_identity(identity: ObjectIdentityView, id: Seq<char>) -> ObjectIdentityView {
    ObjectIdentityView {
        id: if trim_spec(identity.id).len() == 0 {
            id
        } else {
            identity.id
        },
        name: trim_spec(identity.name),
        acronym: trimmed_acronym(identity.acronym),
        summary: trim_spec(identity.summary),
    }
}

/// The identity of a rewritten object: every text trimmed.
pub open spec fn updated_identity(identity: ObjectIdentityView) -> ObjectIdentityView {
    ObjectIdentityView {
        id: trim_spec(identity.id),
        name: trim_spec(identity.name),
        acronym: trimmed_acronym(identity.acronym),
        summary: trim_spec(identity.summary),
    }
}

/// The rows of tag colours written for new tags: the default colour and no
/// description.
pub open spec fn new_tag_rows(tags: Seq<Seq<char>>) -> Seq<TagDefinitionView> {
    tags.map_values(
        |t: Seq<char>| TagDefinitionView { tag: t, color: default_tag_color(), description: None },
    )
}

/// Every tag gets a row with the default colour unless it has one.
pub open spec fn upsert_tags_spec(table: Seq<TagDefinitionView>, tags: Seq<Seq<char>>) -> Seq<
    TagDefinitionView,
> {
    ignore_all_spec::<TagDefinition>(table, new_tag_rows(tags))
}

/// The object a create request adds, with id `id` at place `order`, written
/// at time `now`.
pub open spec fn created_object(
    object_type: Seq<char>,
    identity: ObjectIdentityView,
    board: PlacementView,
    tags: Seq<Seq<char>>,
    notes: Seq<char>,
    payload: JsonView,
    id: Seq<char>,
    order: i64,
    now: Seq<char>,
) -> ObjectView {
    ObjectView {
        id,
        object_type,
        schema: schema_of(object_type),
        schema_version: schema_version_of(object_type),
        identity: created_identity(identity, id),
        board,
        metadata: MetadataView {
            tags: clean_tags_spec(tags),
            notes: trim_spec(notes),
            created_at: now,
            updated_at: now,
        },
        payload,
        created_at: now,
        updated_at: now,
        card_order: order,
    }
}

/// A create request: the new object, with a fresh id and the place after the
/// last object of its lane, is added, and its tags get colours.
pub open spec fn create_spec(
    s: StoreView,
    object_type: Seq<char>,
    identity: ObjectIdentityView,
    board: PlacementView,
    tags: Seq<Seq<char>>,
    notes: Seq<char>,
    payload: JsonView,
    now: Seq<char>,
) -> StoreView {
    let id = unique_id_spec(s.objects, identity.id, identity.name);
    let order = next_card_order_spec(s.objects, board.board, board.lane);
    let o = created_object(object_type, identity, board, tags, notes, payload, id, order, now);
    StoreView {
        objects: s.objects.push(record_of_object(o)),
        tags: upsert_tags_spec(s.tags, o.metadata.tags),
        ..s
    }
}

/// The creation time kept in the metadata of a rewritten row: that of its
/// metadata, or the row's own creation time where its metadata cannot be
/// read.
pub open spec fn kept_created_at(o: ObjectRecordView) -> Seq<char> {
    match o.metadata {
        StoredView::Read(m) => m.created_at,
        StoredView::Unreadable(_) => o.created_at,
    }
}

/// Row `o` rewritten by an update request: its id, type, schema, creation
/// time and place stay; its identity, placement, tags, notes and payload are
/// the given ones; its update times become `now`.
pub open spec fn updated_object(
    o: ObjectRecordView,
    identity: ObjectIdentityView,
    board: PlacementView,
    tags: Seq<Seq<char>>,
    notes: Seq<char>,
    payload: JsonView,
    now: Seq<char>,
) -> ObjectRecordView {
    ObjectRecordView {
        identity: StoredView::Read(updated_identity(identity)),
        board,
        metadata: StoredView::Read(
            MetadataView {
                tags: clean_tags_spec(tags),
                notes: trim_spec(notes),
                created_at: kept_created_at(o),
                updated_at: now,
            },
        ),
        payload: StoredView::Read(payload),
        updated_at: now,
        ..o
    }
}

/// An update request: the object with the id, if any, is rewritten where it
/// stands; the given tags get colours whether or not the object exists.
pub open spec fn update_spec(
    s: StoreView,
    id: Seq<char>,
    identity: ObjectIdentityView,
    board: PlacementView,
    tags: Seq<Seq<char>>,
    notes: Seq<char>,
    payload: JsonView,
    now: Seq<char>,
) -> StoreView {
    let i = key_index::<ObjectRecord>(s.objects, id);
    StoreView {
        objects: if i >= 0 {
            s.objects.update(i, updated_object(s.objects[i], identity, board, tags, notes, payload, now))
        } else {
            s.objects
        },
        tags: upsert_tags_spec(s.tags, clean_tags_spec(tags)),
        ..s
    }
}

/// Row `o` moved to lane `lane` of board `board` at place `order`: only its
/// board, lane, place and update times change.
pub open spec fn moved_object(
    o: ObjectRecordView,
    board: Seq<char>,
    lane: Seq<char>,
    order: i64,
    now: Seq<char>,
) -> ObjectRecordView {
    ObjectRecordView {
        board: PlacementView { board, lane, pinned: o.board.pinned },
        card_order: order,
        metadata: match o.metadata {
            StoredView::Read(m) => StoredView::Read(MetadataView { updated_at: now, ..m }),
            StoredView::Unreadable(t) => StoredView::Unreadable(t),
        },
        updated_at: now,
        ..o
    }
}

/// A move request is refused where the object with the id exists and its
/// stored metadata cannot be read.
pub open spec fn move_refused(s: StoreView, id: Seq<char>) -> bool {
    let i = key_index::<ObjectRecord>(s.objects, id);
    i >= 0 && s.objects[i].metadata is Unreadable
}

/// A move request: the object with the id, if any, is moved where it stands
/// in the table; nothing else changes, and nothing at all where the request
/// is refused.
pub open spec fn move_spec(
    s: StoreView,
    id: Seq<char>,
    board: Seq<char>,
    lane: Seq<char>,
    order: i64,
    now: Seq<char>,
) -> StoreView {
    let i = key_index::<ObjectRecord>(s.objects, id);
    StoreView {
        objects: if i >= 0 && !move_refused(s, id) {
            s.objects.update(i, moved_object(s.objects[i], board, lane, order, now))
        } else {
            s.objects
        },
        ..s
    }
}

/// A tag colour request: the tag's row is rewritten where it stands, or added.
pub open spec fn update_tag_spec(s: StoreView, def: TagDefinitionView) -> StoreView {
    StoreView { tags: upsert_spec::<TagDefinition>(s.tags, def), ..s }
}

} // verus!
