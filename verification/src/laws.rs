//! Properties of the board that hold for every input: of slugs, of the
//! tables after each request, and of starting the board again.
use vstd::prelude::*;
use crate::change::{
    candidate_id, card_order_overflows, create_spec, first_free_candidate, id_base, id_in_use,
    kept_created_at, lane_max, move_refused, move_spec, new_tag_rows, unique_id_spec,
    updated_identity, update_spec, update_tag_spec,
};
use crate::model::{
    read_or, record_tags, shown_object, BoardDefinition, BoardDefinitionView, LaneRecord,
    LaneRecordView, MetadataView, ObjectRecord, ObjectRecordView, OperationalObject, StoredView,
    TagDefinition, TagDefinitionView, Workspace,
};
use crate::order::{lemma_text_lt_total, rows_sorted, RowOrder};
use crate::model::{lane_of_record, record_of_lane, BoardLaneView};
use crate::seed::{
    default_boards_spec, default_lanes_spec, default_objects_spec, default_tags_spec,
    default_workspace_spec, schema_of, schema_version_of,
};
use crate::store::{
    current_schema, default_lane_records, default_object_records, empty_store, initialize_spec,
    lanes_shown,
    lemma_candidate_injective, board_data_of, listing, objects_shown, reset_spec, seed_spec,
    store_wf, StoreView,
};
use crate::table::{
    has_key, ignore_all_spec, ignore_spec, key_index, keys_distinct, lemma_ignore_all_has_rows,
    lemma_ignore_all_twice, lemma_key_index, lemma_replace_all_suffix, lemma_replace_all_twice,
    lemma_replace_distinct, lemma_update_distinct, replace_all_spec, replace_spec, Keyed,
};
use crate::text::{
    ascii_lower, clean_tag, clean_tags_spec, is_white_space, join_words, lemma_join_words_empty,
    lemma_slug_words_shape, slug_char, slug_map, slug_words, slugify_spec, trim_end_spec,
    trim_spec, trim_start_spec,
};

verus! {

// ---------------------------------------------------------------------------
// Slugs
// ---------------------------------------------------------------------------

/// A lower-case ASCII letter or a digit.
pub open spec fn is_lower_alnum(c: char) -> bool {
    ('a' <= c <= 'z') || ('0' <= c <= '9')
}

/// A slug: lower-case ASCII letters, digits and `-` only, no `-` at either
/// end, and never two `-` in a row.
pub open spec fn is_slug(t: Seq<char>) -> bool {
    &&& forall|i: int| 0 <= i < t.len() ==> is_lower_alnum(#[trigger] t[i]) || t[i] == '-'
    &&& t.len() > 0 ==> t[0] != '-' && t.last() != '-'
    &&& forall|i: int| 0 <= i < t.len() - 1 ==> !(#[trigger] t[i] == '-' && t[i + 1] == '-')
}

proof fn lemma_slug_char_class(c: char)
    ensures
        is_lower_alnum(slug_char(c)) || slug_char(c) == '-',
        is_lower_alnum(c) ==> slug_char(c) == c,
        c == '-' ==> slug_char(c) == '-',
{
    if 'A' <= c <= 'Z' {
        assert(ascii_lower(c) as u32 == c as u32 + 32);
    }
}

/// The characters of the words of `m` are characters of `m` other than `-`.
proof fn lemma_slug_words_chars(m: Seq<char>)
    requires
        forall|i: int| 0 <= i < m.len() ==> is_lower_alnum(#[trigger] m[i]) || m[i] == '-',
    ensures
        forall|k: int, j: int|
            0 <= k < slug_words(m).len() && 0 <= j < slug_words(m)[k].len() ==> is_lower_alnum(
                #[trigger] slug_words(m)[k][j],
            ),
    decreases m.len(),
{
    if m.len() > 0 {
        let p = m.drop_last();
        assert forall|i: int| 0 <= i < p.len() implies is_lower_alnum(#[trigger] p[i]) || p[i]
            == '-' by {
            assert(p[i] == m[i]);
        }
        lemma_slug_words_chars(p);
        lemma_slug_words_shape(p);
        let w = slug_words(p);
        let c = m.last();
        assert(is_lower_alnum(c) || c == '-') by {
            assert(m[m.len() - 1] == c);
        }
        if c != '-' {
            let nw = slug_words(m);
            assert forall|k: int, j: int|
                0 <= k < nw.len() && 0 <= j < nw[k].len() implies is_lower_alnum(
                #[trigger] nw[k][j],
            ) by {
                if m.len() >= 2 && m[m.len() - 2] != '-' {
                    assert(p.last() == m[m.len() - 2]);
                    if k < nw.len() - 1 {
                        assert(nw[k] == w[k]);
                    } else if j < w.last().len() {
                        assert(nw[k][j] == w[w.len() - 1][j]);
                    }
                } else if k < nw.len() - 1 {
                    assert(nw[k] == w[k]);
                }
            }
        }
    }
}

/// Joining non-empty words of lower-case letters and digits gives a slug.
proof fn lemma_join_is_slug(ws: Seq<Seq<char>>)
    requires
        forall|k: int| 0 <= k < ws.len() ==> #[trigger] ws[k].len() > 0,
        forall|k: int, j: int|
            0 <= k < ws.len() && 0 <= j < ws[k].len() ==> is_lower_alnum(#[trigger] ws[k][j]),
    ensures
        is_slug(join_words(ws)),
    decreases ws.len(),
{
    if ws.len() == 1 {
        let w = ws[0];
        assert(w.len() > 0);
        assert forall|i: int| 0 <= i < w.len() implies is_lower_alnum(#[trigger] w[i]) by {
            assert(ws[0][i] == w[i]);
        }
    } else if ws.len() > 1 {
        let p = ws.drop_last();
        assert forall|k: int| 0 <= k < p.len() implies #[trigger] p[k].len() > 0 by {
            assert(p[k] == ws[k]);
        }
        assert forall|k: int, j: int|
            0 <= k < p.len() && 0 <= j < p[k].len() implies is_lower_alnum(#[trigger] p[k][j]) by {
            assert(p[k] == ws[k]);
        }
        lemma_join_is_slug(p);
        lemma_join_words_empty(p);
        let a = join_words(p);
        let w = ws.last();
        assert(w.len() > 0) by {
            assert(ws[ws.len() - 1] == w);
        }
        assert forall|i: int| 0 <= i < w.len() implies is_lower_alnum(#[trigger] w[i]) by {
            assert(ws[ws.len() - 1][i] == w[i]);
        }
        let t = a + seq!['-'] + w;
        assert(join_words(ws) == t);
        assert forall|i: int| 0 <= i < t.len() implies is_lower_alnum(#[trigger] t[i]) || t[i]
            == '-' by {
            if i < a.len() {
                assert(t[i] == a[i]);
            } else if i > a.len() {
                assert(t[i] == w[i - a.len() - 1]);
            }
        }
        assert(t[0] == a[0]);
        assert(t.last() == w.last());
        assert(is_lower_alnum(w[w.len() - 1]));
        assert forall|i: int| 0 <= i < t.len() - 1 implies !(#[trigger] t[i] == '-' && t[i + 1]
            == '-') by {
            if i < a.len() - 1 {
                assert(t[i] == a[i]);
                assert(t[i + 1] == a[i + 1]);
            } else if i == a.len() - 1 {
                assert(t[i] == a[i]);
                assert(a[i] == a.last());
            } else if i == a.len() {
                assert(t[i + 1] == w[0]);
                assert(is_lower_alnum(w[0]));
            } else {
                assert(t[i] == w[i - a.len() - 1]);
                assert(is_lower_alnum(w[i - a.len() - 1]));
            }
        }
    }
}

/// Every slug is a slug: lower-case ASCII letters, digits and single `-`
/// between them.
pub proof fn law_slugify_gives_slug(s: Seq<char>)
    ensures
        is_slug(slugify_spec(s)),
{
    let m = slug_map(s);
    assert forall|i: int| 0 <= i < m.len() implies is_lower_alnum(#[trigger] m[i]) || m[i]
        == '-' by {
        lemma_slug_char_class(s[i]);
    }
    lemma_slug_words_chars(m);
    lemma_slug_words_shape(m);
    lemma_join_is_slug(slug_words(m));
}

/// `m` without a `-` at its end.
pub open spec fn strip_trailing_dash(m: Seq<char>) -> Seq<char> {
    if m.len() > 0 && m.last() == '-' {
        m.drop_last()
    } else {
        m
    }
}

proof fn lemma_words_join_fixpoint(m: Seq<char>)
    requires
        m.len() > 0 ==> m[0] != '-',
        forall|i: int| 0 <= i < m.len() - 1 ==> !(#[trigger] m[i] == '-' && m[i + 1] == '-'),
    ensures
        join_words(slug_words(m)) == strip_trailing_dash(m),
    decreases m.len(),
{
    if m.len() > 0 {
        let p = m.drop_last();
        assert forall|i: int| 0 <= i < p.len() - 1 implies !(#[trigger] p[i] == '-' && p[i + 1]
            == '-') by {
            assert(p[i] == m[i]);
            assert(p[i + 1] == m[i + 1]);
        }
        if p.len() > 0 {
            assert(p[0] == m[0]);
        }
        lemma_words_join_fixpoint(p);
        lemma_slug_words_shape(p);
        let w = slug_words(p);
        let c = m.last();
        if c == '-' {
            if p.len() > 0 {
                assert(p.last() == m[m.len() - 2]);
                assert(!(m[m.len() - 2] == '-' && m[m.len() - 1] == '-'));
            }
        } else if m.len() >= 2 && m[m.len() - 2] != '-' {
            assert(p.last() == m[m.len() - 2]);
            assert(join_words(w) == p);
            crate::text::lemma_join_words_extend_last(w, c);
            assert(p.push(c) =~= m);
        } else if m.len() == 1 {
            assert(w.len() == 0);
            assert(seq![c] =~= m);
        } else {
            assert(p.last() == m[m.len() - 2]);
            let q = p.drop_last();
            assert(join_words(w) == q);
            crate::text::lemma_join_words_push(w, seq![c]);
            lemma_join_words_empty(w);
            if w.len() == 0 {
                assert(q.len() == 0);
                assert(m[0] == p[0]);
                assert(m.len() == 2);
                assert(false);
            }
            assert(q + seq!['-'] + seq![c] =~= m);
        }
    }
}

/// A slug is its own slug.
pub proof fn law_slug_is_fixed_point(t: Seq<char>)
    requires
        is_slug(t),
    ensures
        slugify_spec(t) == t,
{
    assert forall|i: int| 0 <= i < t.len() implies #[trigger] slug_map(t)[i] == t[i] by {
        lemma_slug_char_class(t[i]);
    }
    assert(slug_map(t) =~= t);
    lemma_words_join_fixpoint(t);
}

/// Making a slug of a slug changes nothing.
pub proof fn law_slugify_idempotent(s: Seq<char>)
    ensures
        slugify_spec(slugify_spec(s)) == slugify_spec(s),
{
    law_slugify_gives_slug(s);
    law_slug_is_fixed_point(slugify_spec(s));
}


// ---------------------------------------------------------------------------
// Object ids
// ---------------------------------------------------------------------------

/// The ids tried up to the `k`-th, when all of them are taken, are `k`
/// distinct ids in use.
proof fn tried_ids(objects: Seq<ObjectRecordView>, base: Seq<char>, k: nat) -> (t: Set<Seq<char>>)
    requires
        forall|j: nat| 1 <= j <= k ==> id_in_use(objects, #[trigger] candidate_id(base, j)),
    ensures
        t.finite(),
        t.len() == k,
        forall|x: Seq<char>| t.contains(x) ==> id_in_use(objects, x),
        forall|x: Seq<char>|
            t.contains(x) ==> exists|j: nat| 1 <= j <= k && x == #[trigger] candidate_id(base, j),
    decreases k,
{
    if k == 0 {
        Set::empty()
    } else {
        let t0 = tried_ids(objects, base, (k - 1) as nat);
        let c = candidate_id(base, k);
        assert(!t0.contains(c)) by {
            if t0.contains(c) {
                let j = choose|j: nat| 1 <= j <= k - 1 && c == #[trigger] candidate_id(base, j);
                lemma_candidate_injective(base, j, k);
            }
        }
        let t = t0.insert(c);
        assert forall|x: Seq<char>| t.contains(x) implies exists|j: nat|
            1 <= j <= k && x == #[trigger] candidate_id(base, j) by {
            if x != c {
                let j = choose|j: nat| 1 <= j <= k - 1 && x == #[trigger] candidate_id(base, j);
                assert(1 <= j <= k && x == candidate_id(base, j));
            }
        }
        t
    }
}

/// Some id among the first `n + 1` tries is free, `n` being the number of
/// objects.
proof fn lemma_some_candidate_free(objects: Seq<ObjectRecordView>, base: Seq<char>) -> (k: nat)
    ensures
        1 <= k <= objects.len() + 1,
        !id_in_use(objects, candidate_id(base, k)),
{
    let n = objects.len();
    if forall|j: nat| 1 <= j <= n + 1 ==> id_in_use(objects, #[trigger] candidate_id(base, j)) {
        let t = tried_ids(objects, base, (n + 1) as nat);
        let ids = objects.map_values(|o: ObjectRecordView| o.id);
        ids.lemma_cardinality_of_set();
        vstd::seq_lib::seq_to_set_is_finite(ids);
        assert forall|x: Seq<char>| t.contains(x) implies ids.to_set().contains(x) by {
            let i = choose|i: int| 0 <= i < objects.len() && #[trigger] objects[i].id == x;
            assert(ids[i] == x);
        }
        vstd::set_lib::lemma_len_subset(t, ids.to_set());
        assert(false);
        arbitrary()
    } else {
        choose|j: nat| 1 <= j <= n + 1 && !id_in_use(objects, #[trigger] candidate_id(base, j))
    }
}

/// Below a free try there is a first free one.
proof fn lemma_first_free_exists(objects: Seq<ObjectRecordView>, base: Seq<char>, k: nat)
    requires
        k >= 1,
        !id_in_use(objects, candidate_id(base, k)),
    ensures
        exists|m: nat| first_free_candidate(objects, base, m),
    decreases k,
{
    if forall|j: nat| 1 <= j < k ==> id_in_use(objects, #[trigger] candidate_id(base, j)) {
        assert(first_free_candidate(objects, base, k));
    } else {
        let j = choose|j: nat| 1 <= j < k && !id_in_use(objects, #[trigger] candidate_id(base, j));
        lemma_first_free_exists(objects, base, j);
    }
}

/// A new object id is not the id of any object, and it is the base slug or
/// the base slug with a number appended.
pub proof fn law_unique_id_is_fresh(objects: Seq<ObjectRecordView>, identity_id: Seq<char>, name: Seq<char>)
    ensures
        !id_in_use(objects, unique_id_spec(objects, identity_id, name)),
        exists|k: nat|
            k >= 1 && unique_id_spec(objects, identity_id, name) == candidate_id(
                id_base(identity_id, name),
                k,
            ),
{
    let base = id_base(identity_id, name);
    let k0 = lemma_some_candidate_free(objects, base);
    lemma_first_free_exists(objects, base, k0);
    let k = choose|k: nat| first_free_candidate(objects, base, k);
    assert(first_free_candidate(objects, base, k));
}

// ---------------------------------------------------------------------------
// Requests
// ---------------------------------------------------------------------------

/// Place `c` is at most the largest place of the lane.
pub open spec fn within_lane_max(objects: Seq<ObjectRecordView>, board: Seq<char>, lane: Seq<char>, c: i64) -> bool {
    match lane_max(objects, board, lane) {
        Some(m) => c <= m,
        None => false,
    }
}

proof fn lemma_lane_max_bound(objects: Seq<ObjectRecordView>, board: Seq<char>, lane: Seq<char>)
    ensures
        forall|j: int|
            0 <= j < objects.len() && objects[j].board.board == board && objects[j].board.lane
                == lane ==> within_lane_max(objects, board, lane, #[trigger] objects[j].card_order),
    decreases objects.len(),
{
    if objects.len() > 0 {
        let p = objects.drop_last();
        lemma_lane_max_bound(p, board, lane);
        assert forall|j: int|
            0 <= j < objects.len() && objects[j].board.board == board && objects[j].board.lane
                == lane implies within_lane_max(objects, board, lane, #[trigger] objects[j].card_order) by {
            if j < objects.len() - 1 {
                assert(p[j] == objects[j]);
                assert(within_lane_max(p, board, lane, p[j].card_order));
            }
        }
    }
}

/// A create request adds exactly one object at the end of the table: its id
/// was no object's id, and its place is after every object of its lane. No
/// other object changes, and no tag colour changes.
pub proof fn law_create_adds_one_new_object(
    s: StoreView,
    object_type: Seq<char>,
    identity: crate::model::ObjectIdentityView,
    board: crate::model::PlacementView,
    tags: Seq<Seq<char>>,
    notes: Seq<char>,
    payload: crate::json::JsonView,
    now: Seq<char>,
)
    requires
        store_wf(s),
        !card_order_overflows(s.objects, board.board, board.lane),
    ensures
        ({
            let t = create_spec(s, object_type, identity, board, tags, notes, payload, now);
            let o = t.objects.last();
            &&& t.objects.len() == s.objects.len() + 1
            &&& t.objects.drop_last() == s.objects
            &&& !id_in_use(s.objects, o.id)
            &&& forall|j: int|
                0 <= j < s.objects.len() && s.objects[j].board.board == board.board
                    && s.objects[j].board.lane == board.lane ==> #[trigger] s.objects[j].card_order
                    < o.card_order
            &&& forall|x: Seq<char>| has_key::<TagDefinition>(s.tags, x) ==> has_key::<TagDefinition>(t.tags, x)
            &&& t.workspaces == s.workspaces && t.boards == s.boards && t.lanes == s.lanes
        }),
{
    let t = create_spec(s, object_type, identity, board, tags, notes, payload, now);
    law_unique_id_is_fresh(s.objects, identity.id, identity.name);
    lemma_lane_max_bound(s.objects, board.board, board.lane);
    assert(t.objects.drop_last() =~= s.objects);
    let o = t.objects.last();
    assert forall|j: int|
        0 <= j < s.objects.len() && s.objects[j].board.board == board.board
            && s.objects[j].board.lane == board.lane implies #[trigger] s.objects[j].card_order
        < o.card_order by {
    }
    lemma_ignore_all_keeps_keys(s.tags, new_tag_rows(clean_tags_spec(tags)));
}

/// Tag rows only gain keys when rows are added with `INSERT OR IGNORE`, and
/// every added key is then present.
pub proof fn lemma_ignore_all_keeps_keys(table: Seq<TagDefinitionView>, rows: Seq<TagDefinitionView>)
    ensures
        forall|x: Seq<char>| has_key::<TagDefinition>(table, x) ==> has_key::<TagDefinition>(
            ignore_all_spec::<TagDefinition>(table, rows),
            x,
        ),
        forall|i: int| 0 <= i < rows.len() ==> has_key::<TagDefinition>(
            ignore_all_spec::<TagDefinition>(table, rows),
            #[trigger] rows[i].tag,
        ),
    decreases rows.len(),
{
    if rows.len() > 0 {
        let p = rows.drop_last();
        lemma_ignore_all_keeps_keys(table, p);
        let a = ignore_all_spec::<TagDefinition>(table, p);
        let x = rows.last();
        lemma_key_index::<TagDefinition>(a, x.tag);
        let b = ignore_spec::<TagDefinition>(a, x);
        assert forall|y: Seq<char>| has_key::<TagDefinition>(a, y) implies has_key::<TagDefinition>(b, y) by {
            let i = choose|i: int| 0 <= i < a.len() && TagDefinition::key_of(#[trigger] a[i]) == y;
            if b != a {
                assert(b[i] == a[i]);
            }
        }
        assert(has_key::<TagDefinition>(b, x.tag)) by {
            if key_index::<TagDefinition>(a, x.tag) < 0 {
                assert(b[b.len() - 1] == x);
            }
        }
        assert forall|i: int| 0 <= i < rows.len() implies has_key::<TagDefinition>(
            b,
            #[trigger] rows[i].tag,
        ) by {
            if i < rows.len() - 1 {
                assert(rows[i] == p[i]);
            }
        }
    }
}

/// A move request changes only where the object stands: its board, lane and
/// place, and its update times. Its id, type, schema, identity, tags, notes,
/// payload, creation times and pin stay; every other object and every other
/// table stays as it was. Where the object's stored metadata cannot be read,
/// the move is refused and nothing changes.
pub proof fn law_move_changes_only_board_projection(
    s: StoreView,
    id: Seq<char>,
    board: Seq<char>,
    lane: Seq<char>,
    order: i64,
    now: Seq<char>,
)
    requires
        store_wf(s),
    ensures
        ({
            let t = move_spec(s, id, board, lane, order, now);
            &&& t.objects.len() == s.objects.len()
            &&& t.workspaces == s.workspaces && t.boards == s.boards && t.lanes == s.lanes
                && t.tags == s.tags
            &&& move_refused(s, id) ==> t == s
            &&& forall|i: int|
                0 <= i < s.objects.len() && s.objects[i].id != id ==> #[trigger] t.objects[i]
                    == s.objects[i]
            &&& forall|i: int|
                0 <= i < s.objects.len() && s.objects[i].id == id && !move_refused(s, id) ==> {
                    let a = s.objects[i];
                    let b = #[trigger] t.objects[i];
                    &&& b.id == a.id && b.object_type == a.object_type && b.schema == a.schema
                    &&& b.schema_version == a.schema_version && b.identity == a.identity
                    &&& b.payload == a.payload && b.created_at == a.created_at
                    &&& a.metadata matches StoredView::Read(m) && b.metadata == StoredView::Read(
                        MetadataView { updated_at: now, ..m },
                    )
                    &&& b.board.pinned == a.board.pinned
                    &&& b.board.board == board && b.board.lane == lane && b.card_order == order
                    &&& b.updated_at == now
                }
        }),
{
    lemma_key_index::<ObjectRecord>(s.objects, id);
}

/// An update request keeps the object's id, type, schema, place and creation
/// times (the metadata's creation time is the row's own where the stored
/// metadata cannot be read); no other object changes.
pub proof fn law_update_keeps_identity_of_row(
    s: StoreView,
    id: Seq<char>,
    identity: crate::model::ObjectIdentityView,
    board: crate::model::PlacementView,
    tags: Seq<Seq<char>>,
    notes: Seq<char>,
    payload: crate::json::JsonView,
    now: Seq<char>,
)
    requires
        store_wf(s),
    ensures
        ({
            let t = update_spec(s, id, identity, board, tags, notes, payload, now);
            &&& t.objects.len() == s.objects.len()
            &&& t.workspaces == s.workspaces && t.boards == s.boards && t.lanes == s.lanes
            &&& forall|i: int|
                0 <= i < s.objects.len() && s.objects[i].id != id ==> #[trigger] t.objects[i]
                    == s.objects[i]
            &&& forall|i: int|
                0 <= i < s.objects.len() && s.objects[i].id == id ==> {
                    let a = s.objects[i];
                    let b = #[trigger] t.objects[i];
                    &&& b.id == a.id && b.object_type == a.object_type && b.schema == a.schema
                    &&& b.schema_version == a.schema_version && b.created_at == a.created_at
                    &&& b.card_order == a.card_order
                    &&& b.board == board && b.payload == StoredView::Read(payload)
                    &&& b.identity == StoredView::Read(updated_identity(identity))
                    &&& b.metadata == StoredView::Read(
                        MetadataView {
                            tags: clean_tags_spec(tags),
                            notes: crate::text::trim_spec(notes),
                            created_at: kept_created_at(a),
                            updated_at: now,
                        },
                    )
                    &&& b.updated_at == now
                }
            &&& forall|k: int| 0 <= k < clean_tags_spec(tags).len() ==> has_key::<TagDefinition>(
                t.tags,
                #[trigger] clean_tags_spec(tags)[k],
            )
        }),
{
    lemma_key_index::<ObjectRecord>(s.objects, id);
    let rows = new_tag_rows(clean_tags_spec(tags));
    lemma_ignore_all_keeps_keys(s.tags, rows);
    assert forall|k: int| 0 <= k < clean_tags_spec(tags).len() implies has_key::<TagDefinition>(
        update_spec(s, id, identity, board, tags, notes, payload, now).tags,
        #[trigger] clean_tags_spec(tags)[k],
    ) by {
        assert(rows[k].tag == clean_tags_spec(tags)[k]);
    }
}

/// Setting a tag's colour and then reading the tags gives back exactly what
/// was set for that tag; every other tag keeps its row and its place.
pub proof fn law_tag_definition_read_after_write(s: StoreView, def: TagDefinitionView)
    requires
        store_wf(s),
    ensures
        ({
            let t = update_tag_spec(s, def);
            &&& keys_distinct::<TagDefinition>(t.tags)
            &&& exists|i: int| 0 <= i < t.tags.len() && #[trigger] t.tags[i] == def
            &&& forall|i: int|
                0 <= i < s.tags.len() && s.tags[i].tag != def.tag ==> #[trigger] t.tags[i]
                    == s.tags[i]
            &&& t.objects == s.objects && t.workspaces == s.workspaces && t.boards == s.boards
                && t.lanes == s.lanes
        }),
{
    lemma_key_index::<TagDefinition>(s.tags, def.tag);
    crate::table::lemma_upsert_distinct::<TagDefinition>(s.tags, def);
    let t = update_tag_spec(s, def);
    let i = key_index::<TagDefinition>(s.tags, def.tag);
    if i >= 0 {
        assert(t.tags[i] == def);
    } else {
        assert(t.tags[t.tags.len() - 1] == def);
    }
}

// ---------------------------------------------------------------------------
// Tags of objects
// ---------------------------------------------------------------------------

/// Every tag that every object shows has a row of tag colours.
pub open spec fn tags_covered(s: StoreView) -> bool {
    forall|i: int, k: int|
        0 <= i < s.objects.len() && 0 <= k < record_tags(s.objects[i]).len() ==> has_key::<
            TagDefinition,
        >(s.tags, #[trigger] record_tags(s.objects[i])[k])
}

/// Create, update and move requests and tag colour requests keep every tag of
/// every object coloured.
pub proof fn law_requests_keep_tags_covered(
    s: StoreView,
    object_type: Seq<char>,
    id: Seq<char>,
    identity: crate::model::ObjectIdentityView,
    board: crate::model::PlacementView,
    tags: Seq<Seq<char>>,
    notes: Seq<char>,
    payload: crate::json::JsonView,
    lane: Seq<char>,
    order: i64,
    now: Seq<char>,
    def: TagDefinitionView,
)
    requires
        store_wf(s),
        tags_covered(s),
    ensures
        tags_covered(create_spec(s, object_type, identity, board, tags, notes, payload, now)),
        tags_covered(update_spec(s, id, identity, board, tags, notes, payload, now)),
        tags_covered(move_spec(s, id, board.board, lane, order, now)),
        tags_covered(update_tag_spec(s, def)),
{
    let rows = new_tag_rows(clean_tags_spec(tags));
    lemma_ignore_all_keeps_keys(s.tags, rows);
    // create
    let c = create_spec(s, object_type, identity, board, tags, notes, payload, now);
    assert forall|i: int, k: int|
        0 <= i < c.objects.len() && 0 <= k < record_tags(c.objects[i]).len() implies has_key::<
        TagDefinition,
    >(c.tags, #[trigger] record_tags(c.objects[i])[k]) by {
        if i < s.objects.len() {
            assert(c.objects[i] == s.objects[i]);
            assert(has_key::<TagDefinition>(s.tags, record_tags(s.objects[i])[k]));
        } else {
            assert(rows[k].tag == clean_tags_spec(tags)[k]);
        }
    }
    // update
    lemma_key_index::<ObjectRecord>(s.objects, id);
    let u = update_spec(s, id, identity, board, tags, notes, payload, now);
    assert forall|i: int, k: int|
        0 <= i < u.objects.len() && 0 <= k < record_tags(u.objects[i]).len() implies has_key::<
        TagDefinition,
    >(u.tags, #[trigger] record_tags(u.objects[i])[k]) by {
        if s.objects[i].id != id {
            assert(u.objects[i] == s.objects[i]);
            assert(has_key::<TagDefinition>(s.tags, record_tags(s.objects[i])[k]));
        } else {
            assert(rows[k].tag == clean_tags_spec(tags)[k]);
        }
    }
    // move
    let m = move_spec(s, id, board.board, lane, order, now);
    assert forall|i: int, k: int|
        0 <= i < m.objects.len() && 0 <= k < record_tags(m.objects[i]).len() implies has_key::<
        TagDefinition,
    >(m.tags, #[trigger] record_tags(m.objects[i])[k]) by {
        assert(record_tags(m.objects[i]) == record_tags(s.objects[i]));
        assert(has_key::<TagDefinition>(s.tags, record_tags(s.objects[i])[k]));
    }
    // tag colour
    lemma_key_index::<TagDefinition>(s.tags, def.tag);
    let d = update_tag_spec(s, def);
    assert forall|i: int, k: int|
        0 <= i < d.objects.len() && 0 <= k < record_tags(d.objects[i]).len() implies has_key::<
        TagDefinition,
    >(d.tags, #[trigger] record_tags(d.objects[i])[k]) by {
        let x = record_tags(s.objects[i])[k];
        assert(has_key::<TagDefinition>(s.tags, x));
        let j = choose|j: int| 0 <= j < s.tags.len() && TagDefinition::key_of(#[trigger] s.tags[j]) == x;
        let ki = key_index::<TagDefinition>(s.tags, def.tag);
        if ki >= 0 {
            assert(TagDefinition::key_of(d.tags[j]) == x);
        } else {
            assert(d.tags[j] == s.tags[j]);
        }
    }
}


// ---------------------------------------------------------------------------
// Starting the board
// ---------------------------------------------------------------------------

proof fn lemma_default_boards_distinct()
    ensures
        keys_distinct::<BoardDefinition>(default_boards_spec()),
{
    reveal_strlit("primary");
    reveal_strlit("secondary");
    let r = default_boards_spec();
    assert(r[0].id.len() != r[1].id.len());
}

proof fn lemma_default_lanes_distinct()
    ensures
        keys_distinct::<LaneRecord>(default_lane_records()),
{
    reveal_strlit("city-hall");
    reveal_strlit("stock");
    reveal_strlit("powershell");
    reveal_strlit("project-1");
    reveal_strlit("project-2");
    reveal_strlit("project-3");
    reveal_strlit("work-1");
    reveal_strlit("work-2");
    reveal_strlit("work-3");
    reveal_strlit("work-4");
    reveal_strlit("work-5");
    reveal_strlit("work-6");
    let r = default_lane_records();
    let ids = seq![
        "city-hall"@, "stock"@, "powershell"@, "project-1"@, "project-2"@, "project-3"@,
        "work-1"@, "work-2"@, "work-3"@, "work-4"@, "work-5"@, "work-6"@,
    ];
    assert forall|i: int| 0 <= i < r.len() implies #[trigger] r[i].id == ids[i] by {
        assert(r[i].id == default_lanes_spec()[i].id);
    }
    assert forall|i: int, j: int|
        0 <= i < ids.len() && 0 <= j < ids.len() && i != j implies #[trigger] ids[i]
        != #[trigger] ids[j] by {
        if ids[i].len() == ids[j].len() {
            let k = ids[i].len() - 1;
            assert(ids[i][k] != ids[j][k]);
        }
    }
}

proof fn lemma_default_objects_distinct()
    ensures
        keys_distinct::<OperationalObject>(default_objects_spec()),
{
    reveal_strlit("workspace-governance-standard");
    reveal_strlit("project-proposal-standard");
    reveal_strlit("workspace-inventory");
    reveal_strlit("artifact-packager");
    reveal_strlit("filecabinet");
    reveal_strlit("structa");
    reveal_strlit("aegis");
    reveal_strlit("asset-forge");
    reveal_strlit("schema-garden");
    reveal_strlit("release-radar");
    let r = default_objects_spec();
    let ids = seq![
        "workspace-governance-standard"@, "project-proposal-standard"@, "workspace-inventory"@,
        "artifact-packager"@, "filecabinet"@, "structa"@, "aegis"@, "asset-forge"@,
        "schema-garden"@, "release-radar"@,
    ];
    assert forall|i: int| 0 <= i < r.len() implies #[trigger] r[i].id == ids[i] by {}
    assert forall|i: int, j: int|
        0 <= i < ids.len() && 0 <= j < ids.len() && i != j implies #[trigger] ids[i]
        != #[trigger] ids[j] by {
        if ids[i].len() == ids[j].len() {
            assert(ids[i][0] != ids[j][0]);
        }
    }
}



// ---------------------------------------------------------------------------
// The default lanes and objects
// ---------------------------------------------------------------------------

/// Lane `l` takes objects of type `t`: it names no types, or `t` among them.
pub open spec fn lane_admits(l: BoardLaneView, t: Seq<char>) -> bool {
    match l.allowed_types {
        Some(ts) => ts.contains(t),
        None => true,
    }
}

/// The typed lanes of a new board: the City Hall lane takes City Hall
/// documents, the PowerShell lane takes operators, and each project lane
/// takes projects; every other lane takes any type. The schema of every type
/// a lane names is `aptlantis.` followed by the type, at version `0.1`.
pub proof fn law_default_lanes_are_typed()
    ensures
        forall|i: int|
            0 <= i < default_lanes_spec().len() ==> {
                let l = #[trigger] default_lanes_spec()[i];
                &&& l.id == "city-hall"@ ==> l.allowed_types == Some(seq!["city-hall"@])
                &&& l.id == "powershell"@ ==> l.allowed_types == Some(seq!["powershell-operator"@])
                &&& "project-"@.is_prefix_of(l.id) ==> l.allowed_types == Some(seq!["project"@])
                &&& l.id != "city-hall"@ && l.id != "powershell"@ && !"project-"@.is_prefix_of(l.id)
                    ==> l.allowed_types is None
                &&& l.allowed_types matches Some(ts) ==> forall|k: int|
                    0 <= k < ts.len() ==> schema_of(#[trigger] ts[k]) == "aptlantis."@ + ts[k]
                        && schema_version_of(ts[k]) == "0.1"@
            },
{
    reveal_strlit("city-hall");
    reveal_strlit("stock");
    reveal_strlit("powershell");
    reveal_strlit("project-1");
    reveal_strlit("project-2");
    reveal_strlit("project-3");
    reveal_strlit("work-1");
    reveal_strlit("work-2");
    reveal_strlit("work-3");
    reveal_strlit("work-4");
    reveal_strlit("work-5");
    reveal_strlit("work-6");
    reveal_strlit("project-");
    reveal_strlit("project");
    reveal_strlit("powershell-operator");
    reveal_strlit("aptlantis.");
    reveal_strlit("aptlantis.project");
    reveal_strlit("aptlantis.city-hall");
    reveal_strlit("aptlantis.powershell-operator");
    let lanes = default_lanes_spec();
    assert("aptlantis."@ + "project"@ =~= "aptlantis.project"@);
    assert("aptlantis."@ + "city-hall"@ =~= "aptlantis.city-hall"@);
    assert("aptlantis."@ + "powershell-operator"@ =~= "aptlantis.powershell-operator"@);
    assert("project"@ != "powershell-operator"@ && "project"@ != "city-hall"@);
    assert("city-hall"@ != "powershell-operator"@);
    assert forall|i: int| 0 <= i < lanes.len() implies {
        let l = #[trigger] lanes[i];
        &&& l.id == "city-hall"@ ==> l.allowed_types == Some(seq!["city-hall"@])
        &&& l.id == "powershell"@ ==> l.allowed_types == Some(seq!["powershell-operator"@])
        &&& "project-"@.is_prefix_of(l.id) ==> l.allowed_types == Some(seq!["project"@])
        &&& l.id != "city-hall"@ && l.id != "powershell"@ && !"project-"@.is_prefix_of(l.id)
            ==> l.allowed_types is None
        &&& l.allowed_types matches Some(ts) ==> forall|k: int|
            0 <= k < ts.len() ==> schema_of(#[trigger] ts[k]) == "aptlantis."@ + ts[k]
                && schema_version_of(ts[k]) == "0.1"@
    } by {
        let l = lanes[i];
        if i == 0 {
            assert(l.id[0] != "powershell"@[0]);
            assert(!"project-"@.is_prefix_of(l.id)) by { assert(l.id[0] != "project-"@[0]); }
        } else if i == 1 {
            assert(l.id.len() != "city-hall"@.len());
            assert(l.id.len() != "powershell"@.len());
            assert(!"project-"@.is_prefix_of(l.id)) by { assert(l.id[0] != "project-"@[0]); }
        } else if i == 2 {
            assert(l.id[0] != "city-hall"@[0]);
            assert(!"project-"@.is_prefix_of(l.id)) by { assert(l.id[1] != "project-"@[1]); }
        } else if i < 6 {
            assert(l.id[0] != "city-hall"@[0]);
            assert(l.id[1] != "powershell"@[1]);
            assert("project-"@.is_prefix_of(l.id)) by {
                assert forall|k: int| 0 <= k < "project-"@.len() implies l.id[k] == "project-"@[k] by {}
            }
        } else {
            assert(l.id[0] != "city-hall"@[0]);
            assert(l.id[0] != "powershell"@[0]);
            assert(!"project-"@.is_prefix_of(l.id)) by { assert(l.id[0] != "project-"@[0]); }
        }
        if let Some(ts) = l.allowed_types {
            assert forall|k: int| 0 <= k < ts.len() implies schema_of(#[trigger] ts[k]) == "aptlantis."@
                + ts[k] && schema_version_of(ts[k]) == "0.1"@ by {
                assert(k == 0);
            }
        }
    }
}

/// The objects of a new board have distinct ids; each one's identity carries
/// its id, its schema is that of its type, and it sits in a lane of its own
/// board that takes its type.
pub proof fn law_default_objects_are_placed()
    ensures
        keys_distinct::<OperationalObject>(default_objects_spec()),
        forall|i: int|
            0 <= i < default_objects_spec().len() ==> {
                let o = #[trigger] default_objects_spec()[i];
                &&& o.identity.id == o.id
                &&& o.schema == schema_of(o.object_type)
                &&& o.schema_version == schema_version_of(o.object_type)
                &&& exists|j: int|
                    0 <= j < default_lanes_spec().len() && (#[trigger] default_lanes_spec()[j]).id
                        == o.board.lane && default_lanes_spec()[j].board_id == o.board.board
                        && lane_admits(default_lanes_spec()[j], o.object_type)
            },
{
    lemma_default_objects_distinct();
    let objects = default_objects_spec();
    let lanes = default_lanes_spec();
    assert forall|i: int| 0 <= i < objects.len() implies {
        let o = #[trigger] objects[i];
        &&& o.identity.id == o.id
        &&& o.schema == schema_of(o.object_type)
        &&& o.schema_version == schema_version_of(o.object_type)
        &&& exists|j: int|
            0 <= j < lanes.len() && (#[trigger] lanes[j]).id == o.board.lane && lanes[j].board_id
                == o.board.board && lane_admits(lanes[j], o.object_type)
    } by {
        let o = objects[i];
        let j: int = if i < 2 {
            0
        } else if i < 4 {
            2
        } else if i < 7 {
            i - 1
        } else {
            i - 1
        };
        let ts = lanes[j].allowed_types;
        if ts is Some {
            assert(ts->0[0] == o.object_type);
        }
        assert(0 <= j < lanes.len() && lanes[j].id == o.board.lane && lanes[j].board_id
            == o.board.board && lane_admits(lanes[j], o.object_type));
    }
}

proof fn lemma_default_object_records_distinct()
    ensures
        keys_distinct::<ObjectRecord>(default_object_records()),
{
    lemma_default_objects_distinct();
    let r = default_object_records();
    let o = default_objects_spec();
    assert forall|i: int, j: int|
        0 <= i < r.len() && 0 <= j < r.len() && i != j implies ObjectRecord::key_of(#[trigger] r[i])
        != ObjectRecord::key_of(#[trigger] r[j]) by {
        assert(r[i].id == o[i].id);
        assert(r[j].id == o[j].id);
        assert(OperationalObject::key_of(o[i]) != OperationalObject::key_of(o[j]));
    }
}

/// Starting the board leaves the current layout version and a workspace, so
/// the board can be read.
pub proof fn law_initialize_leaves_workspace(s: StoreView)
    ensures
        initialize_spec(s).schema_version == Some(current_schema()),
        initialize_spec(s).workspaces.len() > 0,
        initialize_spec(s).workspaces.last() == default_workspace_spec(),
{
}

/// Tables of another layout version are dropped: starting the board then
/// gives the same tables whatever they held.
pub proof fn law_stale_version_starts_afresh(s: StoreView)
    requires
        s.schema_version != Some(current_schema()),
    ensures
        initialize_spec(s) == initialize_spec(empty_store()),
{
}

/// Starting the board a second time changes nothing.
pub proof fn law_initialize_is_idempotent(s: StoreView)
    requires
        store_wf(s),
    ensures
        initialize_spec(initialize_spec(s)) == initialize_spec(s),
{
    let a = if s.schema_version == Some(current_schema()) {
        s
    } else {
        reset_spec(s)
    };
    assert(store_wf(a));
    let b = seed_spec(a);
    lemma_default_boards_distinct();
    lemma_default_lanes_distinct();
    lemma_default_object_records_distinct();
    let w = seq![default_workspace_spec()];
    assert(w.drop_last() =~= Seq::<crate::model::WorkspaceView>::empty());
    assert(w.last() == default_workspace_spec());
    assert(replace_all_spec::<Workspace>(a.workspaces, w.drop_last()) == a.workspaces);
    assert(replace_all_spec::<Workspace>(b.workspaces, w.drop_last()) == b.workspaces);
    assert(replace_all_spec::<Workspace>(a.workspaces, w) == replace_spec::<Workspace>(
        a.workspaces,
        default_workspace_spec(),
    ));
    assert(replace_all_spec::<Workspace>(b.workspaces, w) == replace_spec::<Workspace>(
        b.workspaces,
        default_workspace_spec(),
    ));
    lemma_replace_all_twice::<Workspace>(a.workspaces, w);
    lemma_replace_all_twice::<BoardDefinition>(a.boards, default_boards_spec());
    lemma_replace_all_twice::<LaneRecord>(a.lanes, default_lane_records());
    lemma_ignore_all_twice::<TagDefinition>(a.tags, default_tags_spec());
    if a.objects.len() == 0 {
        let kept = lemma_replace_all_suffix::<ObjectRecord>(a.objects, default_object_records());
        assert(b.objects.len() > 0);
    }
    assert(b.schema_version == Some(current_schema()));
    assert(initialize_spec(b) == seed_spec(b));
}


/// Every tag of a default object is a default tag.
proof fn lemma_default_object_tags(table: Seq<TagDefinitionView>)
    requires
        forall|i: int|
            0 <= i < default_tags_spec().len() ==> has_key::<TagDefinition>(
                table,
                #[trigger] default_tags_spec()[i].tag,
            ),
    ensures
        forall|i: int, k: int|
            0 <= i < default_object_records().len() && 0 <= k < record_tags(
                default_object_records()[i],
            ).len() ==> has_key::<TagDefinition>(
                table,
                #[trigger] record_tags(default_object_records()[i])[k],
            ),
{
    let d = default_tags_spec();
    assert(has_key::<TagDefinition>(table, d[0].tag));
    assert(has_key::<TagDefinition>(table, d[1].tag));
    assert(has_key::<TagDefinition>(table, d[2].tag));
    assert(has_key::<TagDefinition>(table, d[3].tag));
    assert(has_key::<TagDefinition>(table, d[4].tag));
    assert(has_key::<TagDefinition>(table, d[5].tag));
    assert(has_key::<TagDefinition>(table, d[6].tag));
    let o = default_objects_spec();
    let r = default_object_records();
    assert forall|i: int, k: int|
        0 <= i < r.len() && 0 <= k < record_tags(r[i]).len() implies has_key::<TagDefinition>(
        table,
        #[trigger] record_tags(r[i])[k],
    ) by {
        assert(record_tags(r[i]) == o[i].metadata.tags);
        if i < 2 {
            assert(o[i].metadata.tags == seq!["CityHall"@, "Governance"@, "Standard"@]);
        } else if i < 4 {
            assert(o[i].metadata.tags == seq!["Operator"@, "Workspace"@]);
        } else if i < 7 {
            assert(o[i].metadata.tags == seq!["Project"@, "Workspace"@]);
        } else {
            assert(o[i].metadata.tags == seq!["Project"@, "Reference"@]);
        }
    }
}

/// Starting the board leaves every tag of every object coloured, where it was
/// so before or the tables are dropped for another layout version.
pub proof fn law_initialize_keeps_tags_covered(s: StoreView)
    requires
        store_wf(s),
        s.schema_version != Some(current_schema()) || tags_covered(s),
    ensures
        tags_covered(initialize_spec(s)),
{
    let a = if s.schema_version == Some(current_schema()) {
        s
    } else {
        reset_spec(s)
    };
    let b = seed_spec(a);
    lemma_ignore_all_has_rows::<TagDefinition>(a.tags, default_tags_spec());
    lemma_default_object_tags(b.tags);
    if a.objects.len() == 0 {
        lemma_default_object_records_distinct();
        let kept = lemma_replace_all_suffix::<ObjectRecord>(a.objects, default_object_records());
        assert(kept.len() == 0);
        assert(b.objects =~= default_object_records());
    } else {
        assert(tags_covered(a));
        assert forall|i: int, k: int|
            0 <= i < b.objects.len() && 0 <= k < record_tags(b.objects[i]).len() implies has_key::<
            TagDefinition,
        >(b.tags, #[trigger] record_tags(b.objects[i])[k]) by {
            assert(has_key::<TagDefinition>(a.tags, record_tags(a.objects[i])[k]));
        }
    }
}


// ---------------------------------------------------------------------------
// Trimming and tags
// ---------------------------------------------------------------------------

proof fn lemma_trim_start_shape(x: Seq<char>)
    ensures
        trim_start_spec(x).len() > 0 ==> !is_white_space(trim_start_spec(x)[0]),
        trim_start_spec(x).len() <= x.len(),
    decreases x.len(),
{
    if x.len() > 0 && is_white_space(x[0]) {
        lemma_trim_start_shape(x.subrange(1, x.len() as int));
    }
}

proof fn lemma_trim_end_shape(x: Seq<char>)
    ensures
        trim_end_spec(x).len() <= x.len(),
        trim_end_spec(x) == x.subrange(0, trim_end_spec(x).len() as int),
        trim_end_spec(x).len() > 0 ==> !is_white_space(trim_end_spec(x).last()),
    decreases x.len(),
{
    if x.len() > 0 && is_white_space(x.last()) {
        lemma_trim_end_shape(x.drop_last());
        let t = trim_end_spec(x.drop_last());
        assert(x.drop_last().subrange(0, t.len() as int) =~= x.subrange(0, t.len() as int));
    } else {
        assert(x.subrange(0, x.len() as int) =~= x);
    }
}

/// Trimming a trimmed text changes nothing.
pub proof fn law_trim_idempotent(s: Seq<char>)
    ensures
        trim_spec(trim_spec(s)) == trim_spec(s),
{
    let u = trim_start_spec(s);
    let t = trim_end_spec(u);
    lemma_trim_start_shape(s);
    lemma_trim_end_shape(u);
    if t.len() > 0 {
        assert(t[0] == u[0]);
        assert(trim_start_spec(t) == t);
        assert(trim_end_spec(t) == t);
    } else {
        assert(trim_start_spec(t) == t);
        assert(trim_end_spec(t) == t);
    }
}

/// Every tag that cleaning keeps is non-empty and has no white space at
/// either end, and there are never more tags than were given.
pub proof fn law_clean_tags_are_trimmed(tags: Seq<Seq<char>>)
    ensures
        clean_tags_spec(tags).len() <= tags.len(),
        forall|k: int|
            0 <= k < clean_tags_spec(tags).len() ==> (#[trigger] clean_tags_spec(tags)[k]).len() > 0
                && trim_spec(clean_tags_spec(tags)[k]) == clean_tags_spec(tags)[k],
    decreases tags.len(),
{
    if tags.len() > 0 {
        let p = tags.drop_last();
        law_clean_tags_are_trimmed(p);
        law_trim_idempotent(tags.last());
        let c = clean_tags_spec(tags);
        let cp = clean_tags_spec(p);
        assert(c == match clean_tag(tags.last()) {
            Some(x) => cp + seq![x],
            None => cp,
        });
        assert forall|k: int| 0 <= k < c.len() implies (#[trigger] c[k]).len() > 0 && trim_spec(c[k])
            == c[k] by {
            if k < cp.len() {
                assert(c[k] == cp[k]);
            }
        }
    }
}


// ---------------------------------------------------------------------------
// Listings
// ---------------------------------------------------------------------------

/// Two sorted sequences with the same elements, any two of which are ordered
/// one way or the other, are the same sequence.
proof fn lemma_sorted_unique<T: RowOrder>(r1: Seq<T::V>, r2: Seq<T::V>)
    requires
        rows_sorted::<T>(r1),
        rows_sorted::<T>(r2),
        r1.to_multiset() == r2.to_multiset(),
        forall|a: T::V, b: T::V|
            r1.contains(a) && r1.contains(b) && a != b ==> T::row_before(a, b) || T::row_before(
                b,
                a,
            ),
    ensures
        r1 == r2,
    decreases r1.len(),
{
    broadcast use vstd::seq_lib::group_to_multiset_ensures;
    if r1.len() == 0 {
        assert(r1.to_multiset().len() == r1.len());
        assert(r2.to_multiset().len() == r2.len());
        assert(r2.len() == 0);
        assert(r1 =~= r2);
    } else {
        assert(r1.to_multiset().len() == r1.len());
        assert(r2.to_multiset().len() == r2.len());
        assert(r2.len() == r1.len());
        let x = r1[0];
        let y = r2[0];
        vstd::seq_lib::to_multiset_contains(r1, y);
        vstd::seq_lib::to_multiset_contains(r2, x);
        assert(r2.contains(y));
        assert(r1.contains(x));
        assert(r1.to_multiset().count(y) > 0);
        assert(r1.contains(y));
        assert(r2.contains(x));
        if x != y {
            if T::row_before(x, y) {
                let j = choose|j: int| 0 <= j < r2.len() && r2[j] == x;
                assert(j != 0);
                assert(!T::row_before(r2[j], r2[0]));
            } else {
                assert(T::row_before(y, x));
                let i = choose|i: int| 0 <= i < r1.len() && r1[i] == y;
                assert(i != 0);
                assert(!T::row_before(r1[i], r1[0]));
            }
        }
        let t1 = r1.drop_first();
        let t2 = r2.drop_first();
        vstd::seq_lib::to_multiset_remove(r1, 0);
        vstd::seq_lib::to_multiset_remove(r2, 0);
        assert(r1.remove(0) =~= t1);
        assert(r2.remove(0) =~= t2);
        assert forall|i: int, j: int| 0 <= i < j < t1.len() implies !T::row_before(
            #[trigger] t1[j],
            #[trigger] t1[i],
        ) by {
            assert(t1[j] == r1[j + 1]);
            assert(t1[i] == r1[i + 1]);
        }
        assert forall|i: int, j: int| 0 <= i < j < t2.len() implies !T::row_before(
            #[trigger] t2[j],
            #[trigger] t2[i],
        ) by {
            assert(t2[j] == r2[j + 1]);
            assert(t2[i] == r2[i + 1]);
        }
        assert forall|a: T::V, b: T::V|
            t1.contains(a) && t1.contains(b) && a != b implies T::row_before(a, b)
            || T::row_before(b, a) by {
            let i = choose|i: int| 0 <= i < t1.len() && t1[i] == a;
            let j = choose|j: int| 0 <= j < t1.len() && t1[j] == b;
            assert(r1[i + 1] == a);
            assert(r1[j + 1] == b);
        }
        lemma_sorted_unique::<T>(t1, t2);
        assert(r1 =~= r2) by {
            assert forall|k: int| 0 <= k < r1.len() implies r1[k] == r2[k] by {
                if k > 0 {
                    assert(r1[k] == t1[k - 1]);
                    assert(r2[k] == t2[k - 1]);
                }
            }
        }
    }
}

/// Two listings of a table whose rows are pairwise ordered are the same.
proof fn lemma_listing_unique<T: RowOrder>(table: Seq<T::V>, r1: Seq<T::V>, r2: Seq<T::V>)
    requires
        listing::<T>(table, r1),
        listing::<T>(table, r2),
        forall|i: int, j: int|
            0 <= i < table.len() && 0 <= j < table.len() && i != j ==> T::row_before(
                #[trigger] table[i],
                #[trigger] table[j],
            ) || T::row_before(table[j], table[i]),
    ensures
        r1 == r2,
{
    broadcast use vstd::seq_lib::group_to_multiset_ensures;
    assert forall|a: T::V, b: T::V|
        r1.contains(a) && r1.contains(b) && a != b implies T::row_before(a, b) || T::row_before(
        b,
        a,
    ) by {
        vstd::seq_lib::to_multiset_contains(r1, a);
        vstd::seq_lib::to_multiset_contains(r1, b);
        vstd::seq_lib::to_multiset_contains(table, a);
        vstd::seq_lib::to_multiset_contains(table, b);
        let i = choose|i: int| 0 <= i < table.len() && table[i] == a;
        let j = choose|j: int| 0 <= j < table.len() && table[j] == b;
    }
    lemma_sorted_unique::<T>(r1, r2);
}

/// The board lists each table in exactly one way: two listings of the same
/// table are equal, so what the board shows is determined by the tables.
pub proof fn law_listings_are_unique(
    s: StoreView,
    boards1: Seq<BoardDefinitionView>,
    boards2: Seq<BoardDefinitionView>,
    lanes1: Seq<LaneRecordView>,
    lanes2: Seq<LaneRecordView>,
    objects1: Seq<ObjectRecordView>,
    objects2: Seq<ObjectRecordView>,
    tags1: Seq<TagDefinitionView>,
    tags2: Seq<TagDefinitionView>,
)
    requires
        store_wf(s),
        listing::<BoardDefinition>(s.boards, boards1),
        listing::<BoardDefinition>(s.boards, boards2),
        listing::<LaneRecord>(s.lanes, lanes1),
        listing::<LaneRecord>(s.lanes, lanes2),
        listing::<ObjectRecord>(s.objects, objects1),
        listing::<ObjectRecord>(s.objects, objects2),
        listing::<TagDefinition>(s.tags, tags1),
        listing::<TagDefinition>(s.tags, tags2),
    ensures
        boards1 == boards2,
        lanes1 == lanes2,
        objects1 == objects2,
        tags1 == tags2,
{
    assert forall|i: int, j: int|
        0 <= i < s.boards.len() && 0 <= j < s.boards.len() && i != j implies BoardDefinition::row_before(
        #[trigger] s.boards[i],
        #[trigger] s.boards[j],
    ) || BoardDefinition::row_before(s.boards[j], s.boards[i]) by {
        lemma_text_lt_total(s.boards[i].id, s.boards[j].id);
    }
    lemma_listing_unique::<BoardDefinition>(s.boards, boards1, boards2);
    assert forall|i: int, j: int|
        0 <= i < s.lanes.len() && 0 <= j < s.lanes.len() && i != j implies LaneRecord::row_before(
        #[trigger] s.lanes[i],
        #[trigger] s.lanes[j],
    ) || LaneRecord::row_before(s.lanes[j], s.lanes[i]) by {
        lemma_text_lt_total(s.lanes[i].id, s.lanes[j].id);
    }
    lemma_listing_unique::<LaneRecord>(s.lanes, lanes1, lanes2);
    assert forall|i: int, j: int|
        0 <= i < s.objects.len() && 0 <= j < s.objects.len() && i != j implies ObjectRecord::row_before(
        #[trigger] s.objects[i],
        #[trigger] s.objects[j],
    ) || ObjectRecord::row_before(s.objects[j], s.objects[i]) by {
        let a = s.objects[i];
        let b = s.objects[j];
        lemma_text_lt_total(a.board.board, b.board.board);
        lemma_text_lt_total(a.board.lane, b.board.lane);
        lemma_text_lt_total(a.id, b.id);
    }
    lemma_listing_unique::<ObjectRecord>(s.objects, objects1, objects2);
    assert forall|i: int, j: int|
        0 <= i < s.tags.len() && 0 <= j < s.tags.len() && i != j implies TagDefinition::row_before(
        #[trigger] s.tags[i],
        #[trigger] s.tags[j],
    ) || TagDefinition::row_before(s.tags[j], s.tags[i]) by {
        lemma_text_lt_total(s.tags[i].tag, s.tags[j].tag);
    }
    lemma_listing_unique::<TagDefinition>(s.tags, tags1, tags2);
}


// ---------------------------------------------------------------------------
// Nothing is deleted
// ---------------------------------------------------------------------------

/// No request removes an object: every object id of the tables before a
/// create, update, move or tag colour request is still there after it, and
/// so after starting the board on tables of the current layout version.
pub proof fn law_objects_are_never_removed(
    s: StoreView,
    object_type: Seq<char>,
    id: Seq<char>,
    identity: crate::model::ObjectIdentityView,
    board: crate::model::PlacementView,
    tags: Seq<Seq<char>>,
    notes: Seq<char>,
    payload: crate::json::JsonView,
    lane: Seq<char>,
    order: i64,
    now: Seq<char>,
    def: TagDefinitionView,
    kept: Seq<char>,
)
    requires
        store_wf(s),
        id_in_use(s.objects, kept),
    ensures
        id_in_use(create_spec(s, object_type, identity, board, tags, notes, payload, now).objects, kept),
        id_in_use(update_spec(s, id, identity, board, tags, notes, payload, now).objects, kept),
        id_in_use(move_spec(s, id, board.board, lane, order, now).objects, kept),
        id_in_use(update_tag_spec(s, def).objects, kept),
        s.schema_version == Some(current_schema()) ==> id_in_use(initialize_spec(s).objects, kept),
{
    let i = choose|i: int| 0 <= i < s.objects.len() && ObjectRecord::key_of(#[trigger] s.objects[i]) == kept;
    lemma_key_index::<ObjectRecord>(s.objects, id);
    let c = create_spec(s, object_type, identity, board, tags, notes, payload, now);
    assert(c.objects[i] == s.objects[i]);
    let u = update_spec(s, id, identity, board, tags, notes, payload, now);
    assert(u.objects[i].id == s.objects[i].id);
    let m = move_spec(s, id, board.board, lane, order, now);
    assert(m.objects[i].id == s.objects[i].id);
    assert(update_tag_spec(s, def).objects[i] == s.objects[i]);
    if s.schema_version == Some(current_schema()) {
        assert(initialize_spec(s).objects == s.objects);
    }
}


/// What a create request adds is what the board then shows: the object the
/// request wrote is among the objects listed after it.
pub proof fn law_created_object_is_listed(
    s: StoreView,
    object_type: Seq<char>,
    identity: crate::model::ObjectIdentityView,
    board: crate::model::PlacementView,
    tags: Seq<Seq<char>>,
    notes: Seq<char>,
    payload: crate::json::JsonView,
    now: Seq<char>,
    shown: crate::model::BoardDataView,
)
    requires
        board_data_of(create_spec(s, object_type, identity, board, tags, notes, payload, now), shown),
    ensures
        shown.objects.contains(
            shown_object(
                create_spec(s, object_type, identity, board, tags, notes, payload, now).objects.last(),
            ),
        ),
{
    let t = create_spec(s, object_type, identity, board, tags, notes, payload, now);
    let o = t.objects.last();
    let records = choose|records: Seq<ObjectRecordView>|
        listing::<ObjectRecord>(t.objects, records) && shown.objects == objects_shown(records);
    assert(t.objects[t.objects.len() - 1] == o);
    vstd::seq_lib::to_multiset_contains(t.objects, o);
    vstd::seq_lib::to_multiset_contains(records, o);
    let k = choose|k: int| 0 <= k < records.len() && records[k] == o;
    assert(shown.objects[k] == shown_object(o));
}


// ---------------------------------------------------------------------------
// Reading back what was written
// ---------------------------------------------------------------------------

/// A reordering of a table whose keys are distinct has distinct keys.
proof fn lemma_permutation_keys_distinct<T: Keyed>(table: Seq<T::V>, r: Seq<T::V>)
    requires
        keys_distinct::<T>(table),
        r.to_multiset() == table.to_multiset(),
    ensures
        keys_distinct::<T>(r),
{
    broadcast use vstd::multiset::group_multiset_axioms;
    assert forall|a: int, b: int|
        0 <= a < r.len() && 0 <= b < r.len() && a != b implies T::key_of(#[trigger] r[a])
        != T::key_of(#[trigger] r[b]) by {
        if T::key_of(r[a]) == T::key_of(r[b]) {
            let x = r[a];
            let y = r[b];
            assert(r.contains(x));
            assert(r.contains(y));
            vstd::seq_lib::to_multiset_contains(r, x);
            vstd::seq_lib::to_multiset_contains(r, y);
            vstd::seq_lib::to_multiset_contains(table, x);
            vstd::seq_lib::to_multiset_contains(table, y);
            let i = choose|i: int| 0 <= i < table.len() && table[i] == x;
            let j = choose|j: int| 0 <= j < table.len() && table[j] == y;
            assert(i == j);
            let ra = r.remove(a);
            vstd::seq_lib::to_multiset_remove(r, a);
            let b2 = if b < a {
                b
            } else {
                b - 1
            };
            assert(ra[b2] == x);
            assert(ra.contains(x));
            vstd::seq_lib::to_multiset_contains(ra, x);
            assert(r.to_multiset().count(x) >= 2);
            let ti = table.remove(i);
            vstd::seq_lib::to_multiset_remove(table, i);
            assert(!ti.contains(x)) by {
                if ti.contains(x) {
                    let k = choose|k: int| 0 <= k < ti.len() && ti[k] == x;
                    let k2 = if k < i {
                        k
                    } else {
                        k + 1
                    };
                    assert(table[k2] == x);
                }
            }
            vstd::seq_lib::to_multiset_contains(ti, x);
            assert(table.to_multiset().count(x) == 1);
        }
    }
}

/// Any two rows of an object table with distinct ids are ordered one way or
/// the other.
proof fn lemma_objects_pairwise_ordered(table: Seq<ObjectRecordView>)
    requires
        keys_distinct::<ObjectRecord>(table),
    ensures
        forall|i: int, j: int|
            0 <= i < table.len() && 0 <= j < table.len() && i != j ==> ObjectRecord::row_before(
                #[trigger] table[i],
                #[trigger] table[j],
            ) || ObjectRecord::row_before(table[j], table[i]),
{
    assert forall|i: int, j: int|
        0 <= i < table.len() && 0 <= j < table.len() && i != j implies ObjectRecord::row_before(
        #[trigger] table[i],
        #[trigger] table[j],
    ) || ObjectRecord::row_before(table[j], table[i]) by {
        let a = table[i];
        let b = table[j];
        lemma_text_lt_total(a.board.board, b.board.board);
        lemma_text_lt_total(a.board.lane, b.board.lane);
        lemma_text_lt_total(a.id, b.id);
    }
}

/// Rows written with `INSERT OR IGNORE` whose keys are all present already
/// leave the table as it was.
proof fn lemma_ignore_all_present(table: Seq<TagDefinitionView>, rows: Seq<TagDefinitionView>)
    requires
        forall|k: int| 0 <= k < rows.len() ==> has_key::<TagDefinition>(table, #[trigger] rows[k].tag),
    ensures
        ignore_all_spec::<TagDefinition>(table, rows) == table,
    decreases rows.len(),
{
    if rows.len() > 0 {
        let p = rows.drop_last();
        assert forall|k: int| 0 <= k < p.len() implies has_key::<TagDefinition>(
            table,
            #[trigger] p[k].tag,
        ) by {
            assert(p[k] == rows[k]);
        }
        lemma_ignore_all_present(table, p);
        let x = rows.last();
        assert(has_key::<TagDefinition>(table, rows[rows.len() - 1].tag));
        lemma_key_index::<TagDefinition>(table, x.tag);
    }
}

/// Writing an object with `INSERT OR REPLACE` and reading the objects back
/// gives it back: the table then holds exactly one row with its id, that row
/// shows the object in every field, every row of another id stays as it was,
/// and no other row appears. The same holds of the listed objects.
pub proof fn law_insert_object_read_after_write(
    s: StoreView,
    o: crate::model::ObjectView,
    before: Seq<ObjectRecordView>,
    after: Seq<ObjectRecordView>,
)
    requires
        store_wf(s),
    ensures
        ({
            let r = crate::model::record_of_object(o);
            let t = replace_spec::<ObjectRecord>(s.objects, r);
            &&& keys_distinct::<ObjectRecord>(t)
            &&& t.last() == r && shown_object(r) == o
            &&& forall|j: int| 0 <= j < t.len() && (#[trigger] t[j]).id == o.id ==> t[j] == r
            &&& forall|j: int|
                0 <= j < s.objects.len() && s.objects[j].id != o.id ==> t.contains(
                    #[trigger] s.objects[j],
                )
            &&& forall|j: int| 0 <= j < t.len() && t[j].id != o.id ==> s.objects.contains(#[trigger] t[j])
            &&& listing::<ObjectRecord>(t, after) ==> {
                &&& keys_distinct::<ObjectRecord>(after)
                &&& exists|k: int| 0 <= k < after.len() && (#[trigger] after[k]).id == o.id
                &&& forall|k: int|
                    0 <= k < after.len() && (#[trigger] after[k]).id == o.id ==> objects_shown(
                        after,
                    )[k] == o
            }
            &&& listing::<ObjectRecord>(s.objects, before) && listing::<ObjectRecord>(t, after) ==> {
                &&& forall|x: ObjectRecordView| before.contains(x) && x.id != o.id ==> after.contains(x)
                &&& forall|x: ObjectRecordView| after.contains(x) && x.id != o.id ==> before.contains(x)
            }
        }),
{
    let r = crate::model::record_of_object(o);
    let t = replace_spec::<ObjectRecord>(s.objects, r);
    let so = s.objects;
    lemma_key_index::<ObjectRecord>(so, o.id);
    lemma_replace_distinct::<ObjectRecord>(so, r);
    let i = key_index::<ObjectRecord>(so, o.id);
    let n = t.len() - 1;
    assert(t[n] == r);
    assert forall|j: int| 0 <= j < t.len() && (#[trigger] t[j]).id == o.id implies t[j] == r by {
        if j != n {
            assert(ObjectRecord::key_of(t[j]) != ObjectRecord::key_of(t[n]));
        }
    }
    assert forall|j: int| 0 <= j < so.len() && so[j].id != o.id implies t.contains(
        #[trigger] so[j],
    ) by {
        if i >= 0 {
            let j2 = if j < i {
                j
            } else {
                j - 1
            };
            assert(t[j2] == so[j]);
        } else {
            assert(t[j] == so[j]);
        }
    }
    assert forall|j: int| 0 <= j < t.len() && t[j].id != o.id implies so.contains(#[trigger] t[j]) by {
        if i >= 0 {
            let j2 = if j < i {
                j
            } else {
                j + 1
            };
            assert(t[j] == so[j2]);
        } else {
            assert(t[j] == so[j]);
        }
    }
    if listing::<ObjectRecord>(t, after) {
        lemma_permutation_keys_distinct::<ObjectRecord>(t, after);
        assert(t.contains(r));
        vstd::seq_lib::to_multiset_contains(t, r);
        vstd::seq_lib::to_multiset_contains(after, r);
        let k = choose|k: int| 0 <= k < after.len() && after[k] == r;
        assert(after[k].id == o.id);
        assert forall|k: int| 0 <= k < after.len() && (#[trigger] after[k]).id == o.id implies objects_shown(
            after,
        )[k] == o by {
            let x = after[k];
            assert(after.contains(x));
            vstd::seq_lib::to_multiset_contains(after, x);
            vstd::seq_lib::to_multiset_contains(t, x);
            let j = choose|j: int| 0 <= j < t.len() && t[j] == x;
            assert(t[j] == r);
        }
    }
    if listing::<ObjectRecord>(so, before) && listing::<ObjectRecord>(t, after) {
        assert forall|x: ObjectRecordView| before.contains(x) && x.id != o.id implies after.contains(x) by {
            vstd::seq_lib::to_multiset_contains(before, x);
            vstd::seq_lib::to_multiset_contains(so, x);
            let j = choose|j: int| 0 <= j < so.len() && so[j] == x;
            assert(t.contains(so[j]));
            vstd::seq_lib::to_multiset_contains(t, x);
            vstd::seq_lib::to_multiset_contains(after, x);
        }
        assert forall|x: ObjectRecordView| after.contains(x) && x.id != o.id implies before.contains(x) by {
            vstd::seq_lib::to_multiset_contains(after, x);
            vstd::seq_lib::to_multiset_contains(t, x);
            let j = choose|j: int| 0 <= j < t.len() && t[j] == x;
            assert(so.contains(t[j]));
            vstd::seq_lib::to_multiset_contains(so, x);
            vstd::seq_lib::to_multiset_contains(before, x);
        }
    }
}

/// Rewriting an object with its own values (its identity already trimmed,
/// its tags already clean, its notes already trimmed, all its JSON columns
/// readable) changes nothing but its update times: in the table, the row
/// keeps its place and every other field; every other row, the workspace,
/// boards and lanes stay; the tag colours stay where every shown tag is
/// coloured; and the listed objects are the same, in the same order, but for
/// the two update times of that object.
pub proof fn law_update_with_own_values_touches_only_times(
    s: StoreView,
    i: int,
    identity: crate::model::ObjectIdentityView,
    meta: MetadataView,
    payload: crate::json::JsonView,
    now: Seq<char>,
    before: Seq<ObjectRecordView>,
    after: Seq<ObjectRecordView>,
)
    requires
        store_wf(s),
        0 <= i < s.objects.len(),
        s.objects[i].identity == StoredView::Read(identity),
        s.objects[i].metadata == StoredView::Read(meta),
        s.objects[i].payload == StoredView::Read(payload),
        updated_identity(identity) == identity,
        clean_tags_spec(meta.tags) == meta.tags,
        trim_spec(meta.notes) == meta.notes,
    ensures
        ({
            let a = s.objects[i];
            let b = ObjectRecordView {
                updated_at: now,
                metadata: StoredView::Read(MetadataView { updated_at: now, ..meta }),
                ..a
            };
            let t = update_spec(s, a.id, identity, a.board, meta.tags, meta.notes, payload, now);
            &&& t.objects == s.objects.update(i, b)
            &&& t.schema_version == s.schema_version && t.workspaces == s.workspaces
                && t.boards == s.boards && t.lanes == s.lanes
            &&& tags_covered(s) ==> t.tags == s.tags
            &&& listing::<ObjectRecord>(s.objects, before) && listing::<ObjectRecord>(t.objects, after) ==> {
                &&& after.len() == before.len()
                &&& forall|k: int|
                    0 <= k < before.len() ==> #[trigger] after[k] == (if before[k].id == a.id {
                        b
                    } else {
                        before[k]
                    })
                &&& forall|k: int|
                    0 <= k < before.len() ==> #[trigger] objects_shown(after)[k] == (if before[k].id
                        == a.id {
                        crate::model::ObjectView {
                            updated_at: now,
                            metadata: MetadataView { updated_at: now, ..objects_shown(before)[k].metadata },
                            ..objects_shown(before)[k]
                        }
                    } else {
                        objects_shown(before)[k]
                    })
            }
        }),
{
    let so = s.objects;
    let a = so[i];
    let b = ObjectRecordView {
        updated_at: now,
        metadata: StoredView::Read(MetadataView { updated_at: now, ..meta }),
        ..a
    };
    let t = update_spec(s, a.id, identity, a.board, meta.tags, meta.notes, payload, now);
    lemma_key_index::<ObjectRecord>(so, a.id);
    assert(key_index::<ObjectRecord>(so, a.id) == i);
    assert(crate::change::updated_object(a, identity, a.board, meta.tags, meta.notes, payload, now) == b);
    assert(t.objects == so.update(i, b));
    if tags_covered(s) {
        let rows = new_tag_rows(clean_tags_spec(meta.tags));
        assert(record_tags(so[i]) == meta.tags);
        assert forall|k: int| 0 <= k < rows.len() implies has_key::<TagDefinition>(
            s.tags,
            #[trigger] rows[k].tag,
        ) by {
            assert(rows[k].tag == record_tags(so[i])[k]);
        }
        lemma_ignore_all_present(s.tags, rows);
    }
    if listing::<ObjectRecord>(so, before) && listing::<ObjectRecord>(t.objects, after) {
        let to = t.objects;
        lemma_update_distinct::<ObjectRecord>(so, i, b);
        lemma_permutation_keys_distinct::<ObjectRecord>(so, before);
        assert(so.contains(a));
        vstd::seq_lib::to_multiset_contains(so, a);
        vstd::seq_lib::to_multiset_contains(before, a);
        let k0 = choose|k: int| 0 <= k < before.len() && before[k] == a;
        let r2 = before.update(k0, b);
        vstd::seq_lib::to_multiset_update(before, k0, b);
        vstd::seq_lib::to_multiset_update(so, i, b);
        assert(r2.to_multiset() == to.to_multiset());
        assert forall|p: int, q: int| 0 <= p < q < r2.len() implies !ObjectRecord::row_before(
            #[trigger] r2[q],
            #[trigger] r2[p],
        ) by {
            assert(!ObjectRecord::row_before(before[q], before[p]));
        }
        assert(listing::<ObjectRecord>(to, r2));
        lemma_objects_pairwise_ordered(to);
        lemma_listing_unique::<ObjectRecord>(to, after, r2);
        assert forall|k: int| 0 <= k < before.len() implies #[trigger] after[k] == (if before[k].id
            == a.id {
            b
        } else {
            before[k]
        }) by {
            if k != k0 {
                assert(ObjectRecord::key_of(before[k]) != ObjectRecord::key_of(before[k0]));
            }
        }
        assert forall|k: int| 0 <= k < before.len() implies #[trigger] objects_shown(after)[k] == (
        if before[k].id == a.id {
            crate::model::ObjectView {
                updated_at: now,
                metadata: MetadataView { updated_at: now, ..objects_shown(before)[k].metadata },
                ..objects_shown(before)[k]
            }
        } else {
            objects_shown(before)[k]
        }) by {
            assert(after[k] == (if before[k].id == a.id {
                b
            } else {
                before[k]
            }));
        }
    }
}


// ---------------------------------------------------------------------------
// What a create request writes
// ---------------------------------------------------------------------------

/// The object a create request adds is the request itself, cleaned: it has
/// the requested type and the schema of that type (City Hall documents and
/// PowerShell operators their own, every other type the project schema), the
/// requested placement, the request's payload unchanged, the request's
/// identity and notes trimmed, the request's non-blank tags trimmed, and
/// `now` as every time stamp. The board shows it with that very payload.
pub proof fn law_created_object_carries_the_request(
    s: StoreView,
    object_type: Seq<char>,
    identity: crate::model::ObjectIdentityView,
    board: crate::model::PlacementView,
    tags: Seq<Seq<char>>,
    notes: Seq<char>,
    payload: crate::json::JsonView,
    now: Seq<char>,
)
    ensures
        ({
            let o = create_spec(s, object_type, identity, board, tags, notes, payload, now).objects.last();
            &&& o.object_type == object_type
            &&& o.payload == StoredView::Read(payload)
            &&& shown_object(o).payload == payload
            &&& o.board == board
            &&& object_type == "city-hall"@ ==> o.schema == "aptlantis.city-hall"@
            &&& object_type == "powershell-operator"@ ==> o.schema == "aptlantis.powershell-operator"@
            &&& object_type != "city-hall"@ && object_type != "powershell-operator"@ ==> o.schema
                == "aptlantis.project"@
            &&& o.schema == schema_of(object_type)
            &&& o.schema_version == "0.1"@
            &&& o.created_at == now && o.updated_at == now
            &&& o.identity matches StoredView::Read(x) && x.name == trim_spec(identity.name)
                && x.summary == trim_spec(identity.summary) && (trim_spec(identity.id).len() > 0
                ==> x.id == identity.id) && (trim_spec(identity.id).len() == 0 ==> x.id == o.id)
            &&& o.metadata matches StoredView::Read(m) && m.tags == clean_tags_spec(tags)
                && m.notes == trim_spec(notes) && m.created_at == now && m.updated_at == now
        }),
{
    let t = create_spec(s, object_type, identity, board, tags, notes, payload, now);
    let id = unique_id_spec(s.objects, identity.id, identity.name);
    let order = crate::change::next_card_order_spec(s.objects, board.board, board.lane);
    let c = crate::change::created_object(
        object_type,
        identity,
        board,
        tags,
        notes,
        payload,
        id,
        order,
        now,
    );
    assert(t.objects.last() == crate::model::record_of_object(c));
    reveal_strlit("city-hall");
    reveal_strlit("powershell-operator");
    assert("city-hall"@ != "powershell-operator"@) by {
        assert("city-hall"@[0] != "powershell-operator"@[0]);
    }
}

// ---------------------------------------------------------------------------
// Lanes written and read back
// ---------------------------------------------------------------------------

/// A lane stored at a position and read back is the same lane: its types
/// are stored as a readable list (or none), its flag is stored as set
/// exactly when it is set, and its position is the one it was stored at.
pub proof fn law_lane_record_round_trip(l: BoardLaneView, position: i64)
    ensures
        record_of_lane(l, position).placeholder == (l.placeholder == Some(true)),
        record_of_lane(l, position).position == position,
        record_of_lane(l, position).id == l.id,
        match l.allowed_types {
            Some(ts) => record_of_lane(l, position).allowed_types == Some(StoredView::Read(ts)),
            None => record_of_lane(l, position).allowed_types is None,
        },
        l.placeholder is Some ==> lane_of_record(record_of_lane(l, position)) == l,
        lane_of_record(record_of_lane(l, position)).placeholder == Some(l.placeholder == Some(true)),
{
}

/// Starting the board on tables of another layout version (or none) and then
/// reading the lanes shows exactly the default lanes, in their order: the
/// typed lanes with their types, the stock lane as a placeholder.
pub proof fn law_initialized_lanes_are_the_default_lanes(s: StoreView, records: Seq<LaneRecordView>)
    requires
        s.schema_version != Some(current_schema()),
        listing::<LaneRecord>(initialize_spec(s).lanes, records),
    ensures
        lanes_shown(records) == default_lanes_spec(),
{
    law_stale_version_starts_afresh(s);
    let lanes = initialize_spec(s).lanes;
    let d = default_lane_records();
    lemma_default_lanes_distinct();
    let e = Seq::<LaneRecordView>::empty();
    assert(keys_distinct::<LaneRecord>(e));
    let kept = lemma_replace_all_suffix::<LaneRecord>(e, d);
    assert(kept.len() == 0);
    assert(kept + d =~= d);
    assert(lanes == d);
    assert(rows_sorted::<LaneRecord>(d)) by {
        assert forall|i: int, j: int| 0 <= i < j < d.len() implies !LaneRecord::row_before(
            #[trigger] d[j],
            #[trigger] d[i],
        ) by {
            assert(d[i].position == i as i64);
            assert(d[j].position == j as i64);
        }
    }
    assert(listing::<LaneRecord>(lanes, d));
    assert forall|i: int, j: int|
        0 <= i < lanes.len() && 0 <= j < lanes.len() && i != j implies LaneRecord::row_before(
        #[trigger] lanes[i],
        #[trigger] lanes[j],
    ) || LaneRecord::row_before(lanes[j], lanes[i]) by {
        assert(d[i].position == i as i64);
        assert(d[j].position == j as i64);
    }
    lemma_listing_unique::<LaneRecord>(lanes, records, d);
    let dl = default_lanes_spec();
    assert forall|i: int| 0 <= i < dl.len() implies #[trigger] lanes_shown(d)[i] == dl[i] by {
        law_lane_record_round_trip(dl[i], i as i64);
    }
    assert(lanes_shown(d) =~= dl);
}

// ---------------------------------------------------------------------------
// Cleaning tags
// ---------------------------------------------------------------------------

/// One tag is kept, trimmed, exactly when it is not blank: no tag that holds
/// anything but white space is dropped.
pub proof fn law_clean_single_tag(t: Seq<char>)
    ensures
        trim_spec(t).len() > 0 ==> clean_tags_spec(seq![t]) == seq![trim_spec(t)],
        trim_spec(t).len() == 0 ==> clean_tags_spec(seq![t]) == Seq::<Seq<char>>::empty(),
{
    let one = seq![t];
    assert(one.drop_last() =~= Seq::<Seq<char>>::empty());
    assert(one.last() == t);
    assert(clean_tags_spec(Seq::<Seq<char>>::empty()) =~= Seq::<Seq<char>>::empty());
    if trim_spec(t).len() > 0 {
        assert(Seq::<Seq<char>>::empty() + seq![trim_spec(t)] =~= seq![trim_spec(t)]);
    }
}

/// Cleaning works tag by tag: the cleaned tags of two lists one after the
/// other are the cleaned tags of the first followed by those of the second.
pub proof fn law_clean_tags_concat(a: Seq<Seq<char>>, b: Seq<Seq<char>>)
    ensures
        clean_tags_spec(a + b) == clean_tags_spec(a) + clean_tags_spec(b),
    decreases b.len(),
{
    if b.len() == 0 {
        assert(a + b =~= a);
        assert(clean_tags_spec(b) =~= Seq::<Seq<char>>::empty());
        assert(clean_tags_spec(a) + clean_tags_spec(b) =~= clean_tags_spec(a));
    } else {
        let p = b.drop_last();
        law_clean_tags_concat(a, p);
        assert((a + b).drop_last() =~= a + p);
        assert((a + b).last() == b.last());
        match clean_tag(b.last()) {
            Some(x) => {
                assert(clean_tags_spec(a) + (clean_tags_spec(p) + seq![x]) =~= (clean_tags_spec(a)
                    + clean_tags_spec(p)) + seq![x]);
            },
            None => {},
        }
    }
}

/// Every non-blank tag survives cleaning: the cleaned list holds exactly one
/// tag for each given tag that is not blank, in order, each trimmed.
pub proof fn law_clean_tags_keep_every_non_blank_tag(tags: Seq<Seq<char>>, i: int)
    requires
        0 <= i < tags.len(),
        trim_spec(tags[i]).len() > 0,
    ensures
        clean_tags_spec(tags) == clean_tags_spec(tags.subrange(0, i)) + seq![trim_spec(tags[i])]
            + clean_tags_spec(tags.subrange(i + 1, tags.len() as int)),
{
    let a = tags.subrange(0, i);
    let m = seq![tags[i]];
    let c = tags.subrange(i + 1, tags.len() as int);
    assert(tags =~= a + m + c);
    law_clean_tags_concat(a + m, c);
    law_clean_tags_concat(a, m);
    law_clean_single_tag(tags[i]);
}


// ---------------------------------------------------------------------------
// Places, acronyms, update times and new tag colours
// ---------------------------------------------------------------------------

/// The largest place of a lane is that of one of its objects, and there is
/// none exactly when the lane is empty.
proof fn lemma_lane_max_attained(objects: Seq<ObjectRecordView>, board: Seq<char>, lane: Seq<char>)
    ensures
        lane_max(objects, board, lane) is None <==> !exists|j: int|
            0 <= j < objects.len() && #[trigger] objects[j].board.board == board
                && objects[j].board.lane == lane,
        lane_max(objects, board, lane) matches Some(m) ==> exists|j: int|
            0 <= j < objects.len() && #[trigger] objects[j].board.board == board
                && objects[j].board.lane == lane && objects[j].card_order == m,
    decreases objects.len(),
{
    if objects.len() > 0 {
        let p = objects.drop_last();
        lemma_lane_max_attained(p, board, lane);
        let n = objects.len() - 1;
        assert(objects[n] == objects.last());
        assert forall|j: int| 0 <= j < p.len() implies #[trigger] p[j] == objects[j] by {}
        if lane_max(p, board, lane) is None {
            assert forall|j: int|
                0 <= j < n && #[trigger] objects[j].board.board == board implies objects[j].board.lane
                != lane by {
                assert(p[j] == objects[j]);
            }
        } else {
            let j = choose|j: int|
                0 <= j < p.len() && #[trigger] p[j].board.board == board && p[j].board.lane == lane
                    && p[j].card_order == lane_max(p, board, lane)->0;
            assert(objects[j] == p[j]);
        }
    }
}

/// The object a create request adds goes after every object of its lane:
/// its place is `1` in an empty lane, and otherwise one more than the largest
/// place there.
pub proof fn law_created_object_goes_after_its_lane(
    s: StoreView,
    object_type: Seq<char>,
    identity: crate::model::ObjectIdentityView,
    board: crate::model::PlacementView,
    tags: Seq<Seq<char>>,
    notes: Seq<char>,
    payload: crate::json::JsonView,
    now: Seq<char>,
)
    requires
        !card_order_overflows(s.objects, board.board, board.lane),
    ensures
        ({
            let o = create_spec(s, object_type, identity, board, tags, notes, payload, now).objects.last();
            let so = s.objects;
            &&& (forall|j: int|
                0 <= j < so.len() && #[trigger] so[j].board.board == board.board
                    ==> so[j].board.lane != board.lane) ==> o.card_order == 1
            &&& forall|j: int|
                0 <= j < so.len() && #[trigger] so[j].board.board == board.board
                    && so[j].board.lane == board.lane ==> so[j].card_order < o.card_order
            &&& (exists|j: int|
                0 <= j < so.len() && #[trigger] so[j].board.board == board.board
                    && so[j].board.lane == board.lane) ==> exists|j: int|
                0 <= j < so.len() && #[trigger] so[j].board.board == board.board
                    && so[j].board.lane == board.lane && so[j].card_order + 1 == o.card_order
        }),
{
    let so = s.objects;
    lemma_lane_max_attained(so, board.board, board.lane);
    lemma_lane_max_bound(so, board.board, board.lane);
    let t = create_spec(s, object_type, identity, board, tags, notes, payload, now);
    assert(t.objects.last().card_order == crate::change::next_card_order_spec(
        so,
        board.board,
        board.lane,
    ));
}

/// The rows that `INSERT OR IGNORE` writes: every earlier row stays where it
/// was, and each added row is one of the rows written.
proof fn lemma_ignore_all_shape(table: Seq<TagDefinitionView>, rows: Seq<TagDefinitionView>)
    ensures
        ignore_all_spec::<TagDefinition>(table, rows).len() >= table.len(),
        forall|j: int|
            0 <= j < table.len() ==> #[trigger] ignore_all_spec::<TagDefinition>(table, rows)[j]
                == table[j],
        forall|j: int|
            table.len() <= j < ignore_all_spec::<TagDefinition>(table, rows).len() ==> rows.contains(
                #[trigger] ignore_all_spec::<TagDefinition>(table, rows)[j],
            ),
    decreases rows.len(),
{
    if rows.len() > 0 {
        let p = rows.drop_last();
        lemma_ignore_all_shape(table, p);
        let a = ignore_all_spec::<TagDefinition>(table, p);
        let r = ignore_all_spec::<TagDefinition>(table, rows);
        assert(r == ignore_spec::<TagDefinition>(a, rows.last()));
        assert forall|j: int| 0 <= j < table.len() implies #[trigger] r[j] == table[j] by {
            assert(r[j] == a[j]);
        }
        assert forall|j: int| table.len() <= j < r.len() implies rows.contains(#[trigger] r[j]) by {
            if j < a.len() {
                assert(r[j] == a[j]);
                let k = choose|k: int| 0 <= k < p.len() && p[k] == a[j];
                assert(rows[k] == p[k]);
            } else {
                assert(r[j] == rows[rows.len() - 1]);
            }
        }
    }
}

/// The tag colours a create or update request writes: every tag of the
/// request that is kept gets a row; every row there was stays as it was, in
/// its place; and every row added is for a tag of the request, with the
/// default colour `#8b5cf6` and no description.
pub proof fn law_requests_colour_new_tags(
    s: StoreView,
    object_type: Seq<char>,
    id: Seq<char>,
    identity: crate::model::ObjectIdentityView,
    board: crate::model::PlacementView,
    tags: Seq<Seq<char>>,
    notes: Seq<char>,
    payload: crate::json::JsonView,
    now: Seq<char>,
)
    ensures
        ({
            let c = create_spec(s, object_type, identity, board, tags, notes, payload, now).tags;
            let u = update_spec(s, id, identity, board, tags, notes, payload, now).tags;
            &&& forall|k: int|
                0 <= k < clean_tags_spec(tags).len() ==> has_key::<TagDefinition>(
                    c,
                    #[trigger] clean_tags_spec(tags)[k],
                ) && has_key::<TagDefinition>(u, clean_tags_spec(tags)[k])
            &&& c.len() >= s.tags.len() && u.len() >= s.tags.len()
            &&& forall|j: int| 0 <= j < s.tags.len() ==> #[trigger] c[j] == s.tags[j] && u[j] == s.tags[j]
            &&& forall|j: int|
                s.tags.len() <= j < c.len() ==> (#[trigger] c[j]).color == "#8b5cf6"@
                    && c[j].description is None && clean_tags_spec(tags).contains(c[j].tag)
            &&& forall|j: int|
                s.tags.len() <= j < u.len() ==> (#[trigger] u[j]).color == "#8b5cf6"@
                    && u[j].description is None && clean_tags_spec(tags).contains(u[j].tag)
        }),
{
    let ct = clean_tags_spec(tags);
    let rows = new_tag_rows(ct);
    let c = create_spec(s, object_type, identity, board, tags, notes, payload, now).tags;
    let u = update_spec(s, id, identity, board, tags, notes, payload, now).tags;
    assert(c == ignore_all_spec::<TagDefinition>(s.tags, rows));
    assert(u == ignore_all_spec::<TagDefinition>(s.tags, rows));
    lemma_ignore_all_keeps_keys(s.tags, rows);
    lemma_ignore_all_shape(s.tags, rows);
    assert forall|k: int| 0 <= k < ct.len() implies has_key::<TagDefinition>(
        c,
        #[trigger] ct[k],
    ) && has_key::<TagDefinition>(u, ct[k]) by {
        assert(rows[k].tag == ct[k]);
    }
    assert forall|j: int| s.tags.len() <= j < c.len() implies (#[trigger] c[j]).color == "#8b5cf6"@
        && c[j].description is None && ct.contains(c[j].tag) by {
        let k = choose|k: int| 0 <= k < rows.len() && rows[k] == c[j];
        assert(ct[k] == c[j].tag);
    }
}

/// An update request writes the request into the object's row: the
/// identity with every text trimmed (a blank acronym dropped), the given
/// placement and payload, the request's non-blank tags trimmed, its notes
/// trimmed, and `now` as update time; the creation time in the metadata is
/// kept from the stored metadata, or taken from the row where the stored
/// metadata cannot be read. The row's id, type, schema, place and creation
/// time stay.
pub proof fn law_update_writes_the_request(
    s: StoreView,
    id: Seq<char>,
    identity: crate::model::ObjectIdentityView,
    board: crate::model::PlacementView,
    tags: Seq<Seq<char>>,
    notes: Seq<char>,
    payload: crate::json::JsonView,
    now: Seq<char>,
    i: int,
)
    requires
        store_wf(s),
        0 <= i < s.objects.len(),
        s.objects[i].id == id,
    ensures
        ({
            let a = s.objects[i];
            let b = update_spec(s, id, identity, board, tags, notes, payload, now).objects[i];
            &&& b.id == a.id && b.object_type == a.object_type && b.schema == a.schema
            &&& b.schema_version == a.schema_version && b.card_order == a.card_order
            &&& b.created_at == a.created_at && b.updated_at == now
            &&& b.board == board && b.payload == StoredView::Read(payload)
            &&& b.identity matches StoredView::Read(x) && x.id == trim_spec(identity.id) && x.name
                == trim_spec(identity.name) && x.summary == trim_spec(identity.summary) && x.acronym
                == (match identity.acronym {
                Some(c) => if trim_spec(c).len() > 0 {
                    Some(trim_spec(c))
                } else {
                    None
                },
                None => None,
            })
            &&& b.metadata matches StoredView::Read(m) && m.tags == clean_tags_spec(tags) && m.notes
                == trim_spec(notes) && m.updated_at == now && (a.metadata matches StoredView::Read(
                am,
            ) ==> m.created_at == am.created_at) && (a.metadata is Unreadable ==> m.created_at
                == a.created_at)
        }),
{
    lemma_key_index::<ObjectRecord>(s.objects, id);
}

/// The identity a create request writes has every text trimmed and a blank
/// acronym dropped.
pub proof fn law_created_identity_is_trimmed(
    s: StoreView,
    object_type: Seq<char>,
    identity: crate::model::ObjectIdentityView,
    board: crate::model::PlacementView,
    tags: Seq<Seq<char>>,
    notes: Seq<char>,
    payload: crate::json::JsonView,
    now: Seq<char>,
)
    ensures
        create_spec(s, object_type, identity, board, tags, notes, payload, now).objects.last().identity
            matches StoredView::Read(x) && x.acronym == (match identity.acronym {
            Some(c) => if trim_spec(c).len() > 0 {
                Some(trim_spec(c))
            } else {
                None
            },
            None => None,
        }),
{
    let t = create_spec(s, object_type, identity, board, tags, notes, payload, now);
    let id = unique_id_spec(s.objects, identity.id, identity.name);
    let order = crate::change::next_card_order_spec(s.objects, board.board, board.lane);
    let c = crate::change::created_object(
        object_type,
        identity,
        board,
        tags,
        notes,
        payload,
        id,
        order,
        now,
    );
    assert(t.objects.last() == crate::model::record_of_object(c));
}

} // verus!
