//! The records of the board, each with a view whose strings are character
//! sequences.
use vstd::prelude::*;
use crate::json::{JsonValue, JsonView};

verus! {

// ---------------------------------------------------------------------------
// Helpers on strings inside records
// ---------------------------------------------------------------------------

/// A copy of a list of strings.
pub fn copy_strings(v: &Vec<String>) -> (r: Vec<String>)
    ensures
        r.deep_view() == v.deep_view(),
{
    let mut r: Vec<String> = Vec::new();
    let mut i: usize = 0;
    while i < v.len()
        invariant
            i <= v.len(),
            r.len() == i,
            r.deep_view() == v.deep_view().subrange(0, i as int),
        decreases v.len() - i,
    {
        let s = v[i].clone();
        let ghost old_r = r@;
        let ghost old_dv = r.deep_view();
        r.push(s);
        assert forall|k: int| 0 <= k < i + 1 implies r.deep_view()[k] == v.deep_view()[k] by {
            if k < i {
                assert(r@[k] == old_r[k]);
                assert(old_dv[k] == old_r[k]@);
                assert(old_dv[k] == v.deep_view().subrange(0, i as int)[k]);
            } else {
                assert(r@[k] == s);
            }
        }
        assert(r.deep_view() =~= v.deep_view().subrange(0, i + 1));
        i = i + 1;
    }
    assert(v.deep_view().subrange(0, v.len() as int) =~= v.deep_view());
    r
}

/// A copy of an optional string.
pub fn copy_opt_string(v: &Option<String>) -> (r: Option<String>)
    ensures
        r.deep_view() == v.deep_view(),
{
    match v {
        Some(s) => Some(s.clone()),
        None => None,
    }
}

// ---------------------------------------------------------------------------
// Workspace
// ---------------------------------------------------------------------------

/// The workspace the board belongs to. The storage figure is kept as the
/// decimal text of the number of gigabytes.
#[derive(Debug, PartialEq)]
pub struct Workspace {
    pub id: String,
    pub name: String,
    pub root_path: String,
    pub storage_used_gb: String,
}

pub struct WorkspaceView {
    pub id: Seq<char>,
    pub name: Seq<char>,
    pub root_path: Seq<char>,
    pub storage_used_gb: Seq<char>,
}

impl View for Workspace {
    type V = WorkspaceView;

    open spec fn view(&self) -> WorkspaceView {
        WorkspaceView {
            id: self.id@,
            name: self.name@,
            root_path: self.root_path@,
            storage_used_gb: self.storage_used_gb@,
        }
    }
}

impl Workspace {
    pub fn duplicate(&self) -> (r: Workspace)
        ensures
            r@ == self@,
    {
        Workspace {
            id: self.id.clone(),
            name: self.name.clone(),
            root_path: self.root_path.clone(),
            storage_used_gb: self.storage_used_gb.clone(),
        }
    }
}

// ---------------------------------------------------------------------------
// Stored JSON columns
// ---------------------------------------------------------------------------

/// A JSON column of a table: the value it holds, or, where its text cannot
/// be read as such a value, that text, kept as it was written.
#[derive(Debug, PartialEq)]
pub enum Stored<T> {
    Read(T),
    Unreadable(String),
}

pub enum StoredView<V> {
    Read(V),
    Unreadable(Seq<char>),
}

impl<T: View> View for Stored<T> {
    type V = StoredView<T::V>;

    open spec fn view(&self) -> StoredView<T::V> {
        match self {
            Stored::Read(x) => StoredView::Read(x@),
            Stored::Unreadable(t) => StoredView::Unreadable(t@),
        }
    }
}

/// The value a column holds, or `fallback` where its text cannot be read.
pub open spec fn read_or<V>(c: StoredView<V>, fallback: V) -> V {
    match c {
        StoredView::Read(x) => x,
        StoredView::Unreadable(_) => fallback,
    }
}

impl<T: View> Stored<T> {
    /// The column for a parse of its text: the value where the text was read,
    /// the text itself where it was not.
    pub fn from_parse(parsed: Option<T>, text: String) -> (r: Stored<T>)
        ensures
            r@ == (match parsed {
                Some(x) => StoredView::Read(x@),
                None => StoredView::Unreadable(text@),
            }),
    {
        match parsed {
            Some(x) => Stored::Read(x),
            None => Stored::Unreadable(text),
        }
    }
}

// ---------------------------------------------------------------------------
// Boards and lanes
// ---------------------------------------------------------------------------

#[derive(Debug, PartialEq)]
pub struct BoardDefinition {
    pub id: String,
    pub name: String,
    pub description: String,
}

pub struct BoardDefinitionView {
    pub id: Seq<char>,
    pub name: Seq<char>,
    pub description: Seq<char>,
}

impl View for BoardDefinition {
    type V = BoardDefinitionView;

    open spec fn view(&self) -> BoardDefinitionView {
        BoardDefinitionView { id: self.id@, name: self.name@, description: self.description@ }
    }
}

impl BoardDefinition {
    pub fn duplicate(&self) -> (r: BoardDefinition)
        ensures
            r@ == self@,
    {
        BoardDefinition {
            id: self.id.clone(),
            name: self.name.clone(),
            description: self.description.clone(),
        }
    }
}

/// A lane as the board shows it.
#[derive(Debug, PartialEq)]
pub struct BoardLane {
    pub id: String,
    pub board_id: String,
    pub title: String,
    pub tone: String,
    pub allowed_types: Option<Vec<String>>,
    pub placeholder: Option<bool>,
}

pub struct BoardLaneView {
    pub id: Seq<char>,
    pub board_id: Seq<char>,
    pub title: Seq<char>,
    pub tone: Seq<char>,
    pub allowed_types: Option<Seq<Seq<char>>>,
    pub placeholder: Option<bool>,
}

impl View for BoardLane {
    type V = BoardLaneView;

    open spec fn view(&self) -> BoardLaneView {
        BoardLaneView {
            id: self.id@,
            board_id: self.board_id@,
            title: self.title@,
            tone: self.tone@,
            allowed_types: self.allowed_types.deep_view(),
            placeholder: self.placeholder,
        }
    }
}

/// The JSON column of a lane's object types: the list of types, or, where
/// its text cannot be read as one, that text, kept as it was written.
#[derive(Debug, PartialEq)]
pub enum StoredTypes {
    Read(Vec<String>),
    Unreadable(String),
}

impl View for StoredTypes {
    type V = StoredView<Seq<Seq<char>>>;

    open spec fn view(&self) -> StoredView<Seq<Seq<char>>> {
        match self {
            StoredTypes::Read(v) => StoredView::Read(v.deep_view()),
            StoredTypes::Unreadable(t) => StoredView::Unreadable(t@),
        }
    }
}

impl StoredTypes {
    /// The column for a parse of its text: the types where the text was
    /// read, the text itself where it was not.
    pub fn from_parse(parsed: Option<Vec<String>>, text: String) -> (r: StoredTypes)
        ensures
            r@ == (match parsed {
                Some(v) => StoredView::Read(v.deep_view()),
                None => StoredView::Unreadable(text@),
            }),
    {
        match parsed {
            Some(v) => StoredTypes::Read(v),
            None => StoredTypes::Unreadable(text),
        }
    }

    pub fn duplicate(&self) -> (r: StoredTypes)
        ensures
            r@ == self@,
    {
        match self {
            StoredTypes::Read(v) => StoredTypes::Read(copy_strings(v)),
            StoredTypes::Unreadable(t) => StoredTypes::Unreadable(t.clone()),
        }
    }
}

/// The view of an optional column of object types.
pub open spec fn stored_types_view(c: Option<StoredTypes>) -> Option<StoredView<Seq<Seq<char>>>> {
    match c {
        Some(t) => Some(t@),
        None => None,
    }
}

/// A lane as the lane table keeps it: the flag stored as a plain boolean,
/// the object types as a JSON column (or none), and the lane's place among
/// all lanes.
#[derive(Debug, PartialEq)]
pub struct LaneRecord {
    pub id: String,
    pub board_id: String,
    pub title: String,
    pub tone: String,
    pub allowed_types: Option<StoredTypes>,
    pub placeholder: bool,
    pub position: i64,
}

pub struct LaneRecordView {
    pub id: Seq<char>,
    pub board_id: Seq<char>,
    pub title: Seq<char>,
    pub tone: Seq<char>,
    pub allowed_types: Option<StoredView<Seq<Seq<char>>>>,
    pub placeholder: bool,
    pub position: i64,
}

impl View for LaneRecord {
    type V = LaneRecordView;

    open spec fn view(&self) -> LaneRecordView {
        LaneRecordView {
            id: self.id@,
            board_id: self.board_id@,
            title: self.title@,
            tone: self.tone@,
            allowed_types: stored_types_view(self.allowed_types),
            placeholder: self.placeholder,
            position: self.position,
        }
    }
}

/// The lane that a lane record shows: its flag always present, and no list
/// of types where the stored list cannot be read.
pub open spec fn lane_of_record(r: LaneRecordView) -> BoardLaneView {
    BoardLaneView {
        id: r.id,
        board_id: r.board_id,
        title: r.title,
        tone: r.tone,
        allowed_types: match r.allowed_types {
            Some(StoredView::Read(ts)) => Some(ts),
            _ => None,
        },
        placeholder: Some(r.placeholder),
    }
}

/// The record that stores `lane` at `position`; an absent flag is stored as
/// `false`.
pub open spec fn record_of_lane(lane: BoardLaneView, position: i64) -> LaneRecordView {
    LaneRecordView {
        id: lane.id,
        board_id: lane.board_id,
        title: lane.title,
        tone: lane.tone,
        allowed_types: match lane.allowed_types {
            Some(ts) => Some(StoredView::Read(ts)),
            None => None,
        },
        placeholder: match lane.placeholder {
            Some(b) => b,
            None => false,
        },
        position,
    }
}

impl LaneRecord {
    pub fn duplicate(&self) -> (r: LaneRecord)
        ensures
            r@ == self@,
    {
        LaneRecord {
            id: self.id.clone(),
            board_id: self.board_id.clone(),
            title: self.title.clone(),
            tone: self.tone.clone(),
            allowed_types: match &self.allowed_types {
                Some(t) => Some(t.duplicate()),
                None => None,
            },
            placeholder: self.placeholder,
            position: self.position,
        }
    }

    /// The record that stores `lane` at `position`.
    pub fn from_lane(lane: BoardLane, position: i64) -> (r: LaneRecord)
        ensures
            r@ == record_of_lane(lane@, position),
    {
        let placeholder = match lane.placeholder {
            Some(b) => b,
            None => false,
        };
        LaneRecord {
            id: lane.id,
            board_id: lane.board_id,
            title: lane.title,
            tone: lane.tone,
            allowed_types: match lane.allowed_types {
                Some(v) => Some(StoredTypes::Read(v)),
                None => None,
            },
            placeholder,
            position,
        }
    }

    /// The lane this record shows.
    pub fn to_lane(&self) -> (r: BoardLane)
        ensures
            r@ == lane_of_record(self@),
    {
        BoardLane {
            id: self.id.clone(),
            board_id: self.board_id.clone(),
            title: self.title.clone(),
            tone: self.tone.clone(),
            allowed_types: match &self.allowed_types {
                Some(StoredTypes::Read(v)) => Some(copy_strings(v)),
                _ => None,
            },
            placeholder: Some(self.placeholder),
        }
    }
}

/// A stored flag reads as set exactly when it holds `1`.
pub fn flag_from_column(v: i64) -> (r: bool)
    ensures
        r == (v == 1),
{
    v == 1
}

/// A flag is stored as `1` when set and `0` when not.
pub fn flag_to_column(b: bool) -> (r: i64)
    ensures
        r == (if b { 1i64 } else { 0i64 }),
{
    if b {
        1
    } else {
        0
    }
}

// ---------------------------------------------------------------------------
// Objects
// ---------------------------------------------------------------------------

#[derive(Debug, PartialEq)]
pub struct ObjectIdentity {
    pub id: String,
    pub name: String,
    pub acronym: Option<String>,
    pub summary: String,
}

pub struct ObjectIdentityView {
    pub id: Seq<char>,
    pub name: Seq<char>,
    pub acronym: Option<Seq<char>>,
    pub summary: Seq<char>,
}

impl View for ObjectIdentity {
    type V = ObjectIdentityView;

    open spec fn view(&self) -> ObjectIdentityView {
        ObjectIdentityView {
            id: self.id@,
            name: self.name@,
            acronym: self.acronym.deep_view(),
            summary: self.summary@,
        }
    }
}

impl ObjectIdentity {
    pub fn duplicate(&self) -> (r: ObjectIdentity)
        ensures
            r@ == self@,
    {
        ObjectIdentity {
            id: self.id.clone(),
            name: self.name.clone(),
            acronym: copy_opt_string(&self.acronym),
            summary: self.summary.clone(),
        }
    }

    /// The identity shown for an object whose stored identity cannot be read.
    pub fn unnamed() -> (r: ObjectIdentity)
        ensures
            r@ == (ObjectIdentityView {
                id: Seq::empty(),
                name: "Unnamed Object"@,
                acronym: None,
                summary: Seq::empty(),
            }),
    {
        ObjectIdentity {
            id: String::new(),
            name: crate::text::owned("Unnamed Object"),
            acronym: None,
            summary: String::new(),
        }
    }
}

/// Where an object sits: a board, a lane of it, and whether it is pinned.
#[derive(Debug, PartialEq)]
pub struct ObjectBoardPlacement {
    pub board: String,
    pub lane: String,
    pub pinned: bool,
}

pub struct PlacementView {
    pub board: Seq<char>,
    pub lane: Seq<char>,
    pub pinned: bool,
}

impl View for ObjectBoardPlacement {
    type V = PlacementView;

    open spec fn view(&self) -> PlacementView {
        PlacementView { board: self.board@, lane: self.lane@, pinned: self.pinned }
    }
}

impl ObjectBoardPlacement {
    pub fn duplicate(&self) -> (r: ObjectBoardPlacement)
        ensures
            r@ == self@,
    {
        ObjectBoardPlacement {
            board: self.board.clone(),
            lane: self.lane.clone(),
            pinned: self.pinned,
        }
    }
}

#[derive(Debug, PartialEq)]
pub struct ObjectMetadata {
    pub tags: Vec<String>,
    pub notes: String,
    pub created_at: String,
    pub updated_at: String,
}

pub struct MetadataView {
    pub tags: Seq<Seq<char>>,
    pub notes: Seq<char>,
    pub created_at: Seq<char>,
    pub updated_at: Seq<char>,
}

impl View for ObjectMetadata {
    type V = MetadataView;

    open spec fn view(&self) -> MetadataView {
        MetadataView {
            tags: self.tags.deep_view(),
            notes: self.notes@,
            created_at: self.created_at@,
            updated_at: self.updated_at@,
        }
    }
}

impl ObjectMetadata {
    pub fn duplicate(&self) -> (r: ObjectMetadata)
        ensures
            r@ == self@,
    {
        ObjectMetadata {
            tags: copy_strings(&self.tags),
            notes: self.notes.clone(),
            created_at: self.created_at.clone(),
            updated_at: self.updated_at.clone(),
        }
    }

    /// The metadata shown for an object whose stored metadata cannot be read.
    pub fn blank() -> (r: ObjectMetadata)
        ensures
            r@ == (MetadataView {
                tags: Seq::empty(),
                notes: Seq::empty(),
                created_at: Seq::empty(),
                updated_at: Seq::empty(),
            }),
    {
        let tags: Vec<String> = Vec::new();
        assert(tags.deep_view() =~= Seq::<Seq<char>>::empty());
        ObjectMetadata {
            tags,
            notes: String::new(),
            created_at: String::new(),
            updated_at: String::new(),
        }
    }
}

/// A typed object of the board: a project, a PowerShell operator or a City
/// Hall document, placed in a lane.
#[derive(Debug, PartialEq)]
pub struct OperationalObject {
    pub id: String,
    pub object_type: String,
    pub schema: String,
    pub schema_version: String,
    pub identity: ObjectIdentity,
    pub board: ObjectBoardPlacement,
    pub metadata: ObjectMetadata,
    pub payload: JsonValue,
    pub created_at: String,
    pub updated_at: String,
    pub card_order: i64,
}

pub struct ObjectView {
    pub id: Seq<char>,
    pub object_type: Seq<char>,
    pub schema: Seq<char>,
    pub schema_version: Seq<char>,
    pub identity: ObjectIdentityView,
    pub board: PlacementView,
    pub metadata: MetadataView,
    pub payload: JsonView,
    pub created_at: Seq<char>,
    pub updated_at: Seq<char>,
    pub card_order: i64,
}

impl View for OperationalObject {
    type V = ObjectView;

    open spec fn view(&self) -> ObjectView {
        ObjectView {
            id: self.id@,
            object_type: self.object_type@,
            schema: self.schema@,
            schema_version: self.schema_version@,
            identity: self.identity@,
            board: self.board@,
            metadata: self.metadata@,
            payload: self.payload@,
            created_at: self.created_at@,
            updated_at: self.updated_at@,
            card_order: self.card_order,
        }
    }
}

impl OperationalObject {
    pub fn duplicate(&self) -> (r: OperationalObject)
        ensures
            r@ == self@,
    {
        OperationalObject {
            id: self.id.clone(),
            object_type: self.object_type.clone(),
            schema: self.schema.clone(),
            schema_version: self.schema_version.clone(),
            identity: self.identity.duplicate(),
            board: self.board.duplicate(),
            metadata: self.metadata.duplicate(),
            payload: self.payload.duplicate(),
            created_at: self.created_at.clone(),
            updated_at: self.updated_at.clone(),
            card_order: self.card_order,
        }
    }
}

/// The identity shown for an object whose stored identity cannot be read.
pub open spec fn unnamed_identity() -> ObjectIdentityView {
    ObjectIdentityView { id: Seq::empty(), name: "Unnamed Object"@, acronym: None, summary: Seq::empty() }
}

/// The metadata shown for an object whose stored metadata cannot be read.
pub open spec fn blank_metadata() -> MetadataView {
    MetadataView {
        tags: Seq::empty(),
        notes: Seq::empty(),
        created_at: Seq::empty(),
        updated_at: Seq::empty(),
    }
}

/// The payload shown for an object whose stored payload cannot be read.
pub open spec fn empty_payload() -> JsonView {
    JsonView::Object(Seq::empty())
}

/// A row of the object table: an object whose identity, metadata and payload
/// are JSON columns.
#[derive(Debug, PartialEq)]
pub struct ObjectRecord {
    pub id: String,
    pub object_type: String,
    pub schema: String,
    pub schema_version: String,
    pub identity: Stored<ObjectIdentity>,
    pub board: ObjectBoardPlacement,
    pub metadata: Stored<ObjectMetadata>,
    pub payload: Stored<JsonValue>,
    pub created_at: String,
    pub updated_at: String,
    pub card_order: i64,
}

pub struct ObjectRecordView {
    pub id: Seq<char>,
    pub object_type: Seq<char>,
    pub schema: Seq<char>,
    pub schema_version: Seq<char>,
    pub identity: StoredView<ObjectIdentityView>,
    pub board: PlacementView,
    pub metadata: StoredView<MetadataView>,
    pub payload: StoredView<JsonView>,
    pub created_at: Seq<char>,
    pub updated_at: Seq<char>,
    pub card_order: i64,
}

impl View for ObjectRecord {
    type V = ObjectRecordView;

    open spec fn view(&self) -> ObjectRecordView {
        ObjectRecordView {
            id: self.id@,
            object_type: self.object_type@,
            schema: self.schema@,
            schema_version: self.schema_version@,
            identity: self.identity@,
            board: self.board@,
            metadata: self.metadata@,
            payload: self.payload@,
            created_at: self.created_at@,
            updated_at: self.updated_at@,
            card_order: self.card_order,
        }
    }
}

/// The object a row shows: each JSON column that cannot be read shows its
/// fallback (an unnamed identity, blank metadata, an empty payload).
pub open spec fn shown_object(r: ObjectRecordView) -> ObjectView {
    ObjectView {
        id: r.id,
        object_type: r.object_type,
        schema: r.schema,
        schema_version: r.schema_version,
        identity: read_or(r.identity, unnamed_identity()),
        board: r.board,
        metadata: read_or(r.metadata, blank_metadata()),
        payload: read_or(r.payload, empty_payload()),
        created_at: r.created_at,
        updated_at: r.updated_at,
        card_order: r.card_order,
    }
}

/// The row that stores `o`: every JSON column readable.
pub open spec fn record_of_object(o: ObjectView) -> ObjectRecordView {
    ObjectRecordView {
        id: o.id,
        object_type: o.object_type,
        schema: o.schema,
        schema_version: o.schema_version,
        identity: StoredView::Read(o.identity),
        board: o.board,
        metadata: StoredView::Read(o.metadata),
        payload: StoredView::Read(o.payload),
        created_at: o.created_at,
        updated_at: o.updated_at,
        card_order: o.card_order,
    }
}

/// The tags a row shows: those of its metadata, none where the metadata
/// cannot be read.
pub open spec fn record_tags(r: ObjectRecordView) -> Seq<Seq<char>> {
    read_or(r.metadata, blank_metadata()).tags
}

pub fn copy_stored_identity(c: &Stored<ObjectIdentity>) -> (r: Stored<ObjectIdentity>)
    ensures
        r@ == c@,
{
    match c {
        Stored::Read(x) => Stored::Read(x.duplicate()),
        Stored::Unreadable(t) => Stored::Unreadable(t.clone()),
    }
}

pub fn copy_stored_metadata(c: &Stored<ObjectMetadata>) -> (r: Stored<ObjectMetadata>)
    ensures
        r@ == c@,
{
    match c {
        Stored::Read(x) => Stored::Read(x.duplicate()),
        Stored::Unreadable(t) => Stored::Unreadable(t.clone()),
    }
}

pub fn copy_stored_payload(c: &Stored<JsonValue>) -> (r: Stored<JsonValue>)
    ensures
        r@ == c@,
{
    match c {
        Stored::Read(x) => Stored::Read(x.duplicate()),
        Stored::Unreadable(t) => Stored::Unreadable(t.clone()),
    }
}

impl ObjectRecord {
    pub fn duplicate(&self) -> (r: ObjectRecord)
        ensures
            r@ == self@,
    {
        ObjectRecord {
            id: self.id.clone(),
            object_type: self.object_type.clone(),
            schema: self.schema.clone(),
            schema_version: self.schema_version.clone(),
            identity: copy_stored_identity(&self.identity),
            board: self.board.duplicate(),
            metadata: copy_stored_metadata(&self.metadata),
            payload: copy_stored_payload(&self.payload),
            created_at: self.created_at.clone(),
            updated_at: self.updated_at.clone(),
            card_order: self.card_order,
        }
    }

    /// The row that stores `o`.
    pub fn from_object(o: OperationalObject) -> (r: ObjectRecord)
        ensures
            r@ == record_of_object(o@),
    {
        ObjectRecord {
            id: o.id,
            object_type: o.object_type,
            schema: o.schema,
            schema_version: o.schema_version,
            identity: Stored::Read(o.identity),
            board: o.board,
            metadata: Stored::Read(o.metadata),
            payload: Stored::Read(o.payload),
            created_at: o.created_at,
            updated_at: o.updated_at,
            card_order: o.card_order,
        }
    }

    /// The object this row shows, with the fallback of each JSON column that
    /// cannot be read.
    pub fn to_object(&self) -> (r: OperationalObject)
        ensures
            r@ == shown_object(self@),
    {
        let identity = match &self.identity {
            Stored::Read(x) => x.duplicate(),
            Stored::Unreadable(_) => ObjectIdentity::unnamed(),
        };
        let metadata = match &self.metadata {
            Stored::Read(x) => x.duplicate(),
            Stored::Unreadable(_) => ObjectMetadata::blank(),
        };
        let payload = match &self.payload {
            Stored::Read(x) => x.duplicate(),
            Stored::Unreadable(_) => JsonValue::empty_object(),
        };
        OperationalObject {
            id: self.id.clone(),
            object_type: self.object_type.clone(),
            schema: self.schema.clone(),
            schema_version: self.schema_version.clone(),
            identity,
            board: self.board.duplicate(),
            metadata,
            payload,
            created_at: self.created_at.clone(),
            updated_at: self.updated_at.clone(),
            card_order: self.card_order,
        }
    }
}

// ---------------------------------------------------------------------------
// Tags
// ---------------------------------------------------------------------------

#[derive(Debug, PartialEq)]
pub struct TagDefinition {
    pub tag: String,
    pub color: String,
    pub description: Option<String>,
}

pub struct TagDefinitionView {
    pub tag: Seq<char>,
    pub color: Seq<char>,
    pub description: Option<Seq<char>>,
}

impl View for TagDefinition {
    type V = TagDefinitionView;

    open spec fn view(&self) -> TagDefinitionView {
        TagDefinitionView {
            tag: self.tag@,
            color: self.color@,
            description: self.description.deep_view(),
        }
    }
}

impl TagDefinition {
    pub fn duplicate(&self) -> (r: TagDefinition)
        ensures
            r@ == self@,
    {
        TagDefinition {
            tag: self.tag.clone(),
            color: self.color.clone(),
            description: copy_opt_string(&self.description),
        }
    }
}

// ---------------------------------------------------------------------------
// What the board hands out and takes in
// ---------------------------------------------------------------------------

/// Everything the board shows at once.
#[derive(Debug, PartialEq)]
pub struct BoardData {
    pub workspace: Workspace,
    pub boards: Vec<BoardDefinition>,
    pub lanes: Vec<BoardLane>,
    pub objects: Vec<OperationalObject>,
    pub tag_definitions: Vec<TagDefinition>,
}

pub struct BoardDataView {
    pub workspace: WorkspaceView,
    pub boards: Seq<BoardDefinitionView>,
    pub lanes: Seq<BoardLaneView>,
    pub objects: Seq<ObjectView>,
    pub tag_definitions: Seq<TagDefinitionView>,
}

/// The views of the elements of `s`.
pub open spec fn views<T: View>(s: Seq<T>) -> Seq<T::V> {
    s.map_values(|x: T| x@)
}

impl View for BoardData {
    type V = BoardDataView;

    open spec fn view(&self) -> BoardDataView {
        BoardDataView {
            workspace: self.workspace@,
            boards: views(self.boards@),
            lanes: views(self.lanes@),
            objects: views(self.objects@),
            tag_definitions: views(self.tag_definitions@),
        }
    }
}

#[derive(Debug, PartialEq)]
pub struct CreateMetadataInput {
    pub tags: Vec<String>,
    pub notes: String,
}

/// A request to add an object.
#[derive(Debug, PartialEq)]
pub struct CreateObjectInput {
    pub object_type: String,
    pub identity: ObjectIdentity,
    pub board: ObjectBoardPlacement,
    pub metadata: CreateMetadataInput,
    pub payload: JsonValue,
}

/// A request to rewrite the identity, placement, metadata and payload of an
/// object.
#[derive(Debug, PartialEq)]
pub struct UpdateObjectInput {
    pub id: String,
    pub identity: ObjectIdentity,
    pub board: ObjectBoardPlacement,
    pub metadata: CreateMetadataInput,
    pub payload: JsonValue,
}

/// A request to move an object to a lane and a place in it.
#[derive(Debug, PartialEq)]
pub struct MoveObjectInput {
    pub object_id: String,
    pub board_id: String,
    pub lane_id: String,
    pub card_order: i64,
}

/// Why a request to the board failed.
#[derive(Debug, PartialEq)]
pub enum BoardError {
    /// The next place in a lane lies beyond the largest 64-bit integer.
    CardOrderOverflow,
    /// The workspace table holds no row.
    MissingWorkspace,
    /// The stored metadata of the object to move cannot be read.
    UnreadableMetadata,
}

} // verus!
