//! What a new board starts with: its workspace, its two boards, their lanes,
//! the tag colours and a first set of objects.
use vstd::prelude::*;
use crate::json::{json_view_fields, push_field, text_value, JsonValue, JsonView};
use crate::model::{
    views, BoardDefinition, BoardDefinitionView, BoardLane, BoardLaneView, MetadataView,
    ObjectBoardPlacement, ObjectIdentity, ObjectIdentityView, ObjectMetadata, ObjectView,
    OperationalObject, PlacementView, TagDefinitionView, Workspace, WorkspaceView,
};
use crate::text::{owned, push_char, text_eq};

verus! {

// ---------------------------------------------------------------------------
// Object types
// ---------------------------------------------------------------------------

/// The schema of an object type: PowerShell operators and City Hall documents
/// have their own, every other type is a project.
pub open spec fn schema_of(object_type: Seq<char>) -> Seq<char> {
    if object_type == "powershell-operator"@ {
        "aptlantis.powershell-operator"@
    } else if object_type == "city-hall"@ {
        "aptlantis.city-hall"@
    } else {
        "aptlantis.project"@
    }
}

/// The schema version of every object type.
pub open spec fn schema_version_of(object_type: Seq<char>) -> Seq<char> {
    "0.1"@
}

/// The schema and schema version of an object type.
pub fn object_definition(object_type: &str) -> (r: (&'static str, &'static str))
    ensures
        r.0@ == schema_of(object_type@),
        r.1@ == schema_version_of(object_type@),
{
    if text_eq(object_type, "powershell-operator") {
        ("aptlantis.powershell-operator", "0.1")
    } else if text_eq(object_type, "city-hall") {
        ("aptlantis.city-hall", "0.1")
    } else {
        ("aptlantis.project", "0.1")
    }
}

// ---------------------------------------------------------------------------
// Lanes
// ---------------------------------------------------------------------------

/// The lane with these fields; its flag is present.
pub open spec fn lane_spec(
    id: Seq<char>,
    board_id: Seq<char>,
    title: Seq<char>,
    tone: Seq<char>,
    allowed_types: Option<Seq<Seq<char>>>,
    placeholder: bool,
) -> BoardLaneView {
    BoardLaneView { id, board_id, title, tone, allowed_types, placeholder: Some(placeholder) }
}

/// A lane with owned copies of the given fields.
pub fn lane(
    id: &str,
    board_id: &str,
    title: &str,
    tone: &str,
    allowed_types: Option<Vec<&str>>,
    placeholder: bool,
) -> (r: BoardLane)
    ensures
        r@ == lane_spec(id@, board_id@, title@, tone@, allowed_types.deep_view(), placeholder),
{
    let allowed = match allowed_types {
        Some(items) => {
            let mut out: Vec<String> = Vec::new();
            let mut i: usize = 0;
            while i < items.len()
                invariant
                    i <= items.len(),
                    out.len() == i,
                    forall|k: int| 0 <= k < i ==> #[trigger] out@[k]@ == items@[k]@,
                decreases items.len() - i,
            {
                out.push(owned(items[i]));
                i = i + 1;
            }
            assert(out.deep_view() =~= items.deep_view());
            Some(out)
        },
        None => None,
    };
    BoardLane {
        id: owned(id),
        board_id: owned(board_id),
        title: owned(title),
        tone: owned(tone),
        allowed_types: allowed,
        placeholder: Some(placeholder),
    }
}

/// The lanes of a new board, in the order they are shown: six on the primary
/// board and six work lanes on the secondary one.
pub open spec fn default_lanes_spec() -> Seq<BoardLaneView> {
    seq![
        lane_spec("city-hall"@, "primary"@, "City Hall Objects"@, "violet"@, Some(seq!["city-hall"@]), false),
        lane_spec("stock"@, "primary"@, "Stock / Reference"@, "blue"@, None, true),
        lane_spec("powershell"@, "primary"@, "PowerShell Operators"@, "cyan"@, Some(seq!["powershell-operator"@]), false),
        lane_spec("project-1"@, "primary"@, "Projects"@, "amber"@, Some(seq!["project"@]), false),
        lane_spec("project-2"@, "primary"@, "Projects"@, "green"@, Some(seq!["project"@]), false),
        lane_spec("project-3"@, "primary"@, "Projects"@, "rose"@, Some(seq!["project"@]), false),
        lane_spec("work-1"@, "secondary"@, "Work Lane 1"@, "violet"@, None, false),
        lane_spec("work-2"@, "secondary"@, "Work Lane 2"@, "blue"@, None, false),
        lane_spec("work-3"@, "secondary"@, "Work Lane 3"@, "cyan"@, None, false),
        lane_spec("work-4"@, "secondary"@, "Work Lane 4"@, "amber"@, None, false),
        lane_spec("work-5"@, "secondary"@, "Work Lane 5"@, "green"@, None, false),
        lane_spec("work-6"@, "secondary"@, "Work Lane 6"@, "rose"@, None, false),
    ]
}

fn one_type(t: &'static str) -> (r: Option<Vec<&'static str>>)
    ensures
        r.deep_view() == Some(seq![t@]),
{
    let mut v: Vec<&'static str> = Vec::new();
    v.push(t);
    assert(v.deep_view() =~= seq![t@]);
    Some(v)
}

/// The lanes of a new board.
pub fn default_lanes() -> (r: Vec<BoardLane>)
    ensures
        views(r@) == default_lanes_spec(),
{
    let mut v: Vec<BoardLane> = Vec::new();
    v.push(lane("city-hall", "primary", "City Hall Objects", "violet", one_type("city-hall"), false));
    v.push(lane("stock", "primary", "Stock / Reference", "blue", None, true));
    v.push(lane("powershell", "primary", "PowerShell Operators", "cyan", one_type("powershell-operator"), false));
    v.push(lane("project-1", "primary", "Projects", "amber", one_type("project"), false));
    v.push(lane("project-2", "primary", "Projects", "green", one_type("project"), false));
    v.push(lane("project-3", "primary", "Projects", "rose", one_type("project"), false));
    v.push(lane("work-1", "secondary", "Work Lane 1", "violet", None, false));
    v.push(lane("work-2", "secondary", "Work Lane 2", "blue", None, false));
    v.push(lane("work-3", "secondary", "Work Lane 3", "cyan", None, false));
    v.push(lane("work-4", "secondary", "Work Lane 4", "amber", None, false));
    v.push(lane("work-5", "secondary", "Work Lane 5", "green", None, false));
    v.push(lane("work-6", "secondary", "Work Lane 6", "rose", None, false));
    assert(views(v@) =~= default_lanes_spec());
    v
}

// ---------------------------------------------------------------------------
// Boards, workspace and tag colours
// ---------------------------------------------------------------------------

/// The workspace of a new board.
pub open spec fn default_workspace_spec() -> WorkspaceView {
    WorkspaceView {
        id: "aptlantis"@,
        name: "Aptlantis Workspace"@,
        root_path: "K:\\Aptlantis\\Workspace"@,
        storage_used_gb: "121.3"@,
    }
}

pub fn default_workspace() -> (r: Workspace)
    ensures
        r@ == default_workspace_spec(),
{
    Workspace {
        id: owned("aptlantis"),
        name: owned("Aptlantis Workspace"),
        root_path: owned("K:\\Aptlantis\\Workspace"),
        storage_used_gb: owned("121.3"),
    }
}

/// The two boards: the primary one first.
pub open spec fn default_boards_spec() -> Seq<BoardDefinitionView> {
    seq![
        BoardDefinitionView {
            id: "primary"@,
            name: "Operations Control"@,
            description: "Typed operational objects surfaced for current control work."@,
        },
        BoardDefinitionView {
            id: "secondary"@,
            name: "Broader Work Board"@,
            description: "Unfinished, internal, experimental, paused, or otherwise non-primary work."@,
        },
    ]
}

pub fn default_boards() -> (r: Vec<BoardDefinition>)
    ensures
        views(r@) == default_boards_spec(),
{
    let mut v: Vec<BoardDefinition> = Vec::new();
    v.push(
        BoardDefinition {
            id: owned("primary"),
            name: owned("Operations Control"),
            description: owned("Typed operational objects surfaced for current control work."),
        },
    );
    v.push(
        BoardDefinition {
            id: owned("secondary"),
            name: owned("Broader Work Board"),
            description: owned(
                "Unfinished, internal, experimental, paused, or otherwise non-primary work.",
            ),
        },
    );
    assert(views(v@) =~= default_boards_spec());
    v
}

/// The colour of a tag that is created without one.
pub open spec fn default_tag_color() -> Seq<char> {
    "#8b5cf6"@
}

/// The tags a new board knows, with their colours and no description.
pub open spec fn default_tags_spec() -> Seq<TagDefinitionView> {
    seq![
        TagDefinitionView { tag: "CityHall"@, color: "#9d7dff"@, description: None },
        TagDefinitionView { tag: "Governance"@, color: "#43a7ff"@, description: None },
        TagDefinitionView { tag: "Operator"@, color: "#20d4db"@, description: None },
        TagDefinitionView { tag: "Project"@, color: "#82d158"@, description: None },
        TagDefinitionView { tag: "Reference"@, color: "#d3a72d"@, description: None },
        TagDefinitionView { tag: "Standard"@, color: "#25d5c9"@, description: None },
        TagDefinitionView { tag: "Workspace"@, color: "#8b5cf6"@, description: None },
    ]
}

fn tag_definition(tag: &str, color: &str) -> (r: crate::model::TagDefinition)
    ensures
        r@ == (TagDefinitionView { tag: tag@, color: color@, description: None }),
{
    crate::model::TagDefinition { tag: owned(tag), color: owned(color), description: None }
}

pub fn default_tags() -> (r: Vec<crate::model::TagDefinition>)
    ensures
        views(r@) == default_tags_spec(),
{
    let mut v: Vec<crate::model::TagDefinition> = Vec::new();
    v.push(tag_definition("CityHall", "#9d7dff"));
    v.push(tag_definition("Governance", "#43a7ff"));
    v.push(tag_definition("Operator", "#20d4db"));
    v.push(tag_definition("Project", "#82d158"));
    v.push(tag_definition("Reference", "#d3a72d"));
    v.push(tag_definition("Standard", "#25d5c9"));
    v.push(tag_definition("Workspace", "#8b5cf6"));
    assert(views(v@) =~= default_tags_spec());
    v
}

// ---------------------------------------------------------------------------
// Objects
// ---------------------------------------------------------------------------

/// The time stamp of every object of a new board.
pub open spec fn seed_time() -> Seq<char> {
    "2026-08-10T09:54:00"@
}

/// An object with an empty payload, no tags and no notes.
pub open spec fn base_object_spec(
    id: Seq<char>,
    object_type: Seq<char>,
    name: Seq<char>,
    summary: Seq<char>,
    board: Seq<char>,
    lane: Seq<char>,
    card_order: i64,
) -> ObjectView {
    ObjectView {
        id,
        object_type,
        schema: schema_of(object_type),
        schema_version: schema_version_of(object_type),
        identity: ObjectIdentityView { id, name, acronym: None, summary },
        board: PlacementView { board, lane, pinned: false },
        metadata: MetadataView {
            tags: Seq::empty(),
            notes: Seq::empty(),
            created_at: seed_time(),
            updated_at: seed_time(),
        },
        payload: JsonView::Object(Seq::empty()),
        created_at: seed_time(),
        updated_at: seed_time(),
        card_order,
    }
}

pub fn base_object(
    id: &str,
    object_type: &str,
    name: &str,
    summary: &str,
    board: &str,
    lane: &str,
    card_order: i64,
) -> (r: OperationalObject)
    ensures
        r@ == base_object_spec(id@, object_type@, name@, summary@, board@, lane@, card_order),
{
    let (schema, schema_version) = object_definition(object_type);
    let tags: Vec<String> = Vec::new();
    assert(tags.deep_view() =~= Seq::<Seq<char>>::empty());
    OperationalObject {
        id: owned(id),
        object_type: owned(object_type),
        schema: owned(schema),
        schema_version: owned(schema_version),
        identity: ObjectIdentity {
            id: owned(id),
            name: owned(name),
            acronym: None,
            summary: owned(summary),
        },
        board: ObjectBoardPlacement { board: owned(board), lane: owned(lane), pinned: false },
        metadata: ObjectMetadata {
            tags,
            notes: String::new(),
            created_at: owned("2026-08-10T09:54:00"),
            updated_at: owned("2026-08-10T09:54:00"),
        },
        payload: JsonValue::empty_object(),
        created_at: owned("2026-08-10T09:54:00"),
        updated_at: owned("2026-08-10T09:54:00"),
        card_order,
    }
}

fn tag_list(tags: &Vec<&'static str>) -> (r: Vec<String>)
    ensures
        r.deep_view() == tags.deep_view(),
{
    let mut out: Vec<String> = Vec::new();
    let mut i: usize = 0;
    while i < tags.len()
        invariant
            i <= tags.len(),
            out.len() == i,
            forall|k: int| 0 <= k < i ==> #[trigger] out@[k]@ == tags@[k]@,
        decreases tags.len() - i,
    {
        out.push(owned(tags[i]));
        i = i + 1;
    }
    assert(out.deep_view() =~= tags.deep_view());
    out
}

fn tags2(a: &'static str, b: &'static str) -> (r: Vec<String>)
    ensures
        r.deep_view() == seq![a@, b@],
{
    let mut v: Vec<&'static str> = Vec::new();
    v.push(a);
    v.push(b);
    assert(v.deep_view() =~= seq![a@, b@]);
    tag_list(&v)
}

fn tags3(a: &'static str, b: &'static str, c: &'static str) -> (r: Vec<String>)
    ensures
        r.deep_view() == seq![a@, b@, c@],
{
    let mut v: Vec<&'static str> = Vec::new();
    v.push(a);
    v.push(b);
    v.push(c);
    assert(v.deep_view() =~= seq![a@, b@, c@]);
    tag_list(&v)
}

/// A JSON object with the given members.
pub open spec fn jobject(fields: Seq<(Seq<char>, JsonView)>) -> JsonView {
    JsonView::Object(fields)
}

/// A JSON string.
pub open spec fn jtext(s: Seq<char>) -> JsonView {
    JsonView::Text(s)
}

/// `s` without its spaces (`str::replace(' ', "")`).
pub open spec fn without_spaces(s: Seq<char>) -> Seq<char>
    decreases s.len(),
{
    if s.len() == 0 {
        s
    } else if s.last() == ' ' {
        without_spaces(s.drop_last())
    } else {
        without_spaces(s.drop_last()).push(s.last())
    }
}

/// The root folder of a primary project in the workspace.
pub open spec fn project_root(name: Seq<char>) -> Seq<char> {
    "K:\\Aptlantis\\Workspace\\"@ + without_spaces(name)
}

fn project_root_text(name: &str) -> (r: String)
    ensures
        r@ == project_root(name@),
{
    let mut r = owned("K:\\Aptlantis\\Workspace\\");
    let ghost prefix = r@;
    let n = name.unicode_len();
    let mut i: usize = 0;
    while i < n
        invariant
            n == name@.len(),
            i <= n,
            r@ == prefix + without_spaces(name@.subrange(0, i as int)),
            prefix == "K:\\Aptlantis\\Workspace\\"@,
        decreases n - i,
    {
        let c = name.get_char(i);
        assert(name@.subrange(0, i + 1).drop_last() =~= name@.subrange(0, i as int));
        if c != ' ' {
            push_char(&mut r, c);
            assert(r@ =~= prefix + without_spaces(name@.subrange(0, i + 1)));
        }
        i = i + 1;
    }
    assert(name@.subrange(0, n as int) =~= name@);
    r
}


fn fields1(k1: &str, v1: JsonValue) -> (r: JsonValue)
    ensures
        r@ == jobject(seq![(k1@, v1@)]),
{
    let mut f = empty_fields();
    push_field(&mut f, k1, v1);
    assert(json_view_fields(f@) =~= seq![(k1@, v1@)]);
    object_value(f)
}

fn fields2(k1: &str, v1: JsonValue, k2: &str, v2: JsonValue) -> (r: JsonValue)
    ensures
        r@ == jobject(seq![(k1@, v1@), (k2@, v2@)]),
{
    let ghost (w1, w2) = (v1@, v2@);
    let mut f = empty_fields();
    push_field(&mut f, k1, v1);
    push_field(&mut f, k2, v2);
    assert(json_view_fields(f@) =~= seq![(k1@, w1), (k2@, w2)]);
    object_value(f)
}

fn fields3(k1: &str, v1: JsonValue, k2: &str, v2: JsonValue, k3: &str, v3: JsonValue) -> (r:
    JsonValue)
    ensures
        r@ == jobject(seq![(k1@, v1@), (k2@, v2@), (k3@, v3@)]),
{
    let ghost (w1, w2, w3) = (v1@, v2@, v3@);
    let mut f = empty_fields();
    push_field(&mut f, k1, v1);
    push_field(&mut f, k2, v2);
    push_field(&mut f, k3, v3);
    assert(json_view_fields(f@) =~= seq![(k1@, w1), (k2@, w2), (k3@, w3)]);
    object_value(f)
}

fn fields4(
    k1: &str,
    v1: JsonValue,
    k2: &str,
    v2: JsonValue,
    k3: &str,
    v3: JsonValue,
    k4: &str,
    v4: JsonValue,
) -> (r: JsonValue)
    ensures
        r@ == jobject(seq![(k1@, v1@), (k2@, v2@), (k3@, v3@), (k4@, v4@)]),
{
    let ghost (w1, w2, w3, w4) = (v1@, v2@, v3@, v4@);
    let mut f = empty_fields();
    push_field(&mut f, k1, v1);
    push_field(&mut f, k2, v2);
    push_field(&mut f, k3, v3);
    push_field(&mut f, k4, v4);
    assert(json_view_fields(f@) =~= seq![(k1@, w1), (k2@, w2), (k3@, w3), (k4@, w4)]);
    object_value(f)
}

fn fields5(
    k1: &str,
    v1: JsonValue,
    k2: &str,
    v2: JsonValue,
    k3: &str,
    v3: JsonValue,
    k4: &str,
    v4: JsonValue,
    k5: &str,
    v5: JsonValue,
) -> (r: JsonValue)
    ensures
        r@ == jobject(seq![(k1@, v1@), (k2@, v2@), (k3@, v3@), (k4@, v4@), (k5@, v5@)]),
{
    let ghost (w1, w2, w3, w4, w5) = (v1@, v2@, v3@, v4@, v5@);
    let mut f = empty_fields();
    push_field(&mut f, k1, v1);
    push_field(&mut f, k2, v2);
    push_field(&mut f, k3, v3);
    push_field(&mut f, k4, v4);
    push_field(&mut f, k5, v5);
    assert(json_view_fields(f@) =~= seq![(k1@, w1), (k2@, w2), (k3@, w3), (k4@, w4), (k5@, w5)]);
    object_value(f)
}

fn release_section() -> (r: JsonValue)
    ensures
        r@ == jobject(seq![
            ("released"@, JsonView::Bool(false)),
            ("version"@, jtext(""@)),
            ("targetVersion"@, jtext(""@)),
        ]),
{
    fields3(
        "released",
        JsonValue::Bool(false),
        "version",
        text_value(""),
        "targetVersion",
        text_value(""),
    )
}

fn operation_section() -> (r: JsonValue)
    ensures
        r@ == jobject(seq![("defaultIde"@, jtext(""@)), ("defaultTerminal"@, jtext(""@))]),
{
    fields2("defaultIde", text_value(""), "defaultTerminal", text_value(""))
}

/// The payload of a project on the primary board.
pub open spec fn project_payload(
    name: Seq<char>,
    lifecycle: Seq<char>,
    attention: Seq<char>,
) -> JsonView {
    jobject(
        seq![
            ("classification"@, jobject(seq![
                ("kind"@, jtext("desktop app"@)),
                ("lifecycle"@, jtext(lifecycle)),
                ("attention"@, jtext(attention)),
                ("availability"@, jtext("active"@)),
            ])),
            ("location"@, jobject(seq![
                ("root"@, jtext(project_root(name))),
                ("repository"@, jtext(""@)),
            ])),
            ("release"@, jobject(seq![
                ("released"@, JsonView::Bool(false)),
                ("version"@, jtext(""@)),
                ("targetVersion"@, jtext(""@)),
            ])),
            ("operation"@, jobject(seq![
                ("defaultIde"@, jtext(""@)),
                ("defaultTerminal"@, jtext(""@)),
            ])),
            ("governance"@, jobject(seq![("cityHallStatus"@, jtext("unreviewed"@))])),
        ],
    )
}

/// A project on the primary board, tagged `Project` and `Workspace`.
pub open spec fn project_spec(
    id: Seq<char>,
    name: Seq<char>,
    lane: Seq<char>,
    order: i64,
    summary: Seq<char>,
    lifecycle: Seq<char>,
    attention: Seq<char>,
) -> ObjectView {
    let base = base_object_spec(id, "project"@, name, summary, "primary"@, lane, order);
    ObjectView {
        metadata: MetadataView { tags: seq!["Project"@, "Workspace"@], ..base.metadata },
        payload: project_payload(name, lifecycle, attention),
        ..base
    }
}

fn object_value(fields: Vec<(String, JsonValue)>) -> (r: JsonValue)
    ensures
        r@ == JsonView::Object(json_view_fields(fields@)),
{
    JsonValue::Object(fields)
}

fn empty_fields() -> (r: Vec<(String, JsonValue)>)
    ensures
        json_view_fields(r@) == Seq::<(Seq<char>, JsonView)>::empty(),
{
    Vec::new()
}


pub fn project(
    id: &str,
    name: &str,
    lane: &str,
    order: i64,
    summary: &str,
    lifecycle: &str,
    attention: &str,
) -> (r: OperationalObject)
    ensures
        r@ == project_spec(id@, name@, lane@, order, summary@, lifecycle@, attention@),
{
    let mut object = base_object(id, "project", name, summary, "primary", lane, order);
    object.metadata.tags = tags2("Project", "Workspace");
    let classification = fields4(
        "kind",
        text_value("desktop app"),
        "lifecycle",
        text_value(lifecycle),
        "attention",
        text_value(attention),
        "availability",
        text_value("active"),
    );
    let location = fields2(
        "root",
        JsonValue::Text(project_root_text(name)),
        "repository",
        text_value(""),
    );
    let governance = fields1("cityHallStatus", text_value("unreviewed"));
    object.payload =
    fields5(
        "classification",
        classification,
        "location",
        location,
        "release",
        release_section(),
        "operation",
        operation_section(),
        "governance",
        governance,
    );
    object
}

/// The payload of a parked tool on the secondary board.
pub open spec fn secondary_payload() -> JsonView {
    jobject(
        seq![
            ("classification"@, jobject(seq![
                ("kind"@, jtext("tool"@)),
                ("lifecycle"@, jtext("parked"@)),
                ("attention"@, jtext(""@)),
                ("availability"@, jtext(""@)),
            ])),
            ("location"@, jobject(seq![("root"@, jtext(""@)), ("repository"@, jtext(""@))])),
            ("release"@, jobject(seq![
                ("released"@, JsonView::Bool(false)),
                ("version"@, jtext(""@)),
                ("targetVersion"@, jtext(""@)),
            ])),
            ("operation"@, jobject(seq![
                ("defaultIde"@, jtext(""@)),
                ("defaultTerminal"@, jtext(""@)),
            ])),
            ("governance"@, jobject(seq![("cityHallStatus"@, jtext(""@))])),
        ],
    )
}

/// A project on the secondary board, tagged `Project` and `Reference`.
pub open spec fn secondary_project_spec(
    id: Seq<char>,
    name: Seq<char>,
    lane: Seq<char>,
    order: i64,
    summary: Seq<char>,
) -> ObjectView {
    let base = base_object_spec(id, "project"@, name, summary, "secondary"@, lane, order);
    ObjectView {
        metadata: MetadataView { tags: seq!["Project"@, "Reference"@], ..base.metadata },
        payload: secondary_payload(),
        ..base
    }
}


pub fn secondary_project(id: &str, name: &str, lane: &str, order: i64, summary: &str) -> (r:
    OperationalObject)
    ensures
        r@ == secondary_project_spec(id@, name@, lane@, order, summary@),
{
    let mut object = base_object(id, "project", name, summary, "secondary", lane, order);
    object.metadata.tags = tags2("Project", "Reference");
    let classification = fields4(
        "kind",
        text_value("tool"),
        "lifecycle",
        text_value("parked"),
        "attention",
        text_value(""),
        "availability",
        text_value(""),
    );
    let location = fields2("root", text_value(""), "repository", text_value(""));
    let governance = fields1("cityHallStatus", text_value(""));
    object.payload =
    fields5(
        "classification",
        classification,
        "location",
        location,
        "release",
        release_section(),
        "operation",
        operation_section(),
        "governance",
        governance,
    );
    object
}

/// The payload of a PowerShell operator.
pub open spec fn operator_payload(script: Seq<char>, mutation: Seq<char>) -> JsonView {
    jobject(
        seq![
            ("source"@, jobject(seq![("script"@, jtext(script))])),
            ("execution"@, jobject(seq![
                ("scope"@, jtext("workspace"@)),
                ("workingDirectory"@, jtext("K:\\Aptlantis\\Workspace"@)),
                ("elevation"@, jtext("none"@)),
                ("mutation"@, jtext(mutation)),
                ("shell"@, jtext("pwsh"@)),
            ])),
            ("parameters"@, jobject(seq![("discovery"@, jtext("powershell"@))])),
            ("output"@, jobject(seq![
                ("kind"@, jtext("console"@)),
                ("artifactPath"@, jtext(""@)),
            ])),
            ("state"@, jobject(seq![
                ("enabled"@, JsonView::Bool(true)),
                ("lastRun"@, jtext(""@)),
                ("lastResult"@, jtext(""@)),
            ])),
        ],
    )
}

/// A PowerShell operator in the `powershell` lane of the primary board,
/// tagged `Operator` and `Workspace`.
pub open spec fn operator_spec(
    id: Seq<char>,
    name: Seq<char>,
    order: i64,
    summary: Seq<char>,
    script: Seq<char>,
    mutation: Seq<char>,
) -> ObjectView {
    let base = base_object_spec(
        id,
        "powershell-operator"@,
        name,
        summary,
        "primary"@,
        "powershell"@,
        order,
    );
    ObjectView {
        metadata: MetadataView { tags: seq!["Operator"@, "Workspace"@], ..base.metadata },
        payload: operator_payload(script, mutation),
        ..base
    }
}


pub fn operator(
    id: &str,
    name: &str,
    order: i64,
    summary: &str,
    script: &str,
    mutation: &str,
) -> (r: OperationalObject)
    ensures
        r@ == operator_spec(id@, name@, order, summary@, script@, mutation@),
{
    let mut object = base_object(
        id,
        "powershell-operator",
        name,
        summary,
        "primary",
        "powershell",
        order,
    );
    object.metadata.tags = tags2("Operator", "Workspace");
    let source = fields1("script", text_value(script));
    let execution = fields5(
        "scope",
        text_value("workspace"),
        "workingDirectory",
        text_value("K:\\Aptlantis\\Workspace"),
        "elevation",
        text_value("none"),
        "mutation",
        text_value(mutation),
        "shell",
        text_value("pwsh"),
    );
    let parameters = fields1("discovery", text_value("powershell"));
    let output = fields2("kind", text_value("console"), "artifactPath", text_value(""));
    let state = fields3(
        "enabled",
        JsonValue::Bool(true),
        "lastRun",
        text_value(""),
        "lastResult",
        text_value(""),
    );
    object.payload =
    fields5(
        "source",
        source,
        "execution",
        execution,
        "parameters",
        parameters,
        "output",
        output,
        "state",
        state,
    );
    object
}

/// The payload of a City Hall document.
pub open spec fn city_hall_payload(path: Seq<char>) -> JsonView {
    jobject(
        seq![
            ("document"@, jobject(seq![
                ("path"@, jtext(path)),
                ("version"@, jtext("0.1"@)),
                ("status"@, jtext("draft"@)),
            ])),
            ("governance"@, jobject(seq![
                ("domain"@, jtext("workspace governance"@)),
                ("maturity"@, jtext("usable"@)),
                ("adoption"@, jtext("partial"@)),
                ("standardized"@, JsonView::Bool(false)),
            ])),
            ("operation"@, jobject(seq![("attention"@, jtext("current"@))])),
        ],
    )
}

/// A City Hall document in the `city-hall` lane of the primary board, with its
/// acronym, tagged `CityHall`, `Governance` and `Standard`.
pub open spec fn city_hall_spec(
    id: Seq<char>,
    name: Seq<char>,
    acronym: Seq<char>,
    order: i64,
    summary: Seq<char>,
    path: Seq<char>,
) -> ObjectView {
    let base = base_object_spec(id, "city-hall"@, name, summary, "primary"@, "city-hall"@, order);
    ObjectView {
        identity: ObjectIdentityView { acronym: Some(acronym), ..base.identity },
        metadata: MetadataView {
            tags: seq!["CityHall"@, "Governance"@, "Standard"@],
            ..base.metadata
        },
        payload: city_hall_payload(path),
        ..base
    }
}


pub fn city_hall(
    id: &str,
    name: &str,
    acronym: &str,
    order: i64,
    summary: &str,
    path: &str,
) -> (r: OperationalObject)
    ensures
        r@ == city_hall_spec(id@, name@, acronym@, order, summary@, path@),
{
    let mut object = base_object(id, "city-hall", name, summary, "primary", "city-hall", order);
    object.identity.acronym = Some(owned(acronym));
    object.metadata.tags = tags3("CityHall", "Governance", "Standard");
    let document = fields3(
        "path",
        text_value(path),
        "version",
        text_value("0.1"),
        "status",
        text_value("draft"),
    );
    let governance = fields4(
        "domain",
        text_value("workspace governance"),
        "maturity",
        text_value("usable"),
        "adoption",
        text_value("partial"),
        "standardized",
        JsonValue::Bool(false),
    );
    let operation = fields1("attention", text_value("current"));
    object.payload =
    fields3("document", document, "governance", governance, "operation", operation);
    object
}

/// The objects of a new board: two City Hall standards, two operators, three
/// primary projects and three parked secondary projects.
pub open spec fn default_objects_spec() -> Seq<ObjectView> {
    seq![
        city_hall_spec(
            "workspace-governance-standard"@,
            "Workspace Governance Standard"@,
            "WGS"@,
            1,
            "Governs workspace structure, provenance, and operating rules."@,
            "D:\\.library\\aptlantis_core\\WGS\\Workspace Governance Standard.md"@,
        ),
        city_hall_spec(
            "project-proposal-standard"@,
            "Project Proposal Standard"@,
            "PPS"@,
            2,
            "Defines how project proposals become governable work."@,
            "D:\\.library\\aptlantis_core\\PPS\\Project Proposal Standard.md"@,
        ),
        operator_spec(
            "workspace-inventory"@,
            "Workspace Inventory"@,
            1,
            "Read-only inventory of local workspace roots and manifests."@,
            "K:\\Aptlantis\\Operators\\workspace-inventory.ps1"@,
            "read-only"@,
        ),
        operator_spec(
            "artifact-packager"@,
            "Artifact Packager"@,
            2,
            "Packages generated workspace artifacts into an output directory."@,
            "K:\\Aptlantis\\Operators\\artifact-packager.ps1"@,
            "generates-output"@,
        ),
        project_spec(
            "filecabinet"@,
            "FileCabinet"@,
            "project-1"@,
            1,
            "Personal vault and artifact manager for curated archives."@,
            "in progress"@,
            "next"@,
        ),
        project_spec(
            "structa"@,
            "Structa"@,
            "project-2"@,
            1,
            "Structured data builder for JSON, XML, TOML, and YAML."@,
            "in progress"@,
            "current"@,
        ),
        project_spec(
            "aegis"@,
            "Aegis"@,
            "project-3"@,
            1,
            "Key manager and security operations surface."@,
            "draft"@,
            "watch"@,
        ),
        secondary_project_spec(
            "asset-forge"@,
            "Asset Forge"@,
            "work-1"@,
            1,
            "Logo, icon, and app asset normalization utilities."@,
        ),
        secondary_project_spec(
            "schema-garden"@,
            "Schema Garden"@,
            "work-2"@,
            1,
            "Reusable schema catalog and validation playground."@,
        ),
        secondary_project_spec(
            "release-radar"@,
            "Release Radar"@,
            "work-3"@,
            1,
            "Low-friction release candidate watchlist."@,
        ),
    ]
}

/// The objects of a new board.
pub fn default_objects() -> (r: Vec<OperationalObject>)
    ensures
        views(r@) == default_objects_spec(),
{
    let mut v: Vec<OperationalObject> = Vec::new();
    v.push(
        city_hall(
            "workspace-governance-standard",
            "Workspace Governance Standard",
            "WGS",
            1,
            "Governs workspace structure, provenance, and operating rules.",
            "D:\\.library\\aptlantis_core\\WGS\\Workspace Governance Standard.md",
        ),
    );
    v.push(
        city_hall(
            "project-proposal-standard",
            "Project Proposal Standard",
            "PPS",
            2,
            "Defines how project proposals become governable work.",
            "D:\\.library\\aptlantis_core\\PPS\\Project Proposal Standard.md",
        ),
    );
    v.push(
        operator(
            "workspace-inventory",
            "Workspace Inventory",
            1,
            "Read-only inventory of local workspace roots and manifests.",
            "K:\\Aptlantis\\Operators\\workspace-inventory.ps1",
            "read-only",
        ),
    );
    v.push(
        operator(
            "artifact-packager",
            "Artifact Packager",
            2,
            "Packages generated workspace artifacts into an output directory.",
            "K:\\Aptlantis\\Operators\\artifact-packager.ps1",
            "generates-output",
        ),
    );
    v.push(
        project(
            "filecabinet",
            "FileCabinet",
            "project-1",
            1,
            "Personal vault and artifact manager for curated archives.",
            "in progress",
            "next",
        ),
    );
    v.push(
        project(
            "structa",
            "Structa",
            "project-2",
            1,
            "Structured data builder for JSON, XML, TOML, and YAML.",
            "in progress",
            "current",
        ),
    );
    v.push(
        project(
            "aegis",
            "Aegis",
            "project-3",
            1,
            "Key manager and security operations surface.",
            "draft",
            "watch",
        ),
    );
    v.push(
        secondary_project(
            "asset-forge",
            "Asset Forge",
            "work-1",
            1,
            "Logo, icon, and app asset normalization utilities.",
        ),
    );
    v.push(
        secondary_project(
            "schema-garden",
            "Schema Garden",
            "work-2",
            1,
            "Reusable schema catalog and validation playground.",
        ),
    );
    v.push(
        secondary_project(
            "release-radar",
            "Release Radar",
            "work-3",
            1,
            "Low-friction release candidate watchlist.",
        ),
    );
    assert(views(v@) =~= default_objects_spec());
    v
}

} // verus!
