use aptlantis_ops::json::JsonValue;
use aptlantis_ops::model::{
    BoardData, BoardError, CreateMetadataInput, CreateObjectInput, LaneRecord, MoveObjectInput,
    ObjectBoardPlacement, ObjectIdentity, ObjectMetadata, ObjectRecord, OperationalObject, Stored,
    StoredTypes, TagDefinition, UpdateObjectInput,
};
use aptlantis_ops::order::text_less;
use aptlantis_ops::seed::object_definition;
use aptlantis_ops::store::Store;
use aptlantis_ops::text::{ascii_alnum, lower_ascii, slugify, trim_text, white_space};

fn initialized() -> Store {
    let mut store = Store::new();
    store.initialize_database();
    store
}

fn board_data(store: &Store) -> BoardData {
    match store.load_board_data() {
        Ok(d) => d,
        Err(e) => panic!("board data: {:?}", e),
    }
}

fn find_object(objects: Vec<OperationalObject>, id: &str) -> OperationalObject {
    objects.into_iter().find(|object| object.id == id).expect("seeded object")
}

fn identity(id: &str, name: &str, acronym: Option<&str>, summary: &str) -> ObjectIdentity {
    ObjectIdentity {
        id: id.to_string(),
        name: name.to_string(),
        acronym: acronym.map(|a| a.to_string()),
        summary: summary.to_string(),
    }
}

fn placement(board: &str, lane: &str) -> ObjectBoardPlacement {
    ObjectBoardPlacement { board: board.to_string(), lane: lane.to_string(), pinned: false }
}

fn create_input(name: &str, lane: &str, tags: &[&str]) -> CreateObjectInput {
    CreateObjectInput {
        object_type: "project".to_string(),
        identity: identity("", name, None, " summary "),
        board: placement("primary", lane),
        metadata: CreateMetadataInput {
            tags: tags.iter().map(|t| t.to_string()).collect(),
            notes: "  some notes ".to_string(),
        },
        payload: JsonValue::empty_object(),
    }
}

#[test]
fn initializes_typed_database_with_requested_primary_lanes() {
    let store = initialized();
    let data = board_data(&store);
    let primary_lanes = data
        .lanes
        .iter()
        .filter(|lane| lane.board_id == "primary")
        .map(|lane| lane.id.as_str())
        .collect::<Vec<_>>();
    assert_eq!(
        primary_lanes,
        vec!["city-hall", "stock", "powershell", "project-1", "project-2", "project-3"]
    );
}

#[test]
fn moving_object_changes_only_board_projection() {
    let mut store = initialized();
    let before = find_object(store.load_objects(), "filecabinet");
    let moved = store.move_object(
        MoveObjectInput {
            object_id: "filecabinet".to_string(),
            board_id: "primary".to_string(),
            lane_id: "project-2".to_string(),
            card_order: 5,
        },
        "2026-08-11 10:00:00",
    );
    assert!(moved.is_ok());
    let after = find_object(store.load_objects(), "filecabinet");
    assert_eq!(before.identity.name, "FileCabinet");
    assert_eq!(before.object_type, "project");
    assert_eq!(after.identity.name, "FileCabinet");
    assert_eq!(after.object_type, "project");
    assert_eq!(after.board.lane, "project-2");
}

#[test]
fn slugifies_names_for_stable_ids() {
    assert_eq!(aptlantis_ops::text::slugify("PowerShell Operator"), "powershell-operator");
    assert_eq!(aptlantis_ops::text::slugify("AptConsole v1.1.0"), "aptconsole-v1-1-0");
}

#[test]
fn slug_edge_cases() {
    assert_eq!(slugify(""), "");
    assert_eq!(slugify("---"), "");
    assert_eq!(slugify("  Hello   World  "), "hello-world");
    assert_eq!(slugify("Café Menu"), "caf-menu");
    assert_eq!(slugify("-a--b-"), "a-b");
    assert_eq!(slugify("ABC123"), "abc123");
    let once = slugify("  Mixed__Case  Name 42 ");
    assert_eq!(once, "mixed-case-name-42");
    assert_eq!(slugify(&once), once);
}

#[test]
fn trims_like_std() {
    let samples = [
        "",
        "   ",
        "  a b  ",
        "\u{3000}x\u{00a0}",
        "\t\n line \r\n",
        "\u{2028}\u{205f}y\u{85}",
        "no-space",
        "\u{200b}zero width\u{200b}",
    ];
    for s in samples.iter() {
        assert_eq!(trim_text(s), s.trim());
    }
}

#[test]
fn white_space_matches_std_for_every_char() {
    for u in 0u32..0x11_0000 {
        if let Some(c) = char::from_u32(u) {
            assert_eq!(white_space(c), c.is_whitespace(), "char {:x}", u);
        }
    }
}

#[test]
fn ascii_classes_match_std() {
    for u in 0u32..0x300 {
        if let Some(c) = char::from_u32(u) {
            assert_eq!(ascii_alnum(c), c.is_ascii_alphanumeric());
            assert_eq!(lower_ascii(c), c.to_ascii_lowercase());
        }
    }
}

#[test]
fn cleans_tags() {
    let tags = vec![" a ".to_string(), "".to_string(), "   ".to_string(), "b".to_string()];
    assert_eq!(aptlantis_ops::text::clean_tags(tags), vec!["a".to_string(), "b".to_string()]);
}

#[test]
fn decimal_numbers() {
    for n in [0u128, 7, 10, 42, 1000, 123456789] {
        let mut s = String::from("x");
        aptlantis_ops::text::push_decimal(&mut s, n);
        assert_eq!(s, format!("x{}", n));
    }
}

#[test]
fn text_order_is_byte_order() {
    let words = ["", "a", "ab", "b", "B", "é", "z", "aa", "work-1", "work-10", "work-2"];
    for a in words.iter() {
        for b in words.iter() {
            assert_eq!(text_less(a, b), a.as_bytes() < b.as_bytes(), "{} {}", a, b);
        }
    }
}

#[test]
fn object_definitions() {
    assert_eq!(object_definition("powershell-operator"), ("aptlantis.powershell-operator", "0.1"));
    assert_eq!(object_definition("city-hall"), ("aptlantis.city-hall", "0.1"));
    assert_eq!(object_definition("project"), ("aptlantis.project", "0.1"));
    assert_eq!(object_definition("anything"), ("aptlantis.project", "0.1"));
}

#[test]
fn default_seed_data() {
    let lanes = aptlantis_ops::seed::default_lanes();
    assert_eq!(lanes.len(), 12);
    assert_eq!(lanes[0].allowed_types, Some(vec!["city-hall".to_string()]));
    assert_eq!(lanes[1].placeholder, Some(true));
    assert_eq!(lanes[11].id, "work-6");
    let objects = aptlantis_ops::seed::default_objects();
    assert_eq!(objects.len(), 10);
    assert_eq!(objects[0].identity.acronym, Some("WGS".to_string()));
    assert_eq!(objects[0].schema, "aptlantis.city-hall");
    assert_eq!(objects[2].metadata.tags, vec!["Operator".to_string(), "Workspace".to_string()]);
    let filecabinet = &objects[4];
    match &filecabinet.payload {
        JsonValue::Object(fields) => {
            assert_eq!(fields[0].0, "classification");
            match &fields[1].1 {
                JsonValue::Object(location) => {
                    assert_eq!(
                        location[0].1,
                        JsonValue::Text("K:\\Aptlantis\\Workspace\\FileCabinet".to_string())
                    );
                }
                _ => panic!("location is an object"),
            }
        }
        _ => panic!("payload is an object"),
    }
    let asset = aptlantis_ops::seed::project("x", "Asset Forge Pro", "project-1", 3, "s", "l", "a");
    match &asset.payload {
        JsonValue::Object(fields) => match &fields[1].1 {
            JsonValue::Object(location) => assert_eq!(
                location[0].1,
                JsonValue::Text("K:\\Aptlantis\\Workspace\\AssetForgePro".to_string())
            ),
            _ => panic!("location is an object"),
        },
        _ => panic!("payload is an object"),
    }
}

#[test]
fn loaded_board_is_ordered() {
    let store = initialized();
    let data = board_data(&store);
    assert_eq!(data.workspace.id, "aptlantis");
    assert_eq!(data.workspace.storage_used_gb, "121.3");
    let boards: Vec<&str> = data.boards.iter().map(|b| b.id.as_str()).collect();
    assert_eq!(boards, vec!["primary", "secondary"]);
    assert_eq!(data.lanes.len(), 12);
    assert_eq!(data.lanes[6].id, "work-1");
    let objects: Vec<(&str, &str, i64, &str)> = data
        .objects
        .iter()
        .map(|o| (o.board.board.as_str(), o.board.lane.as_str(), o.card_order, o.id.as_str()))
        .collect();
    let mut sorted = objects.clone();
    sorted.sort();
    assert_eq!(objects, sorted);
    assert_eq!(data.objects[0].id, "workspace-governance-standard");
    let tags: Vec<&str> = data.tag_definitions.iter().map(|t| t.tag.as_str()).collect();
    assert_eq!(
        tags,
        vec!["CityHall", "Governance", "Operator", "Project", "Reference", "Standard", "Workspace"]
    );
}

#[test]
fn empty_store_has_no_workspace() {
    let store = Store::new();
    assert!(matches!(store.load_board_data(), Err(BoardError::MissingWorkspace)));
}

#[test]
fn initialize_twice_changes_nothing() {
    let mut store = initialized();
    let first = board_data(&store);
    store.initialize_database();
    let second = board_data(&store);
    assert_eq!(first, second);
    assert_eq!(store.workspace_rows().len(), 1);
    assert_eq!(store.object_rows().len(), 10);
}

#[test]
fn stale_version_is_dropped() {
    let mut store = initialized();
    store
        .create_object(create_input("Extra Project", "project-1", &["Extra"]), "2026-01-01 00:00:00")
        .expect("created");
    assert_eq!(store.object_rows().len(), 11);
    let rebuilt = Store::from_tables(
        Some("older-layout".to_string()),
        Vec::new(),
        Vec::new(),
        Vec::new(),
        store.object_rows().iter().map(|o| o.duplicate()).collect(),
        Vec::new(),
    );
    let mut rebuilt = rebuilt.expect("distinct keys");
    rebuilt.initialize_database();
    assert_eq!(rebuilt.object_rows().len(), 10);
    assert_eq!(rebuilt.schema_version(), &Some("typed-operations-control-surface-v1".to_string()));
}

#[test]
fn duplicate_keys_are_refused() {
    let objects = aptlantis_ops::seed::default_objects();
    let mut twice: Vec<ObjectRecord> =
        objects.iter().map(|o| ObjectRecord::from_object(o.duplicate())).collect();
    twice.push(ObjectRecord::from_object(objects[0].duplicate()));
    assert!(Store::from_tables(None, Vec::new(), Vec::new(), Vec::new(), twice, Vec::new()).is_none());
}

#[test]
fn creates_objects_with_unique_ids_and_next_place() {
    let mut store = initialized();
    let data = store
        .create_object(create_input("  New Tool ", "project-1", &[" Fresh ", "", "Project"]), "T1")
        .expect("created");
    let a = find_object(data.objects, "new-tool");
    assert_eq!(a.identity.id, "new-tool");
    assert_eq!(a.identity.name, "New Tool");
    assert_eq!(a.identity.summary, "summary");
    assert_eq!(a.card_order, 2);
    assert_eq!(a.metadata.tags, vec!["Fresh".to_string(), "Project".to_string()]);
    assert_eq!(a.metadata.notes, "some notes");
    assert_eq!(a.created_at, "T1");
    assert_eq!(a.metadata.created_at, "T1");
    assert_eq!(a.schema, "aptlantis.project");
    let data = store
        .create_object(create_input("New Tool", "project-1", &[]), "T2")
        .expect("created");
    let b = find_object(data.objects, "new-tool-2");
    assert_eq!(b.card_order, 3);
    let data = store
        .create_object(create_input("New Tool", "work-6", &[]), "T3")
        .expect("created");
    let c = find_object(data.objects, "new-tool-3");
    assert_eq!(c.card_order, 1);
    let fresh = data.tag_definitions.iter().find(|t| t.tag == "Fresh").expect("tag colour");
    assert_eq!(fresh.color, "#8b5cf6");
    assert_eq!(fresh.description, None);
    let project = data.tag_definitions.iter().find(|t| t.tag == "Project").expect("tag colour");
    assert_eq!(project.color, "#82d158");
}

#[test]
fn create_uses_given_identity_id_and_falls_back_to_object() {
    let mut store = initialized();
    let mut input = create_input("Whatever", "project-1", &[]);
    input.identity.id = " My Id ".to_string();
    input.identity.acronym = Some("  ".to_string());
    let data = store.create_object(input, "T").expect("created");
    let o = find_object(data.objects, "my-id");
    assert_eq!(o.identity.id, " My Id ");
    assert_eq!(o.identity.acronym, None);
    let mut input = create_input("%%%", "project-1", &[]);
    input.identity.acronym = Some(" AC ".to_string());
    let data = store.create_object(input, "T").expect("created");
    let o = find_object(data.objects, "object");
    assert_eq!(o.identity.id, "object");
    assert_eq!(o.identity.acronym, Some("AC".to_string()));
    assert_eq!(store.unique_object_id("", "%%%"), "object-2");
    assert_eq!(store.unique_object_id("", "FileCabinet"), "filecabinet-2");
}

#[test]
fn card_order_overflow_changes_nothing() {
    let mut store = initialized();
    store
        .move_object(
            MoveObjectInput {
                object_id: "aegis".to_string(),
                board_id: "primary".to_string(),
                lane_id: "project-3".to_string(),
                card_order: i64::MAX,
            },
            "T",
        )
        .expect("moved");
    let before = board_data(&store);
    let r = store.create_object(create_input("Late", "project-3", &["Late"]), "T");
    assert!(matches!(r, Err(BoardError::CardOrderOverflow)));
    assert_eq!(board_data(&store), before);
    assert_eq!(store.next_card_order("primary", "project-2"), Ok(2));
    assert_eq!(store.next_card_order("nowhere", "none"), Ok(1));
}

#[test]
fn update_keeps_creation_time_and_place() {
    let mut store = initialized();
    let data = store
        .update_object(
            UpdateObjectInput {
                id: "structa".to_string(),
                identity: identity(" structa ", " Structa 2 ", Some(" ST "), " s "),
                board: ObjectBoardPlacement {
                    board: "secondary".to_string(),
                    lane: "work-4".to_string(),
                    pinned: true,
                },
                metadata: CreateMetadataInput {
                    tags: vec![" Data ".to_string()],
                    notes: " n ".to_string(),
                },
                payload: JsonValue::Bool(true),
            },
            "LATER",
        )
        .expect("updated");
    let o = find_object(data.objects, "structa");
    assert_eq!(o.identity.id, "structa");
    assert_eq!(o.identity.name, "Structa 2");
    assert_eq!(o.identity.acronym, Some("ST".to_string()));
    assert_eq!(o.board.lane, "work-4");
    assert!(o.board.pinned);
    assert_eq!(o.card_order, 1);
    assert_eq!(o.created_at, "2026-08-10T09:54:00");
    assert_eq!(o.metadata.created_at, "2026-08-10T09:54:00");
    assert_eq!(o.metadata.updated_at, "LATER");
    assert_eq!(o.updated_at, "LATER");
    assert_eq!(o.metadata.tags, vec!["Data".to_string()]);
    assert_eq!(o.payload, JsonValue::Bool(true));
    assert!(data.tag_definitions.iter().any(|t| t.tag == "Data"));
}

#[test]
fn update_of_missing_object_still_colours_tags() {
    let mut store = initialized();
    let before = store.load_objects();
    let data = store
        .update_object(
            UpdateObjectInput {
                id: "missing".to_string(),
                identity: identity("missing", "Missing", None, ""),
                board: placement("primary", "stock"),
                metadata: CreateMetadataInput { tags: vec!["Ghost".to_string()], notes: String::new() },
                payload: JsonValue::Null,
            },
            "T",
        )
        .expect("answered");
    assert_eq!(data.objects, before);
    assert!(data.tag_definitions.iter().any(|t| t.tag == "Ghost" && t.color == "#8b5cf6"));
}

#[test]
fn move_updates_times_and_nothing_else() {
    let mut store = initialized();
    let before = find_object(store.load_objects(), "aegis");
    store
        .move_object(
            MoveObjectInput {
                object_id: "aegis".to_string(),
                board_id: "secondary".to_string(),
                lane_id: "work-2".to_string(),
                card_order: -4,
            },
            "NOW",
        )
        .expect("moved");
    let after = find_object(store.load_objects(), "aegis");
    assert_eq!(after.board.board, "secondary");
    assert_eq!(after.board.lane, "work-2");
    assert_eq!(after.card_order, -4);
    assert_eq!(after.updated_at, "NOW");
    assert_eq!(after.metadata.updated_at, "NOW");
    assert_eq!(after.metadata.created_at, before.metadata.created_at);
    assert_eq!(after.identity, before.identity);
    assert_eq!(after.payload, before.payload);
    assert_eq!(after.metadata.tags, before.metadata.tags);
    let others_before: Vec<OperationalObject> =
        store.load_objects().into_iter().filter(|o| o.id != "aegis").collect();
    let missing = store.move_object(
        MoveObjectInput {
            object_id: "nope".to_string(),
            board_id: "x".to_string(),
            lane_id: "y".to_string(),
            card_order: 1,
        },
        "LATER",
    );
    let others_after: Vec<OperationalObject> =
        missing.expect("answered").objects.into_iter().filter(|o| o.id != "aegis").collect();
    assert_eq!(others_before, others_after);
}

#[test]
fn tag_colour_read_after_write() {
    let mut store = initialized();
    let def = TagDefinition {
        tag: "Project".to_string(),
        color: "#000000".to_string(),
        description: Some("Projects".to_string()),
    };
    let data = store.update_tag_definition(def.duplicate()).expect("updated");
    assert!(data.tag_definitions.contains(&def));
    assert_eq!(data.tag_definitions.len(), 7);
    let new_def = TagDefinition { tag: "Alpha".to_string(), color: "#111111".to_string(), description: None };
    let data = store.update_tag_definition(new_def.duplicate()).expect("added");
    assert_eq!(data.tag_definitions[0], new_def);
    assert_eq!(data.tag_definitions.len(), 8);
}

#[test]
fn fallbacks_for_unreadable_rows() {
    let identity = ObjectIdentity::unnamed();
    assert_eq!(identity.name, "Unnamed Object");
    assert_eq!(identity.id, "");
    let metadata = aptlantis_ops::model::ObjectMetadata::blank();
    assert!(metadata.tags.is_empty());
    assert_eq!(JsonValue::empty_object(), JsonValue::Object(Vec::new()));
    assert!(aptlantis_ops::model::flag_from_column(1));
    assert!(!aptlantis_ops::model::flag_from_column(2));
    assert_eq!(aptlantis_ops::model::flag_to_column(true), 1);
    assert_eq!(aptlantis_ops::model::flag_to_column(false), 0);
}

#[test]
fn payload_copies_are_equal() {
    let objects = aptlantis_ops::seed::default_objects();
    for o in objects.iter() {
        assert_eq!(o.payload.duplicate(), o.payload);
        assert_eq!(&o.duplicate(), o);
    }
}

#[test]
fn trimming_twice_changes_nothing() {
    for s in ["  a  ", "\u{3000} b\t", "", " ", "c"].iter() {
        let once = trim_text(s);
        assert_eq!(trim_text(&once), once);
    }
}

#[test]
fn every_object_tag_keeps_a_colour() {
    let mut store = initialized();
    store.create_object(create_input("Tagged", "project-1", &[" New ", "Other"]), "T").expect("created");
    store
        .update_object(
            UpdateObjectInput {
                id: "aegis".to_string(),
                identity: identity("aegis", "Aegis", None, ""),
                board: placement("primary", "project-3"),
                metadata: CreateMetadataInput { tags: vec!["Security".to_string()], notes: String::new() },
                payload: JsonValue::Null,
            },
            "T",
        )
        .expect("updated");
    let data = board_data(&store);
    for object in data.objects.iter() {
        for tag in object.metadata.tags.iter() {
            assert!(data.tag_definitions.iter().any(|t| &t.tag == tag), "tag {}", tag);
        }
    }
}

#[test]
fn listing_does_not_depend_on_row_order() {
    let store = initialized();
    let reversed = Store::from_tables(
        store.schema_version().clone(),
        store.workspace_rows().iter().rev().map(|w| w.duplicate()).collect(),
        store.board_rows().iter().rev().map(|b| b.duplicate()).collect(),
        store.lane_rows().iter().rev().map(|l| l.duplicate()).collect(),
        store.object_rows().iter().rev().map(|o| o.duplicate()).collect(),
        store.tag_rows().iter().rev().map(|t| t.duplicate()).collect(),
    )
    .expect("distinct keys");
    assert_eq!(board_data(&reversed), board_data(&store));
}

/// The initialized tables with one more object row whose identity, metadata
/// and payload columns hold text that is not JSON of their kind.
fn with_unreadable_row() -> Store {
    let store = initialized();
    let mut objects: Vec<ObjectRecord> = store.object_rows().iter().map(|o| o.duplicate()).collect();
    objects.push(ObjectRecord {
        id: "broken".to_string(),
        object_type: "project".to_string(),
        schema: "aptlantis.project".to_string(),
        schema_version: "0.1".to_string(),
        identity: Stored::Unreadable("{not json".to_string()),
        board: placement("primary", "project-1"),
        metadata: Stored::Unreadable("[1, 2]".to_string()),
        payload: Stored::Unreadable("nope".to_string()),
        created_at: "ROW-CREATED".to_string(),
        updated_at: "ROW-UPDATED".to_string(),
        card_order: 7,
    });
    Store::from_tables(
        store.schema_version().clone(),
        store.workspace_rows().iter().map(|w| w.duplicate()).collect(),
        store.board_rows().iter().map(|b| b.duplicate()).collect(),
        store.lane_rows().iter().map(|l| l.duplicate()).collect(),
        objects,
        store.tag_rows().iter().map(|t| t.duplicate()).collect(),
    )
    .expect("distinct keys")
}

fn broken_row(store: &Store) -> ObjectRecord {
    store.object_rows().iter().find(|o| o.id == "broken").expect("broken row").duplicate()
}

#[test]
fn unreadable_columns_show_fallbacks_and_are_kept() {
    let store = with_unreadable_row();
    let shown = find_object(store.load_objects(), "broken");
    assert_eq!(shown.identity, identity("", "Unnamed Object", None, ""));
    assert_eq!(
        shown.metadata,
        ObjectMetadata {
            tags: Vec::new(),
            notes: String::new(),
            created_at: String::new(),
            updated_at: String::new(),
        }
    );
    assert_eq!(shown.payload, JsonValue::Object(Vec::new()));
    assert_eq!(shown.created_at, "ROW-CREATED");
    assert_eq!(shown.card_order, 7);
    let row = broken_row(&store);
    assert_eq!(row.identity, Stored::Unreadable("{not json".to_string()));
    assert_eq!(row.metadata, Stored::Unreadable("[1, 2]".to_string()));
    assert_eq!(row.payload, Stored::Unreadable("nope".to_string()));
}

#[test]
fn moving_object_with_unreadable_metadata_is_refused() {
    let mut store = with_unreadable_row();
    let before: Vec<ObjectRecord> = store.object_rows().iter().map(|o| o.duplicate()).collect();
    let result = store.move_object(
        MoveObjectInput {
            object_id: "broken".to_string(),
            board_id: "secondary".to_string(),
            lane_id: "work-1".to_string(),
            card_order: 3,
        },
        "NOW",
    );
    assert!(matches!(result, Err(BoardError::UnreadableMetadata)));
    let after: Vec<ObjectRecord> = store.object_rows().iter().map(|o| o.duplicate()).collect();
    assert_eq!(before, after);
}

#[test]
fn other_requests_keep_unreadable_rows_as_written() {
    let mut store = with_unreadable_row();
    store
        .create_object(create_input("Another", "project-2", &["Project"]), "NOW")
        .expect("created");
    store
        .move_object(
            MoveObjectInput {
                object_id: "aegis".to_string(),
                board_id: "secondary".to_string(),
                lane_id: "work-4".to_string(),
                card_order: 2,
            },
            "NOW",
        )
        .expect("moved");
    let row = broken_row(&store);
    assert_eq!(row.identity, Stored::Unreadable("{not json".to_string()));
    assert_eq!(row.metadata, Stored::Unreadable("[1, 2]".to_string()));
    assert_eq!(row.payload, Stored::Unreadable("nope".to_string()));
}

#[test]
fn update_of_unreadable_metadata_keeps_row_creation_time() {
    let mut store = with_unreadable_row();
    let data = store
        .update_object(
            UpdateObjectInput {
                id: "broken".to_string(),
                identity: identity(" broken ", " Mended ", Some(" M "), " again "),
                board: placement("primary", "project-2"),
                metadata: CreateMetadataInput {
                    tags: vec![" Project ".to_string()],
                    notes: " fixed ".to_string(),
                },
                payload: JsonValue::Null,
            },
            "NOW",
        )
        .expect("updated");
    let shown = find_object(data.objects, "broken");
    assert_eq!(shown.identity, identity("broken", "Mended", Some("M"), "again"));
    assert_eq!(shown.metadata.created_at, "ROW-CREATED");
    assert_eq!(shown.metadata.updated_at, "NOW");
    assert_eq!(shown.metadata.tags, vec!["Project".to_string()]);
    assert_eq!(shown.metadata.notes, "fixed");
    assert_eq!(shown.payload, JsonValue::Null);
    assert_eq!(shown.created_at, "ROW-CREATED");
    assert_eq!(shown.updated_at, "NOW");
    let row = broken_row(&store);
    assert!(matches!(row.metadata, Stored::Read(_)));
}

#[test]
fn parse_results_become_columns() {
    let read: Stored<JsonValue> = Stored::from_parse(Some(JsonValue::Bool(true)), "true".to_string());
    assert_eq!(read, Stored::Read(JsonValue::Bool(true)));
    let kept: Stored<JsonValue> = Stored::from_parse(None, "{oops".to_string());
    assert_eq!(kept, Stored::Unreadable("{oops".to_string()));
    let types = StoredTypes::from_parse(Some(vec!["project".to_string()]), "[\"project\"]".to_string());
    assert_eq!(types, StoredTypes::Read(vec!["project".to_string()]));
    let bad = StoredTypes::from_parse(None, "null".to_string());
    assert_eq!(bad, StoredTypes::Unreadable("null".to_string()));
}

#[test]
fn unreadable_lane_types_show_none_and_are_kept() {
    let store = initialized();
    let mut lanes: Vec<LaneRecord> = store.lane_rows().iter().map(|l| l.duplicate()).collect();
    lanes.push(LaneRecord {
        id: "odd".to_string(),
        board_id: "secondary".to_string(),
        title: "Odd".to_string(),
        tone: "blue".to_string(),
        allowed_types: Some(StoredTypes::Unreadable("{bad".to_string())),
        placeholder: false,
        position: 99,
    });
    let store = Store::from_tables(None, Vec::new(), Vec::new(), lanes, Vec::new(), Vec::new())
        .expect("distinct keys");
    let shown = store.load_lanes();
    let odd = shown.iter().find(|l| l.id == "odd").expect("odd lane");
    assert_eq!(odd.allowed_types, None);
    assert_eq!(odd.placeholder, Some(false));
    let row = store.lane_rows().iter().find(|l| l.id == "odd").expect("odd row");
    assert_eq!(row.allowed_types, Some(StoredTypes::Unreadable("{bad".to_string())));
}

#[test]
fn seeded_objects_sit_in_lanes_that_take_their_type() {
    let lanes = aptlantis_ops::seed::default_lanes();
    let objects = aptlantis_ops::seed::default_objects();
    for (i, o) in objects.iter().enumerate() {
        assert!(objects.iter().skip(i + 1).all(|p| p.id != o.id));
        assert_eq!(o.identity.id, o.id);
        let (schema, version) = object_definition(&o.object_type);
        assert_eq!(o.schema, schema);
        assert_eq!(o.schema_version, version);
        let lane = lanes.iter().find(|l| l.id == o.board.lane).expect("lane exists");
        assert_eq!(lane.board_id, o.board.board);
        if let Some(types) = &lane.allowed_types {
            assert!(types.contains(&o.object_type), "{} in {}", o.id, lane.id);
        }
    }
    for lane in lanes.iter() {
        if let Some(types) = &lane.allowed_types {
            for t in types {
                assert_eq!(object_definition(t).0, format!("aptlantis.{}", t));
            }
        }
    }
}

#[test]
fn update_with_own_values_changes_only_update_times() {
    let mut store = initialized();
    let before = store.load_objects();
    let tags_before = store.load_tag_definitions();
    let x = find_object(store.load_objects(), "filecabinet");
    store
        .update_object(
            UpdateObjectInput {
                id: x.id.clone(),
                identity: x.identity.duplicate(),
                board: x.board.duplicate(),
                metadata: CreateMetadataInput {
                    tags: x.metadata.tags.clone(),
                    notes: x.metadata.notes.clone(),
                },
                payload: x.payload.duplicate(),
            },
            "LATER",
        )
        .expect("updated");
    let after = store.load_objects();
    assert_eq!(after.len(), before.len());
    for (b, a) in before.iter().zip(after.iter()) {
        if b.id == "filecabinet" {
            let mut expected = b.duplicate();
            expected.updated_at = "LATER".to_string();
            expected.metadata.updated_at = "LATER".to_string();
            assert_eq!(a, &expected);
        } else {
            assert_eq!(a, b);
        }
    }
    assert_eq!(store.load_tag_definitions(), tags_before);
}

#[test]
fn inserted_object_reads_back_in_every_field() {
    let mut store = initialized();
    let before = store.load_objects();
    let mut o = find_object(store.load_objects(), "structa");
    o.id = "fresh-one".to_string();
    o.identity.id = "fresh-one".to_string();
    o.card_order = 42;
    store.insert_object(o.duplicate());
    let after = store.load_objects();
    let same_id: Vec<&OperationalObject> = after.iter().filter(|x| x.id == "fresh-one").collect();
    assert_eq!(same_id.len(), 1);
    assert_eq!(same_id[0], &o);
    assert_eq!(after.len(), before.len() + 1);
    for b in before.iter() {
        assert!(after.contains(b));
    }

    let mut replacement = find_object(store.load_objects(), "aegis");
    replacement.identity.name = "Aegis Two".to_string();
    replacement.board = placement("secondary", "work-5");
    store.insert_object(replacement.duplicate());
    let again = store.load_objects();
    let same_id: Vec<&OperationalObject> = again.iter().filter(|x| x.id == "aegis").collect();
    assert_eq!(same_id.len(), 1);
    assert_eq!(same_id[0], &replacement);
    assert_eq!(again.len(), after.len());
    for b in after.iter().filter(|x| x.id != "aegis") {
        assert!(again.contains(b));
    }
}
