//! The key of each table and the order in which each table is listed.
use vstd::prelude::*;
use crate::model::{
    BoardDefinition, BoardDefinitionView, LaneRecord, LaneRecordView, ObjectRecord,
    ObjectRecordView, ObjectView, OperationalObject, TagDefinition, TagDefinitionView, Workspace,
    WorkspaceView,
};
use crate::order::{lemma_text_lt_irreflexive, lemma_text_lt_transitive, text_less, text_lt, RowOrder};
use crate::table::Keyed;
use crate::text::text_eq;

verus! {

impl Keyed for Workspace {
    open spec fn key_of(v: WorkspaceView) -> Seq<char> {
        v.id
    }

    fn key(&self) -> (r: &str) {
        self.id.as_str()
    }
}

impl Keyed for BoardDefinition {
    open spec fn key_of(v: BoardDefinitionView) -> Seq<char> {
        v.id
    }

    fn key(&self) -> (r: &str) {
        self.id.as_str()
    }
}

impl Keyed for LaneRecord {
    open spec fn key_of(v: LaneRecordView) -> Seq<char> {
        v.id
    }

    fn key(&self) -> (r: &str) {
        self.id.as_str()
    }
}

impl Keyed for OperationalObject {
    open spec fn key_of(v: ObjectView) -> Seq<char> {
        v.id
    }

    fn key(&self) -> (r: &str) {
        self.id.as_str()
    }
}

impl Keyed for ObjectRecord {
    open spec fn key_of(v: ObjectRecordView) -> Seq<char> {
        v.id
    }

    fn key(&self) -> (r: &str) {
        self.id.as_str()
    }
}

impl Keyed for TagDefinition {
    open spec fn key_of(v: TagDefinitionView) -> Seq<char> {
        v.tag
    }

    fn key(&self) -> (r: &str) {
        self.tag.as_str()
    }
}

/// Boards are listed with `primary` first, then by id.
pub open spec fn board_rank(id: Seq<char>) -> int {
    if id == "primary"@ {
        0
    } else {
        1
    }
}

pub open spec fn board_before(a: BoardDefinitionView, b: BoardDefinitionView) -> bool {
    board_rank(a.id) < board_rank(b.id) || (board_rank(a.id) == board_rank(b.id) && text_lt(
        a.id,
        b.id,
    ))
}

impl RowOrder for BoardDefinition {
    open spec fn row_before(a: BoardDefinitionView, b: BoardDefinitionView) -> bool {
        board_before(a, b)
    }

    proof fn lemma_row_before_irreflexive(a: BoardDefinitionView) {
        lemma_text_lt_irreflexive(a.id);
    }

    proof fn lemma_row_before_transitive(
        a: BoardDefinitionView,
        b: BoardDefinitionView,
        c: BoardDefinitionView,
    ) {
        if board_rank(a.id) == board_rank(b.id) && board_rank(b.id) == board_rank(c.id) {
            lemma_text_lt_transitive(a.id, b.id, c.id);
        }
    }

    fn before(&self, other: &Self) -> (r: bool) {
        let ra: u8 = if text_eq(self.id.as_str(), "primary") {
            0
        } else {
            1
        };
        let rb: u8 = if text_eq(other.id.as_str(), "primary") {
            0
        } else {
            1
        };
        ra < rb || (ra == rb && text_less(self.id.as_str(), other.id.as_str()))
    }

    fn copy_row(&self) -> (r: Self) {
        self.duplicate()
    }
}

/// Lanes are listed by position, then by id.
pub open spec fn lane_before(a: LaneRecordView, b: LaneRecordView) -> bool {
    a.position < b.position || (a.position == b.position && text_lt(a.id, b.id))
}

impl RowOrder for LaneRecord {
    open spec fn row_before(a: LaneRecordView, b: LaneRecordView) -> bool {
        lane_before(a, b)
    }

    proof fn lemma_row_before_irreflexive(a: LaneRecordView) {
        lemma_text_lt_irreflexive(a.id);
    }

    proof fn lemma_row_before_transitive(a: LaneRecordView, b: LaneRecordView, c: LaneRecordView) {
        if a.position == b.position && b.position == c.position {
            lemma_text_lt_transitive(a.id, b.id, c.id);
        }
    }

    fn before(&self, other: &Self) -> (r: bool) {
        self.position < other.position || (self.position == other.position && text_less(
            self.id.as_str(),
            other.id.as_str(),
        ))
    }

    fn copy_row(&self) -> (r: Self) {
        self.duplicate()
    }
}

/// Objects are listed by board, then lane, then place in the lane, then id.
pub open spec fn object_before(a: ObjectRecordView, b: ObjectRecordView) -> bool {
    text_lt(a.board.board, b.board.board) || (a.board.board == b.board.board && (text_lt(
        a.board.lane,
        b.board.lane,
    ) || (a.board.lane == b.board.lane && (a.card_order < b.card_order || (a.card_order
        == b.card_order && text_lt(a.id, b.id))))))
}

impl RowOrder for ObjectRecord {
    open spec fn row_before(a: ObjectRecordView, b: ObjectRecordView) -> bool {
        object_before(a, b)
    }

    proof fn lemma_row_before_irreflexive(a: ObjectRecordView) {
        lemma_text_lt_irreflexive(a.board.board);
        lemma_text_lt_irreflexive(a.board.lane);
        lemma_text_lt_irreflexive(a.id);
    }

    proof fn lemma_row_before_transitive(a: ObjectRecordView, b: ObjectRecordView, c: ObjectRecordView) {
        if text_lt(a.board.board, b.board.board) && text_lt(b.board.board, c.board.board) {
            lemma_text_lt_transitive(a.board.board, b.board.board, c.board.board);
        }
        if a.board.board == b.board.board && b.board.board == c.board.board {
            if text_lt(a.board.lane, b.board.lane) && text_lt(b.board.lane, c.board.lane) {
                lemma_text_lt_transitive(a.board.lane, b.board.lane, c.board.lane);
            }
            if a.board.lane == b.board.lane && b.board.lane == c.board.lane && a.card_order
                == b.card_order && b.card_order == c.card_order && text_lt(a.id, b.id) && text_lt(
                b.id,
                c.id,
            ) {
                lemma_text_lt_transitive(a.id, b.id, c.id);
            }
        }
    }

    fn before(&self, other: &Self) -> (r: bool) {
        let ba = self.board.board.as_str();
        let bb = other.board.board.as_str();
        if text_less(ba, bb) {
            return true;
        }
        if !text_eq(ba, bb) {
            return false;
        }
        let la = self.board.lane.as_str();
        let lb = other.board.lane.as_str();
        if text_less(la, lb) {
            return true;
        }
        if !text_eq(la, lb) {
            return false;
        }
        self.card_order < other.card_order || (self.card_order == other.card_order && text_less(
            self.id.as_str(),
            other.id.as_str(),
        ))
    }

    fn copy_row(&self) -> (r: Self) {
        self.duplicate()
    }
}

/// Tags are listed by name.
pub open spec fn tag_before(a: TagDefinitionView, b: TagDefinitionView) -> bool {
    text_lt(a.tag, b.tag)
}

impl RowOrder for TagDefinition {
    open spec fn row_before(a: TagDefinitionView, b: TagDefinitionView) -> bool {
        tag_before(a, b)
    }

    proof fn lemma_row_before_irreflexive(a: TagDefinitionView) {
        lemma_text_lt_irreflexive(a.tag);
    }

    proof fn lemma_row_before_transitive(
        a: TagDefinitionView,
        b: TagDefinitionView,
        c: TagDefinitionView,
    ) {
        lemma_text_lt_transitive(a.tag, b.tag, c.tag);
    }

    fn before(&self, other: &Self) -> (r: bool) {
        text_less(self.tag.as_str(), other.tag.as_str())
    }

    fn copy_row(&self) -> (r: Self) {
        self.duplicate()
    }
}

} // verus!
