//! That places in a text and positions in an editor stand for each other.
use vstd::prelude::*;
use crate::source::line_feeds;
use crate::text::utf8_len;
use crate::text_index::{
    ends_line, is_line_len, lemma_column_within_line, lemma_line_len_unique, lemma_raw_order,
    positions_fit, raw_column, raw_position, shown_at, Position, PositionMapping, TextIndex,
};

verus! {

proof fn lemma_one_place(text: Seq<char>, marked: bool, line: nat, column: nat, j: int, k: int)
    requires
        shown_at(text, marked, line, column, j),
        shown_at(text, marked, line, column, k),
    ensures
        j == k,
{
    if j < k {
        lemma_raw_order(text, marked, j, k);
    } else if k < j {
        lemma_raw_order(text, marked, k, j);
    }
}

proof fn lemma_marked_column(text: Seq<char>, k: int)
    requires
        0 <= k <= text.len(),
    ensures
        line_feeds(text.take(k)) == 0 ==> raw_column(text.take(k), true) >= 1,
        line_feeds(text.take(k)) <= line_feeds(text),
{
    assert(text.take(text.len() as int) =~= text);
    if k < text.len() {
        lemma_raw_order(text, true, k, text.len() as int);
    }
}

/// The position that an editor shows a place at means that place.
pub proof fn law_positions_mean_their_places(
    index: TextIndex,
    position: Position,
    mapping: Option<PositionMapping>,
    k: int,
)
    requires
        index.maps_to(position, mapping),
        0 <= k <= index.text().len(),
        positions_fit(index.text(), index.marked()),
        position == raw_position(index.text().take(k), index.marked()),
    ensures
        mapping matches Some(PositionMapping::Offset(offset)) && offset == utf8_len(
            index.text().take(k),
        ),
{
    let text = index.text();
    let marked = index.marked();
    lemma_marked_column(text, k);
    assert(raw_column(text.take(k), marked) <= u32::MAX);
    let line = position.line as nat;
    let column = position.character as nat;
    assert(shown_at(text, marked, line, column, k));
    lemma_column_within_line(text, marked, k);
    if let Some(PositionMapping::Offset(offset)) = mapping {
        let (len, j) = choose|len: nat, j: int|
            #![trigger is_line_len(text, marked, line, len), text.take(j)]
            {
                let at = if position.character <= len {
                    position.character as nat
                } else {
                    len
                };
                &&& is_line_len(text, marked, line, len)
                &&& shown_at(text, marked, line, at, j)
                &&& offset == utf8_len(text.take(j))
            };
        assert(is_line_len(text, marked, line, len));
        lemma_one_place(text, marked, line, column, j, k);
    }
}

/// A position past the end of its line means the end of the line.
pub proof fn law_positions_past_the_end_mean_the_end(
    index: TextIndex,
    position: Position,
    mapping: Option<PositionMapping>,
    end: int,
)
    requires
        index.maps_to(position, mapping),
        ends_line(index.text(), position.line as nat, end),
        position.character > raw_column(index.text().take(end), index.marked()),
    ensures
        mapping matches Some(PositionMapping::Offset(offset)) && offset == utf8_len(
            index.text().take(end),
        ),
{
    let text = index.text();
    let marked = index.marked();
    let line = position.line as nat;
    let width = raw_column(text.take(end), marked);
    lemma_marked_column(text, end);
    assert(is_line_len(text, marked, line, width));
    lemma_line_len_unique(text, marked, line, width);
    if mapping is None {
        let len = choose|len: nat|
            #![trigger is_line_len(text, marked, line, len)]
            {
                &&& is_line_len(text, marked, line, len)
                &&& position.character <= len
                &&& forall|k: int| !#[trigger] shown_at(
                    text,
                    marked,
                    line,
                    position.character as nat,
                    k,
                )
            };
        lemma_line_len_unique(text, marked, line, len);
    }
    if let Some(PositionMapping::Offset(offset)) = mapping {
        let (len, j) = choose|len: nat, j: int|
            #![trigger is_line_len(text, marked, line, len), text.take(j)]
            {
                let at = if position.character <= len {
                    position.character as nat
                } else {
                    len
                };
                &&& is_line_len(text, marked, line, len)
                &&& shown_at(text, marked, line, at, j)
                &&& offset == utf8_len(text.take(j))
            };
        lemma_line_len_unique(text, marked, line, len);
        assert(shown_at(text, marked, line, width, end));
        lemma_one_place(text, marked, line, width, j, end);
    }
}

/// A position on a line that is not there means nothing, and the place of a byte
/// order mark is not in the text.
pub proof fn law_other_positions_mean_nothing(
    index: TextIndex,
    position: Position,
    mapping: Option<PositionMapping>,
)
    requires
        index.maps_to(position, mapping),
    ensures
        position.line > line_feeds(index.text()) ==> mapping is None,
        index.marked() && position.line == 0 && position.character == 0 ==> mapping == Some(
            PositionMapping::OutsideCompilerText,
        ),
{
    let text = index.text();
    if let Some(PositionMapping::Offset(offset)) = mapping {
        let marked = index.marked();
        let line = position.line as nat;
        let (len, j) = choose|len: nat, j: int|
            #![trigger is_line_len(text, marked, line, len), text.take(j)]
            {
                let at = if position.character <= len {
                    position.character as nat
                } else {
                    len
                };
                &&& is_line_len(text, marked, line, len)
                &&& shown_at(text, marked, line, at, j)
                &&& offset == utf8_len(text.take(j))
            };
        lemma_marked_column(text, j);
    }
}

} // verus!
