use concats::widgets::find::{count_hits, hits_in, replacements, seek};
use concats::widgets::sticky::{
    anchor_entry, row_at_y, sticky_offsets, Band, DrawnRow, StickyOffsets, CARD_END_EDGE,
    FILE_HEADER_TOP_PADDING, STICKY_FADE, STICKY_HEIGHT, STICKY_TOP_GAP,
};

fn band(entry: usize, top: i64, height: i64) -> Band {
    Band { entry, top, height }
}

#[test]
fn the_anchor_is_the_lowest_drawn_row_still_crossing_the_top_edge() {
    let bands = vec![
        band(3, -40_000, 20_000), // fully scrolled past: its band ends above the edge
        band(4, -10_000, 0),      // zero-height at the boundary: never crosses
        band(5, -10_000, 25_000), // crosses the edge: the anchor
        band(6, 15_000, 30_000),
    ];
    assert_eq!(anchor_entry(&bands), Some(5));
    assert_eq!(anchor_entry(&vec![]), None);
    // A band of no height is never picked, wherever it lies.
    let bands = vec![
        Band { entry: 1, top: 3, height: 0 },
        Band { entry: 2, top: 3, height: 20 },
    ];
    assert_eq!(anchor_entry(&bands), Some(2));
    assert_eq!(anchor_entry(&vec![Band { entry: 1, top: 3, height: 0 }]), None);
}

#[test]
fn the_pinned_copy_rides_the_real_header_while_it_is_on_screen() {
    let StickyOffsets { push, lift } = sticky_offsets(Some(100_000), None);
    assert_eq!(push, 100_000 + FILE_HEADER_TOP_PADDING);
    assert_eq!(lift, 0, "resting on the real header casts no shadow");
}

#[test]
fn an_off_screen_header_rests_the_copy_at_the_gap_under_full_shadow() {
    assert_eq!(
        sticky_offsets(None, None),
        StickyOffsets { push: STICKY_TOP_GAP, lift: STICKY_FADE }
    );
}

#[test]
fn the_cards_bottom_edge_pushes_the_copy_out_instead_of_over_the_next_card() {
    // The card's end just above the top edge: the copy slides out with it…
    let end_top = STICKY_HEIGHT - CARD_END_EDGE - 20_000;
    assert_eq!(sticky_offsets(None, Some(end_top)).push, -20_000);
    // …but never past its own height, and never below its resting gap.
    assert_eq!(sticky_offsets(None, Some(-1_000_000)).push, -STICKY_HEIGHT);
    assert_eq!(sticky_offsets(None, Some(1_000_000)).push, STICKY_TOP_GAP);
}

#[test]
fn the_shadow_ramps_continuously_as_the_header_lifts_away() {
    let lift_at = |top: i64| sticky_offsets(Some(top), None).lift;
    let start = STICKY_TOP_GAP - FILE_HEADER_TOP_PADDING;
    assert_eq!(lift_at(start), 0);
    assert_eq!(lift_at(start - STICKY_FADE / 2), STICKY_FADE / 2);
    assert_eq!(lift_at(start - STICKY_FADE), STICKY_FADE);
}

#[test]
fn find_marks_every_occurrence_in_a_line_whatever_its_case() {
    assert_eq!(hits_in("let x = x + 1;", Some("x")), [(4, 5), (8, 9)]);
    assert_eq!(hits_in("Row::Code", Some("code")), [(5, 9)]);
    assert_eq!(hits_in("aaa", Some("aa")), [(0, 2)], "hits do not overlap");
    assert!(hits_in("anything", None).is_empty());
    assert!(
        hits_in("anything", Some("")).is_empty(),
        "an empty query finds nothing"
    );
    assert!(hits_in("anything", Some("zz")).is_empty());
}

fn drawn(list: &[(usize, i64, i64)]) -> Vec<DrawnRow> {
    list.iter()
        .map(|(row, top, bottom)| DrawnRow { row: *row, top: *top, bottom: *bottom })
        .collect()
}

#[test]
fn a_position_names_the_row_whose_band_it_lands_in() {
    let drawn = drawn(&[(4, 100_000, 120_000), (5, 120_000, 160_000), (6, 160_000, 180_000)]);
    assert_eq!(row_at_y(&drawn, 100_000), Some(4));
    assert_eq!(row_at_y(&drawn, 119_900), Some(4));
    assert_eq!(row_at_y(&drawn, 120_000), Some(5), "bands are half-open");
    assert_eq!(row_at_y(&drawn, 159_000), Some(5), "the tall row is one row");
    assert_eq!(row_at_y(&drawn, 170_000), Some(6));
}

#[test]
fn a_position_beyond_what_was_drawn_clamps_to_the_nearest_row() {
    let drawn = drawn(&[(4, 100_000, 120_000), (5, 120_000, 140_000)]);
    assert_eq!(row_at_y(&drawn, 0), Some(4));
    assert_eq!(row_at_y(&drawn, 9_999_000), Some(5));
    assert_eq!(row_at_y(&vec![], 50_000), None);
}

#[test]
fn hits_count_seek_and_replace_agree() {
    assert_eq!(count_hits(Some("one two one"), "one"), count_hits(Some("ONE one"), "one"));
    assert_eq!(seek("one two one", "one", 0, false), Some(0));
    assert_eq!(seek("one two one", "one", 1, false), Some(8));
    assert_eq!(seek("one two one", "ONE", 8, false), Some(8));
    assert_eq!(seek("one two one", "one", 9, false), Some(0));
    assert_eq!(seek("one two one", "one", 8, true), Some(0));
    assert_eq!(seek("one two one", "none", 0, false), None);
    // The last first, so that those before it stay where they are.
    assert_eq!(replacements("one two one", "one", 0, true), [(8, 11), (0, 3)]);
    assert_eq!(replacements("one two one", "one", 8, false), [(8, 11)]);
}
