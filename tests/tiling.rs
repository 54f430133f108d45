use truchet::{
    can_place_large, can_place_med, can_place_small, canvas_size_px, generate_tiles,
    get_slots_for_large, get_slots_for_med, get_tile_svg_string, mark_cells, push_decimal,
    tiles_from_decisions, wrap_document, Tile, TilingError, MED_OFFSET, SMALL_OFFSET,
};

fn small_fragments(width: usize, free: &[usize], flip: bool) -> String {
    let mut out = String::new();
    for &cell in free {
        let row = cell / width;
        let column = cell % width;
        out.push_str(&get_tile_svg_string(
            Tile::Small,
            column * 6 + SMALL_OFFSET,
            row * 6 + SMALL_OFFSET,
            flip,
        ));
    }
    out
}

#[test]
fn small_tile_markup_exact() {
    let expected = [
        "<rect width=\"6\" height=\"6\" x=\"2\" y=\"2\" fill=\"white\"/>",
        "<path d=\"M 2 2 L 6 2 A 4 4 0 0 1 2 6\" fill=\"black\"/>",
        "<path d=\"M 8 8 L 4 8 A 4 4 0 0 1 8 4\" fill=\"black\"/>",
        "<circle cx=\"2\" cy=\"5\" r=\"1\" fill=\"black\"/>",
        "<circle cx=\"8\" cy=\"5\" r=\"1\" fill=\"black\"/>",
        "<circle cx=\"5\" cy=\"2\" r=\"1\" fill=\"black\"/>",
        "<circle cx=\"5\" cy=\"8\" r=\"1\" fill=\"black\"/>",
        "<circle cx=\"2\" cy=\"2\" r=\"2\" fill=\"white\"/>",
        "<circle cx=\"8\" cy=\"8\" r=\"2\" fill=\"white\"/>",
        "<circle cx=\"2\" cy=\"8\" r=\"2\" fill=\"white\"/>",
        "<circle cx=\"8\" cy=\"2\" r=\"2\" fill=\"white\"/>",
    ]
    .concat();
    assert_eq!(get_tile_svg_string(Tile::Small, 0, 0, false), expected);
}

#[test]
fn medium_tile_markup_flipped_exact() {
    let expected = [
        "<rect width=\"12\" height=\"12\" x=\"8\" y=\"8\" fill=\"black\"/>",
        "<path d=\"M 20 8 L 20 16 A 8 8 0 0 1 12 8\" fill=\"white\"/>",
        "<path d=\"M 8 20 L 8 12 A 8 8 0 0 1 16 20\" fill=\"white\"/>",
        "<circle cx=\"8\" cy=\"14\" r=\"2\" fill=\"white\"/>",
        "<circle cx=\"20\" cy=\"14\" r=\"2\" fill=\"white\"/>",
        "<circle cx=\"14\" cy=\"8\" r=\"2\" fill=\"white\"/>",
        "<circle cx=\"14\" cy=\"20\" r=\"2\" fill=\"white\"/>",
        "<circle cx=\"8\" cy=\"8\" r=\"4\" fill=\"black\"/>",
        "<circle cx=\"20\" cy=\"20\" r=\"4\" fill=\"black\"/>",
        "<circle cx=\"8\" cy=\"20\" r=\"4\" fill=\"black\"/>",
        "<circle cx=\"20\" cy=\"8\" r=\"4\" fill=\"black\"/>",
    ]
    .concat();
    assert_eq!(get_tile_svg_string(Tile::Medium, MED_OFFSET, MED_OFFSET, true), expected);
}

#[test]
fn large_tile_markup_uses_scale_four() {
    let s = get_tile_svg_string(Tile::Large, 6, 12, false);
    assert!(s.starts_with("<rect width=\"24\" height=\"24\" x=\"14\" y=\"20\" fill=\"white\"/>"));
    assert!(s.contains("<path d=\"M 14 20 L 30 20 A 16 16 0 0 1 14 36\" fill=\"black\"/>"));
    assert!(s.ends_with("<circle cx=\"38\" cy=\"20\" r=\"8\" fill=\"white\"/>"));
    assert_eq!(s.matches("<circle").count(), 8);
}

#[test]
fn flip_changes_only_the_arcs() {
    let plain = get_tile_svg_string(Tile::Small, 6, 6, false);
    let flipped = get_tile_svg_string(Tile::Small, 6, 6, true);
    assert_ne!(plain, flipped);
    let circles = |s: &str| s[s.find("<circle").unwrap()..].to_string();
    assert_eq!(circles(&plain), circles(&flipped));
}

#[test]
fn scale_factors() {
    assert_eq!(Tile::Small.scale_factor(), 1);
    assert_eq!(Tile::Medium.scale_factor(), 2);
    assert_eq!(Tile::Large.scale_factor(), 4);
}

#[test]
fn decimal_numerals() {
    let mut s = String::from("n=");
    push_decimal(&mut s, 0);
    push_decimal(&mut s, 1234);
    push_decimal(&mut s, 70);
    assert_eq!(s, "n=0123470");
}

#[test]
fn large_slots_cover_four_rows() {
    assert_eq!(
        get_slots_for_large(0, 5),
        [0, 1, 2, 3, 5, 6, 7, 8, 10, 11, 12, 13, 15, 16, 17, 18]
    );
    // width 9: anchors across = 6; anchor 10 is row 1, column 4.
    let slots = get_slots_for_large(10, 9);
    assert_eq!(slots[0], 13);
    assert_eq!(slots[15], 13 + 3 * 9 + 3);
}

#[test]
fn medium_slots_cover_two_rows() {
    assert_eq!(get_slots_for_med(2, 6), [2, 3, 8, 9]);
    assert_eq!(get_slots_for_med(10, 6), [12, 13, 18, 19]);
}

#[test]
fn smallest_width_has_four_large_anchors() {
    let width = 5;
    assert_eq!((width - 3) * (width - 3), 4);
    let slots = vec![false; width * width];
    assert!(can_place_large(0, &slots, width));
    assert!(!can_place_large(1, &slots, width));
    assert!(!can_place_large(2, &slots, width));
    assert!(!can_place_large(3, &slots, width));
}

#[test]
fn large_anchor_blocked_by_one_taken_cell() {
    let mut slots = vec![false; 25];
    slots[18] = true;
    assert!(!can_place_large(0, &slots, 5));
    slots[18] = false;
    slots[4] = true;
    assert!(can_place_large(0, &slots, 5));
}

#[test]
fn medium_anchor_eligibility_and_legality() {
    let mut slots = vec![false; 36];
    assert!(can_place_med(0, &slots, 6));
    assert!(!can_place_med(1, &slots, 6));
    assert!(!can_place_med(5, &slots, 6));
    assert!(can_place_med(12, &slots, 6));
    slots[21] = true;
    assert!(!can_place_med(12, &slots, 6));
}

#[test]
fn small_cell_free_or_taken() {
    let slots = vec![false, true, false];
    assert!(can_place_small(0, &slots));
    assert!(!can_place_small(1, &slots));
}

#[test]
fn marking_occupies_listed_cells_only() {
    let mut slots = vec![false; 9];
    mark_cells(&mut slots, &[0, 4, 4]);
    assert_eq!(slots, vec![true, false, false, false, true, false, false, false, false]);
}

#[test]
fn canvas_size_formula() {
    assert_eq!(canvas_size_px(5), 46);
    assert_eq!(canvas_size_px(6), 52);
    assert_eq!(canvas_size_px(16), 112);
}

#[test]
fn document_wrapper_exact() {
    assert_eq!(
        wrap_document(6, "<g/>"),
        "<svg width=\"52\" height=\"52\" version=\"1.1\" xmlns=\"http://www.w3.org/2000/svg\"><g/></svg>"
    );
}

#[test]
fn widths_four_and_zero_rejected() {
    assert_eq!(tiles_from_decisions(4, &vec![false; 100]), Err(TilingError::WidthTooSmall));
    assert_eq!(tiles_from_decisions(0, &vec![]), Err(TilingError::WidthTooSmall));
    assert_eq!(generate_tiles(4), Err(TilingError::WidthTooSmall));
    assert_eq!(generate_tiles(0), Err(TilingError::WidthTooSmall));
}

#[test]
fn all_false_width_six_gives_only_small_tiles() {
    let decisions = vec![false; 4 * 36];
    let doc = tiles_from_decisions(6, &decisions).unwrap();
    let cells: Vec<usize> = (0..36).collect();
    let expected = wrap_document(6, &small_fragments(6, &cells, false));
    assert_eq!(doc, expected);
    assert_eq!(doc.matches("<rect").count(), 36);
    assert!(!doc.contains("<rect width=\"12\""));
    assert!(!doc.contains("<rect width=\"24\""));
    for row in 0..6 {
        for column in 0..6 {
            let x = column * 6 + 6 + 2;
            let y = row * 6 + 6 + 2;
            let rect = format!("<rect width=\"6\" height=\"6\" x=\"{}\" y=\"{}\" fill=\"white\"/>", x, y);
            assert!(doc.contains(&rect));
        }
    }
}

#[test]
fn all_true_width_five_places_one_large_tile() {
    let free = [4, 9, 14, 19, 20, 21, 22, 23, 24];
    let mut inner = get_tile_svg_string(Tile::Large, 0, 0, true);
    inner.push_str(&small_fragments(5, &free, true));
    let expected = wrap_document(5, &inner);
    assert_eq!(tiles_from_decisions(5, &vec![true; 11]), Ok(expected.clone()));
    assert_eq!(tiles_from_decisions(5, &vec![true; 100]), Ok(expected));
}

#[test]
fn too_few_decisions_reported() {
    assert_eq!(tiles_from_decisions(5, &vec![true; 10]), Err(TilingError::DecisionsExhausted));
    assert_eq!(tiles_from_decisions(5, &vec![]), Err(TilingError::DecisionsExhausted));
    // width 6, all declined: one large anchor, nine medium anchors, 36 cells.
    assert_eq!(tiles_from_decisions(6, &vec![false; 45]), Err(TilingError::DecisionsExhausted));
    assert!(tiles_from_decisions(6, &vec![false; 46]).is_ok());
}

#[test]
fn same_decisions_same_document() {
    let decisions: Vec<bool> = (0..400).map(|i| (i * 7 + i / 3) % 3 == 0).collect();
    let a = tiles_from_decisions(10, &decisions).unwrap();
    let b = tiles_from_decisions(10, &decisions.clone()).unwrap();
    assert_eq!(a, b);
    let mut other = decisions.clone();
    other[0] = !other[0];
    assert_ne!(a, tiles_from_decisions(10, &other).unwrap());
}

#[test]
fn medium_tiles_after_declined_large() {
    // width 6: large anchor 0 declined (one decision), anchor 1 not eligible..., then the
    // first medium anchor accepted without flip.
    let mut decisions = vec![false; 200];
    decisions[1] = true;
    let doc = tiles_from_decisions(6, &decisions).unwrap();
    let medium = get_tile_svg_string(Tile::Medium, MED_OFFSET, MED_OFFSET, false);
    assert!(doc.contains(&medium));
    assert_eq!(doc.matches("<rect width=\"12\"").count(), 1);
    assert_eq!(doc.matches("<rect width=\"6\"").count(), 32);
}

#[test]
fn random_document_is_well_formed() {
    let doc = generate_tiles(8).unwrap();
    assert!(doc.starts_with("<svg width=\"64\" height=\"64\""));
    assert!(doc.ends_with("</svg>"));
    assert!(doc.matches("<rect").count() >= 4);
}

#[test]
fn all_true_width_nine_tiles_large_lattice_without_overlap() {
    // Four large tiles cover the 8x8 corner; the last row and column take 17 small tiles.
    let doc = tiles_from_decisions(9, &vec![true; 25]).unwrap();
    assert_eq!(doc.matches("<rect width=\"24\"").count(), 4);
    assert_eq!(doc.matches("<rect width=\"12\"").count(), 0);
    assert_eq!(doc.matches("<rect width=\"6\"").count(), 17);
    for (x, y) in [(8, 8), (32, 8), (8, 32), (32, 32)] {
        let rect = format!("<rect width=\"24\" height=\"24\" x=\"{}\" y=\"{}\"", x, y);
        assert!(doc.contains(&rect));
    }
    assert_eq!(tiles_from_decisions(9, &vec![true; 24]), Err(TilingError::DecisionsExhausted));
}

#[test]
fn decisions_past_those_read_do_not_matter() {
    let mut long = vec![true; 11];
    long.extend(vec![false; 50]);
    assert_eq!(tiles_from_decisions(5, &long), tiles_from_decisions(5, &vec![true; 11]));
}
