use bevscode::display_map::fold_map::FoldMap;
use bevscode::display_map::point::{BufferPoint, FoldPoint, WrapPoint};
use bevscode::display_map::snapshot::DisplaySnapshot;
use bevscode::display_map::tab_map::TabMap;
use bevscode::display_map::wrap_map::WrapMap;
use bevscode::types::{FoldKind, FoldRegion, FoldState};
use bevscode::display_map::layout::layout_rows;
use bevscode::display_map::LayeredDisplayMap;
use ropey::Rope;

/// Helper to create a folded region for tests
fn folded_region(start: usize, end: usize) -> FoldRegion {
    let mut region = FoldRegion::new(start, end, FoldKind::Block);
    region.is_folded = true;
    region
}

#[test]
fn test_no_folds() {
    let rope = Rope::from_str("line 1\nline 2\nline 3\nline 4\n");
    let mut fold_map = FoldMap::new();
    fold_map.update(&rope, &[]);

    assert_eq!(fold_map.visible_line_count(), 5); // 4 lines + trailing newline
    assert_eq!(fold_map.buffer_to_fold_row(0), 0);
    assert_eq!(fold_map.buffer_to_fold_row(2), 2);
    assert_eq!(fold_map.fold_to_buffer_row(2), 2);
}

#[test]
fn test_single_fold() {
    let rope = Rope::from_str("line 1\nline 2\nline 3\nline 4\nline 5\n");
    let mut fold_map = FoldMap::new();
    let regions = vec![folded_region(1, 3)]; // Fold lines 2-4 (0-indexed: 1-3)
    fold_map.update(&rope, &regions);

    // Lines 2, 3 are hidden (indices 2, 3)
    assert_eq!(fold_map.visible_line_count(), 4); // 6 - 2 hidden = 4
    assert!(!fold_map.is_line_hidden(0));
    assert!(!fold_map.is_line_hidden(1)); // Start line is visible
    assert!(fold_map.is_line_hidden(2));
    assert!(fold_map.is_line_hidden(3));
    assert!(!fold_map.is_line_hidden(4));

    // Row conversion
    assert_eq!(fold_map.buffer_to_fold_row(0), 0);
    assert_eq!(fold_map.buffer_to_fold_row(1), 1);
    assert_eq!(fold_map.buffer_to_fold_row(4), 2);
}

#[test]
fn test_multiple_folds() {
    // 10 lines: 0-9
    let rope = Rope::from_str("0\n1\n2\n3\n4\n5\n6\n7\n8\n9\n");
    let mut fold_map = FoldMap::new();

    // Fold lines 1-2 (hides 2) and lines 5-7 (hides 6, 7)
    let regions = vec![
        folded_region(1, 2), // hides line 2
        folded_region(5, 7), // hides lines 6, 7
    ];
    fold_map.update(&rope, &regions);

    // 11 lines - 1 - 2 = 8 visible
    assert_eq!(fold_map.visible_line_count(), 8);

    // Hidden checks
    assert!(!fold_map.is_line_hidden(0));
    assert!(!fold_map.is_line_hidden(1)); // fold start visible
    assert!(fold_map.is_line_hidden(2));
    assert!(!fold_map.is_line_hidden(3));
    assert!(!fold_map.is_line_hidden(4));
    assert!(!fold_map.is_line_hidden(5)); // fold start visible
    assert!(fold_map.is_line_hidden(6));
    assert!(fold_map.is_line_hidden(7));
    assert!(!fold_map.is_line_hidden(8));

    // Buffer to fold row
    assert_eq!(fold_map.buffer_to_fold_row(0), 0);
    assert_eq!(fold_map.buffer_to_fold_row(1), 1);
    assert_eq!(fold_map.buffer_to_fold_row(2), 1); // inside fold -> fold start
    assert_eq!(fold_map.buffer_to_fold_row(3), 2); // after first fold
    assert_eq!(fold_map.buffer_to_fold_row(4), 3);
    assert_eq!(fold_map.buffer_to_fold_row(5), 4);
    assert_eq!(fold_map.buffer_to_fold_row(8), 5); // after second fold

    // Fold to buffer row
    assert_eq!(fold_map.fold_to_buffer_row(0), 0);
    assert_eq!(fold_map.fold_to_buffer_row(1), 1);
    assert_eq!(fold_map.fold_to_buffer_row(2), 3);
    assert_eq!(fold_map.fold_to_buffer_row(4), 5);
    assert_eq!(fold_map.fold_to_buffer_row(5), 8);
}

#[test]
fn test_fold_at_line() {
    let rope = Rope::from_str("0\n1\n2\n3\n4\n");
    let mut fold_map = FoldMap::new();
    let regions = vec![folded_region(1, 3)];
    fold_map.update(&rope, &regions);

    assert!(fold_map.fold_at_line(0).is_none());
    assert!(fold_map.fold_at_line(1).is_some());
    assert!(fold_map.fold_at_line(2).is_none());
    assert!(fold_map.fold_at_line(4).is_none());
}

#[test]
fn test_simple_conversion() {
    let rope = Rope::from_str("line 1\nline 2\nline 3\n");

    let mut fold_map = FoldMap::new();
    fold_map.update(&rope, &[]);

    let mut wrap_map = WrapMap::new(80);
    wrap_map.update(&rope, &fold_map);

    let tab_map = TabMap::new(4);

    let snapshot = DisplaySnapshot {
        fold_map,
        wrap_map,
        tab_map,
    };

    // Simple case: no folds, no wrapping
    let buffer_point = BufferPoint::new(1, 3);
    let display_point = snapshot.to_display_point(buffer_point);
    assert_eq!(display_point.row(), 1);
    assert_eq!(display_point.column(), 3);

    // Round-trip
    let back = snapshot.to_buffer_point(display_point);
    assert_eq!(back.row(), 1);
    assert_eq!(back.column(), 3);
}

#[test]
fn test_with_fold() {
    let rope = Rope::from_str("line 1\nline 2\nline 3\nline 4\nline 5\n");

    let fold_regions = vec![folded_region(1, 3)]; // Fold lines 2-4

    let mut fold_map = FoldMap::new();
    fold_map.update(&rope, &fold_regions);

    let mut wrap_map = WrapMap::new(80);
    wrap_map.update(&rope, &fold_map);

    let tab_map = TabMap::new(4);

    let snapshot = DisplaySnapshot {
        fold_map,
        wrap_map,
        tab_map,
    };

    // Line 0 -> display row 0
    assert_eq!(snapshot.buffer_row_to_display_row(0), 0);

    // Line 1 (fold start) -> display row 1
    assert_eq!(snapshot.buffer_row_to_display_row(1), 1);

    // Line 4 (after fold) -> display row 2
    assert_eq!(snapshot.buffer_row_to_display_row(4), 2);
}

#[test]
fn test_no_tabs() {
    let tab_map = TabMap::new(4);
    let line = "hello world";

    assert_eq!(tab_map.expand_column(line, 0), 0);
    assert_eq!(tab_map.expand_column(line, 5), 5);
    assert_eq!(tab_map.expand_column(line, 11), 11);
}

#[test]
fn test_single_tab() {
    let tab_map = TabMap::new(4);
    let line = "\thello";

    // Tab at position 0 expands to visual column 0-3
    assert_eq!(tab_map.expand_column(line, 0), 0);
    assert_eq!(tab_map.expand_column(line, 1), 4); // After tab
    assert_eq!(tab_map.expand_column(line, 2), 5); // 'h'
}

#[test]
fn test_multiple_tabs() {
    let tab_map = TabMap::new(4);
    let line = "a\tb\tc";

    // 'a' at visual 0, tab at 1-3, 'b' at visual 4, tab at 5-7, 'c' at visual 8
    assert_eq!(tab_map.expand_column(line, 0), 0); // 'a'
    assert_eq!(tab_map.expand_column(line, 1), 1); // position of tab
    assert_eq!(tab_map.expand_column(line, 2), 4); // 'b'
    assert_eq!(tab_map.expand_column(line, 3), 5); // position of second tab
    assert_eq!(tab_map.expand_column(line, 4), 8); // 'c'
}

#[test]
fn test_contract_column() {
    let tab_map = TabMap::new(4);
    let line = "\thello";

    assert_eq!(tab_map.contract_column(line, 0), 0);
    assert_eq!(tab_map.contract_column(line, 4), 1); // After tab
    assert_eq!(tab_map.contract_column(line, 5), 2); // 'h'
}

#[test]
fn test_line_visual_width() {
    let tab_map = TabMap::new(4);

    assert_eq!(tab_map.line_visual_width("hello"), 5);
    assert_eq!(tab_map.line_visual_width("\thello"), 9); // 4 + 5
    assert_eq!(tab_map.line_visual_width("a\tb"), 5); // 1 + 3 + 1
}

#[test]
fn test_no_wrap() {
    let rope = Rope::from_str("short\n");
    let mut fold_map = FoldMap::new();
    fold_map.update(&rope, &[]);

    let mut wrap_map = WrapMap::new(80);
    wrap_map.update(&rope, &fold_map);

    // "short\n" has 2 lines in ropey (the text line and trailing empty)
    assert_eq!(wrap_map.display_row_count(), 2);

    let fold_point = FoldPoint::new(0, 3);
    let wrap_point = wrap_map.fold_to_wrap(fold_point);
    assert_eq!(wrap_point.row(), 0);
    assert_eq!(wrap_point.column(), 3);
}

#[test]
fn test_simple_wrap() {
    let rope = Rope::from_str("0123456789\n"); // 10 chars + newline
    let mut fold_map = FoldMap::new();
    fold_map.update(&rope, &[]);

    let mut wrap_map = WrapMap::new(4); // Wrap at 4 chars
    wrap_map.update(&rope, &fold_map);

    // Line 0: "0123456789" (10 chars) wraps to 3 display lines
    // Line 1: "" (empty after newline) = 1 display line
    // Total: 4 display rows
    assert_eq!(wrap_map.display_row_count(), 4);

    // Column 0 -> row 0, col 0
    let p = wrap_map.fold_to_wrap(FoldPoint::new(0, 0));
    assert_eq!((p.row(), p.column()), (0, 0));

    // Column 5 -> row 1, col 1
    let p = wrap_map.fold_to_wrap(FoldPoint::new(0, 5));
    assert_eq!((p.row(), p.column()), (1, 1));

    // Column 9 -> row 2, col 1
    let p = wrap_map.fold_to_wrap(FoldPoint::new(0, 9));
    assert_eq!((p.row(), p.column()), (2, 1));
}

#[test]
fn layout_rows_skip_folded_lines() {
    let mut fs = FoldState::new();
    fs.regions = vec![FoldRegion { start_line: 1, end_line: 3, is_folded: true, kind: FoldKind::Region }];
    assert!(fs.is_line_hidden(2) && fs.is_line_hidden(3));
    assert!(!fs.is_line_hidden(1) && !fs.is_line_hidden(4));
    let r = layout_rows(&fs, 6, 1, 2);
    assert_eq!(r.lines, vec![(1, 1), (2, 4)]);
    assert_eq!((r.visible_start, r.visible_end), (1, 3));
    assert_eq!(r.total_display_rows, 4);
    let plain = layout_rows(&FoldState::new(), 3, 2, 3);
    assert_eq!(plain.lines, vec![(2, 2)]);
    assert_eq!((plain.visible_start, plain.visible_end), (2, 3));
    assert_eq!(plain.total_display_rows, 3);
    let past = layout_rows(&FoldState::new(), 3, 7, 9);
    assert!(past.lines.is_empty());
    assert_eq!((past.visible_start, past.visible_end), (7, 7));
}

#[test]
fn layered_map_follows_fold_state() {
    let rope = Rope::from_str("a\nb\nc\nd\n");
    let mut fs = FoldState::new();
    fs.regions = vec![FoldRegion { start_line: 0, end_line: 2, is_folded: true, kind: FoldKind::Block }];
    let mut map = LayeredDisplayMap::new(80, 4);
    map.update_from_fold_state(&rope, &fs);
    assert_eq!(map.version, 1);
    let snap = map.snapshot();
    assert_eq!(snap.display_row_count(), 3);
    assert_eq!(snap.buffer_row_to_display_row(3), 1);
}

#[test]
fn empty_wrap_map_maps_every_point_to_origin() {
    let wm = WrapMap::new(0);
    assert_eq!(wm.wrap_width(), 1);
    assert!(wm.is_enabled());
    assert_eq!(wm.display_row_count(), 0);
    assert_eq!(wm.wrap_info_for_fold_row(0), None);
    assert_eq!(wm.wrap_to_fold(WrapPoint::new(u32::MAX, u32::MAX)), FoldPoint::zero());
    assert_eq!(wm.wrap_to_fold(WrapPoint::new(3, 7)), FoldPoint::zero());
}

fn ten_lines() -> Rope {
    Rope::from_str("l0\nl1\nline two is long\nl3\nl4\nl5 also long!\nl6\nl7\nl8\nl9")
}

fn ten_line_regions() -> Vec<FoldRegion> {
    let mut open = FoldRegion::new(8, 9, FoldKind::Block);
    open.is_folded = false;
    vec![folded_region(6, 7), open, folded_region(2, 4)]
}

#[test]
fn fold_rows_count_visible_lines() {
    let rope = ten_lines();
    let mut fm = FoldMap::new();
    fm.update(&rope, &ten_line_regions());
    let rows: Vec<u32> = (0..10).map(|l| fm.buffer_to_fold_row(l)).collect();
    assert_eq!(rows, vec![0, 1, 2, 2, 2, 3, 4, 4, 5, 6]);
    assert_eq!(fm.visible_lines(), vec![0, 1, 2, 5, 6, 8, 9]);
    assert_eq!(fm.visible_line_count(), 7);
    for (f, b) in [0u32, 1, 2, 5, 6, 8, 9].iter().enumerate() {
        assert_eq!(fm.fold_to_buffer_row(f as u32), *b);
        assert!(!fm.is_line_hidden(*b));
        assert_eq!(fm.buffer_to_fold_row(*b), f as u32);
    }
    let kept: Vec<(usize, usize)> = fm.folded_regions().iter().map(|r| (r.start_line, r.end_line)).collect();
    assert_eq!(kept, vec![(2, 4), (6, 7)]);
    assert_eq!(fm.fold_count(), 2);
}

#[test]
fn no_folds_map_rows_to_themselves() {
    let rope = ten_lines();
    let mut fm = FoldMap::new();
    fm.update(&rope, &[]);
    for l in 0..10u32 {
        assert_eq!(fm.buffer_to_fold_row(l), l);
        assert_eq!(fm.fold_to_buffer_row(l), l);
        assert!(!fm.is_line_hidden(l));
    }
}

#[test]
fn display_rows_round_trip_and_order() {
    for enabled in [true, false] {
        let rope = ten_lines();
        let mut fm = FoldMap::new();
        fm.update(&rope, &ten_line_regions());
        let mut wm = WrapMap::new(4);
        wm.set_enabled(enabled);
        wm.update(&rope, &fm);
        let snap = DisplaySnapshot { fold_map: fm, wrap_map: wm, tab_map: TabMap::new(4) };
        for b in 0..10u32 {
            if !snap.is_buffer_line_hidden(b) {
                let d = snap.buffer_row_to_display_row(b);
                assert_eq!(snap.display_row_to_buffer_row(d), b);
            }
        }
        let rows = snap.display_rows();
        assert_eq!(rows.len() as u32, snap.display_row_count());
        for (k, info) in rows.iter().enumerate() {
            assert_eq!(info.display_row, k as u32);
            assert!(!snap.is_buffer_line_hidden(info.buffer_row));
            let first = snap.buffer_row_to_display_row(info.buffer_row);
            assert!(first <= k as u32);
            assert_eq!(info.is_wrap_continuation, (k as u32) > first);
            if k > 0 {
                assert!(rows[k - 1].buffer_row <= info.buffer_row);
            }
        }
        if enabled {
            assert_eq!(snap.display_row_count(), 13);
        } else {
            assert_eq!(snap.display_row_count(), 7);
        }
    }
}

#[test]
fn contract_column_undoes_expand_column() {
    let tm = TabMap::new(4);
    let line = "a\tbc\t\td\nrest";
    for c in 0..=7u32 {
        let v = tm.expand_column(line, c);
        assert_eq!(tm.contract_column(line, v), c);
    }
    // A visual column inside the first tab's span maps back to the tab's char column.
    assert_eq!(tm.expand_column(line, 1), 1);
    assert_eq!(tm.expand_column(line, 2), 4);
    assert_eq!(tm.contract_column(line, 2), 1);
    assert_eq!(tm.contract_column(line, 3), 1);
}

#[test]
fn every_row_of_a_wrapped_line_maps_to_its_fold_row() {
    let rope = ten_lines();
    let mut fm = FoldMap::new();
    fm.update(&rope, &ten_line_regions());
    let mut wm = WrapMap::new(4);
    wm.update(&rope, &fm);
    for f in 0..fm.visible_line_count() {
        let (start, count) = wm.wrap_info_for_fold_row(f).unwrap();
        for d in start..start + count {
            assert_eq!(wm.wrap_to_fold(WrapPoint::new(d, 0)).row(), f);
        }
        for c in 0..count * 4 {
            let p = FoldPoint::new(f, c);
            assert_eq!(wm.wrap_to_fold(wm.fold_to_wrap(p)), p);
        }
    }
}
