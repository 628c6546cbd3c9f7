use cliprint::elements::CliElement;
use cliprint::layout::{Alignment, RowSettings};

#[test]
fn tst_len() {
    let unit = CliElement::print_single(&["sss"], Alignment::Left);
    let test = CliElement::print_column(vec![
        CliElement::print_row(vec![unit.clone(), unit], None),
        CliElement::print_single(&["sss"], Alignment::Left),
        CliElement::print_single(&["sss"], Alignment::Left),
    ]);
    assert_eq!(test.height(), 3);
    assert_eq!(test.width(), 6);
}

#[test]
fn elements_tst_len() {
    let unit = CliElement::print_single(&["sss"], Alignment::Left);
    let unita = unit.clone();
    let test = CliElement::print_column(vec![
        CliElement::print_row(vec![unita.clone(), unit], None),
        CliElement::print_single(&["sss"], Alignment::Left),
        CliElement::print_single(&["sss"], Alignment::Left),
    ]);
    assert_eq!(test.height(), 3);
    assert_eq!(test.width(), 6);
}

#[test]
fn single_pads_left_and_never_truncates() {
    let block = CliElement::print_single(&["abc"], Alignment::Left);
    assert_eq!(block.get_draw_map(6), vec!["abc   ".to_string()]);
    assert_eq!(block.get_draw_map(3), vec!["abc".to_string()]);
    assert_eq!(block.get_draw_map(1), vec!["abc".to_string()]);
}

#[test]
fn single_pads_right() {
    let block = CliElement::print_single(&["ab"], Alignment::Right);
    assert_eq!(block.get_draw_map(5), vec!["   ab".to_string()]);
}

#[test]
fn single_dimensions() {
    let block = CliElement::print_single(&["a", "bbb", "cc"], Alignment::Left);
    assert_eq!(block.height(), 3);
    assert_eq!(block.width(), 3);
}

#[test]
fn single_empty_has_no_lines() {
    let block = CliElement::print_single(&[], Alignment::Left);
    assert_eq!(block.height(), 0);
    assert_eq!(block.width(), 0);
    assert_eq!(block.get_draw_map(4), Vec::<String>::new());
}

#[test]
fn empty_block_dimensions() {
    let block = CliElement::print_emptyblock();
    assert_eq!(block.width(), 0);
    assert_eq!(block.height(), 1);
    assert_eq!(block.get_draw_map(4), vec!["    ".to_string()]);
    assert_eq!(block.get_draw_map(0), vec![String::new()]);
}

#[test]
fn row_spacing_boundary() {
    let row = CliElement::print_row(
        vec![
            CliElement::print_single(&["a"], Alignment::Left),
            CliElement::print_single(&["bb"], Alignment::Left),
        ],
        Some(RowSettings { spacing: 1 }),
    );
    assert_eq!(row.width(), 6);
    let lines = row.get_draw_map(row.width());
    assert_eq!(lines, vec![" a bb ".to_string()]);
    assert_eq!(lines[0].chars().count(), 6);
}

#[test]
fn row_without_settings_has_no_gap() {
    let row = CliElement::print_row(
        vec![
            CliElement::print_single(&["a"], Alignment::Left),
            CliElement::print_single(&["bb"], Alignment::Left),
        ],
        None,
    );
    assert_eq!(row.width(), 3);
    assert_eq!(row.get_draw_map(row.width()), vec!["abb".to_string()]);
}

#[test]
fn row_pads_short_children_at_the_bottom() {
    let row = CliElement::print_row(
        vec![
            CliElement::print_single(&["aa", "bb"], Alignment::Left),
            CliElement::print_single(&["c"], Alignment::Left),
        ],
        None,
    );
    assert_eq!(row.height(), 2);
    assert_eq!(row.width(), 3);
    assert_eq!(
        row.get_draw_map(row.width()),
        vec!["aac".to_string(), "bb ".to_string()]
    );
}

#[test]
fn row_with_no_children_renders_nothing() {
    let row = CliElement::print_row(vec![], Some(RowSettings { spacing: 2 }));
    assert_eq!(row.height(), 0);
    assert_eq!(row.width(), 2);
    assert_eq!(row.get_draw_map(row.width()), Vec::<String>::new());
}

#[test]
fn column_sums_heights() {
    let tall = CliElement::print_row(
        vec![CliElement::print_single(&["x", "y"], Alignment::Left)],
        None,
    );
    let short = CliElement::print_row(
        vec![CliElement::print_single(&["z"], Alignment::Left)],
        None,
    );
    let column = CliElement::print_column(vec![tall, short]);
    assert_eq!(column.height(), 3);
}

#[test]
fn column_passes_width_down() {
    let column = CliElement::print_column(vec![
        CliElement::print_single(&["a"], Alignment::Left),
        CliElement::print_single(&["bbb"], Alignment::Left),
    ]);
    assert_eq!(column.width(), 3);
    assert_eq!(
        column.get_draw_map(column.width()),
        vec!["a  ".to_string(), "bbb".to_string()]
    );
}

#[test]
fn row_inside_column_keeps_its_own_width() {
    let column = CliElement::print_column(vec![
        CliElement::print_row(
            vec![CliElement::print_single(&["a"], Alignment::Left)],
            None,
        ),
        CliElement::print_single(&["bbb"], Alignment::Left),
    ]);
    assert_eq!(column.width(), 3);
    assert_eq!(
        column.get_draw_map(column.width()),
        vec!["a".to_string(), "bbb".to_string()]
    );
}

#[test]
fn column_with_no_children_renders_nothing() {
    let column = CliElement::print_column(vec![]);
    assert_eq!(column.height(), 0);
    assert_eq!(column.width(), 0);
    assert_eq!(column.get_draw_map(7), Vec::<String>::new());
}

#[test]
fn rendering_twice_is_identical() {
    let tree = CliElement::print_column(vec![
        CliElement::print_row(
            vec![
                CliElement::print_single(&["one", "two"], Alignment::Left),
                CliElement::print_emptyblock(),
                CliElement::print_single(&["three"], Alignment::Right),
            ],
            Some(RowSettings { spacing: 2 }),
        ),
        CliElement::print_single(&["four"], Alignment::Right),
    ]);
    let first = tree.get_draw_map(tree.width());
    let second = tree.get_draw_map(tree.width());
    assert_eq!(first, second);
}

#[test]
fn clone_is_a_value_copy() {
    let tree = CliElement::print_row(
        vec![
            CliElement::print_single(&["aa"], Alignment::Right),
            CliElement::print_emptyblock(),
        ],
        Some(RowSettings { spacing: 1 }),
    );
    let copy = tree.clone();
    assert_eq!(copy.width(), tree.width());
    assert_eq!(copy.height(), tree.height());
    assert_eq!(copy.get_draw_map(copy.width()), tree.get_draw_map(tree.width()));
}

#[test]
fn from_str_splits_lines() {
    let block = CliElement::print_single_from_str("a\nbb\r\nccc\n", Alignment::Left);
    assert_eq!(block.height(), 3);
    assert_eq!(block.width(), 3);
    assert_eq!(
        block.get_draw_map(block.width()),
        vec!["a  ".to_string(), "bb ".to_string(), "ccc".to_string()]
    );
}

#[test]
fn from_str_keeps_a_lone_trailing_return() {
    let block = CliElement::print_single_from_str("x\r", Alignment::Left);
    assert_eq!(block.height(), 1);
    assert_eq!(block.width(), 2);
}

#[test]
fn from_str_of_empty_text_has_no_lines() {
    let block = CliElement::print_single_from_str("", Alignment::Left);
    assert_eq!(block.height(), 0);
    assert_eq!(block.width(), 0);
}

#[test]
fn empty_blocks_keep_vertical_presence_in_rows() {
    let row = CliElement::print_row(
        vec![
            CliElement::print_emptyblock(),
            CliElement::print_single(&[], Alignment::Left),
        ],
        None,
    );
    assert_eq!(row.height(), 1);
    assert_eq!(row.width(), 0);
    assert_eq!(row.get_draw_map(row.width()), vec![String::new()]);
}

#[test]
fn draw_writes_without_panicking() {
    let tree = CliElement::print_row(
        vec![
            CliElement::print_single(&["left"], Alignment::Left),
            CliElement::print_single(&["right", "side"], Alignment::Right),
        ],
        Some(RowSettings { spacing: 1 }),
    );
    tree.draw();
}
