use rustxl::clipboard::text_lines;
use rustxl::export::save_file_name;
use rustxl::types::SaveFormat;
use rustxl::commands::{close_parens, Command};
use rustxl::guard::{cycle_sentinel, EvalGuard};
use rustxl::shell::shell_command;
use rustxl::table::LoadError;
use rustxl::sheet::{Spreadsheet, DEFAULT_COLS, DEFAULT_ROWS};

#[test]
fn test_col_name() {
    assert_eq!(Spreadsheet::col_name(0), "A");
    assert_eq!(Spreadsheet::col_name(1), "B");
    assert_eq!(Spreadsheet::col_name(25), "Z");
    assert_eq!(Spreadsheet::col_name(26), "AA");
}

#[test]
fn col_name_wide_columns() {
    assert_eq!(Spreadsheet::col_name(51), "AZ");
    assert_eq!(Spreadsheet::col_name(52), "BA");
    assert_eq!(Spreadsheet::col_name(701), "ZZ");
    assert_eq!(Spreadsheet::col_name(702), "AAA");
}

#[test]
fn test_parse_cell_ref() {
    let sheet = Spreadsheet::new();
    assert_eq!(sheet.parse_cell_ref("A1"), Some((0, 0)));
    assert_eq!(sheet.parse_cell_ref("B2"), Some((1, 1)));
    assert_eq!(sheet.parse_cell_ref("Z1"), Some((0, 25)));
    assert_eq!(sheet.parse_cell_ref("a1"), Some((0, 0)));
}

#[test]
fn parse_cell_ref_is_lenient() {
    let sheet = Spreadsheet::new();
    assert_eq!(sheet.parse_cell_ref(" aa10 "), Some((9, 26)));
    assert_eq!(sheet.parse_cell_ref(" $AA$10 "), None);
    assert_eq!(sheet.parse_cell_ref("A$1"), None);
    assert_eq!(sheet.parse_cell_ref("A 1"), None);
    assert_eq!(sheet.parse_cell_ref("B2:C3"), None);
    assert_eq!(sheet.parse_cell_ref("1B2"), Some((11, 1)));
    assert_eq!(sheet.parse_cell_ref("1A"), Some((0, 0)));
    assert_eq!(sheet.parse_cell_ref("A0"), None);
    assert_eq!(sheet.parse_cell_ref("A"), None);
    assert_eq!(sheet.parse_cell_ref("12"), None);
    assert_eq!(sheet.parse_cell_ref(""), None);
    assert_eq!(sheet.parse_cell_ref("A99999999999999999999999"), None);
}

#[test]
fn parse_cell_reference_is_strict() {
    assert_eq!(Spreadsheet::parse_cell_reference(" b12 "), Some((11, 1)));
    assert_eq!(Spreadsheet::parse_cell_reference("AA5"), Some((4, 26)));
    assert_eq!(Spreadsheet::parse_cell_reference("1A"), None);
    assert_eq!(Spreadsheet::parse_cell_reference("A1B"), None);
    assert_eq!(Spreadsheet::parse_cell_reference("A0"), None);
    assert_eq!(Spreadsheet::parse_cell_reference("$A1"), None);
    assert_eq!(Spreadsheet::parse_cell_reference(""), None);
}

#[test]
fn address_round_trip_samples() {
    let sheet = Spreadsheet::new();
    for &(row, col) in &[(0usize, 0usize), (9, 25), (99, 26), (9999, 1999), (41, 702)] {
        let text = rustxl::cellref::cell_name(row, col);
        assert_eq!(sheet.parse_cell_ref(&text), Some((row, col)));
        assert_eq!(Spreadsheet::parse_cell_reference(&text), Some((row, col)));
    }
    assert_eq!(rustxl::cellref::cell_name(6, 1), "B7");
}

#[test]
fn test_cell_operations() {
    let mut sheet = Spreadsheet::new();
    assert_eq!(sheet.get_cell(0, 0), "");

    sheet.set_cell(0, 0, "Hello".to_string());
    assert_eq!(sheet.get_cell(0, 0), "Hello");

    sheet.set_cell(0, 0, "".to_string());
    assert_eq!(sheet.get_cell(0, 0), "");
}

#[test]
fn set_cell_overwrites_only_its_cell() {
    let mut sheet = Spreadsheet::new();
    sheet.set_cell(1, 2, "a".to_string());
    sheet.set_cell(2, 1, "b".to_string());
    sheet.set_cell(1, 2, "c".to_string());
    assert_eq!(sheet.get_cell(1, 2), "c");
    assert_eq!(sheet.get_cell(2, 1), "b");
    assert_eq!(sheet.cells.len(), 2);
    sheet.set_cell(2, 1, String::new());
    assert_eq!(sheet.cells.len(), 1);
    assert!(!sheet.is_filled(2, 1));
    assert!(sheet.is_filled(1, 2));
}

#[test]
fn test_cursor_movement() {
    let mut sheet = Spreadsheet::new();
    assert_eq!(sheet.cursor_row, 0);
    assert_eq!(sheet.cursor_col, 0);

    sheet.move_cursor(1, 0, false);
    assert_eq!(sheet.cursor_row, 1);

    sheet.move_cursor(0, 1, false);
    assert_eq!(sheet.cursor_col, 1);

    sheet.move_cursor(-1, -1, false);
    assert_eq!(sheet.cursor_row, 0);
    assert_eq!(sheet.cursor_col, 0);
}

#[test]
fn cursor_stays_inside_the_grid() {
    let mut sheet = Spreadsheet::new();
    sheet.move_cursor(-5, -5, false);
    assert_eq!((sheet.cursor_row, sheet.cursor_col), (0, 0));
    sheet.move_cursor(1000, 1000, false);
    assert_eq!((sheet.cursor_row, sheet.cursor_col), (DEFAULT_ROWS - 1, DEFAULT_COLS - 1));
    assert_eq!(sheet.cell_ref(), "Z100");
}

#[test]
fn test_selection() {
    let mut sheet = Spreadsheet::new();
    assert!(sheet.get_selection_range().is_none());

    sheet.move_cursor(1, 1, true);
    let range = sheet.get_selection_range().unwrap();
    assert_eq!(range, ((0, 0), (1, 1)));

    sheet.clear_selection();
    assert!(sheet.get_selection_range().is_none());
}

#[test]
fn selection_orders_its_corners() {
    let mut sheet = Spreadsheet::new();
    sheet.move_cursor(3, 3, false);
    sheet.move_cursor(-2, 1, true);
    assert_eq!(sheet.get_selection_range(), Some(((1, 3), (3, 4))));
    sheet.move_cursor(0, 1, false);
    assert_eq!(sheet.get_selection_range(), None);
}

#[test]
fn test_data_bounds() {
    let mut sheet = Spreadsheet::new();
    assert_eq!(sheet.get_data_bounds(), (0, 0));

    sheet.set_cell(5, 3, "test".to_string());
    assert_eq!(sheet.get_data_bounds(), (5, 3));

    sheet.set_cell(2, 10, "test2".to_string());
    assert_eq!(sheet.get_data_bounds(), (5, 10));
}

#[test]
fn test_load_from_buffer_simple() {
    let mut sheet = Spreadsheet::new();
    let data = b"hello world\nfoo bar baz";

    sheet.load_from_buffer(data).unwrap();

    assert_eq!(sheet.get_cell(0, 0), "hello");
    assert_eq!(sheet.get_cell(0, 1), "world");
    assert_eq!(sheet.get_cell(1, 0), "foo");
    assert_eq!(sheet.get_cell(1, 1), "bar");
    assert_eq!(sheet.get_cell(1, 2), "baz");
}

#[test]
fn test_load_from_buffer_with_extra_whitespace() {
    let mut sheet = Spreadsheet::new();
    let data = b"col1    col2\tcol3\n  value1   value2  ";

    sheet.load_from_buffer(data).unwrap();

    assert_eq!(sheet.get_cell(0, 0), "col1");
    assert_eq!(sheet.get_cell(0, 1), "col2");
    assert_eq!(sheet.get_cell(0, 2), "col3");
    assert_eq!(sheet.get_cell(1, 0), "value1");
    assert_eq!(sheet.get_cell(1, 1), "value2");
}

#[test]
fn test_load_from_buffer_skips_empty_lines() {
    let mut sheet = Spreadsheet::new();
    let data = b"line1\n\n\nline2\n   \nline3";

    sheet.load_from_buffer(data).unwrap();

    assert_eq!(sheet.get_cell(0, 0), "line1");
    assert_eq!(sheet.get_cell(1, 0), "line2");
    assert_eq!(sheet.get_cell(2, 0), "line3");
}

#[test]
fn test_load_from_buffer_ls_output() {
    let mut sheet = Spreadsheet::new();
    let data = b"total 120
drwxr-xr-x  3 user group  96 Jan 23 14:20 .git
-rw-r--r--  1 user group 500 Jan 23 14:20 Cargo.toml";

    sheet.load_from_buffer(data).unwrap();

    assert_eq!(sheet.get_cell(0, 0), "total");
    assert_eq!(sheet.get_cell(0, 1), "120");

    assert_eq!(sheet.get_cell(1, 0), "drwxr-xr-x");
    assert_eq!(sheet.get_cell(1, 1), "3");
    assert_eq!(sheet.get_cell(1, 2), "user");

    assert_eq!(sheet.get_cell(2, 0), "-rw-r--r--");
}

#[test]
fn test_load_from_buffer_empty() {
    let mut sheet = Spreadsheet::new();
    let data = b"";

    sheet.load_from_buffer(data).unwrap();

    assert!(sheet.num_rows >= DEFAULT_ROWS);
    assert!(sheet.num_cols >= DEFAULT_COLS);
    assert_eq!(sheet.get_cell(0, 0), "");
}

#[test]
fn test_load_from_buffer_unicode() {
    let mut sheet = Spreadsheet::new();
    let data = "héllo wörld\n日本語 テスト".as_bytes();

    sheet.load_from_buffer(data).unwrap();

    assert_eq!(sheet.get_cell(0, 0), "héllo");
    assert_eq!(sheet.get_cell(0, 1), "wörld");
    assert_eq!(sheet.get_cell(1, 0), "日本語");
    assert_eq!(sheet.get_cell(1, 1), "テスト");
}

#[test]
fn test_spreadsheet_load_from_buffer() {
    let mut spreadsheet = Spreadsheet::new();
    let data = b"col1 col2 col3\nval1 val2 val3";

    spreadsheet.load_from_buffer(data).unwrap();

    assert_eq!(spreadsheet.get_cell(0, 0), "col1");
    assert_eq!(spreadsheet.get_cell(0, 1), "col2");
    assert_eq!(spreadsheet.get_cell(0, 2), "col3");
    assert_eq!(spreadsheet.get_cell(1, 0), "val1");
    assert_eq!(spreadsheet.get_cell(1, 1), "val2");
    assert_eq!(spreadsheet.get_cell(1, 2), "val3");
}

#[test]
fn load_from_buffer_replaces_cells_and_grows_extent() {
    let mut sheet = Spreadsheet::new();
    sheet.set_cell(50, 50, "old".to_string());
    let mut text = String::new();
    for i in 0..120 {
        text.push_str(&format!("r{} x\r\n", i));
    }
    let wide: Vec<String> = (0..30).map(|i| format!("w{}", i)).collect();
    text.push_str(&wide.join(" "));
    sheet.load_from_buffer(text.as_bytes()).unwrap();
    assert_eq!(sheet.get_cell(50, 50), "");
    assert_eq!(sheet.get_cell(119, 0), "r119");
    assert_eq!(sheet.get_cell(119, 1), "x");
    assert_eq!(sheet.get_cell(120, 29), "w29");
    assert_eq!(sheet.num_rows, 121);
    assert_eq!(sheet.num_cols, 30);
}

#[test]
fn test_evaluate_counta() {
    let mut sheet = Spreadsheet::new();
    sheet.set_cell(0, 0, "10".to_string());
    sheet.set_cell(1, 0, "20".to_string());
    sheet.set_cell(2, 0, "text".to_string());
    sheet.set_cell(3, 0, "".to_string());

    assert_eq!(sheet.evaluate_counta("A1:A4"), "3");
    assert_eq!(sheet.evaluate_counta("A1:A3"), "3");
    let (kind, inner) = rustxl::dispatch::classify_formula("=counta(A1:A3)").unwrap();
    assert_eq!(kind, rustxl::dispatch::FunctionKind::Counta);
    assert_eq!(sheet.evaluate_counta(&inner), "3");
}

#[test]
fn counta_counts_single_arguments_and_reports_bad_ranges() {
    let mut sheet = Spreadsheet::new();
    sheet.set_cell(0, 1, "x".to_string());
    assert_eq!(sheet.evaluate_counta("B1, C1, hello, 5"), "3");
    assert_eq!(sheet.evaluate_counta("A1:ZZ"), "#ERROR");
    assert_eq!(sheet.evaluate_counta(""), "0");
}

#[test]
fn shell_output_as_a_table() {
    let mut sheet = Spreadsheet::new();
    sheet.set_cell(3, 0, "keep".to_string());
    let out = sheet.apply_shell_output("  a b\n\nc d e\nf\n", 2, 0);
    assert_eq!(out, "OK");
    assert_eq!(sheet.get_cell(2, 0), "a");
    assert_eq!(sheet.get_cell(2, 1), "b");
    assert_eq!(sheet.get_cell(3, 0), "keep");
    assert_eq!(sheet.get_cell(3, 1), "d");
    assert_eq!(sheet.get_cell(3, 2), "e");
    assert_eq!(sheet.get_cell(4, 0), "f");
    assert_eq!(sheet.num_rows, DEFAULT_ROWS);
    assert_eq!(sheet.num_cols, DEFAULT_COLS);
}

#[test]
fn shell_output_grows_the_grid() {
    let mut sheet = Spreadsheet::new();
    let out = sheet.apply_shell_output("x y\nz w", 99, 25);
    assert_eq!(out, "OK");
    assert_eq!(sheet.get_cell(100, 26), "w");
    assert_eq!(sheet.num_rows, 101);
    assert_eq!(sheet.num_cols, 27);
}

#[test]
fn shell_output_as_text() {
    let mut sheet = Spreadsheet::new();
    sheet.set_cell(0, 0, "=SHELL(\"echo\")".to_string());
    let out = sheet.apply_shell_output("one\ntwo words\nthree\n", 0, 0);
    assert_eq!(out, "OK");
    assert_eq!(sheet.get_cell(0, 0), "one\ntwo words\nthree");
    assert_eq!(sheet.get_cell(1, 0), "");
    let mut quiet = Spreadsheet::new();
    assert_eq!(quiet.apply_shell_output(" \n ", 0, 0), "OK");
    assert_eq!(quiet.cells.len(), 0);
}

#[test]
fn shell_command_text() {
    assert_eq!(shell_command("\"ls -l\""), "ls -l");
    assert_eq!(shell_command("'echo hi'"), "echo hi");
    assert_eq!(shell_command("  pwd  "), "pwd");
    assert_eq!(shell_command("\" spaced \""), " spaced ");
}

#[test]
fn selection_ref_names_the_range() {
    let mut sheet = Spreadsheet::new();
    sheet.move_cursor(2, 1, false);
    assert_eq!(sheet.selection_ref(), "B3");
    sheet.move_cursor(-2, 2, true);
    assert_eq!(sheet.selection_ref(), "B1:D3");
}

#[test]
fn delete_cell_clears_selection_or_cursor() {
    let mut sheet = Spreadsheet::new();
    for r in 0..3 {
        for c in 0..3 {
            sheet.set_cell(r, c, format!("{}{}", r, c));
        }
    }
    sheet.move_cursor(1, 1, false);
    sheet.move_cursor(1, 1, true);
    sheet.delete_cell();
    assert!(sheet.get_selection_range().is_none());
    assert_eq!(sheet.get_cell(1, 1), "");
    assert_eq!(sheet.get_cell(2, 2), "");
    assert_eq!(sheet.get_cell(1, 2), "");
    assert_eq!(sheet.get_cell(0, 0), "00");
    assert_eq!(sheet.get_cell(2, 0), "20");
    sheet.move_cursor(-2, -2, false);
    sheet.delete_cell();
    assert_eq!(sheet.get_cell(0, 0), "");
    assert_eq!(sheet.get_cell(0, 1), "01");
}

#[test]
fn data_edges_and_jumps() {
    let mut sheet = Spreadsheet::new();
    sheet.set_cell(4, 2, "a".to_string());
    sheet.set_cell(4, 7, "b".to_string());
    sheet.set_cell(9, 2, "c".to_string());
    assert_eq!(sheet.find_first_col_in_row(4), Some(2));
    assert_eq!(sheet.find_last_col_in_row(4), Some(7));
    assert_eq!(sheet.find_first_row_in_col(2), Some(4));
    assert_eq!(sheet.find_last_row_in_col(2), Some(9));
    assert_eq!(sheet.find_last_col_in_row(5), None);

    sheet.move_cursor(4, 0, false);
    sheet.jump_to_last_col();
    assert_eq!((sheet.cursor_row, sheet.cursor_col), (4, 7));
    sheet.jump_to_first_col();
    assert_eq!((sheet.cursor_row, sheet.cursor_col), (4, 2));
    sheet.jump_to_last_row();
    assert_eq!((sheet.cursor_row, sheet.cursor_col), (9, 2));
    sheet.jump_to_first_row();
    assert_eq!((sheet.cursor_row, sheet.cursor_col), (4, 2));
    sheet.move_cursor(1, 0, false);
    sheet.move_cursor(0, 1, true);
    sheet.jump_to_last_col();
    assert_eq!((sheet.cursor_row, sheet.cursor_col), (5, 3));
    assert!(sheet.get_selection_range().is_some());
}

fn grid(rows: usize, cols: usize) -> Spreadsheet {
    let mut sheet = Spreadsheet::new();
    for r in 0..rows {
        for c in 0..cols {
            sheet.set_cell(r, c, format!("{}{}", r, c));
        }
    }
    sheet
}

#[test]
fn delete_row_shifts_rows_up() {
    let mut sheet = grid(4, 2);
    sheet.set_cell(200, 0, "outside".to_string());
    sheet.delete_row(1);
    assert_eq!(sheet.get_cell(0, 0), "00");
    assert_eq!(sheet.get_cell(1, 0), "20");
    assert_eq!(sheet.get_cell(2, 1), "31");
    assert_eq!(sheet.get_cell(3, 0), "");
    assert_eq!(sheet.get_cell(200, 0), "outside");
    assert_eq!(sheet.num_rows, DEFAULT_ROWS - 1);
}

#[test]
fn delete_row_outside_extent_only_clears() {
    let mut sheet = grid(2, 1);
    sheet.num_rows = 2;
    sheet.set_cell(5, 0, "x".to_string());
    sheet.set_cell(6, 0, "y".to_string());
    sheet.delete_row(5);
    assert_eq!(sheet.get_cell(5, 0), "");
    assert_eq!(sheet.get_cell(6, 0), "y");
    assert_eq!(sheet.num_rows, 2);
    sheet.num_rows = 1;
    sheet.delete_row(0);
    assert_eq!(sheet.num_rows, 1);
    assert_eq!(sheet.get_cell(0, 0), "");
}

#[test]
fn delete_column_shifts_columns_left() {
    let mut sheet = grid(2, 4);
    sheet.delete_column(0);
    assert_eq!(sheet.get_cell(0, 0), "01");
    assert_eq!(sheet.get_cell(1, 2), "13");
    assert_eq!(sheet.get_cell(1, 3), "");
    assert_eq!(sheet.num_cols, DEFAULT_COLS - 1);
}

#[test]
fn insert_row_after_opens_a_gap() {
    let mut sheet = grid(3, 2);
    sheet.insert_row_after(0);
    assert_eq!(sheet.num_rows, DEFAULT_ROWS + 1);
    assert_eq!(sheet.get_cell(0, 1), "01");
    assert_eq!(sheet.get_cell(1, 0), "");
    assert_eq!(sheet.get_cell(2, 0), "10");
    assert_eq!(sheet.get_cell(3, 1), "21");
}

#[test]
fn insert_column_after_opens_a_gap() {
    let mut sheet = grid(2, 3);
    sheet.insert_column_after(1);
    assert_eq!(sheet.num_cols, DEFAULT_COLS + 1);
    assert_eq!(sheet.get_cell(0, 1), "01");
    assert_eq!(sheet.get_cell(0, 2), "");
    assert_eq!(sheet.get_cell(1, 3), "12");
}

#[test]
fn insert_at_the_last_row_moves_nothing() {
    let mut sheet = grid(2, 1);
    sheet.num_rows = 2;
    sheet.insert_row_after(1);
    assert_eq!(sheet.num_rows, 3);
    assert_eq!(sheet.get_cell(1, 0), "10");
    assert_eq!(sheet.get_cell(2, 0), "");
}

#[test]
fn commands_are_read() {
    let sheet = Spreadsheet::new();
    assert_eq!(sheet.command_action(" q "), Command::Quit);
    assert_eq!(sheet.command_action("Quit"), Command::Quit);
    assert_eq!(sheet.command_action("b7"), Command::Goto(6, 1));
    assert_eq!(sheet.command_action("A101"), Command::OutOfRange);
    assert_eq!(sheet.command_action("AA1"), Command::OutOfRange);
    assert_eq!(sheet.command_action("hello"), Command::Unknown);
    let mut sheet = sheet;
    sheet.move_cursor(0, 1, true);
    assert_eq!(sheet.execute_command(" c3 "), Command::Goto(2, 2));
    assert_eq!((sheet.cursor_row, sheet.cursor_col), (2, 2));
    assert!(sheet.get_selection_range().is_none());
    assert_eq!(sheet.execute_command("zz9999"), Command::OutOfRange);
    assert_eq!((sheet.cursor_row, sheet.cursor_col), (2, 2));
}

#[test]
fn open_parentheses_are_closed() {
    assert_eq!(close_parens("=SUM(A1:A3"), "=SUM(A1:A3)");
    assert_eq!(close_parens("=IF(AND(A1,B1"), "=IF(AND(A1,B1))");
    assert_eq!(close_parens("=1)+(2"), "=1)+(2");
    assert_eq!(close_parens("plain"), "plain");
}

#[test]
fn finishing_an_edit_stores_and_moves() {
    let mut sheet = Spreadsheet::new();
    sheet.finish_editing_with_move("=MIN(A2:A3", true, 1, 0);
    assert_eq!(sheet.get_cell(0, 0), "=MIN(A2:A3)");
    assert_eq!((sheet.cursor_row, sheet.cursor_col), (1, 0));
    sheet.finish_editing_with_move("(note", false, 0, 1);
    assert_eq!(sheet.get_cell(1, 0), "(note");
    assert_eq!((sheet.cursor_row, sheet.cursor_col), (1, 1));
}

#[test]
fn find_matches_ignores_case() {
    let mut sheet = Spreadsheet::new();
    sheet.set_cell(0, 3, "Apple pie".to_string());
    sheet.set_cell(2, 0, "PINEAPPLE".to_string());
    sheet.set_cell(1, 1, "pear".to_string());
    sheet.set_cell(500, 0, "apple".to_string());
    assert_eq!(sheet.find_matches("apple"), vec![(0, 3), (2, 0)]);
    assert!(sheet.find_matches("").is_empty());
    assert!(sheet.find_matches("kiwi").is_empty());
    assert_eq!(sheet.update_find_matches("PIE"), vec![(0, 3)]);
    assert_eq!((sheet.cursor_row, sheet.cursor_col), (0, 3));
    sheet.move_cursor(1, 0, false);
    assert!(sheet.update_find_matches("kiwi").is_empty());
    assert_eq!((sheet.cursor_row, sheet.cursor_col), (1, 3));
}

#[test]
fn lines_follow_str_lines() {
    for text in ["", "a", "a\n", "a\r\nb", "a\n\nb\n", "x\r", "\n", "one\rtwo\n"] {
        let expected: Vec<String> = text.lines().map(|l| l.to_string()).collect();
        assert_eq!(text_lines(text), expected, "text {:?}", text);
    }
}

#[test]
fn selection_text_is_tab_separated() {
    let sheet = grid(3, 3);
    assert_eq!(sheet.selection_text((0, 1), (1, 2)), "01\t02\n11\t12");
    assert_eq!(sheet.selection_text((2, 2), (2, 2)), "22");
    assert_eq!(sheet.row_line(0, 0, 3), "00\t01\t02\t");
}

#[test]
fn paste_text_fills_from_the_cursor() {
    let mut sheet = Spreadsheet::new();
    sheet.set_cell(1, 3, "keep".to_string());
    sheet.move_cursor(1, 1, false);
    sheet.move_cursor(0, 1, true);
    sheet.paste_text("a\t\tb\r\n\nc");
    assert_eq!(sheet.get_cell(1, 2), "a");
    assert_eq!(sheet.get_cell(1, 3), "keep");
    assert_eq!(sheet.get_cell(1, 4), "b");
    assert_eq!(sheet.get_cell(2, 2), "");
    assert_eq!(sheet.get_cell(3, 2), "c");
    assert!(sheet.get_selection_range().is_none());
    assert_eq!(sheet.num_rows, DEFAULT_ROWS);

    let mut edge = Spreadsheet::new();
    edge.move_cursor(99, 25, false);
    edge.paste_text("x\ty\nz");
    assert_eq!(edge.get_cell(100, 25), "z");
    assert_eq!(edge.get_cell(99, 26), "y");
    assert_eq!(edge.num_rows, 101);
    assert_eq!(edge.num_cols, 27);
}

#[test]
fn export_as_csv_and_tsv() {
    let mut sheet = Spreadsheet::new();
    sheet.set_cell(0, 0, "a,b".to_string());
    sheet.set_cell(0, 2, "say \"hi\"".to_string());
    sheet.set_cell(1, 1, "two\nlines".to_string());
    sheet.set_cell(2, 0, "plain".to_string());
    assert_eq!(
        sheet.export_text(SaveFormat::Csv),
        "\"a,b\",,\"say \"\"hi\"\"\"\n,\"two\nlines\",\nplain,,\n"
    );
    assert_eq!(
        sheet.export_text(SaveFormat::Tsv),
        "a,b\t\tsay \"hi\"\n\ttwo\nlines\t\nplain\t\t\n"
    );
    assert_eq!(Spreadsheet::new().export_text(SaveFormat::Csv), "\n");
    assert_eq!(save_file_name("sheet", SaveFormat::Tsv), "sheet.tsv");
}

#[test]
fn load_from_buffer_replaces_invalid_utf8() {
    let mut sheet = Spreadsheet::new();
    sheet.load_from_buffer(b"ok a\xffb").unwrap();
    assert_eq!(sheet.get_cell(0, 0), "ok");
    assert_eq!(sheet.get_cell(0, 1), "a\u{FFFD}b");
}

#[test]
fn csv_and_tsv_loading() {
    let mut sheet = Spreadsheet::new();
    sheet.set_cell(7, 7, "old".to_string());
    sheet.load_csv(b"a,b,c\n1,,\"x, y\"\n").unwrap();
    assert_eq!(sheet.get_cell(7, 7), "");
    assert_eq!(sheet.get_cell(0, 2), "c");
    assert_eq!(sheet.get_cell(1, 0), "1");
    assert_eq!(sheet.get_cell(1, 1), "");
    assert_eq!(sheet.get_cell(1, 2), "x, y");
    assert_eq!((sheet.num_rows, sheet.num_cols), (DEFAULT_ROWS, DEFAULT_COLS));

    let wide: Vec<String> = (0..30).map(|i| i.to_string()).collect();
    sheet.load_tsv(wide.join("\t").as_bytes()).unwrap();
    assert_eq!(sheet.get_cell(0, 29), "29");
    assert_eq!(sheet.num_cols, 30);
}

#[test]
fn malformed_csv_keeps_what_was_read() {
    let mut sheet = Spreadsheet::new();
    sheet.num_rows = 7;
    let r = sheet.load_csv(b"a,b\nc\n");
    assert_eq!(r, Err(LoadError::Malformed));
    assert_eq!(sheet.get_cell(0, 1), "b");
    assert_eq!(sheet.get_cell(1, 0), "");
    assert_eq!(sheet.num_rows, 7);
}

#[test]
fn self_reference_is_caught() {
    let mut sheet = Spreadsheet::new();
    sheet.set_cell(0, 0, "=A1".to_string());
    let mut guard = EvalGuard::new();
    assert!(guard.enter(0, 0));
    assert!(!guard.enter(0, 0));
    assert_eq!(guard.depth(), 1);
    assert!(guard.enter(1, 0));
    assert!(!guard.enter(0, 0));
    guard.leave();
    guard.leave();
    assert_eq!(guard.depth(), 0);
    assert!(guard.enter(0, 0));
    assert_eq!(cycle_sentinel(), "#CYCLE!");
    assert_eq!(sheet.get_cell(0, 0), "=A1");
}

#[test]
fn counta_is_repeatable_and_leaves_cells_alone() {
    let mut sheet = Spreadsheet::new();
    sheet.set_cell(0, 0, "x".to_string());
    sheet.set_cell(1, 0, "=COUNTA(A1:A2)".to_string());
    let first = sheet.evaluate_counta("A1:A2");
    let second = sheet.evaluate_counta("A1:A2");
    assert_eq!(first, "2");
    assert_eq!(first, second);
    assert_eq!(sheet.get_cell(0, 0), "x");
    assert_eq!(sheet.get_cell(1, 0), "=COUNTA(A1:A2)");
}
