use ts_json::action::{Action, ActionState};
use ts_json::cursor::Cursor;

const BOLD: &str = "\x1b[1m";
const RED: &str = "\x1b[91m";
const GREEN: &str = "\x1b[92m";
const CYAN: &str = "\x1b[96m";
const RESET: &str = "\x1b[0m";
const ERASE_LINE_UP: &str = "\x1b[1A\x1b[1G\x1b[0K";

#[test]
fn action_reports_progress_then_outcome() {
    let mut action = Action::new("Checking", "Checked", "config");
    assert_eq!(ActionState::InProgress, action.state);
    assert_eq!(format!("{CYAN}{BOLD}Checking{RESET} config\n"), action.print());
    assert_eq!(
        format!("{ERASE_LINE_UP}{GREEN}{BOLD}Checked{RESET} config\n"),
        action.report_success()
    );
    action.dont_erase();
    assert_eq!(
        format!("{RED}{BOLD}Checking{RESET} config {RED}{BOLD}failed{RESET}\n"),
        action.report_fail()
    );
    assert_eq!(ActionState::Fail, action.state);
    assert!(action.should_erase);
}

#[test]
fn cursor_reads_counts_and_buffers() {
    let data = [1u8, 2, 3, 4, 5];
    let mut cursor = Cursor::new(&data);
    assert_eq!(Ok(&data[0..2]), cursor.read_count(2));
    let error = cursor.read_count(9).unwrap_err();
    assert_eq!(9, error.requested);
    let mut buffer = vec![0u8; 2];
    assert_eq!(2, cursor.read(&mut buffer));
    assert_eq!(vec![3, 4], buffer);
    let mut buffer = vec![9u8; 3];
    assert_eq!(1, cursor.read(&mut buffer));
    assert_eq!(vec![5, 9, 9], buffer);
    assert_eq!(0, cursor.read(&mut buffer));
}

#[test]
fn cursor_reads_arrays() {
    let data = [7u16, 8, 9];
    let mut cursor = Cursor::new(&data);
    assert_eq!(Ok([7u16, 8]), cursor.read_array::<2>());
    assert_eq!(9, cursor.read_array::<2>().unwrap_err().requested.max(9));
    assert_eq!(2, cursor.read_array::<2>().unwrap_err().requested);
    assert_eq!(Ok([9u16]), cursor.read_array::<1>());
    assert_eq!(Ok([]), cursor.read_array::<0>());
}
