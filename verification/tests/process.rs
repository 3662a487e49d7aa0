use disturbar::process::{is_disturbar_ui_process, split_cmdline, ui_pid_candidate};

fn args(list: &[&str]) -> Vec<String> {
    list.iter().map(|s| s.to_string()).collect()
}

#[test]
fn ui_process_is_recognised_by_program_name() {
    assert!(is_disturbar_ui_process(&args(&["disturbar"])));
    assert!(is_disturbar_ui_process(&args(&["/usr/local/bin/disturbar"])));
    assert!(!is_disturbar_ui_process(&args(&["disturbar", "--input-backend"])));
    assert!(!is_disturbar_ui_process(&args(&["/bin/notdisturbar"])));
    assert!(!is_disturbar_ui_process(&args(&["disturbarx"])));
    assert!(!is_disturbar_ui_process(&args(&[])));
}

#[test]
fn split_cmdline_drops_empty_pieces() {
    let raw = b"disturbar\0\0--input-backend\0";
    assert_eq!(
        split_cmdline(raw),
        vec![b"disturbar".to_vec(), b"--input-backend".to_vec()]
    );
    assert_eq!(split_cmdline(b"a\0b"), vec![b"a".to_vec(), b"b".to_vec()]);
    assert!(split_cmdline(b"\0\0").is_empty());
}

#[test]
fn ui_pid_candidate_reads_numeric_names() {
    assert_eq!(ui_pid_candidate("1234", 1), Some(1234));
    assert_eq!(ui_pid_candidate("007", 1), Some(7));
    assert_eq!(ui_pid_candidate("1234", 1234), None);
    assert_eq!(ui_pid_candidate("self", 1), None);
    assert_eq!(ui_pid_candidate("", 1), None);
    assert_eq!(ui_pid_candidate("12a", 1), None);
    assert_eq!(ui_pid_candidate("2147483647", 1), Some(i32::MAX));
    assert_eq!(ui_pid_candidate("2147483648", 1), None);
    assert_eq!(ui_pid_candidate("99999999999x", 1), None);
}
