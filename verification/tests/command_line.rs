use lib::command::{
    classify_input, command_args, pipeline_stages, remove_extra_space, split_command_with_espace,
    Action,
};

fn strings(v: &[&str]) -> Vec<String> {
    v.iter().map(|s| s.to_string()).collect()
}

#[test]
fn doc_example_collapses_and_trims() {
    let command = "  dir  | findstr src  ";
    assert_eq!("dir | findstr src".to_string(), remove_extra_space(command));
}

#[test]
fn older_name_gives_the_same_result_on_longer_lines() {
    let command = "  dir  | findstr src  ";
    assert_eq!("dir | findstr src".to_string(), split_command_with_espace(command));
    assert_eq!(split_command_with_espace("a   b   c"), remove_extra_space("a   b   c"));
    assert_eq!(split_command_with_espace("  é"), "é");
    assert_eq!(split_command_with_espace("a "), "a");
}

#[test]
fn older_name_empties_a_lone_one_byte_character() {
    assert_eq!(split_command_with_espace("a"), "");
    assert_eq!(split_command_with_espace("   |"), "");
    assert_eq!(split_command_with_espace(""), "");
    assert_eq!(split_command_with_espace("   "), "");
}

#[test]
fn empty_and_blank_lines_give_empty() {
    assert_eq!(remove_extra_space(""), "");
    assert_eq!(remove_extra_space("     "), "");
}

#[test]
fn a_single_character_is_kept() {
    assert_eq!(remove_extra_space("a"), "a");
    assert_eq!(remove_extra_space("   a"), "a");
    assert_eq!(remove_extra_space("|"), "|");
    assert_eq!(remove_extra_space(" \t"), "");
}

#[test]
fn two_bytes_are_kept() {
    assert_eq!(remove_extra_space("ab"), "ab");
    assert_eq!(remove_extra_space("a "), "a");
    assert_eq!(remove_extra_space("  é"), "é");
}

#[test]
fn only_plain_spaces_are_collapsed() {
    assert_eq!(remove_extra_space("\tls  -l\t\t  "), "\tls -l");
    assert_eq!(remove_extra_space("a \t b"), "a \t b");
    assert_eq!(remove_extra_space("a     b   c\r\n"), "a b c");
}

#[test]
fn trailing_unicode_white_space_is_trimmed() {
    assert_eq!(remove_extra_space("echo x\u{3000}\u{a0}\n"), "echo x");
    assert_eq!(remove_extra_space("echo  x\u{200b}"), "echo x\u{200b}");
}

#[test]
fn normalising_twice_changes_nothing() {
    for s in ["  dir  | findstr src  ", "x  y", "  é  ", "a\u{2003}  b ", "", "a", " b "] {
        let once = remove_extra_space(s);
        assert_eq!(remove_extra_space(&once), once);
    }
}

#[test]
fn normalising_a_lone_character_again_keeps_it() {
    let once = remove_extra_space("a ");
    assert_eq!(once, "a");
    assert_eq!(remove_extra_space(&once), "a");
}

#[test]
fn only_spaces_and_trailing_white_space_are_removed() {
    for s in ["  dir  | findstr src  ", "a", " x\t  y \u{3000}\n", "  ", "\u{a0} a  b"] {
        let kept: String = remove_extra_space(s).chars().filter(|c| *c != ' ').collect();
        let expected: String = s.trim_end().chars().filter(|c| *c != ' ').collect();
        assert_eq!(kept, expected);
    }
}

#[test]
fn arguments_are_the_pieces_between_spaces() {
    assert_eq!(command_args("dir /w"), strings(&["dir", "/w"]));
    assert_eq!(command_args(""), strings(&[""]));
    assert_eq!(command_args("a  b "), strings(&["a", "", "b", ""]));
}

#[test]
fn pipeline_stages_are_normalised_then_split() {
    let stages = pipeline_stages("dir  |  findstr src | sort");
    assert_eq!(stages, vec![strings(&["dir"]), strings(&["findstr", "src"]), strings(&["sort"])]);
}

#[test]
fn pipeline_has_one_stage_more_than_bars() {
    let stages = pipeline_stages("ab||cd|");
    assert_eq!(stages.len(), 4);
    assert_eq!(stages, vec![strings(&["ab"]), strings(&[""]), strings(&["cd"]), strings(&[""])]);
    assert_eq!(pipeline_stages("a|b"), vec![strings(&["a"]), strings(&["b"])]);
    for stage in pipeline_stages(" x  y | zz  w ") {
        assert!(!stage.join(" ").contains("  "));
    }
}

#[test]
fn exit_and_jobs_are_recognised_after_trimming() {
    assert!(matches!(classify_input("exit\n"), Action::Exit));
    assert!(matches!(classify_input("exit \r\n"), Action::Exit));
    assert!(matches!(classify_input("jobs\n"), Action::ListJobs));
    assert!(!matches!(classify_input(" exit\n"), Action::Exit));
}

#[test]
fn background_commands_begin_with_start() {
    match classify_input("  start  notepad  \n") {
        Action::Run { command, background, piped } => {
            assert_eq!(command, "start notepad");
            assert!(background);
            assert!(!piped);
        }
        _ => panic!("expected a command to run"),
    }
}

#[test]
fn piped_commands_hold_a_bar() {
    match classify_input("dir  | sort\n") {
        Action::Run { command, background, piped } => {
            assert_eq!(command, "dir | sort");
            assert!(!background);
            assert!(piped);
        }
        _ => panic!("expected a command to run"),
    }
    match classify_input("startx|wc\n") {
        Action::Run { background, piped, .. } => {
            assert!(background);
            assert!(piped);
        }
        _ => panic!("expected a command to run"),
    }
}

#[test]
fn blank_line_runs_the_empty_command() {
    match classify_input("\n") {
        Action::Run { command, background, piped } => {
            assert_eq!(command, "");
            assert!(!background);
            assert!(!piped);
        }
        _ => panic!("expected a command to run"),
    }
}

#[test]
fn one_letter_command_is_run_as_it_is() {
    match classify_input(" x \n") {
        Action::Run { command, background, piped } => {
            assert_eq!(command, "x");
            assert!(!background);
            assert!(!piped);
        }
        _ => panic!("expected a command to run"),
    }
}
