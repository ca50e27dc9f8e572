use alter_ego_tools::tools::command_set::{CommandSet, CommandSetError};

#[test]
fn test_builder_ok() {
    let mut builder = CommandSet::builder();
    builder.outcome("PINK SPIRAL NOTEBOOK, pink spiral notebook".to_owned());
    builder.capture_string(".*? (NOTEBOOK), (.*?) (.*?)".to_owned());
    builder.solved_command(
        "is $1 (notebook color=$2+notebook type=$3) in BAGGING AREA at school-store".to_owned(),
    );
    builder.solved_command("say Ai {Compliment}: That is, an excellent choice.".to_owned());
    builder.solved_command("setpronouns Ai it/it/its/its/itself/false".to_owned());
    assert!(builder.build().is_ok());
}

#[test]
fn command_set_test_builder_err() {
    let mut builder = CommandSet::builder();
    builder.outcome("PINK SPIRAL NOTEBOOK, pink spiral notebook".to_owned());
    builder.capture_string(".*? (NOTEBOOK), (.*?) (.*?)".to_owned());
    assert!(builder.build().is_err()); // No solved or unsolved commands

    let mut builder = CommandSet::builder();
    builder.outcome("PINK SPIRAL NOTEBOOK, pink spiral notebook".to_owned());
    builder.solved_command(
        "is $1 (notebook color=$2+notebook type=$3) in BAGGING AREA at school-store, say Ai \
         {Compliment}: That is, an excellent choice."
            .to_owned(),
    );
    assert!(builder.build().is_err()); // No capture string

    let mut builder = CommandSet::builder();
    builder.capture_string(".*? (NOTEBOOK), (.*?) (.*?)".to_owned());
    builder.solved_command(
        "is $1 (notebook color=$2+notebook type=$3) in BAGGING AREA at school-store, say Ai \
         {Compliment}: That is, an excellent choice."
            .to_owned(),
    );
    assert!(builder.build().is_err()); // No outcomes
}

#[test]
fn test_command_set_generate1() {
    let mut builder = CommandSet::builder();
    builder.outcome("PINK SPIRAL NOTEBOOK, pink spiral notebook".to_owned());
    builder.outcome("BLACK COMPOSITION NOTEBOOK, black composition notebook".to_owned());
    builder.capture_string(r".*? (NOTEBOOK), (\w+) (\w+)".to_owned());
    builder.solved_command(
        "is $1 (notebook color=$2+notebook type=$3) in BAGGING AREA at school-store".to_owned(),
    );
    builder.solved_command("say Ai {Compliment}: That is, an excellent choice.".to_owned());
    builder.solved_command("setpronouns Ai it/it/its/its/itself/false".to_owned());

    let command_set = builder.build().unwrap();
    let output = command_set.generate().unwrap();

    assert_eq!(
        output,
        "[PINK SPIRAL NOTEBOOK, pink spiral notebook: is NOTEBOOK (notebook \
         color=pink+notebook type=spiral) in BAGGING AREA at school-store, say Ai \
         {Compliment}@ That is， an excellent choice., setpronouns Ai \
         it\\it\\its\\its\\itself\\false], [BLACK COMPOSITION NOTEBOOK, black composition \
         notebook: is NOTEBOOK (notebook color=black+notebook type=composition) in BAGGING \
         AREA at school-store, say Ai {Compliment}@ That is， an excellent choice., \
         setpronouns Ai it\\it\\its\\its\\itself\\false]"
    );
}

#[test]
fn test_command_set_generate2() {
    let mut builder = CommandSet::builder();
    builder.outcome("Item: TABLET 0, Item: TABLET 1".to_owned());
    builder.capture_string(r"Item: (.*?), Item: (.*) (\d+)".to_owned());
    builder.solved_command("solve SWITCH dorm-$3, unlock dorm-$3 DOOR".to_owned());
    builder.unsolved_command("unsolve SWITCH dorm-$3, lock dorm-$3 DOOR".to_owned());

    let command_set = builder.build().unwrap();
    let output = command_set.generate().unwrap();

    assert_eq!(
        output,
        "[Item: TABLET 0, Item: TABLET 1: solve SWITCH dorm-1, unlock dorm-1 DOOR / unsolve \
         SWITCH dorm-1, lock dorm-1 DOOR]"
    );
}

#[test]
fn build_reports_missing_parts_in_order() {
    let builder = CommandSet::builder();
    assert!(matches!(builder.build(), Err(CommandSetError::MissingOutcome)));

    let mut builder = CommandSet::builder();
    builder.outcome("A".to_owned());
    assert!(matches!(builder.build(), Err(CommandSetError::MissingCaptureString)));

    builder.capture_string("(A)".to_owned());
    assert!(matches!(builder.build(), Err(CommandSetError::MissingCommand)));

    builder.unsolved_command("lock $1".to_owned());
    assert!(builder.build().is_ok());
}

#[test]
fn bulk_adders_keep_order() {
    let mut builder = CommandSet::builder();
    builder
        .outcomes(vec!["A1".to_owned(), "B2".to_owned()])
        .capture_string(r"(\w)(\d)".to_owned())
        .solved_commands(vec!["solve $1".to_owned(), "say $2".to_owned()])
        .unsolved_commands(vec!["unsolve $1".to_owned()]);
    let output = builder.build().unwrap().generate().unwrap();
    assert_eq!(output, "[A1: solve A, say 1 / unsolve A], [B2: solve B, say 2 / unsolve B]");
}

#[test]
fn only_unsolved_commands_leave_solved_part_empty() {
    let mut builder = CommandSet::builder();
    builder.outcome("DOOR".to_owned());
    builder.capture_string("(DOOR)".to_owned());
    builder.unsolved_command("lock $1".to_owned());
    let output = builder.build().unwrap().generate().unwrap();
    assert_eq!(output, "[DOOR:  / lock DOOR]");
}

#[test]
fn invalid_capture_string_is_reported() {
    let mut builder = CommandSet::builder();
    builder.outcome("DOOR".to_owned());
    builder.capture_string("(DOOR".to_owned());
    builder.solved_command("unlock $1".to_owned());
    let result = builder.build().unwrap().generate();
    match result {
        Err(CommandSetError::InvalidCaptureString(message)) => assert!(!message.is_empty()),
        other => panic!("unexpected result {:?}", other),
    }
}

#[test]
fn outcome_without_match_is_reported() {
    let mut builder = CommandSet::builder();
    builder.outcome("DOOR".to_owned());
    builder.outcome("WINDOW".to_owned());
    builder.capture_string("(DOOR)".to_owned());
    builder.solved_command("unlock $1".to_owned());
    let error = builder.build().unwrap().generate().unwrap_err();
    assert!(matches!(error, CommandSetError::NoMatch));
    assert_eq!(error.message(), "There are no matches");
}

#[test]
fn unmatched_group_is_left_as_written() {
    let mut builder = CommandSet::builder();
    builder.outcome("A".to_owned());
    builder.capture_string("(A)(B)?".to_owned());
    builder.solved_command("say $1 and $2".to_owned());
    let output = builder.build().unwrap().generate().unwrap();
    assert_eq!(output, "[A: say A and $2]");
}

#[test]
fn commas_become_full_width_only_for_speaking_commands() {
    let mut builder = CommandSet::builder();
    builder.outcome("X".to_owned());
    builder.capture_string("(X)".to_owned());
    builder.solved_command("fixture a, b".to_owned());
    builder.solved_command("puzzle c, d".to_owned());
    builder.solved_command("setvoice e, f".to_owned());
    builder.solved_command("move g, h".to_owned());
    let output = builder.build().unwrap().generate().unwrap();
    assert_eq!(
        output,
        "[X: fixture a\u{ff0c} b, puzzle c\u{ff0c} d, setvoice e\u{ff0c} f, move g, h]"
    );
}

#[test]
fn error_messages() {
    assert_eq!(
        CommandSetError::MissingOutcome.message(),
        "At least one outcome must be provided"
    );
    assert_eq!(
        CommandSetError::MissingCaptureString.message(),
        "Capture string must be provided"
    );
    assert_eq!(
        CommandSetError::MissingCommand.message(),
        "At least one solved command or unsolved command must be provided"
    );
}

#[test]
fn render_uses_given_groups() {
    let mut builder = CommandSet::builder();
    builder.outcome("one".to_owned());
    builder.outcome("two".to_owned());
    builder.capture_string("(o)".to_owned());
    builder.solved_command("a/b:c $1".to_owned());
    builder.unsolved_command("say x,y $2 $1".to_owned());
    let command_set = builder.build().unwrap();
    let groups = vec![
        vec![Some("one".to_owned()), Some("ONE".to_owned()), None],
        vec![Some("two".to_owned()), None, Some("2".to_owned())],
    ];
    assert_eq!(
        command_set.render(&groups),
        "[one: a\\b@c ONE / say x\u{ff0c}y $2 ONE], [two: a\\b@c $1 / say x\u{ff0c}y 2 $1]"
    );
}

#[test]
fn later_group_numbers_replace_after_earlier_ones() {
    let mut builder = CommandSet::builder();
    builder.outcome("abcdefghijk".to_owned());
    builder.capture_string("(a)(b)(c)(d)(e)(f)(g)(h)(i)(j)(k)".to_owned());
    builder.solved_command("$1 $10 $11".to_owned());
    let output = builder.build().unwrap().generate().unwrap();
    assert_eq!(output, "[abcdefghijk: a a0 a1]");
}
