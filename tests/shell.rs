use kvrepl::{
    cmd_del, cmd_get, cmd_set, cmd_vars, init_commands, init_repl, process_command, ArgPattern,
    Command, CommandName, ReplCommands, State,
};

fn run(repl: &ReplCommands, state: &mut State, line: &str) -> Vec<String> {
    process_command(repl, state, line)
}

fn s(x: &str) -> String {
    x.to_string()
}

#[test]
fn set_then_get_shows_value() {
    let repl = init_repl();
    let mut state = State::new();
    assert_eq!(run(&repl, &mut state, "set k=v"), vec![s("cmd set k=v")]);
    assert_eq!(run(&repl, &mut state, "get k"), vec![s("cmd get k"), s("k = v")]);
}

#[test]
fn get_unset_key() {
    let repl = init_repl();
    let mut state = State::new();
    assert_eq!(
        run(&repl, &mut state, "get missing_1"),
        vec![s("cmd get missing_1"), s("no value set for key missing_1")]
    );
}

#[test]
fn del_after_set_then_get() {
    let repl = init_repl();
    let mut state = State::new();
    run(&repl, &mut state, "set k=v");
    assert_eq!(run(&repl, &mut state, "del k"), vec![s("cmd del k"), s("removed k")]);
    assert_eq!(
        run(&repl, &mut state, "get k"),
        vec![s("cmd get k"), s("no value set for key k")]
    );
}

#[test]
fn del_unset_key_leaves_store() {
    let repl = init_repl();
    let mut state = State::new();
    run(&repl, &mut state, "set a=1");
    assert_eq!(
        run(&repl, &mut state, "del b"),
        vec![s("cmd del b"), s("b was not set so not removed")]
    );
    assert_eq!(run(&repl, &mut state, "vars"), vec![s("cmd vars"), s("a = 1")]);
}

#[test]
fn vars_on_empty_store() {
    let repl = init_repl();
    let mut state = State::new();
    assert_eq!(run(&repl, &mut state, "vars"), vec![s("cmd vars"), s("(none)")]);
}

#[test]
fn vars_sorted_in_insertion_order() {
    let repl = init_repl();
    let mut state = State::new();
    run(&repl, &mut state, "set a=1");
    run(&repl, &mut state, "set b=2");
    assert_eq!(
        run(&repl, &mut state, "vars"),
        vec![s("cmd vars"), s("a = 1"), s("b = 2")]
    );
}

#[test]
fn vars_sorted_in_reverse_insertion_order() {
    let repl = init_repl();
    let mut state = State::new();
    run(&repl, &mut state, "set b=2");
    run(&repl, &mut state, "set a=1");
    assert_eq!(
        run(&repl, &mut state, "vars"),
        vec![s("cmd vars"), s("a = 1"), s("b = 2")]
    );
}

#[test]
fn vars_orders_by_characters() {
    let repl = init_repl();
    let mut state = State::new();
    run(&repl, &mut state, "set zeta=1");
    run(&repl, &mut state, "set a_b=2");
    run(&repl, &mut state, "set ab=3");
    run(&repl, &mut state, "set a=4");
    run(&repl, &mut state, "set a9=5");
    assert_eq!(
        run(&repl, &mut state, "vars"),
        vec![
            s("cmd vars"),
            s("a = 4"),
            s("a9 = 5"),
            s("a_b = 2"),
            s("ab = 3"),
            s("zeta = 1")
        ]
    );
}

#[test]
fn set_twice_same_as_once() {
    let repl = init_repl();
    let mut once = State::new();
    let mut twice = State::new();
    run(&repl, &mut once, "set k=v");
    run(&repl, &mut twice, "set k=v");
    run(&repl, &mut twice, "set k=v");
    assert_eq!(run(&repl, &mut once, "vars"), run(&repl, &mut twice, "vars"));
    assert_eq!(run(&repl, &mut twice, "vars"), vec![s("cmd vars"), s("k = v")]);
}

#[test]
fn set_overwrites() {
    let repl = init_repl();
    let mut state = State::new();
    run(&repl, &mut state, "set k=1");
    run(&repl, &mut state, "set k=2");
    assert_eq!(run(&repl, &mut state, "get k"), vec![s("cmd get k"), s("k = 2")]);
}

#[test]
fn get_without_key_is_unrecognized() {
    let repl = init_repl();
    let mut state = State::new();
    assert_eq!(
        run(&repl, &mut state, "get "),
        vec![s("cmd get "), s("unrecognized command get ")]
    );
}

#[test]
fn get_upper_case_is_unrecognized() {
    let repl = init_repl();
    let mut state = State::new();
    assert_eq!(
        run(&repl, &mut state, "get ABC"),
        vec![s("cmd get ABC"), s("unrecognized command get ABC")]
    );
}

#[test]
fn unknown_word_is_unrecognized() {
    let repl = init_repl();
    let mut state = State::new();
    assert_eq!(
        run(&repl, &mut state, "quit"),
        vec![s("cmd quit"), s("unrecognized command quit")]
    );
    assert_eq!(
        run(&repl, &mut state, "set =1"),
        vec![s("cmd set =1"), s("unrecognized command set =1")]
    );
    assert_eq!(
        run(&repl, &mut state, "set a="),
        vec![s("cmd set a="), s("unrecognized command set a=")]
    );
}

#[test]
fn blank_lines_print_nothing() {
    let repl = init_repl();
    let mut state = State::new();
    assert!(run(&repl, &mut state, "").is_empty());
    assert!(run(&repl, &mut state, "   ").is_empty());
    assert!(run(&repl, &mut state, " \t\n").is_empty());
    assert!(run(&repl, &mut state, "\u{3000}\u{a0}\r\n").is_empty());
}

#[test]
fn end_to_end_session() {
    let repl = init_repl();
    let mut state = State::new();
    assert_eq!(run(&repl, &mut state, "set x = 5"), vec![s("cmd set x = 5")]);
    assert_eq!(run(&repl, &mut state, "get x"), vec![s("cmd get x"), s("x = 5")]);
    assert_eq!(run(&repl, &mut state, "del x"), vec![s("cmd del x"), s("removed x")]);
    assert_eq!(
        run(&repl, &mut state, "get x"),
        vec![s("cmd get x"), s("no value set for key x")]
    );
    assert_eq!(run(&repl, &mut state, "vars"), vec![s("cmd vars"), s("(none)")]);
}

#[test]
fn lines_with_trailing_newline() {
    let repl = init_repl();
    let mut state = State::new();
    assert_eq!(run(&repl, &mut state, "set x  =   y_1\n"), vec![s("cmd set x  =   y_1\n")]);
    assert_eq!(
        run(&repl, &mut state, "get x\n"),
        vec![s("cmd get x\n"), s("x = y_1")]
    );
    assert_eq!(
        run(&repl, &mut state, "  vars \n"),
        vec![s("cmd   vars \n"), s("x = y_1")]
    );
}

#[test]
fn vars_with_arguments_is_unrecognized() {
    let repl = init_repl();
    let mut state = State::new();
    assert_eq!(
        run(&repl, &mut state, "vars x"),
        vec![s("cmd vars x"), s("unrecognized command vars x")]
    );
}

#[test]
fn key_stops_at_first_other_character() {
    let repl = init_repl();
    let mut state = State::new();
    run(&repl, &mut state, "set ab=cd");
    assert_eq!(run(&repl, &mut state, "get abXY"), vec![s("cmd get abXY"), s("ab = cd")]);
}

#[test]
fn handlers_directly() {
    let mut state = State::new();
    assert_eq!(cmd_vars(&state), vec![s("(none)")]);
    cmd_set(&mut state, s("k"), s("v"));
    assert_eq!(cmd_get(&state, &s("k")), vec![s("k = v")]);
    assert_eq!(cmd_del(&mut state, &s("k")), vec![s("removed k")]);
    assert_eq!(cmd_del(&mut state, &s("k")), vec![s("k was not set so not removed")]);
    assert_eq!(state.len(), 0);
}

#[test]
fn store_operations() {
    let mut state = State::new();
    state.set(s("b"), s("2"));
    state.set(s("a"), s("1"));
    state.set(s("b"), s("3"));
    assert_eq!(state.get(&s("b")), Some(s("3")));
    assert_eq!(state.get(&s("c")), None);
    assert_eq!(state.len(), 2);
    assert_eq!(state.list(), vec![(s("a"), s("1")), (s("b"), s("3"))]);
    assert!(state.delete(&s("a")));
    assert!(!state.delete(&s("a")));
    assert_eq!(state.list(), vec![(s("b"), s("3"))]);
}

#[test]
fn registering_again_replaces_in_place() {
    let mut repl = ReplCommands::new();
    init_commands(&mut repl);
    repl.add_command(
        CommandName::Get,
        Command { name: s("show"), has_args: true, pattern: Some(ArgPattern::Key) },
    );
    let mut state = State::new();
    run(&repl, &mut state, "set k=v");
    assert_eq!(run(&repl, &mut state, "show k"), vec![s("cmd show k"), s("k = v")]);
    assert_eq!(
        run(&repl, &mut state, "get k"),
        vec![s("cmd get k"), s("unrecognized command get k")]
    );
}

#[test]
fn empty_table_recognizes_nothing() {
    let repl = ReplCommands::new();
    let mut state = State::new();
    assert_eq!(
        run(&repl, &mut state, "vars"),
        vec![s("cmd vars"), s("unrecognized command vars")]
    );
}

#[test]
fn lookup_reads_arguments() {
    let repl = init_repl();
    match repl.lookup("set key_1 =val") {
        Some((CommandName::Assign, args)) => assert_eq!(args, vec![s("key_1"), s("val")]),
        _ => panic!("set not recognized"),
    }
    assert!(repl.lookup("del").is_none());
}
