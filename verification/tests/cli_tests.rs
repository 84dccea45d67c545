use cutblanc::cli::{parse_action, parse_args, Action};

fn line(words: &[&str]) -> Vec<String> {
    words.iter().map(|w| w.to_string()).collect()
}

#[test]
fn cut_and_convert_are_the_actions() {
    assert_eq!(parse_action(&"cut".to_string()), Some(Action::Cut));
    assert_eq!(parse_action(&"convert".to_string()), Some(Action::Convert));
}

#[test]
fn other_words_name_no_action() {
    for word in ["", "Cut", "cut ", " cut", "cu", "cutt", "CONVERT", "convert\n", "trim", "--help"] {
        assert_eq!(parse_action(&word.to_string()), None, "{:?}", word);
    }
}

#[test]
fn three_arguments_make_an_invocation() {
    let found = parse_args(&line(&["prog", "cut", "in.wav", "out.wav"])).unwrap();
    assert_eq!(found.action, Action::Cut);
    assert_eq!(found.input_file, "in.wav");
    assert_eq!(found.output_file, "out.wav");

    let found = parse_args(&line(&["prog", "convert", "a b.mp3", ""])).unwrap();
    assert_eq!(found.action, Action::Convert);
    assert_eq!(found.input_file, "a b.mp3");
    assert_eq!(found.output_file, "");
}

#[test]
fn the_action_is_read_from_the_first_argument_alone() {
    assert!(parse_args(&line(&["cut", "in.wav", "cut", "convert"])).is_none());
    let found = parse_args(&line(&["prog", "convert", "cut", "cut"])).unwrap();
    assert_eq!(found.action, Action::Convert);
    assert_eq!(found.input_file, "cut");
    assert_eq!(found.output_file, "cut");
}

#[test]
fn any_other_count_is_refused() {
    assert!(parse_args(&line(&[])).is_none());
    assert!(parse_args(&line(&["prog"])).is_none());
    assert!(parse_args(&line(&["prog", "cut"])).is_none());
    assert!(parse_args(&line(&["prog", "cut", "in.wav"])).is_none());
    assert!(parse_args(&line(&["prog", "cut", "in.wav", "out.wav", "more"])).is_none());
}

#[test]
fn an_unknown_action_is_refused() {
    assert!(parse_args(&line(&["prog", "trim", "in.wav", "out.wav"])).is_none());
    assert!(parse_args(&line(&["prog", "", "in.wav", "out.wav"])).is_none());
}
