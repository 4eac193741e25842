use ere::{ArgError, Args};

fn arguments(args: &[&str]) -> pico_args::Arguments {
    pico_args::Arguments::from_vec(args.iter().map(|arg| arg.into()).collect())
}

fn split(args: &[&str]) -> (bool, bool, String, Vec<String>) {
    let (found, rest) = Args::split(arguments(args));
    (found.all, found.recursive, found.path, rest)
}

fn rest(args: &[&str]) -> Vec<String> {
    args.iter().map(|arg| arg.to_string()).collect()
}

#[test]
fn default_is_the_current_directory_without_flags() {
    let args = Args::default();
    assert!(!args.all);
    assert!(!args.recursive);
    assert_eq!(args.path, ".");
}

#[test]
fn no_arguments_give_the_default() {
    assert_eq!(split(&[]), (false, false, ".".to_string(), rest(&[])));
}

#[test]
fn flags_are_found_wherever_they_stand() {
    assert_eq!(split(&["-a"]), (true, false, ".".to_string(), rest(&[])));
    assert_eq!(split(&["--all"]), (true, false, ".".to_string(), rest(&[])));
    assert_eq!(split(&["-r"]), (false, true, ".".to_string(), rest(&[])));
    assert_eq!(
        split(&["dir", "--recursive", "-a"]),
        (true, true, "dir".to_string(), rest(&[]))
    );
}

#[test]
fn a_flag_is_taken_out_once() {
    assert_eq!(split(&["-a", "-a"]), (true, false, "-a".to_string(), rest(&[])));
    assert_eq!(
        split(&["--all", "-a", "x"]),
        (true, false, "--all".to_string(), rest(&["x"]))
    );
}

#[test]
fn the_first_argument_that_is_left_is_the_path() {
    assert_eq!(
        split(&["a", "b", "c"]),
        (false, false, "a".to_string(), rest(&["b", "c"]))
    );
    assert_eq!(
        split(&["-x", "dir"]),
        (false, false, "-x".to_string(), rest(&["dir"]))
    );
}

#[test]
fn a_path_and_nothing_left_is_accepted() {
    let (found, rest) = Args::split(arguments(&["-r", "dir"]));
    let args = found.checked(true, &rest).unwrap();
    assert!(args.recursive);
    assert!(!args.all);
    assert_eq!(args.path, "dir");

    let (found, rest) = Args::split(arguments(&["dir"]));
    assert_eq!(found.checked(false, &rest).unwrap().path, "dir");
}

#[test]
fn a_path_that_looks_like_a_flag_and_is_no_entry_is_refused() {
    let (found, rest) = Args::split(arguments(&["-x"]));
    assert!(matches!(
        found.checked(false, &rest),
        Err(ArgError::UnknownArg(arg)) if arg == "-x"
    ));

    let (found, rest) = Args::split(arguments(&["-x", "y"]));
    assert!(matches!(
        found.checked(false, &rest),
        Err(ArgError::UnknownArg(arg)) if arg == "-x"
    ));
}

#[test]
fn a_path_that_looks_like_a_flag_and_is_an_entry_is_accepted() {
    let (found, rest) = Args::split(arguments(&["-x"]));
    assert_eq!(found.checked(true, &rest).unwrap().path, "-x");
}

#[test]
fn an_argument_that_is_left_over_is_refused() {
    let (found, rest) = Args::split(arguments(&["dir", "other", "more"]));
    assert!(matches!(
        found.checked(true, &rest),
        Err(ArgError::UnknownArg(arg)) if arg == "other"
    ));
}
