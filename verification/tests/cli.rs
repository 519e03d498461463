use elm_strip_comments::cli::{output_for, parse_args, Args, Command, Output, RunError};

fn parse(items: &[&str]) -> Result<(bool, bool, bool, Vec<String>), Vec<String>> {
    match parse_args(items.iter().map(|item| item.to_string()).collect()) {
        Ok(args) => Ok((args.help, args.version, args.replace, args.files)),
        Err(err) => match err.cause {
            pico_args::Error::UnusedArgsLeft(left) => Err(left),
            other => panic!("{:?}", other),
        },
    }
}

fn paths(items: &[&str]) -> Vec<String> {
    items.iter().map(|item| item.to_string()).collect()
}

#[test]
fn no_arguments() {
    assert_eq!(parse(&[]), Ok((false, false, false, paths(&[]))));
}

#[test]
fn paths_are_kept_in_order() {
    assert_eq!(parse(&["b.elm", "a.elm"]), Ok((false, false, false, paths(&["b.elm", "a.elm"]))));
    assert_eq!(parse(&["src/*.elm"]), Ok((false, false, false, paths(&["src/*.elm"]))));
    assert_eq!(parse(&["a.elm", "a.elm"]), Ok((false, false, false, paths(&["a.elm", "a.elm"]))));
}

#[test]
fn flags_are_found_anywhere_and_taken_out() {
    assert_eq!(parse(&["--help"]), Ok((true, false, false, paths(&[]))));
    assert_eq!(parse(&["--version"]), Ok((false, true, false, paths(&[]))));
    assert_eq!(parse(&["--replace", "a.elm"]), Ok((false, false, true, paths(&["a.elm"]))));
    assert_eq!(
        parse(&["a.elm", "--replace", "b.elm"]),
        Ok((false, false, true, paths(&["a.elm", "b.elm"])))
    );
    assert_eq!(
        parse(&["a.elm", "--version", "--replace", "b.elm", "--help"]),
        Ok((true, true, true, paths(&["a.elm", "b.elm"])))
    );
}

#[test]
fn a_flag_is_taken_out_once() {
    assert_eq!(parse(&["--help", "--help"]), Err(paths(&["--help"])));
    assert_eq!(
        parse(&["--replace", "a.elm", "--replace", "--replace"]),
        Err(paths(&["--replace", "--replace"]))
    );
}

#[test]
fn other_flags_are_refused() {
    assert_eq!(parse(&["--unknown"]), Err(paths(&["--unknown"])));
    assert_eq!(parse(&["-h", "a.elm", "--x"]), Err(paths(&["-h", "--x"])));
    assert_eq!(parse(&["--"]), Err(paths(&["--"])));
    assert_eq!(parse(&["--help=yes"]), Err(paths(&["--help=yes"])));
    assert_eq!(parse(&["--Help"]), Err(paths(&["--Help"])));
}

#[test]
fn a_hyphen_alone_and_an_empty_argument_are_paths() {
    assert_eq!(parse(&["-"]), Ok((false, false, false, paths(&["-"]))));
    assert_eq!(parse(&["", "a-b", "é-"]), Ok((false, false, false, paths(&["", "a-b", "é-"]))));
}

fn args(help: bool, version: bool, replace: bool, files: &[&str]) -> Args {
    Args { help, version, replace, files: files.iter().map(|f| f.to_string()).collect() }
}

#[test]
fn help_goes_first() {
    assert_eq!(args(true, false, false, &[]).command(), Ok(Command::Usage));
    assert_eq!(args(true, true, true, &["a.elm"]).command(), Ok(Command::Usage));
}

#[test]
fn version_goes_before_paths() {
    assert_eq!(args(false, true, false, &[]).command(), Ok(Command::Version));
    assert_eq!(args(false, true, true, &["a.elm"]).command(), Ok(Command::Version));
}

#[test]
fn a_path_is_needed() {
    assert_eq!(args(false, false, false, &[]).command(), Err(RunError::MissingPath));
    assert_eq!(args(false, false, true, &[]).command(), Err(RunError::MissingPath));
    assert_eq!(args(false, false, false, &["a.elm"]).command(), Ok(Command::Strip));
    assert_eq!(args(false, false, true, &["a.elm", "b.elm"]).command(), Ok(Command::Strip));
}

#[test]
fn no_file_is_an_error() {
    assert_eq!(output_for(0, false), Err(RunError::NoMatchingFile));
    assert_eq!(output_for(0, true), Err(RunError::NoMatchingFile));
}

#[test]
fn one_file_is_printed_or_replaced() {
    assert_eq!(output_for(1, false), Ok(Output::Print));
    assert_eq!(output_for(1, true), Ok(Output::Replace));
}

#[test]
fn several_files_are_replaced_only() {
    assert_eq!(output_for(2, false), Err(RunError::ReplaceRequired));
    assert_eq!(output_for(2, true), Ok(Output::Replace));
    assert_eq!(output_for(usize::MAX, false), Err(RunError::ReplaceRequired));
    assert_eq!(output_for(usize::MAX, true), Ok(Output::Replace));
}

#[test]
fn messages() {
    assert_eq!(RunError::MissingPath.message(), "Missing path to an elm file");
    assert_eq!(RunError::NoMatchingFile.message(), "No matching file found");
    assert_eq!(
        RunError::ReplaceRequired.message(),
        "You must use --replace for multiple elm files"
    );
}

#[test]
fn args_can_be_printed() {
    let printed = format!("{:?}", args(false, false, true, &["a.elm"]));
    assert!(printed.contains("replace: true"));
    assert!(printed.contains("a.elm"));
}
