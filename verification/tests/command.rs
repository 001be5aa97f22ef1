use pyq::command::{parse, run, Command, UsageError};
use pyq::resolver::ResolveError;

fn owned(words: &[&str]) -> Vec<String> {
    words.iter().map(|w| w.to_string()).collect()
}

#[test]
fn version_is_parsed() {
    assert!(matches!(parse(&owned(&["pyq", "version"])), Ok(Command::Version)));
}

#[test]
fn package_keeps_its_names_as_given() {
    match parse(&owned(&["pyq", "package", "zeta", "alpha", "zeta"])) {
        Ok(Command::PackageCheck { names }) => assert_eq!(names, owned(&["zeta", "alpha", "zeta"])),
        other => panic!("unexpected: {:?}", other),
    }
}

#[test]
fn package_without_names_is_a_usage_error() {
    assert!(matches!(parse(&owned(&["pyq", "package"])), Err(UsageError::MissingNames)));
}

#[test]
fn no_subcommand_is_a_usage_error() {
    assert!(matches!(parse(&owned(&["pyq"])), Err(UsageError::MissingSubcommand)));
    assert!(matches!(parse(&owned(&[])), Err(UsageError::MissingSubcommand)));
}

#[test]
fn unknown_subcommand_is_a_usage_error() {
    match parse(&owned(&["pyq", "install", "x"])) {
        Err(UsageError::UnknownSubcommand { word }) => assert_eq!(word, "install"),
        other => panic!("unexpected: {:?}", other),
    }
    assert!(matches!(parse(&owned(&["pyq", "Version"])), Err(UsageError::UnknownSubcommand { .. })));
    assert!(matches!(parse(&owned(&["pyq", ""])), Err(UsageError::UnknownSubcommand { .. })));
}

#[test]
fn flags_are_refused() {
    match parse(&owned(&["pyq", "--frobnicate"])) {
        Err(UsageError::UnexpectedArgument { word }) => assert_eq!(word, "--frobnicate"),
        other => panic!("unexpected: {:?}", other),
    }
    match parse(&owned(&["pyq", "package", "os", "-x", "--y"])) {
        Err(UsageError::UnexpectedArgument { word }) => assert_eq!(word, "-x"),
        other => panic!("unexpected: {:?}", other),
    }
}

#[test]
fn a_word_after_version_is_refused() {
    match parse(&owned(&["pyq", "version", "now"])) {
        Err(UsageError::UnexpectedArgument { word }) => assert_eq!(word, "now"),
        other => panic!("unexpected: {:?}", other),
    }
}

#[test]
fn the_program_name_is_passed_over() {
    assert!(matches!(parse(&owned(&["package", "version"])), Ok(Command::Version)));
}

#[test]
fn usage_errors_have_messages() {
    assert_eq!(UsageError::MissingSubcommand.message(), "a subcommand is required");
    assert_eq!(UsageError::MissingNames.message(), "at least one package name is required");
    assert_eq!(
        UsageError::UnknownSubcommand { word: "install".to_string() }.message(),
        "unrecognized subcommand 'install'"
    );
    assert_eq!(
        UsageError::UnexpectedArgument { word: "--x".to_string() }.message(),
        "unexpected argument '--x'"
    );
    assert_eq!(UsageError::usage(), "Usage: pyq <version | package NAME...>");
}

#[test]
fn run_refuses_a_package_check_without_names() {
    let r = run(&Command::PackageCheck { names: Vec::new() });
    assert!(matches!(r, Err(ResolveError::InvalidInput)));
}

#[test]
fn run_version_prints_one_labelled_line() {
    let text = run(&Command::Version).unwrap();
    assert!(text.starts_with("Python version: "));
    assert!(text.len() > "Python version: \n".len());
    assert!(text.ends_with('\n'));
}

#[test]
fn run_package_check_prints_the_report() {
    let names = owned(&["json", "definitely_not_a_real_package_xyz"]);
    let text = run(&Command::PackageCheck { names }).unwrap();
    assert_eq!(
        text,
        "Installed packages:\n  [ok] json\n\nMissing packages:\n  [missing] definitely_not_a_real_package_xyz\n"
    );
}
