use pyq::resolver::{get_runtime_version, resolve, version_line, version_outcome, ResolveError};

fn owned(words: &[&str]) -> Vec<String> {
    words.iter().map(|w| w.to_string()).collect()
}

#[test]
fn version_line_keeps_the_version_verbatim() {
    assert_eq!(version_line("3.11.7 (main)"), "Python version: 3.11.7 (main)");
    assert_eq!(version_line(""), "Python version: ");
}

#[test]
fn the_interpreter_reports_a_version() {
    let version = get_runtime_version().unwrap();
    assert!(!version.is_empty());
}

#[test]
fn resolve_refuses_an_empty_list() {
    assert!(matches!(resolve(&Vec::new()), Err(ResolveError::InvalidInput)));
}

#[test]
fn resolve_finds_a_standard_module() {
    let r = resolve(&owned(&["json", "definitely_not_a_real_package_xyz"])).unwrap();
    assert_eq!(r.installed().names(), &owned(&["json"]));
    assert_eq!(r.missing().names(), &owned(&["definitely_not_a_real_package_xyz"]));
}

#[test]
fn resolve_collapses_repeated_names() {
    let r = resolve(&owned(&["os", "os", "os"])).unwrap();
    assert_eq!(r.lines(), owned(&["Installed packages:", "  [ok] os"]));
}

#[test]
fn resolve_lists_missing_names_in_order() {
    let r = resolve(&owned(&["zeta_not_there_xyz", "alpha_not_there_xyz"])).unwrap();
    assert!(r.installed().is_empty());
    assert_eq!(r.missing().names(), &owned(&["alpha_not_there_xyz", "zeta_not_there_xyz"]));
}

#[test]
fn a_malformed_name_is_missing_and_not_fatal() {
    let r = resolve(&owned(&["", ".relative", "a..b", "json", "not a name"])).unwrap();
    assert_eq!(r.installed().names(), &owned(&["json"]));
    assert_eq!(r.missing().names(), &owned(&["", ".relative", "a..b", "not a name"]));
}

#[test]
fn resolving_twice_gives_the_same_report() {
    let names = owned(&["sys", "json", "nothing_of_that_name_xyz", "os"]);
    let first = resolve(&names).unwrap();
    let second = resolve(&names).unwrap();
    assert_eq!(first.render(), second.render());
    assert_eq!(first.installed().names(), &owned(&["json", "os", "sys"]));
    let version_before = get_runtime_version().unwrap();
    let _ = resolve(&names).unwrap();
    assert_eq!(version_before, get_runtime_version().unwrap());
}

#[test]
fn failures_have_messages() {
    assert_eq!(ResolveError::InvalidInput.message(), "no package name was given");
    let error = ResolveError::RuntimeQuery { message: "ImportError: no importlib".to_string() };
    assert_eq!(error.message(), "ImportError: no importlib");
}

#[test]
fn the_version_is_handed_on_untouched() {
    let answer = Ok("3.11.7 (main, Dec  8 2023) \n[GCC 11.4.0]".to_string());
    match version_outcome(answer) {
        Ok(version) => assert_eq!(version, "3.11.7 (main, Dec  8 2023) \n[GCC 11.4.0]"),
        Err(error) => panic!("unexpected: {:?}", error),
    }
    assert!(matches!(version_outcome(Ok(String::new())), Ok(v) if v.is_empty()));
}

#[test]
fn an_exception_on_the_version_is_a_failed_query() {
    let raised = pyo3::exceptions::PyValueError::new_err("no version today");
    match version_outcome(Err(raised)) {
        Err(ResolveError::RuntimeQuery { message }) => {
            assert!(message.contains("no version today"))
        }
        other => panic!("unexpected: {:?}", other),
    }
}
