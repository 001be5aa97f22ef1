use pyq::names::NameSet;
use pyq::report::ResolutionReport;

fn owned(words: &[&str]) -> Vec<String> {
    words.iter().map(|w| w.to_string()).collect()
}

fn report(asked: &[&str], present: &[&str]) -> ResolutionReport {
    ResolutionReport::partition(
        &NameSet::from_names(&owned(asked)),
        &NameSet::from_names(&owned(present)),
    )
}

#[test]
fn partition_puts_each_name_on_one_side() {
    let r = report(&["d", "a", "c", "b"], &["c", "a", "x"]);
    assert_eq!(r.installed().names(), &owned(&["a", "c"]));
    assert_eq!(r.missing().names(), &owned(&["b", "d"]));
}

#[test]
fn sides_are_disjoint_and_cover_the_distinct_names() {
    let asked = ["q", "b", "q", "a", "z", "b"];
    let r = report(&asked, &["b", "z"]);
    let mut all: Vec<String> = r.installed().names().clone();
    for name in r.missing().names() {
        assert!(!r.installed().contains(name));
        all.push(name.clone());
    }
    all.sort();
    assert_eq!(all, owned(&["a", "b", "q", "z"]));
}

#[test]
fn missing_names_are_listed_in_order() {
    let r = report(&["zeta", "alpha"], &[]);
    assert_eq!(r.lines(), owned(&["Missing packages:", "  [missing] alpha", "  [missing] zeta"]));
}

#[test]
fn a_name_given_three_times_is_listed_once() {
    let r = report(&["os", "os", "os"], &["os"]);
    assert_eq!(r.lines(), owned(&["Installed packages:", "  [ok] os"]));
}

#[test]
fn no_missing_header_when_all_names_resolve() {
    let r = report(&["json", "os"], &["os", "json"]);
    let text = r.render();
    assert_eq!(text, "Installed packages:\n  [ok] json\n  [ok] os\n");
    assert!(!text.contains("Missing packages:"));
}

#[test]
fn no_installed_header_when_no_name_resolves() {
    let r = report(&["nope"], &["os"]);
    let text = r.render();
    assert_eq!(text, "Missing packages:\n  [missing] nope\n");
    assert!(!text.contains("Installed packages:"));
}

#[test]
fn one_blank_line_between_the_blocks() {
    let r = report(&["good", "bad"], &["good"]);
    let lines = r.lines();
    assert_eq!(
        lines,
        owned(&["Installed packages:", "  [ok] good", "", "Missing packages:", "  [missing] bad"])
    );
    assert_eq!(lines.iter().filter(|l| l.is_empty()).count(), 1);
}

#[test]
fn json_found_and_the_other_missing() {
    let r = report(&["json", "definitely_not_a_real_package_xyz"], &["json"]);
    assert_eq!(
        r.render(),
        "Installed packages:\n  [ok] json\n\nMissing packages:\n  [missing] definitely_not_a_real_package_xyz\n"
    );
}

#[test]
fn a_report_without_names_prints_nothing() {
    let r = report(&[], &["os"]);
    assert!(r.lines().is_empty());
    assert_eq!(r.render(), "");
}

#[test]
fn the_report_does_not_depend_on_the_order_asked() {
    let a = report(&["c", "a", "b"], &["b"]);
    let b = report(&["b", "b", "a", "c", "a"], &["b", "b"]);
    assert_eq!(a.render(), b.render());
    assert_eq!(a.installed().names(), b.installed().names());
    assert_eq!(a.missing().names(), b.missing().names());
}
