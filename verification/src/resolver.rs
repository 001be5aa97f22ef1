//! Asking the interpreter: for its version, and for each of a list of names
//! whether a module of that name can be imported.

use crate::host;
use crate::names::{strictly_ascending, NameSet};
use crate::report::{disjoint, lemma_partition_covers, ReportView, ResolutionReport};
use vstd::prelude::*;
use vstd::string::*;

verus! {

/// Why no answer could be given.
#[derive(Debug)]
pub enum ResolveError {
    /// No name was given.
    InvalidInput,
    /// The interpreter could not be asked at all; `message` is its own
    /// account. That a single name cannot be imported is no such failure.
    RuntimeQuery { message: String },
}

/// What is said of a failure: that no name was given, or the interpreter's
/// own account.
pub open spec fn failure_text(error: ResolveError) -> Seq<char> {
    match error {
        ResolveError::InvalidInput => "no package name was given"@,
        ResolveError::RuntimeQuery { message } => message@,
    }
}

impl ResolveError {
    /// What went wrong, in words.
    pub fn message(&self) -> (r: String)
        ensures
            r@ == failure_text(*self),
    {
        match self {
            ResolveError::InvalidInput => String::from_str("no package name was given"),
            ResolveError::RuntimeQuery { message } => message.clone(),
        }
    }
}

/// What the report calls the interpreter's version.
pub open spec fn version_label() -> Seq<char> {
    "Python version: "@
}

/// The line that reports `version`: the label, then the version as it was
/// given.
pub fn version_line(version: &str) -> (r: String)
    ensures
        r@ == version_label() + version@,
{
    let mut line = String::from_str("Python version: ");
    line.append(version);
    line
}

/// The version that the interpreter reports of itself, untouched. The only
/// failure is that the interpreter could not be asked.
pub fn get_runtime_version() -> (r: Result<String, ResolveError>)
    ensures
        r matches Err(e) ==> e is RuntimeQuery,
{
    let version = match host::get_attribute("sys", "version") {
        Ok(version) => version,
        Err(error) => {
            return Err(ResolveError::RuntimeQuery { message: host::error_text(&error) });
        },
    };
    version_outcome(host::extract_text(&version))
}

/// What is made of the interpreter's answer to the question for its version:
/// the string is handed on as it came, neither read nor changed, and an
/// exception becomes a failure of the query.
pub fn version_outcome(answer: Result<String, pyo3::PyErr>) -> (r: Result<String, ResolveError>)
    ensures
        answer matches Ok(text) ==> (r matches Ok(version) && version == text),
        answer is Err ==> (r matches Err(e) && e is RuntimeQuery),
{
    match answer {
        Ok(text) => Ok(text),
        Err(error) => Err(ResolveError::RuntimeQuery { message: host::error_text(&error) }),
    }
}

/// What the interpreter's answer on one name means: the name can be imported
/// if the search came back with something, and cannot if it came back empty
/// or raised an exception.
pub open spec fn found(came_back_empty: Result<bool, pyo3::PyErr>) -> bool {
    came_back_empty matches Ok(empty) && !empty
}

/// Reads the interpreter's answer on one name; a name on which the search
/// fails counts as one that cannot be imported.
fn read_answer(came_back_empty: Result<bool, pyo3::PyErr>) -> (r: bool)
    ensures
        r == found(came_back_empty),
{
    match came_back_empty {
        Ok(empty) => !empty,
        Err(_) => false,
    }
}

/// The report holds exactly the names of `names`: each of them on one side,
/// none on both, each side in strictly ascending order.
pub open spec fn covers(v: ReportView, names: Seq<Seq<char>>) -> bool {
    &&& strictly_ascending(v.installed)
    &&& strictly_ascending(v.missing)
    &&& disjoint(v)
    &&& v.installed.to_set().union(v.missing.to_set()) == names.to_set()
}

/// Asks the interpreter about each distinct name of `names`, once, and
/// reports which can be imported. An empty list is refused. The only other
/// failure is that the search itself cannot be had; whatever the interpreter
/// answers on the names, the report covers them.
pub fn resolve(names: &Vec<String>) -> (r: Result<ResolutionReport, ResolveError>)
    ensures
        names@.len() == 0 <==> r matches Err(ResolveError::InvalidInput),
        r matches Ok(report) ==> covers(report@, names.deep_view()),
{
    if names.len() == 0 {
        return Err(ResolveError::InvalidInput);
    }
    let distinct = NameSet::from_names(names);
    let finder = match host::get_attribute("importlib.util", "find_spec") {
        Ok(finder) => finder,
        Err(error) => {
            return Err(ResolveError::RuntimeQuery { message: host::error_text(&error) });
        },
    };
    let asked = distinct.names();
    let mut present = NameSet::new();
    let mut i: usize = 0;
    while i < asked.len()
        invariant
            i <= asked.len(),
        decreases asked.len() - i,
    {
        if read_answer(host::call_is_none(&finder, asked[i].as_str())) {
            present.insert(asked[i].clone());
        }
        i += 1;
    }
    let report = ResolutionReport::partition(&distinct, &present);
    proof {
        lemma_partition_covers(distinct@, present@.to_set());
    }
    Ok(report)
}

} // verus!
