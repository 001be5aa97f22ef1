//! The interpreter at the other side of `pyo3`: what is asked of it, and how.
//!
//! Nothing in this file is proved. What an interpreter answers depends on the
//! machine it runs on, so the functions here promise nothing of their results:
//! their callers are verified for every answer. The crate is built with
//! `pyo3`'s `auto-initialize`, so that `Python::with_gil` starts an
//! interpreter where none runs yet.

use pyo3::types::PyAnyMethods;
use vstd::prelude::*;

verus! {

/// `pyo3::PyErr`, an exception raised on the Python side.
#[verifier::external_type_specification]
#[verifier::external_body]
pub struct ExPyErr(pyo3::PyErr);

/// `pyo3::Py<T>`, a handle to a Python object that outlives the lock under
/// which it was made.
#[verifier::external_type_specification]
#[verifier::external_body]
#[verifier::reject_recursive_types(T)]
pub struct ExPy<T>(pyo3::Py<T>);

/// `pyo3::PyAny`, the type of any Python object.
#[verifier::external_type_specification]
#[verifier::external_body]
pub struct ExPyAny(pyo3::PyAny);

/// Imports `module` with `Python::import` and reads its attribute `name`
/// with `Bound::getattr`, under `Python::with_gil`. Nothing is claimed of
/// the outcome.
#[verifier::external_body]
pub(crate) fn get_attribute(module: &str, name: &str) -> (r: Result<
    pyo3::Py<pyo3::PyAny>,
    pyo3::PyErr,
>) {
    pyo3::Python::with_gil(|py| Ok(py.import(module)?.getattr(name)?.unbind()))
}

/// Calls `callable` with the one argument `argument`, by `Bound::call1` under
/// `Python::with_gil`, and tells with `Bound::is_none` whether Python's `None`
/// came back. Nothing is claimed of the outcome.
#[verifier::external_body]
pub(crate) fn call_is_none(callable: &pyo3::Py<pyo3::PyAny>, argument: &str) -> (r: Result<
    bool,
    pyo3::PyErr,
>) {
    pyo3::Python::with_gil(|py| Ok(callable.bind(py).call1((argument,))?.is_none()))
}

/// Reads `object` as a string with `Bound::extract`, under
/// `Python::with_gil`. Nothing is claimed of the outcome.
#[verifier::external_body]
pub(crate) fn extract_text(object: &pyo3::Py<pyo3::PyAny>) -> (r: Result<String, pyo3::PyErr>) {
    pyo3::Python::with_gil(|py| object.bind(py).extract())
}

/// The text of a Python exception, as `PyErr`'s `Display` writes it. Nothing
/// is claimed of it.
#[verifier::external_body]
pub(crate) fn error_text(error: &pyo3::PyErr) -> (r: String) {
    error.to_string()
}

} // verus!
