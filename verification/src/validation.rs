//! Validation pipeline results.
//!
//! Every registered validator inspects a freshly loaded configuration and
//! reports a [`ValidationResult`]. The results of one reload are collected
//! into [`ValidationResults`]; merging is concatenation, and the whole pass
//! commits only when no collected result carries [`Severity::Error`].
//! Builder failures are not collected here: the reconciler reports them
//! separately, scoped to their one resource request, and they never block
//! the commit.
//!
//! The results themselves carry no deferred effects: what a successful pass
//! must apply — the new snapshot, the staged commit of every resource group
//! and the configuration hooks — is staged by the engine and applied there
//! exactly when the collected results are committable.

use vstd::prelude::*;

use crate::model::{Listen, ListenModel};

verus! {

/// How severe one validation result is.
///
/// A `Warning` lets the reload proceed; an `Error` aborts it entirely.
#[derive(Clone, Copy, Debug, PartialEq, Eq, Structural)]
pub enum Severity {
    /// The validator passed without remark.
    Okay,
    /// The validator passed, but wants the message logged.
    Warning,
    /// The validator refused the new configuration.
    Error,
}

/// The mathematical content of one [`ValidationResult`].
#[verifier::ext_equal]
pub ghost struct ResultModel {
    pub severity: Severity,
    pub message: Seq<char>,
    pub subject: Option<ListenModel>,
}

/// What one validator reported: a severity, a message for the log, and —
/// when the result concerns one resource request — that request's identity.
#[derive(Clone, Debug)]
pub struct ValidationResult {
    pub severity: Severity,
    pub message: String,
    pub subject: Option<Listen>,
}

impl View for ValidationResult {
    type V = ResultModel;

    open spec fn view(&self) -> ResultModel {
        ResultModel {
            severity: self.severity,
            message: self.message@,
            subject: match self.subject {
                None => None,
                Some(ref s) => Some(s@),
            },
        }
    }
}

impl ValidationResult {
    /// A silent pass.
    pub fn okay() -> (r: Self)
        ensures
            r@.severity == Severity::Okay,
            r@.message == Seq::<char>::empty(),
            r@.subject is None,
    {
        ValidationResult { severity: Severity::Okay, message: String::new(), subject: None }
    }

    /// A warning carrying `message`; the reload still proceeds.
    pub fn warning(message: String) -> (r: Self)
        ensures
            r@ == (ResultModel { severity: Severity::Warning, message: message@, subject: None }),
    {
        ValidationResult { severity: Severity::Warning, message, subject: None }
    }

    /// A warning about one resource request, carrying its identity.
    pub fn warning_about(subject: Listen, message: String) -> (r: Self)
        ensures
            r@ == (ResultModel {
                severity: Severity::Warning,
                message: message@,
                subject: Some(subject@),
            }),
    {
        ValidationResult { severity: Severity::Warning, message, subject: Some(subject) }
    }

    /// An error carrying `message`; the reload is aborted.
    pub fn error(message: String) -> (r: Self)
        ensures
            r@ == (ResultModel { severity: Severity::Error, message: message@, subject: None }),
    {
        ValidationResult { severity: Severity::Error, message, subject: None }
    }
}

/// Whether a collected sequence of results contains an error.
///
/// A validation pass commits exactly when this is false.
pub open spec fn has_error(rs: Seq<ResultModel>) -> bool {
    exists|i: int| 0 <= i < rs.len() && rs[i].severity == Severity::Error
}

/// The ordered collection of every result of one validation pass.
#[derive(Debug)]
pub struct ValidationResults {
    pub results: Vec<ValidationResult>,
}

impl View for ValidationResults {
    type V = Seq<ResultModel>;

    open spec fn view(&self) -> Seq<ResultModel> {
        self.results@.map_values(|r: ValidationResult| r@)
    }
}

impl ValidationResults {
    /// An empty collection: nothing reported yet.
    pub fn new() -> (r: Self)
        ensures
            r@ == Seq::<ResultModel>::empty(),
    {
        let r = ValidationResults { results: Vec::new() };
        proof {
            assert(r@ =~= Seq::<ResultModel>::empty());
        }
        r
    }

    /// A collection holding exactly one result.
    pub fn single(result: ValidationResult) -> (r: Self)
        ensures
            r@ =~= seq![result@],
    {
        let mut results = Vec::new();
        results.push(result);
        let r = ValidationResults { results };
        proof {
            assert(r@ =~= seq![result@]);
        }
        r
    }

    /// Appends one more result to the collection.
    pub fn push(&mut self, result: ValidationResult)
        ensures
            final(self)@ =~= old(self)@.push(result@),
    {
        self.results.push(result);
        proof {
            assert(self@ =~= old(self)@.push(result@));
        }
    }

    /// Merges another collection into this one; merging is concatenation,
    /// keeping the order in which results were collected.
    pub fn merge(&mut self, other: ValidationResults)
        ensures
            final(self)@ =~= old(self)@ + other@,
    {
        let mut tail = other.results;
        self.results.append(&mut tail);
        proof {
            assert(self@ =~= old(self)@ + other@);
        }
    }

    /// How many results were collected.
    pub fn len(&self) -> (n: usize)
        ensures
            n == self@.len(),
    {
        self.results.len()
    }

    /// Whether the pass these results came from may commit: true exactly
    /// when no collected result is an error.
    pub fn committable(&self) -> (r: bool)
        ensures
            r == !has_error(self@),
    {
        let mut i: usize = 0;
        while i < self.results.len()
            invariant
                0 <= i <= self.results.len(),
                forall|j: int| 0 <= j < i ==> self@[j].severity != Severity::Error,
            decreases self.results.len() - i,
        {
            if self.results[i].severity == Severity::Error {
                proof {
                    assert(self@[i as int].severity == Severity::Error);
                }
                return false;
            }
            i += 1;
        }
        true
    }
}

} // verus!
