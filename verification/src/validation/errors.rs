//! Validation error types.

use vstd::prelude::*;

use crate::text::string_clone;

verus! {

/// Validation errors that can occur during validation.
#[derive(Debug)]
pub enum ValidationError {
    SecurityViolation(String),
    ParameterBounds(String),
    InvalidState(String),
    ContentValidation(String),
    SchemaValidation(String),
    Multiple(Vec<ValidationError>),
}

/// Result of a validation step.
pub type ValidationResult<T = ()> = Result<T, ValidationError>;

/// Two errors are the same: the same variant with the same text, or lists of
/// the same errors in the same order.
pub open spec fn same_error(a: ValidationError, b: ValidationError) -> bool
    decreases a, 0nat,
{
    match a {
        ValidationError::SecurityViolation(x) => b matches ValidationError::SecurityViolation(y) && x@ == y@,
        ValidationError::ParameterBounds(x) => b matches ValidationError::ParameterBounds(y) && x@ == y@,
        ValidationError::InvalidState(x) => b matches ValidationError::InvalidState(y) && x@ == y@,
        ValidationError::ContentValidation(x) => b matches ValidationError::ContentValidation(y) && x@ == y@,
        ValidationError::SchemaValidation(x) => b matches ValidationError::SchemaValidation(y) && x@ == y@,
        ValidationError::Multiple(xs) => match b {
            ValidationError::Multiple(ys) => xs@.len() == ys@.len() && same_prefix(xs@, ys@, xs@.len() as int),
            _ => false,
        },
    }
}

/// The first `n` errors of `xs` and `ys` are pairwise the same.
pub open spec fn same_prefix(xs: Seq<ValidationError>, ys: Seq<ValidationError>, n: int) -> bool
    decreases xs, n,
{
    if n <= 0 {
        true
    } else if n > xs.len() || n > ys.len() {
        false
    } else {
        same_error(xs[n - 1], ys[n - 1]) && same_prefix(xs, ys, n - 1)
    }
}

impl ValidationError {
    /// Whether `self` and `other` are the same error.
    #[verifier::loop_isolation(false)]
    pub fn same_as(&self, other: &ValidationError) -> (r: bool)
        ensures
            r == same_error(*self, *other),
        decreases self,
    {
        match (self, other) {
            (ValidationError::SecurityViolation(x), ValidationError::SecurityViolation(y)) => crate::json::str_eq(x.as_str(), y.as_str()),
            (ValidationError::ParameterBounds(x), ValidationError::ParameterBounds(y)) => crate::json::str_eq(x.as_str(), y.as_str()),
            (ValidationError::InvalidState(x), ValidationError::InvalidState(y)) => crate::json::str_eq(x.as_str(), y.as_str()),
            (ValidationError::ContentValidation(x), ValidationError::ContentValidation(y)) => crate::json::str_eq(x.as_str(), y.as_str()),
            (ValidationError::SchemaValidation(x), ValidationError::SchemaValidation(y)) => crate::json::str_eq(x.as_str(), y.as_str()),
            (ValidationError::Multiple(xs), ValidationError::Multiple(ys)) => {
                if xs.len() != ys.len() {
                    return false;
                }
                let n = xs.len();
                let mut i: usize = 0;
                while i < n
                    invariant
                        n == xs@.len(),
                        n == ys@.len(),
                        i <= n,
                        same_prefix(xs@, ys@, i as int),
                    decreases n - i,
                {
                    proof {
                        assert(self->Multiple_0 == *xs);
                        assert(decreases_to!(*self => self->Multiple_0));
                        assert(decreases_to!(*xs => xs@));
                        assert(decreases_to!(xs@ => xs@[i as int]));
                    }
                    if !xs[i].same_as(&ys[i]) {
                        proof { lemma_same_prefix_fails(xs@, ys@, i as int, n as int); }
                        return false;
                    }
                    i = i + 1;
                }
                true
            },
            _ => false,
        }
    }

    /// A copy of this error.
    #[verifier::loop_isolation(false)]
    pub fn duplicate(&self) -> (r: ValidationError)
        ensures
            same_error(*self, r),
        decreases self,
    {
        match self {
            ValidationError::SecurityViolation(x) => ValidationError::SecurityViolation(string_clone(x)),
            ValidationError::ParameterBounds(x) => ValidationError::ParameterBounds(string_clone(x)),
            ValidationError::InvalidState(x) => ValidationError::InvalidState(string_clone(x)),
            ValidationError::ContentValidation(x) => ValidationError::ContentValidation(string_clone(x)),
            ValidationError::SchemaValidation(x) => ValidationError::SchemaValidation(string_clone(x)),
            ValidationError::Multiple(xs) => {
                let n = xs.len();
                let mut out: Vec<ValidationError> = Vec::new();
                let mut i: usize = 0;
                while i < n
                    invariant
                        n == xs@.len(),
                        i <= n,
                        out@.len() == i,
                        same_prefix(xs@, out@, i as int),
                    decreases n - i,
                {
                    proof {
                        assert(self->Multiple_0 == *xs);
                        assert(decreases_to!(*self => self->Multiple_0));
                        assert(decreases_to!(*xs => xs@));
                        assert(decreases_to!(xs@ => xs@[i as int]));
                    }
                    let e = xs[i].duplicate();
                    let ghost before = out@;
                    out.push(e);
                    proof { lemma_same_prefix_push(xs@, before, e, i as int); }
                    i = i + 1;
                }
                ValidationError::Multiple(out)
            },
        }
    }
}

proof fn lemma_same_prefix_fails(xs: Seq<ValidationError>, ys: Seq<ValidationError>, i: int, n: int)
    requires
        0 <= i < n,
        n == xs.len(),
        n == ys.len(),
        !same_error(xs[i], ys[i]),
    ensures
        !same_prefix(xs, ys, n),
{
    lemma_same_prefix_fails_at(xs, ys, i, n);
}

proof fn lemma_same_prefix_fails_at(xs: Seq<ValidationError>, ys: Seq<ValidationError>, i: int, m: int)
    requires
        0 <= i < m <= xs.len(),
        m <= ys.len(),
        !same_error(xs[i], ys[i]),
    ensures
        !same_prefix(xs, ys, m),
    decreases m - i,
{
    if m - 1 > i {
        lemma_same_prefix_fails_at(xs, ys, i, m - 1);
    }
}

proof fn lemma_same_prefix_push(xs: Seq<ValidationError>, out: Seq<ValidationError>, e: ValidationError, i: int)
    requires
        0 <= i < xs.len(),
        out.len() == i,
        same_prefix(xs, out, i),
        same_error(xs[i], e),
    ensures
        same_prefix(xs, out.push(e), i + 1),
    decreases i,
{
    lemma_same_prefix_extend(xs, out, e, i);
}

proof fn lemma_same_prefix_extend(xs: Seq<ValidationError>, out: Seq<ValidationError>, e: ValidationError, m: int)
    requires
        0 <= m <= out.len(),
        out.len() < xs.len(),
        same_prefix(xs, out, m),
    ensures
        same_prefix(xs, out.push(e), m),
    decreases m,
{
    if m > 0 {
        lemma_same_prefix_extend(xs, out, e, m - 1);
        assert(out.push(e)[m - 1] == out[m - 1]);
    }
}

impl Clone for ValidationError {
    fn clone(&self) -> (r: Self)
        ensures
            same_error(*self, r),
    {
        self.duplicate()
    }
}

impl PartialEq for ValidationError {
    fn eq(&self, other: &Self) -> (r: bool) {
        self.same_as(other)
    }
}

impl vstd::std_specs::cmp::PartialEqSpecImpl for ValidationError {
    open spec fn obeys_eq_spec() -> bool {
        true
    }

    open spec fn eq_spec(&self, other: &Self) -> bool {
        same_error(*self, *other)
    }
}

impl Eq for ValidationError {
}

/// The text shown for an error.
pub open spec fn error_message(e: ValidationError) -> Seq<char>
    decreases e, 0nat,
{
    match e {
        ValidationError::SecurityViolation(x) => "Security violation: "@ + x@,
        ValidationError::ParameterBounds(x) => "Parameter out of bounds: "@ + x@,
        ValidationError::InvalidState(x) => "Invalid state: "@ + x@,
        ValidationError::ContentValidation(x) => "Content validation failed: "@ + x@,
        ValidationError::SchemaValidation(x) => "Schema validation failed: "@ + x@,
        ValidationError::Multiple(xs) => "Multiple validation errors: "@ + joined_messages(xs@, xs@.len() as int),
    }
}

/// The texts of the first `n` errors, separated by "; ".
pub open spec fn joined_messages(xs: Seq<ValidationError>, n: int) -> Seq<char>
    decreases xs, n,
{
    if n <= 0 || n > xs.len() {
        Seq::empty()
    } else if n == 1 {
        error_message(xs[0])
    } else {
        joined_messages(xs, n - 1) + "; "@ + error_message(xs[n - 1])
    }
}

impl ValidationError {
    /// A security violation with the given detail.
    pub fn security_violation(msg: &str) -> (e: Self)
        ensures
            e matches ValidationError::SecurityViolation(m) && m@ == msg@,
    {
        ValidationError::SecurityViolation(msg.to_string())
    }

    /// A parameter outside its bounds, with the given detail.
    pub fn parameter_bounds(msg: &str) -> (e: Self)
        ensures
            e matches ValidationError::ParameterBounds(m) && m@ == msg@,
    {
        ValidationError::ParameterBounds(msg.to_string())
    }

    /// An invalid state, with the given detail.
    pub fn invalid_state(msg: &str) -> (e: Self)
        ensures
            e matches ValidationError::InvalidState(m) && m@ == msg@,
    {
        ValidationError::InvalidState(msg.to_string())
    }

    /// Content that failed validation, with the given detail.
    pub fn content_validation(msg: &str) -> (e: Self)
        ensures
            e matches ValidationError::ContentValidation(m) && m@ == msg@,
    {
        ValidationError::ContentValidation(msg.to_string())
    }

    /// A schema mismatch, with the given detail.
    pub fn schema_validation(msg: &str) -> (e: Self)
        ensures
            e matches ValidationError::SchemaValidation(m) && m@ == msg@,
    {
        ValidationError::SchemaValidation(msg.to_string())
    }

    /// Combine errors: a single error stands alone, any other number is wrapped.
    pub fn multiple(errors: Vec<ValidationError>) -> (e: Self)
        ensures
            errors@.len() == 1 ==> e == errors@[0],
            errors@.len() != 1 ==> e == ValidationError::Multiple(errors),
    {
        let mut errors = errors;
        if errors.len() == 1 {
            let ghost before = errors@;
            let e = errors.pop().unwrap();
            assert(e == before[0]);
            e
        } else {
            ValidationError::Multiple(errors)
        }
    }

    /// The text shown for this error.
    #[verifier::loop_isolation(false)]
    pub fn message(&self) -> (m: String)
        ensures
            m@ == error_message(*self),
        decreases self,
    {
        let (prefix, detail) = match self {
            ValidationError::SecurityViolation(x) => ("Security violation: ", x),
            ValidationError::ParameterBounds(x) => ("Parameter out of bounds: ", x),
            ValidationError::InvalidState(x) => ("Invalid state: ", x),
            ValidationError::ContentValidation(x) => ("Content validation failed: ", x),
            ValidationError::SchemaValidation(x) => ("Schema validation failed: ", x),
            ValidationError::Multiple(xs) => {
                let mut out = String::new();
                out.append("Multiple validation errors: ");
                let n = xs.len();
                let mut i: usize = 0;
                while i < n
                    invariant
                        n == xs@.len(),
                        i <= n,
                        out@ == "Multiple validation errors: "@ + joined_messages(xs@, i as int),
                    decreases n - i,
                {
                    proof {
                        assert(self->Multiple_0 == *xs);
                        assert(decreases_to!(*self => self->Multiple_0));
                        assert(decreases_to!(*xs => xs@));
                        assert(decreases_to!(xs@ => xs@[i as int]));
                    }
                    let part = xs[i].message();
                    if i > 0 {
                        out.append("; ");
                    }
                    out.append(part.as_str());
                    proof {
                        if i == 0 {
                            assert(joined_messages(xs@, 0) == Seq::<char>::empty());
                        }
                    }
                    i = i + 1;
                }
                return out;
            },
        };
        let mut out = String::new();
        out.append(prefix);
        out.append(detail.as_str());
        out
    }
}

} // verus!
