//! The errors of parsing and evaluation.
use vstd::prelude::*;
use crate::text::{lit, nat_text, push_all, u64_text};

verus! {

/// Why a variable access failed.
#[derive(Debug, PartialEq, Eq)]
pub enum VarAccessError {
    EmptyAccess,
    VariableNotFound { variable: String },
    ObjectKeyError { object: String, key: String },
    TypeError { message: String },
    IndexOutOfBounds { message: String },
    ConversionError { message: String },
}

/// A function call that failed, with the reason its callback gave.
#[derive(Debug, PartialEq, Eq)]
pub struct FnCallError {
    pub fn_name: String,
    pub reason: Box<EvalError>,
}

/// Why an evaluation failed.
#[derive(Debug, PartialEq, Eq)]
pub enum EvalError {
    VarAccess(VarAccessError),
    FnCallError(FnCallError),
    FunctionNotFound { fn_name: String },
    TypeError { message: String },
    ValueError { message: String },
    RegexError { message: String },
    ArgumentCount { expected: usize, got: usize },
    CallSyncinAsync,
}

/// What the parser did not accept: the unparsed rest of the input and the
/// kind of the failing step.
#[derive(Debug, PartialEq, Eq)]
pub struct ParseError {
    pub input: String,
    pub code: ErrorKind,
}

/// The kind of the parsing step that failed.
#[derive(Debug, Clone, Copy, PartialEq, Eq)]
pub enum ErrorKind {
    /// An expected keyword or operator was missing.
    Tag,
    /// An expected character was missing.
    Char,
    /// A digit was expected, or a variable name started with one.
    Digit,
    /// A recognized text did not convert: a number out of range, an empty
    /// or reserved name.
    MapRes,
    /// `==` or `!=` was chained.
    Count,
    /// Text was left after the expression.
    Eof,
}

/// Either error of the library.
#[derive(Debug, PartialEq, Eq)]
pub enum Error {
    Eval(EvalError),
    Parse(ParseError),
}

/// The model of a [`VarAccessError`].
pub enum SVarAccessError {
    EmptyAccess,
    VariableNotFound(Seq<char>),
    ObjectKeyError(Seq<char>, Seq<char>),
    TypeError(Seq<char>),
    IndexOutOfBounds(Seq<char>),
    ConversionError(Seq<char>),
}

/// The model of an [`EvalError`].
pub enum SEvalError {
    VarAccess(SVarAccessError),
    FnCall(Seq<char>, Box<SEvalError>),
    FunctionNotFound(Seq<char>),
    TypeError(Seq<char>),
    ValueError(Seq<char>),
    RegexError(Seq<char>),
    ArgumentCount(usize, usize),
    CallSyncinAsync,
}

impl View for VarAccessError {
    type V = SVarAccessError;

    open spec fn view(&self) -> SVarAccessError {
        match self {
            VarAccessError::EmptyAccess => SVarAccessError::EmptyAccess,
            VarAccessError::VariableNotFound { variable } => SVarAccessError::VariableNotFound(variable@),
            VarAccessError::ObjectKeyError { object, key } => SVarAccessError::ObjectKeyError(object@, key@),
            VarAccessError::TypeError { message } => SVarAccessError::TypeError(message@),
            VarAccessError::IndexOutOfBounds { message } => SVarAccessError::IndexOutOfBounds(message@),
            VarAccessError::ConversionError { message } => SVarAccessError::ConversionError(message@),
        }
    }
}

impl EvalError {
    /// The model of the error.
    pub open spec fn model(self) -> SEvalError
        decreases self,
    {
        match self {
            EvalError::VarAccess(e) => SEvalError::VarAccess(e@),
            EvalError::FnCallError(f) => SEvalError::FnCall(f.fn_name@, Box::new((*f.reason).model())),
            EvalError::FunctionNotFound { fn_name } => SEvalError::FunctionNotFound(fn_name@),
            EvalError::TypeError { message } => SEvalError::TypeError(message@),
            EvalError::ValueError { message } => SEvalError::ValueError(message@),
            EvalError::RegexError { message } => SEvalError::RegexError(message@),
            EvalError::ArgumentCount { expected, got } => SEvalError::ArgumentCount(expected, got),
            EvalError::CallSyncinAsync => SEvalError::CallSyncinAsync,
        }
    }
}

impl View for EvalError {
    type V = SEvalError;

    open spec fn view(&self) -> SEvalError {
        self.model()
    }
}

impl VarAccessError {
    /// A copy of the error.
    pub fn copy(&self) -> (r: VarAccessError)
        ensures
            r@ == self@,
    {
        match self {
            VarAccessError::EmptyAccess => VarAccessError::EmptyAccess,
            VarAccessError::VariableNotFound { variable } => VarAccessError::VariableNotFound { variable: variable.clone() },
            VarAccessError::ObjectKeyError { object, key } => VarAccessError::ObjectKeyError { object: object.clone(), key: key.clone() },
            VarAccessError::TypeError { message } => VarAccessError::TypeError { message: message.clone() },
            VarAccessError::IndexOutOfBounds { message } => VarAccessError::IndexOutOfBounds { message: message.clone() },
            VarAccessError::ConversionError { message } => VarAccessError::ConversionError { message: message.clone() },
        }
    }
}

impl EvalError {
    /// A copy of the error.
    pub fn copy(&self) -> (r: EvalError)
        ensures
            r@ == self@,
        decreases self,
    {
        match self {
            EvalError::VarAccess(e) => EvalError::VarAccess(e.copy()),
            EvalError::FnCallError(f) => {
                let inner = f.reason.copy();
                EvalError::FnCallError(FnCallError { fn_name: f.fn_name.clone(), reason: Box::new(inner) })
            },
            EvalError::FunctionNotFound { fn_name } => EvalError::FunctionNotFound { fn_name: fn_name.clone() },
            EvalError::TypeError { message } => EvalError::TypeError { message: message.clone() },
            EvalError::ValueError { message } => EvalError::ValueError { message: message.clone() },
            EvalError::RegexError { message } => EvalError::RegexError { message: message.clone() },
            EvalError::ArgumentCount { expected, got } => EvalError::ArgumentCount { expected: *expected, got: *got },
            EvalError::CallSyncinAsync => EvalError::CallSyncinAsync,
        }
    }
}

impl Error {
    /// An evaluation error as an [`Error`].
    pub fn from_eval(e: EvalError) -> (r: Error)
        ensures
            r == Error::Eval(e),
    {
        Error::Eval(e)
    }

    /// A parse error as an [`Error`].
    pub fn from_parse(e: ParseError) -> (r: Error)
        ensures
            r == Error::Parse(e),
    {
        Error::Parse(e)
    }
}

impl EvalError {
    /// A variable access error as an [`EvalError`].
    pub fn from_var_access(e: VarAccessError) -> (r: EvalError)
        ensures
            r == EvalError::VarAccess(e),
    {
        EvalError::VarAccess(e)
    }

    /// A failed call as an [`EvalError`].
    pub fn from_fn_call(e: FnCallError) -> (r: EvalError)
        ensures
            r == EvalError::FnCallError(e),
    {
        EvalError::FnCallError(e)
    }
}

/// The name of a parse error's kind, as its `Debug` writes it.
pub open spec fn kind_text(k: ErrorKind) -> Seq<char> {
    match k {
        ErrorKind::Tag => "Tag"@,
        ErrorKind::Char => "Char"@,
        ErrorKind::Digit => "Digit"@,
        ErrorKind::MapRes => "MapRes"@,
        ErrorKind::Count => "Count"@,
        ErrorKind::Eof => "Eof"@,
    }
}

/// The text of a variable access error.
pub open spec fn var_access_text(e: SVarAccessError) -> Seq<char> {
    match e {
        SVarAccessError::EmptyAccess => "Variable access is empty"@,
        SVarAccessError::VariableNotFound(v) => "Variable not found: "@ + v,
        SVarAccessError::ObjectKeyError(o, k) => "Object '"@ + o + "' does not contain key '"@ + k + "'"@,
        SVarAccessError::TypeError(m) => "Type error: "@ + m,
        SVarAccessError::IndexOutOfBounds(m) => "Index out of bounds: "@ + m,
        SVarAccessError::ConversionError(m) => "Conversion error: "@ + m,
    }
}

/// The text of an evaluation error; a failed call names the function and
/// then gives its reason's text.
pub open spec fn eval_error_text(e: SEvalError) -> Seq<char>
    decreases e,
{
    match e {
        SEvalError::VarAccess(v) => var_access_text(v),
        SEvalError::FnCall(name, reason) => "Error calling function '"@ + name + "': "@ + eval_error_text(*reason),
        SEvalError::FunctionNotFound(n) => "Undefined function: "@ + n,
        SEvalError::TypeError(m) => "Type Error: "@ + m,
        SEvalError::ValueError(m) => "Value Error: "@ + m,
        SEvalError::RegexError(m) => "Regex Error: "@ + m,
        SEvalError::ArgumentCount(x, y) => "Argument Error: Expected "@ + nat_text(x as nat) + " arguments, but got "@
            + nat_text(y as nat),
        SEvalError::CallSyncinAsync => "Cannot call an async function in a sync context"@,
    }
}

/// The text of a parse error: the kind of the failing step and the
/// unparsed rest of the input.
pub open spec fn parse_error_text(input: Seq<char>, code: ErrorKind) -> Seq<char> {
    "error "@ + kind_text(code) + " at: "@ + input
}

impl ErrorKind {
    /// The name of the kind.
    pub fn to_string(&self) -> (r: String)
        ensures
            r@ == kind_text(*self),
    {
        match self {
            ErrorKind::Tag => lit("Tag"),
            ErrorKind::Char => lit("Char"),
            ErrorKind::Digit => lit("Digit"),
            ErrorKind::MapRes => lit("MapRes"),
            ErrorKind::Count => lit("Count"),
            ErrorKind::Eof => lit("Eof"),
        }
    }
}

impl VarAccessError {
    /// The text of the error, as its `Display` writes it.
    pub fn to_string(&self) -> (r: String)
        ensures
            r@ == var_access_text(self@),
    {
        match self {
            VarAccessError::EmptyAccess => lit("Variable access is empty"),
            VarAccessError::VariableNotFound { variable } => {
                let mut s = lit("Variable not found: ");
                push_all(&mut s, variable.as_str());
                s
            },
            VarAccessError::ObjectKeyError { object, key } => {
                let mut s = lit("Object '");
                push_all(&mut s, object.as_str());
                push_all(&mut s, "' does not contain key '");
                push_all(&mut s, key.as_str());
                push_all(&mut s, "'");
                s
            },
            VarAccessError::TypeError { message } => {
                let mut s = lit("Type error: ");
                push_all(&mut s, message.as_str());
                s
            },
            VarAccessError::IndexOutOfBounds { message } => {
                let mut s = lit("Index out of bounds: ");
                push_all(&mut s, message.as_str());
                s
            },
            VarAccessError::ConversionError { message } => {
                let mut s = lit("Conversion error: ");
                push_all(&mut s, message.as_str());
                s
            },
        }
    }
}

impl EvalError {
    /// The text of the error, as its `Display` writes it.
    pub fn to_string(&self) -> (r: String)
        ensures
            r@ == eval_error_text(self@),
        decreases self,
    {
        match self {
            EvalError::VarAccess(e) => e.to_string(),
            EvalError::FnCallError(f) => f.to_string(),
            EvalError::FunctionNotFound { fn_name } => {
                let mut s = lit("Undefined function: ");
                push_all(&mut s, fn_name.as_str());
                s
            },
            EvalError::TypeError { message } => {
                let mut s = lit("Type Error: ");
                push_all(&mut s, message.as_str());
                s
            },
            EvalError::ValueError { message } => {
                let mut s = lit("Value Error: ");
                push_all(&mut s, message.as_str());
                s
            },
            EvalError::RegexError { message } => {
                let mut s = lit("Regex Error: ");
                push_all(&mut s, message.as_str());
                s
            },
            EvalError::ArgumentCount { expected, got } => {
                let mut s = lit("Argument Error: Expected ");
                let x = u64_text(*expected as u64);
                push_all(&mut s, x.as_str());
                push_all(&mut s, " arguments, but got ");
                let y = u64_text(*got as u64);
                push_all(&mut s, y.as_str());
                s
            },
            EvalError::CallSyncinAsync => lit("Cannot call an async function in a sync context"),
        }
    }
}

impl FnCallError {
    /// The text of the error: the function's name and its reason's text.
    pub fn to_string(&self) -> (r: String)
        ensures
            r@ == eval_error_text(SEvalError::FnCall(self.fn_name@, Box::new((*self.reason)@))),
        decreases self,
    {
        let mut s = lit("Error calling function '");
        push_all(&mut s, self.fn_name.as_str());
        push_all(&mut s, "': ");
        let reason = self.reason.to_string();
        push_all(&mut s, reason.as_str());
        s
    }
}

impl ParseError {
    /// The text of the error: the kind of the failing step and the
    /// unparsed rest of the input.
    pub fn to_string(&self) -> (r: String)
        ensures
            r@ == parse_error_text(self.input@, self.code),
    {
        let mut s = lit("error ");
        let k = self.code.to_string();
        push_all(&mut s, k.as_str());
        push_all(&mut s, " at: ");
        push_all(&mut s, self.input.as_str());
        s
    }
}

impl Error {
    /// The text of the error; a parse error is introduced as one.
    pub fn to_string(&self) -> (r: String)
        ensures
            r@ == match self {
                Error::Eval(e) => eval_error_text(e@),
                Error::Parse(p) => "Parse Error: "@ + parse_error_text(p.input@, p.code),
            },
    {
        match self {
            Error::Eval(e) => e.to_string(),
            Error::Parse(p) => {
                let mut s = lit("Parse Error: ");
                let t = p.to_string();
                push_all(&mut s, t.as_str());
                s
            },
        }
    }
}

/// An error of the library as the Python bindings raise it.
#[derive(Debug, PartialEq, Eq)]
pub struct PySosakuError {
    pub inner: Error,
}

/// The message of the exception that an evaluation error is raised as: a
/// failed call gives its reason's message, an argument count its own text,
/// a type, value or regex error its message, and the rest their text.
pub open spec fn py_eval_message(e: SEvalError) -> Seq<char>
    decreases e,
{
    match e {
        SEvalError::FnCall(_, reason) => py_eval_message(*reason),
        SEvalError::VarAccess(v) => var_access_text(v),
        SEvalError::FunctionNotFound(_) => eval_error_text(e),
        SEvalError::TypeError(m) => m,
        SEvalError::ValueError(m) => m,
        SEvalError::RegexError(m) => m,
        SEvalError::ArgumentCount(x, y) =>
            "Expected "@ + nat_text(x as nat) + " arguments, got "@ + nat_text(y as nat),
        SEvalError::CallSyncinAsync => eval_error_text(e),
    }
}

/// The message of the exception for an evaluation error.
fn py_eval_error(e: &EvalError) -> (r: String)
    ensures
        r@ == py_eval_message(e@),
    decreases e,
{
    match e {
        EvalError::FnCallError(f) => py_eval_error(&f.reason),
        EvalError::VarAccess(v) => v.to_string(),
        EvalError::FunctionNotFound { .. } => e.to_string(),
        EvalError::TypeError { message } => message.clone(),
        EvalError::ValueError { message } => message.clone(),
        EvalError::RegexError { message } => message.clone(),
        EvalError::ArgumentCount { expected, got } => {
            let mut s = lit("Expected ");
            let x = u64_text(*expected as u64);
            push_all(&mut s, x.as_str());
            push_all(&mut s, " arguments, got ");
            let y = u64_text(*got as u64);
            push_all(&mut s, y.as_str());
            s
        },
        EvalError::CallSyncinAsync => e.to_string(),
    }
}

impl PySosakuError {
    /// Wraps an error of the library.
    pub fn new(inner: Error) -> (r: PySosakuError)
        ensures
            r.inner == inner,
    {
        PySosakuError { inner }
    }

    /// The message of the exception that the error is raised as. Every
    /// error, of parsing or of evaluation, is raised as a Python
    /// `ValueError`: a parse error with the parse error's text, an
    /// evaluation error with the message [`py_eval_message`] gives.
    pub fn exception(&self) -> (r: String)
        ensures
            r@ == match self.inner {
                Error::Parse(p) => parse_error_text(p.input@, p.code),
                Error::Eval(e) => py_eval_message(e@),
            },
    {
        match &self.inner {
            Error::Parse(p) => p.to_string(),
            Error::Eval(e) => py_eval_error(e),
        }
    }

    /// The text of the error, as its `Display` writes it.
    pub fn to_string(&self) -> (r: String)
        ensures
            r@ == match self.inner {
                Error::Eval(e) => eval_error_text(e@),
                Error::Parse(p) => "Parse Error: "@ + parse_error_text(p.input@, p.code),
            },
    {
        self.inner.to_string()
    }
}

} // verus!
