//! The error type shared by every part of the library.

use vstd::prelude::*;

verus! {

/// What can go wrong in a matchup.
///
/// Several variants carry the path of the file that was being read or written
/// when the error arose. Where that path is not known at the place of the
/// error it is `None`, and `set_file` attaches it later. Errors raised by the
/// storage layer are carried as the text of their message.
#[derive(Debug)]
pub enum MatchupError {
    /// A failure reported by the storage layer while reading or writing a file.
    NetcdfError { nc_error: String, file: Option<String> },
    /// A group that must exist in the file is missing.
    NetcdfMissingGroup { file: Option<String>, grpname: String },
    /// A variable that must exist in the file is missing.
    NetcdfMissingVar { file: Option<String>, varname: String },
    /// An attribute has another type than the one expected.
    NetcdfWrongAttrType { file: Option<String>, varname: String, attname: String, expected: String },
    /// A variable has another shape than the one expected.
    NetcdfShapeError { file: Option<String>, varname: String, nd_error: String },
    /// A read or write outside the storage layer failed.
    IOError(String),
    /// A configuration file could not be parsed.
    ConfigError(String),
    /// A configuration file could not be produced.
    ConfigWriteError(String),
    /// Data violates a guarantee that this library itself gives: a fault of the
    /// code that produced the data, not of the input.
    InternalError(String),
    /// The failures of several matchups that ran as one batch.
    MultipleErrors(Vec<MatchupError>),
}

impl MatchupError {
    /// The error `self` with the path `p` attached, where its variant carries a path.
    pub open spec fn with_file(self, p: String) -> MatchupError {
        match self {
            MatchupError::NetcdfError { nc_error, file } => MatchupError::NetcdfError {
                nc_error,
                file: Some(p),
            },
            MatchupError::NetcdfMissingGroup { file, grpname } => MatchupError::NetcdfMissingGroup {
                file: Some(p),
                grpname,
            },
            MatchupError::NetcdfMissingVar { file, varname } => MatchupError::NetcdfMissingVar {
                file: Some(p),
                varname,
            },
            MatchupError::NetcdfWrongAttrType {
                file,
                varname,
                attname,
                expected,
            } => MatchupError::NetcdfWrongAttrType { file: Some(p), varname, attname, expected },
            MatchupError::NetcdfShapeError { file, varname, nd_error } => MatchupError::NetcdfShapeError {
                file: Some(p),
                varname,
                nd_error,
            },
            other => other,
        }
    }

    /// A storage-layer failure with the path of the file it arose in.
    pub fn from_nc_error(nc_error: String, file: String) -> (e: MatchupError)
        ensures
            e == (MatchupError::NetcdfError { nc_error, file: Some(file) }),
    {
        MatchupError::NetcdfError { nc_error, file: Some(file) }
    }

    /// A shape failure with the path of the file and the name of the variable.
    pub fn from_shape_error(nd_error: String, file: String, varname: String) -> (e: MatchupError)
        ensures
            e == (MatchupError::NetcdfShapeError { file: Some(file), varname, nd_error }),
    {
        MatchupError::NetcdfShapeError { file: Some(file), varname, nd_error }
    }

    /// Attaches the path `p` to an error whose variant carries a path, replacing
    /// any path it had; every other error is returned unchanged.
    pub fn set_file(self, p: String) -> (e: MatchupError)
        ensures
            e == self.with_file(p),
    {
        match self {
            MatchupError::NetcdfError { nc_error, file: _ } => MatchupError::NetcdfError {
                nc_error,
                file: Some(p),
            },
            MatchupError::NetcdfMissingGroup { file: _, grpname } => MatchupError::NetcdfMissingGroup {
                file: Some(p),
                grpname,
            },
            MatchupError::NetcdfMissingVar { file: _, varname } => MatchupError::NetcdfMissingVar {
                file: Some(p),
                varname,
            },
            MatchupError::NetcdfWrongAttrType {
                file: _,
                varname,
                attname,
                expected,
            } => MatchupError::NetcdfWrongAttrType { file: Some(p), varname, attname, expected },
            MatchupError::NetcdfShapeError { file: _, varname, nd_error } => MatchupError::NetcdfShapeError {
                file: Some(p),
                varname,
                nd_error,
            },
            MatchupError::IOError(e) => MatchupError::IOError(e),
            MatchupError::ConfigError(e) => MatchupError::ConfigError(e),
            MatchupError::ConfigWriteError(e) => MatchupError::ConfigWriteError(e),
            MatchupError::InternalError(s) => MatchupError::InternalError(s),
            MatchupError::MultipleErrors(errs) => MatchupError::MultipleErrors(errs),
        }
    }

    /// The outcome of a batch of matchups, given the errors of those that
    /// failed: success where none failed, else one error that lists them all.
    pub fn from_failures(errs: Vec<MatchupError>) -> (r: Result<(), MatchupError>)
        ensures
            errs@.len() == 0 <==> r is Ok,
            errs@.len() > 0 ==> r == Err::<(), MatchupError>(MatchupError::MultipleErrors(errs)),
    {
        if errs.len() == 0 {
            Ok(())
        } else {
            Err(MatchupError::MultipleErrors(errs))
        }
    }

    /// An `InternalError` with the given message.
    pub fn internal(msg: &str) -> (e: MatchupError)
        ensures
            e matches MatchupError::InternalError(s) && s@ == msg@,
    {
        MatchupError::InternalError(msg.to_owned())
    }
}

} // verus!
