//! The errors of the store, and the handler that keeps the history of every
//! error raised.

use vstd::prelude::*;
use vstd::slice::slice_subrange;

verus! {

/// The kinds of failure of the store, each with a detail text.
#[derive(Debug, PartialEq, Eq)]
pub enum NosqliteError {
    DatabaseNotFound(String),
    DatabaseAlreadyExists(String),
    InvalidDatabaseFormat(String),
    CollectionAlreadyExists(String),
    CollectionNotFound(String),
    CollectionNameEmpty(),
    InvalidCollectionStructure(String),
    DocumentInvalid(String),
    DocumentNotFound(String),
    IoError(String),
    SerializationError(String),
    EncryptionError(String),
    DeserializationError(String),
    HexDecodeError(String),
    Base64DecodeError(String),
}

impl Clone for NosqliteError {
    fn clone(&self) -> (r: Self)
        ensures
            r == *self,
    {
        match self {
            NosqliteError::DatabaseNotFound(s) => NosqliteError::DatabaseNotFound(s.clone()),
            NosqliteError::DatabaseAlreadyExists(s) => NosqliteError::DatabaseAlreadyExists(s.clone()),
            NosqliteError::InvalidDatabaseFormat(s) => NosqliteError::InvalidDatabaseFormat(s.clone()),
            NosqliteError::CollectionAlreadyExists(s) => NosqliteError::CollectionAlreadyExists(s.clone()),
            NosqliteError::CollectionNotFound(s) => NosqliteError::CollectionNotFound(s.clone()),
            NosqliteError::CollectionNameEmpty() => NosqliteError::CollectionNameEmpty(),
            NosqliteError::InvalidCollectionStructure(s) => NosqliteError::InvalidCollectionStructure(s.clone()),
            NosqliteError::DocumentInvalid(s) => NosqliteError::DocumentInvalid(s.clone()),
            NosqliteError::DocumentNotFound(s) => NosqliteError::DocumentNotFound(s.clone()),
            NosqliteError::IoError(s) => NosqliteError::IoError(s.clone()),
            NosqliteError::SerializationError(s) => NosqliteError::SerializationError(s.clone()),
            NosqliteError::EncryptionError(s) => NosqliteError::EncryptionError(s.clone()),
            NosqliteError::DeserializationError(s) => NosqliteError::DeserializationError(s.clone()),
            NosqliteError::HexDecodeError(s) => NosqliteError::HexDecodeError(s.clone()),
            NosqliteError::Base64DecodeError(s) => NosqliteError::Base64DecodeError(s.clone()),
        }
    }
}

/// The name of the kind of an error.
pub open spec fn kind_label(e: NosqliteError) -> Seq<char> {
    match e {
        NosqliteError::DatabaseNotFound(_) => "DatabaseNotFound"@,
        NosqliteError::DatabaseAlreadyExists(_) => "DatabaseAlreadyExists"@,
        NosqliteError::InvalidDatabaseFormat(_) => "InvalidDatabaseFormat"@,
        NosqliteError::CollectionAlreadyExists(_) => "CollectionAlreadyExists"@,
        NosqliteError::CollectionNotFound(_) => "CollectionNotFound"@,
        NosqliteError::CollectionNameEmpty() => "CollectionNameEmpty"@,
        NosqliteError::InvalidCollectionStructure(_) => "InvalidCollectionStructure"@,
        NosqliteError::DocumentInvalid(_) => "DocumentInvalid"@,
        NosqliteError::DocumentNotFound(_) => "DocumentNotFound"@,
        NosqliteError::IoError(_) => "IoError"@,
        NosqliteError::SerializationError(_) => "SerializationError"@,
        NosqliteError::EncryptionError(_) => "EncryptionError"@,
        NosqliteError::DeserializationError(_) => "DeserializationError"@,
        NosqliteError::HexDecodeError(_) => "HexDecodeError"@,
        NosqliteError::Base64DecodeError(_) => "Base64DecodeError"@,
    }
}

impl NosqliteError {
    /// The name of the kind of error.
    pub fn kind_name(&self) -> (r: &'static str)
        ensures
            r@ == kind_label(*self),
    {
        match self {
            NosqliteError::DatabaseNotFound(_) => "DatabaseNotFound",
            NosqliteError::DatabaseAlreadyExists(_) => "DatabaseAlreadyExists",
            NosqliteError::InvalidDatabaseFormat(_) => "InvalidDatabaseFormat",
            NosqliteError::CollectionAlreadyExists(_) => "CollectionAlreadyExists",
            NosqliteError::CollectionNotFound(_) => "CollectionNotFound",
            NosqliteError::CollectionNameEmpty() => "CollectionNameEmpty",
            NosqliteError::InvalidCollectionStructure(_) => "InvalidCollectionStructure",
            NosqliteError::DocumentInvalid(_) => "DocumentInvalid",
            NosqliteError::DocumentNotFound(_) => "DocumentNotFound",
            NosqliteError::IoError(_) => "IoError",
            NosqliteError::SerializationError(_) => "SerializationError",
            NosqliteError::EncryptionError(_) => "EncryptionError",
            NosqliteError::DeserializationError(_) => "DeserializationError",
            NosqliteError::HexDecodeError(_) => "HexDecodeError",
            NosqliteError::Base64DecodeError(_) => "Base64DecodeError",
        }
    }

    /// The detail text carried by the error (empty for an empty name).
    pub fn detail(&self) -> (r: String)
        ensures
            match self {
                NosqliteError::CollectionNameEmpty() => r@ == Seq::<char>::empty(),
                NosqliteError::DatabaseNotFound(s) => r@ == s@,
                NosqliteError::DatabaseAlreadyExists(s) => r@ == s@,
                NosqliteError::InvalidDatabaseFormat(s) => r@ == s@,
                NosqliteError::CollectionAlreadyExists(s) => r@ == s@,
                NosqliteError::CollectionNotFound(s) => r@ == s@,
                NosqliteError::InvalidCollectionStructure(s) => r@ == s@,
                NosqliteError::DocumentInvalid(s) => r@ == s@,
                NosqliteError::DocumentNotFound(s) => r@ == s@,
                NosqliteError::IoError(s) => r@ == s@,
                NosqliteError::SerializationError(s) => r@ == s@,
                NosqliteError::EncryptionError(s) => r@ == s@,
                NosqliteError::DeserializationError(s) => r@ == s@,
                NosqliteError::HexDecodeError(s) => r@ == s@,
                NosqliteError::Base64DecodeError(s) => r@ == s@,
            },
    {
        match self {
            NosqliteError::CollectionNameEmpty() => String::new(),
            NosqliteError::DatabaseNotFound(s) => s.clone(),
            NosqliteError::DatabaseAlreadyExists(s) => s.clone(),
            NosqliteError::InvalidDatabaseFormat(s) => s.clone(),
            NosqliteError::CollectionAlreadyExists(s) => s.clone(),
            NosqliteError::CollectionNotFound(s) => s.clone(),
            NosqliteError::InvalidCollectionStructure(s) => s.clone(),
            NosqliteError::DocumentInvalid(s) => s.clone(),
            NosqliteError::DocumentNotFound(s) => s.clone(),
            NosqliteError::IoError(s) => s.clone(),
            NosqliteError::SerializationError(s) => s.clone(),
            NosqliteError::EncryptionError(s) => s.clone(),
            NosqliteError::DeserializationError(s) => s.clone(),
            NosqliteError::HexDecodeError(s) => s.clone(),
            NosqliteError::Base64DecodeError(s) => s.clone(),
        }
    }
}

/// Keeps, in order, every error raised through it, for the store at
/// `db_path`. Writing them to the store's log is left to the caller, which
/// can ask for those not yet written.
#[derive(Debug)]
pub struct NosqliteErrorHandler {
    errors: Vec<NosqliteError>,
    db_path: String,
    written: usize,
}

impl View for NosqliteErrorHandler {
    type V = Seq<NosqliteError>;

    closed spec fn view(&self) -> Seq<NosqliteError> {
        self.errors@
    }
}

/// How the handler changed over a call that returned `r`: an error
/// returned was recorded, and nothing else was.
pub open spec fn logged<T>(before: NosqliteErrorHandler, after: NosqliteErrorHandler, r: Result<T, NosqliteError>) -> bool {
    &&& after.path() == before.path()
    &&& after.written_count() == before.written_count()
    &&& (before.wf() ==> after.wf())
    &&& match r {
        Ok(_) => after@ == before@,
        Err(e) => after@ == before@.push(e),
    }
}

impl NosqliteErrorHandler {
    /// The path of the store whose errors are kept.
    pub closed spec fn path(self) -> Seq<char> {
        self.db_path@
    }

    /// How many of the errors were already written to the log.
    pub closed spec fn written_count(self) -> nat {
        self.written as nat
    }

    /// The handler is consistent: no more errors are written than were kept.
    pub closed spec fn wf(self) -> bool {
        self.written <= self.errors@.len()
    }

    /// A handler with no errors yet.
    pub fn new(db_path: String) -> (r: Self)
        ensures
            r@ == Seq::<NosqliteError>::empty(),
            r.path() == db_path@,
            r.written_count() == 0,
            r.wf(),
    {
        Self { errors: Vec::new(), db_path, written: 0 }
    }

    /// Records an error.
    pub fn log_error(&mut self, error: NosqliteError)
        ensures
            final(self)@ == old(self)@.push(error),
            final(self).path() == old(self).path(),
            final(self).written_count() == old(self).written_count(),
            old(self).wf() ==> final(self).wf(),
    {
        self.errors.push(error);
    }

    /// Every error recorded so far, oldest first.
    pub fn all_errors(&self) -> (r: &[NosqliteError])
        ensures
            r@ == self@,
    {
        self.errors.as_slice()
    }

    /// The path of the store whose errors are kept.
    pub fn db_path(&self) -> (r: &String)
        ensures
            r@ == self.path(),
    {
        &self.db_path
    }

    /// The errors recorded but not yet written to the log, oldest first.
    pub fn unwritten_errors(&self) -> (r: &[NosqliteError])
        requires
            self.wf(),
        ensures
            r@ == self@.subrange(self.written_count() as int, self@.len() as int),
    {
        let s = self.errors.as_slice();
        slice_subrange(s, self.written, s.len())
    }

    /// Notes that every error recorded so far has been written to the log.
    pub fn mark_written(&mut self)
        ensures
            final(self)@ == old(self)@,
            final(self).path() == old(self).path(),
            final(self).written_count() == old(self)@.len(),
            final(self).wf(),
    {
        self.written = self.errors.len();
    }

    /// Records `error` and returns it as an `Err`.
    pub fn raise<T>(&mut self, error: NosqliteError) -> (r: Result<T, NosqliteError>)
        ensures
            r == Err::<T, NosqliteError>(error),
            logged(*old(self), *final(self), r),
    {
        self.log_error(error.clone());
        Err(error)
    }

    /// Passes an `Ok` through; turns an `Err` into an error of the store with
    /// `wrap`, records it and returns it.
    pub fn try_or_log<T, E, F: FnOnce(E) -> NosqliteError>(
        &mut self,
        result: Result<T, E>,
        wrap: F,
    ) -> (r: Result<T, NosqliteError>)
        requires
            forall|e: E| #[trigger] wrap.requires((e,)),
        ensures
            final(self).path() == old(self).path(),
            final(self).written_count() == old(self).written_count(),
            old(self).wf() ==> final(self).wf(),
            match result {
                Ok(t) => r == Ok::<T, NosqliteError>(t) && final(self)@ == old(self)@,
                Err(e) => match r {
                    Err(w) => wrap.ensures((e,), w) && final(self)@ == old(self)@.push(w),
                    Ok(_) => false,
                },
            },
    {
        match result {
            Ok(t) => Ok(t),
            Err(e) => {
                let err = wrap(e);
                self.log_error(err.clone());
                Err(err)
            },
        }
    }
}

} // verus!
