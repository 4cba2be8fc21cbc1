//! The error answers of the service: for each way a request can fail, the
//! status code, the summary and the single detail it is answered with.

use vstd::prelude::*;
use crate::model::ApiError;
use crate::text::decimal;

verus! {

/// The largest upload accepted, in bytes (10 MiB).
pub const MAX_UPLOAD_SIZE: usize = 10485760;

/// A way in which handling a request failed. Variants with a `String` carry
/// the message of the underlying failure.
#[derive(Clone, Debug)]
pub enum Failure {
    /// The request body is not the JSON the endpoint expects; the status
    /// code is the one the JSON extractor chose.
    MalformedJson(u16, String),
    /// Reading the next part of a multipart upload failed.
    Multipart(String),
    /// Reading a chunk of the uploaded file failed.
    Stream(String),
    /// The uploaded file exceeds `MAX_UPLOAD_SIZE`.
    TooLarge,
    /// The upload held no file bytes.
    NoFile,
    /// Storing the file in the object store failed.
    S3Upload(String),
    /// Storing the file on local disk failed.
    LocalSave(String),
    /// The file id in the path is not a UUID.
    InvalidFileId,
    /// No metadata is known for the requested file.
    FileNotFound,
    /// Reading the object body from the object store failed.
    S3Stream(String),
    /// Requesting the object from the object store failed.
    S3Download(String),
    /// Reading the file from local disk failed.
    DiskRead(String),
    /// Writing the submission to the database failed.
    Persist(String),
}

/// The answer to a failure: status code, summary, and the detail's field and
/// message.
pub open spec fn failure_answer(f: Failure) -> (u16, Seq<char>, Seq<char>, Seq<char>) {
    match f {
        Failure::MalformedJson(status, m) => (status, "Malformed JSON request"@, "body"@, m@),
        Failure::Multipart(m) => (400, "Multipart error"@, "file"@, m@),
        Failure::Stream(m) => (400, "Error reading stream"@, "file"@, m@),
        Failure::TooLarge => (
            413,
            "File too large"@,
            "file"@,
            "File size exceeds limit of "@ + decimal(MAX_UPLOAD_SIZE as nat / 1048576nat)
                + " MB"@,
        ),
        Failure::NoFile => (400, "No file provided"@, "file"@, "File payload is empty"@),
        Failure::S3Upload(m) => (500, "S3 upload failed"@, "s3"@, m@),
        Failure::LocalSave(m) => (500, "Failed to save file locally"@, "file"@, m@),
        Failure::InvalidFileId => (400, "Invalid file ID format"@, "id"@, "Must be a valid UUID"@),
        Failure::FileNotFound => (404, "File not found"@, "id"@, "File metadata not found"@),
        Failure::S3Stream(m) => (500, "Failed to read S3 object stream"@, "s3"@, m@),
        Failure::S3Download(m) => (500, "S3 download request failed"@, "s3"@, m@),
        Failure::DiskRead(m) => (500, "File read error"@, "disk"@, m@),
        Failure::Persist(m) => (
            500,
            "Failed to persist submission in Postgres"@,
            "database"@,
            m@,
        ),
    }
}

/// The error answer to a failure, with its single detail.
pub open spec fn failure_response(f: Failure) -> (u16, Seq<char>, Seq<(Seq<char>, Seq<char>)>) {
    let (status, error, field, message) = failure_answer(f);
    (status, error, seq![(field, message)])
}

impl Failure {
    /// The error answer to this failure.
    pub fn response(self) -> (r: ApiError)
        ensures
            r@ == failure_response(self),
    {
        match self {
            Failure::MalformedJson(status, m) => ApiError::single(
                status,
                "Malformed JSON request",
                "body",
                m,
            ),
            Failure::Multipart(m) => ApiError::single(400, "Multipart error", "file", m),
            Failure::Stream(m) => ApiError::single(400, "Error reading stream", "file", m),
            Failure::TooLarge => {
                let mut m = String::from_str("File size exceeds limit of ");
                let mb = crate::text::decimal_text(MAX_UPLOAD_SIZE / (1024 * 1024));
                m.append(mb.as_str());
                m.append(" MB");
                ApiError::single(413, "File too large", "file", m)
            },
            Failure::NoFile => ApiError::single(
                400,
                "No file provided",
                "file",
                String::from_str("File payload is empty"),
            ),
            Failure::S3Upload(m) => ApiError::single(500, "S3 upload failed", "s3", m),
            Failure::LocalSave(m) => ApiError::single(500, "Failed to save file locally", "file", m),
            Failure::InvalidFileId => ApiError::single(
                400,
                "Invalid file ID format",
                "id",
                String::from_str("Must be a valid UUID"),
            ),
            Failure::FileNotFound => ApiError::single(
                404,
                "File not found",
                "id",
                String::from_str("File metadata not found"),
            ),
            Failure::S3Stream(m) => ApiError::single(500, "Failed to read S3 object stream", "s3", m),
            Failure::S3Download(m) => ApiError::single(500, "S3 download request failed", "s3", m),
            Failure::DiskRead(m) => ApiError::single(500, "File read error", "disk", m),
            Failure::Persist(m) => ApiError::single(
                500,
                "Failed to persist submission in Postgres",
                "database",
                m,
            ),
        }
    }
}


/// A JSON request body that the JSON extractor accepted.
pub struct AppJson<T>(pub T);

impl<T> AppJson<T> {
    /// The answer when the JSON extractor refuses a body, with the status
    /// code it chose and its explanation.
    pub fn rejection(status: u16, message: String) -> (r: ApiError)
        ensures
            r@ == failure_response(Failure::MalformedJson(status, message)),
    {
        Failure::MalformedJson(status, message).response()
    }
}

} // verus!
