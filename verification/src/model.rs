//! The service's domain values: categories, priorities, files and
//! submissions, and the error bodies it answers with.

use vstd::prelude::*;
use crate::text::{text_eq};

verus! {

/// What a submission is about.
#[derive(Clone, Copy, Debug, PartialEq, Eq, Structural)]
pub enum Category {
    BugReport,
    FeatureRequest,
    Feedback,
    Other,
}

impl Category {
    /// The external name of the category, as clients write it.
    pub open spec fn name_spec(self) -> Seq<char> {
        match self {
            Category::BugReport => "Bug Report"@,
            Category::FeatureRequest => "Feature Request"@,
            Category::Feedback => "Feedback"@,
            Category::Other => "Other"@,
        }
    }

    /// The category whose name is exactly `s` (case-sensitive), if any.
    pub open spec fn parse_spec(s: Seq<char>) -> Option<Category> {
        if s == "Bug Report"@ {
            Some(Category::BugReport)
        } else if s == "Feature Request"@ {
            Some(Category::FeatureRequest)
        } else if s == "Feedback"@ {
            Some(Category::Feedback)
        } else if s == "Other"@ {
            Some(Category::Other)
        } else {
            None
        }
    }

    /// Parses a category name; only the exact names are accepted.
    pub fn from_str(s: &str) -> (r: Option<Self>)
        ensures
            r == Category::parse_spec(s@),
    {
        if text_eq(s, "Bug Report") {
            Some(Category::BugReport)
        } else if text_eq(s, "Feature Request") {
            Some(Category::FeatureRequest)
        } else if text_eq(s, "Feedback") {
            Some(Category::Feedback)
        } else if text_eq(s, "Other") {
            Some(Category::Other)
        } else {
            None
        }
    }

    /// The external name of the category.
    pub fn name(&self) -> (r: &'static str)
        ensures
            r@ == self.name_spec(),
    {
        match self {
            Category::BugReport => "Bug Report",
            Category::FeatureRequest => "Feature Request",
            Category::Feedback => "Feedback",
            Category::Other => "Other",
        }
    }
}

/// How urgent a submission is.
#[derive(Clone, Copy, Debug, PartialEq, Eq, Structural)]
pub enum Priority {
    Low,
    Medium,
    High,
}

impl Priority {
    /// The external name of the priority.
    pub open spec fn name_spec(self) -> Seq<char> {
        match self {
            Priority::Low => "Low"@,
            Priority::Medium => "Medium"@,
            Priority::High => "High"@,
        }
    }

    /// The priority whose name is exactly `s` (case-sensitive), if any.
    pub open spec fn parse_spec(s: Seq<char>) -> Option<Priority> {
        if s == "Low"@ {
            Some(Priority::Low)
        } else if s == "Medium"@ {
            Some(Priority::Medium)
        } else if s == "High"@ {
            Some(Priority::High)
        } else {
            None
        }
    }

    /// Parses a priority name; only the exact names are accepted.
    pub fn from_str(s: &str) -> (r: Option<Self>)
        ensures
            r == Priority::parse_spec(s@),
    {
        if text_eq(s, "Low") {
            Some(Priority::Low)
        } else if text_eq(s, "Medium") {
            Some(Priority::Medium)
        } else if text_eq(s, "High") {
            Some(Priority::High)
        } else {
            None
        }
    }

    /// The external name of the priority.
    pub fn name(&self) -> (r: &'static str)
        ensures
            r@ == self.name_spec(),
    {
        match self {
            Priority::Low => "Low",
            Priority::Medium => "Medium",
            Priority::High => "High",
        }
    }
}

/// Parsing a category's name gives the category back, and a name that
/// parses is that category's name.
pub proof fn category_name_round_trip(c: Category, s: Seq<char>)
    ensures
        Category::parse_spec(c.name_spec()) == Some(c),
        Category::parse_spec(s) == Some(c) ==> s == c.name_spec(),
{
    reveal_strlit("Bug Report");
    reveal_strlit("Feature Request");
    reveal_strlit("Feedback");
    reveal_strlit("Other");
    assert("Bug Report"@.len() == 10);
    assert("Feature Request"@.len() == 15);
    assert("Feedback"@.len() == 8);
    assert("Other"@.len() == 5);
}

/// Parsing a priority's name gives the priority back, and a name that
/// parses is that priority's name.
pub proof fn priority_name_round_trip(p: Priority, s: Seq<char>)
    ensures
        Priority::parse_spec(p.name_spec()) == Some(p),
        Priority::parse_spec(s) == Some(p) ==> s == p.name_spec(),
{
    reveal_strlit("Low");
    reveal_strlit("Medium");
    reveal_strlit("High");
    assert("Low"@.len() == 3);
    assert("Medium"@.len() == 6);
    assert("High"@.len() == 4);
}


/// An instant, as seconds since the Unix epoch and the nanoseconds within
/// that second (at or above one billion during a leap second).
#[derive(Clone, Copy, Debug, PartialEq, Eq, Structural)]
pub struct Timestamp {
    pub secs: i64,
    pub nanos: u32,
}

impl Timestamp {
    /// `self` is strictly earlier than `other`.
    pub open spec fn before(self, other: Timestamp) -> bool {
        self.secs < other.secs || (self.secs == other.secs && self.nanos < other.nanos)
    }

    /// Whether `self` is strictly earlier than `other`.
    pub fn is_before(&self, other: &Timestamp) -> (r: bool)
        ensures
            r == self.before(*other),
    {
        self.secs < other.secs || (self.secs == other.secs && self.nanos < other.nanos)
    }
}

/// The public description of an uploaded file.
#[derive(Clone, Debug)]
pub struct UploadedFile {
    pub file_id: u128,
    pub file_name: String,
    pub mime_type: String,
    pub size_bytes: usize,
}

impl View for UploadedFile {
    type V = (u128, Seq<char>, Seq<char>, usize);

    open spec fn view(&self) -> Self::V {
        (self.file_id, self.file_name@, self.mime_type@, self.size_bytes)
    }
}

impl UploadedFile {
    /// A copy with the same contents.
    pub fn duplicate(&self) -> (r: Self)
        ensures
            r@ == self@,
    {
        UploadedFile {
            file_id: self.file_id,
            file_name: self.file_name.clone(),
            mime_type: self.mime_type.clone(),
            size_bytes: self.size_bytes,
        }
    }

    /// The description of a file as a stored row holds it; the stored size is
    /// a signed 64-bit number, converted with `as` (a negative size wraps).
    pub fn from_stored(file_id: u128, file_name: String, mime_type: String, size_bytes: i64) -> (r:
        Self)
        ensures
            r.file_id == file_id,
            r.file_name == file_name,
            r.mime_type == mime_type,
            r.size_bytes == size_bytes as usize,
    {
        UploadedFile { file_id, file_name, mime_type, size_bytes: size_bytes as usize }
    }
}

/// What the service keeps about an uploaded file, including where it lies.
#[derive(Clone, Debug)]
pub struct UploadMetadata {
    pub file_id: u128,
    pub file_name: String,
    pub mime_type: String,
    pub size_bytes: usize,
    pub storage_path: String,
}

impl View for UploadMetadata {
    type V = (u128, Seq<char>, Seq<char>, usize, Seq<char>);

    open spec fn view(&self) -> Self::V {
        (self.file_id, self.file_name@, self.mime_type@, self.size_bytes, self.storage_path@)
    }
}

impl UploadMetadata {
    /// A copy with the same contents.
    pub fn duplicate(&self) -> (r: Self)
        ensures
            r@ == self@,
    {
        UploadMetadata {
            file_id: self.file_id,
            file_name: self.file_name.clone(),
            mime_type: self.mime_type.clone(),
            size_bytes: self.size_bytes,
            storage_path: self.storage_path.clone(),
        }
    }

    /// The public description of the file: everything but where it lies.
    pub open spec fn public_view(self) -> (u128, Seq<char>, Seq<char>, usize) {
        (self.file_id, self.file_name@, self.mime_type@, self.size_bytes)
    }

    /// The public description of the file.
    pub fn to_uploaded_file(&self) -> (r: UploadedFile)
        ensures
            r@ == self.public_view(),
    {
        UploadedFile {
            file_id: self.file_id,
            file_name: self.file_name.clone(),
            mime_type: self.mime_type.clone(),
            size_bytes: self.size_bytes,
        }
    }

    /// The metadata as a stored row holds it; the stored size is a signed
    /// 64-bit number, converted with `as` (a negative size wraps).
    pub fn from_stored(
        file_id: u128,
        file_name: String,
        mime_type: String,
        size_bytes: i64,
        storage_path: String,
    ) -> (r: Self)
        ensures
            r.file_id == file_id,
            r.file_name == file_name,
            r.mime_type == mime_type,
            r.size_bytes == size_bytes as usize,
            r.storage_path == storage_path,
    {
        UploadMetadata { file_id, file_name, mime_type, size_bytes: size_bytes as usize, storage_path }
    }
}

/// A feedback submission.
#[derive(Clone, Debug)]
pub struct Submission {
    pub id: u128,
    pub title: String,
    pub description: String,
    pub category: Category,
    pub priority: Priority,
    pub tags: Vec<String>,
    pub file_info: Option<UploadedFile>,
    pub created_at: Timestamp,
}

/// The characters of each string, in order.
pub open spec fn texts_view(v: Seq<String>) -> Seq<Seq<char>> {
    v.map_values(|t: String| t@)
}

impl Submission {
    /// A submission as a stored row holds it. An unknown category is read as
    /// `Other`, an unknown priority as `Medium`, and the file is present only
    /// when all four of its columns are.
    pub fn from_stored(
        id: u128,
        title: String,
        description: String,
        category: &str,
        priority: &str,
        tags: Vec<String>,
        file_id: Option<u128>,
        file_name: Option<String>,
        file_mime_type: Option<String>,
        file_size_bytes: Option<i64>,
        created_at: Timestamp,
    ) -> (r: Self)
        ensures
            r.id == id,
            r.title == title,
            r.description == description,
            r.category == (match Category::parse_spec(category@) {
                Some(c) => c,
                None => Category::Other,
            }),
            r.priority == (match Priority::parse_spec(priority@) {
                Some(p) => p,
                None => Priority::Medium,
            }),
            r.tags == tags,
            (file_id is Some && file_name is Some && file_mime_type is Some
                && file_size_bytes is Some) == (r.file_info is Some),
            r.file_info is Some ==> {
                &&& r.file_info->0.file_id == file_id->0
                &&& r.file_info->0.file_name == file_name->0
                &&& r.file_info->0.mime_type == file_mime_type->0
                &&& r.file_info->0.size_bytes == file_size_bytes->0 as usize
            },
            r.created_at == created_at,
    {
        let category = match Category::from_str(category) {
            Some(c) => c,
            None => Category::Other,
        };
        let priority = match Priority::from_str(priority) {
            Some(p) => p,
            None => Priority::Medium,
        };
        let file_info = match (file_id, file_name, file_mime_type, file_size_bytes) {
            (Some(fid), Some(fname), Some(fmime), Some(fsize)) => Some(
                UploadedFile::from_stored(fid, fname, fmime, fsize),
            ),
            _ => None,
        };
        Submission { id, title, description, category, priority, tags, file_info, created_at }
    }
}

/// One problem found in a request: the field it concerns and what is wrong.
#[derive(Clone, Debug)]
pub struct ValidationError {
    pub field: String,
    pub message: String,
}

impl View for ValidationError {
    type V = (Seq<char>, Seq<char>);

    open spec fn view(&self) -> Self::V {
        (self.field@, self.message@)
    }
}

/// The views of a list of problems.
pub open spec fn details_view(v: Seq<ValidationError>) -> Seq<(Seq<char>, Seq<char>)> {
    v.map_values(|e: ValidationError| e@)
}

/// The body of every error answer.
#[derive(Clone, Debug)]
pub struct ErrorResponse {
    pub error: String,
    pub details: Vec<ValidationError>,
}

impl View for ErrorResponse {
    type V = (Seq<char>, Seq<(Seq<char>, Seq<char>)>);

    open spec fn view(&self) -> Self::V {
        (self.error@, details_view(self.details@))
    }
}

/// An error answer: the HTTP status code and the body.
#[derive(Clone, Debug)]
pub struct ApiError {
    pub status: u16,
    pub body: ErrorResponse,
}

impl View for ApiError {
    type V = (u16, Seq<char>, Seq<(Seq<char>, Seq<char>)>);

    open spec fn view(&self) -> Self::V {
        (self.status, self.body.error@, details_view(self.body.details@))
    }
}

impl ValidationError {
    pub fn new(field: &str, message: String) -> (r: Self)
        ensures
            r@ == (field@, message@),
    {
        ValidationError { field: String::from_str(field), message }
    }
}

impl ApiError {
    /// An error answer with a single detail.
    pub fn single(status: u16, error: &str, field: &str, message: String) -> (r: Self)
        ensures
            r@ == (status, error@, seq![(field@, message@)]),
    {
        let detail = ValidationError::new(field, message);
        let details = vec![detail];
        let r = ApiError {
            status,
            body: ErrorResponse { error: String::from_str(error), details },
        };
        assert(details_view(r.body.details@) =~= seq![(field@, message@)]);
        r
    }
}

} // verus!
