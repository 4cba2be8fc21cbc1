//! Validation of a new submission, field by field, collecting every problem
//! found before deciding.

use vstd::prelude::*;
use crate::ids::{hyphenated, parse_uuid, uuid_parse, uuid_text, new_uuid_v4, now};
use crate::model::{
    category_name_round_trip, priority_name_round_trip, ApiError, Category, ErrorResponse, Priority, Submission, Timestamp, UploadedFile, ValidationError,
    details_view, texts_view,
};
use crate::text::{decimal, decimal_text, trim, trim_is_idempotent, trimmed};

verus! {

/// A JSON value of a request field, as far as validation reads it: `null`,
/// a string, an array (each element a string, or `None` for any other
/// value), or any other value.
#[derive(Clone, Debug)]
pub enum FieldValue {
    Null,
    Str(String),
    Array(Vec<Option<String>>),
    Other,
}

/// The body of a request to create a submission; an absent field is `None`.
#[derive(Clone, Debug)]
pub struct SubmissionRequest {
    pub title: Option<FieldValue>,
    pub description: Option<FieldValue>,
    pub category: Option<FieldValue>,
    pub priority: Option<FieldValue>,
    pub tags: Option<FieldValue>,
    pub file_id: Option<FieldValue>,
}

/// What the `file_id` field of a request asks for.
#[derive(Clone, Copy, Debug, PartialEq, Eq, Structural)]
pub enum FileRef {
    /// No file: the field is absent, `null` or the empty string.
    Absent,
    /// The file with this identifier, which must then be looked up.
    Lookup(u128),
    /// A string that is not a UUID.
    NotUuid,
    /// A value that is not a string.
    NotString,
}

/// The fields of a submission that passed validation.
#[derive(Clone, Debug)]
pub struct ValidSubmission {
    pub title: String,
    pub description: String,
    pub category: Category,
    pub priority: Priority,
    pub tags: Vec<String>,
    pub file_info: Option<UploadedFile>,
}

/// The detail list of an outcome: one entry for the field when it failed.
pub open spec fn outcome_errors<T>(o: Result<T, Seq<char>>, field: Seq<char>) -> Seq<
    (Seq<char>, Seq<char>),
> {
    match o {
        Ok(_) => seq![],
        Err(m) => seq![(field, m)],
    }
}

/// The outcome of a required text field: the trimmed text, or the message.
pub open spec fn text_outcome(v: Option<FieldValue>, name: Seq<char>) -> Result<
    Seq<char>,
    Seq<char>,
> {
    match v {
        None => Err(name + " is missing"@),
        Some(FieldValue::Null) => Err(name + " cannot be null"@),
        Some(FieldValue::Str(s)) => if trimmed(s@).len() == 0 {
            Err(name + " cannot be empty"@)
        } else {
            Ok(trimmed(s@))
        },
        Some(_) => Err(name + " must be a string"@),
    }
}

/// The outcome of the category field: the category, or the message.
pub open spec fn category_outcome(v: Option<FieldValue>) -> Result<Category, Seq<char>> {
    match v {
        None => Err("category"@ + " is missing"@),
        Some(FieldValue::Null) => Err("category"@ + " cannot be null"@),
        Some(FieldValue::Str(s)) => match Category::parse_spec(s@) {
            Some(c) => Ok(c),
            None => Err(
                "category must be exactly 'Bug Report', 'Feature Request', 'Feedback', or 'Other'"@,
            ),
        },
        Some(_) => Err("category"@ + " must be a string"@),
    }
}

/// The outcome of the priority field: the priority, or the message.
pub open spec fn priority_outcome(v: Option<FieldValue>) -> Result<Priority, Seq<char>> {
    match v {
        None => Err("priority"@ + " is missing"@),
        Some(FieldValue::Null) => Err("priority"@ + " cannot be null"@),
        Some(FieldValue::Str(s)) => match Priority::parse_spec(s@) {
            Some(p) => Ok(p),
            None => Err("priority must be exactly 'Low', 'Medium', or 'High'"@),
        },
        Some(_) => Err("priority"@ + " must be a string"@),
    }
}

/// The tags kept from an array: each string element, trimmed, unless it is
/// blank; other elements are skipped.
pub open spec fn kept_tags(items: Seq<Option<String>>) -> Seq<Seq<char>>
    decreases items.len(),
{
    if items.len() == 0 {
        seq![]
    } else {
        let rest = kept_tags(items.drop_last());
        match items.last() {
            Some(t) => if trimmed(t@).len() > 0 {
                rest.push(trimmed(t@))
            } else {
                rest
            },
            None => rest,
        }
    }
}

/// One detail for each array element that is not a string, named by its
/// index, in order.
pub open spec fn tag_item_errors(items: Seq<Option<String>>) -> Seq<(Seq<char>, Seq<char>)>
    decreases items.len(),
{
    if items.len() == 0 {
        seq![]
    } else {
        let rest = tag_item_errors(items.drop_last());
        match items.last() {
            Some(_) => rest,
            None => rest.push(
                (
                    "tags["@ + decimal((items.len() - 1) as nat) + "]"@,
                    "tag must be a string"@,
                ),
            ),
        }
    }
}

/// The tags of the optional tags field, and its details.
pub open spec fn tags_outcome(v: Option<FieldValue>) -> (Seq<Seq<char>>, Seq<
    (Seq<char>, Seq<char>),
>) {
    match v {
        None => (seq![], seq![]),
        Some(FieldValue::Null) => (seq![], seq![]),
        Some(FieldValue::Array(items)) => (kept_tags(items@), tag_item_errors(items@)),
        Some(_) => (seq![], seq![("tags"@, "tags must be an array of strings"@)]),
    }
}

/// What the optional `file_id` field asks for.
pub open spec fn file_ref_spec(v: Option<FieldValue>) -> FileRef {
    match v {
        None => FileRef::Absent,
        Some(FieldValue::Null) => FileRef::Absent,
        Some(FieldValue::Str(s)) => if s@.len() == 0 {
            FileRef::Absent
        } else {
            match uuid_parse(s@) {
                Some(id) => FileRef::Lookup(id),
                None => FileRef::NotUuid,
            }
        },
        Some(_) => FileRef::NotString,
    }
}

/// The details for the file reference, given what the lookup of a
/// referenced file found.
pub open spec fn file_errors(r: FileRef, found: bool) -> Seq<(Seq<char>, Seq<char>)> {
    match r {
        FileRef::Absent => seq![],
        FileRef::Lookup(id) => if found {
            seq![]
        } else {
            seq![
                (
                    "file_id"@,
                    "file_id "@ + hyphenated(id) + " does not reference an uploaded file"@,
                ),
            ]
        },
        FileRef::NotUuid => seq![("file_id"@, "file_id must be a valid UUID"@)],
        FileRef::NotString => seq![("file_id"@, "file_id must be a string"@)],
    }
}

/// Every problem with a request, in field order: title, description,
/// category, priority, tags, file; `found` says whether the referenced file
/// was found.
pub open spec fn request_errors(req: SubmissionRequest, found: bool) -> Seq<
    (Seq<char>, Seq<char>),
> {
    outcome_errors(text_outcome(req.title, "title"@), "title"@) + outcome_errors(
        text_outcome(req.description, "description"@),
        "description"@,
    ) + outcome_errors(category_outcome(req.category), "category"@) + outcome_errors(
        priority_outcome(req.priority),
        "priority"@,
    ) + tags_outcome(req.tags).1 + file_errors(file_ref_spec(req.file_id), found)
}

/// A category field holding a string passes with exactly the category that
/// the string names, and fails otherwise; in particular each category's
/// own name gives that category.
pub proof fn category_field_names_the_category(s: String, c: Category)
    ensures
        (category_outcome(Some(FieldValue::Str(s))) == Ok::<Category, Seq<char>>(c))
            <==> Category::parse_spec(s@) == Some(c),
        category_outcome(Some(FieldValue::Str(s))) is Err <==> Category::parse_spec(s@) is None,
        s@ == c.name_spec() ==> category_outcome(Some(FieldValue::Str(s))) == Ok::<
            Category,
            Seq<char>,
        >(c),
{
    category_name_round_trip(c, s@);
}

/// A priority field holding a string passes with exactly the priority that
/// the string names, and fails otherwise; in particular each priority's
/// own name gives that priority.
pub proof fn priority_field_names_the_priority(s: String, p: Priority)
    ensures
        (priority_outcome(Some(FieldValue::Str(s))) == Ok::<Priority, Seq<char>>(p))
            <==> Priority::parse_spec(s@) == Some(p),
        priority_outcome(Some(FieldValue::Str(s))) is Err <==> Priority::parse_spec(s@) is None,
        s@ == p.name_spec() ==> priority_outcome(Some(FieldValue::Str(s))) == Ok::<
            Priority,
            Seq<char>,
        >(p),
{
    priority_name_round_trip(p, s@);
}

/// A request that passes carries the category and priority that its
/// fields name.
pub proof fn passing_request_names_its_category_and_priority(
    req: SubmissionRequest,
    resolved: Option<UploadedFile>,
    v: ValidSubmission,
)
    requires
        passes(req, resolved, v),
    ensures
        req.category matches Some(FieldValue::Str(c)) && Category::parse_spec(c@) == Some(
            v.category,
        ),
        req.priority matches Some(FieldValue::Str(p)) && Priority::parse_spec(p@) == Some(
            v.priority,
        ),
{
}

proof fn lemma_no_tag_errors(items: Seq<Option<String>>)
    ensures
        tag_item_errors(items).len() == 0 <==> forall|i: int| 0 <= i < items.len() ==> (#[trigger] items[i]) is Some,
    decreases items.len(),
{
    if items.len() > 0 {
        let rest = items.drop_last();
        lemma_no_tag_errors(rest);
        if forall|i: int| 0 <= i < items.len() ==> (#[trigger] items[i]) is Some {
            assert forall|i: int| 0 <= i < rest.len() implies (#[trigger] rest[i]) is Some by {
                assert(rest[i] == items[i]);
            }
            assert(items.last() == items[items.len() - 1]);
        }
        if tag_item_errors(items).len() == 0 {
            assert forall|i: int| 0 <= i < items.len() implies (#[trigger] items[i]) is Some by {
                if i < rest.len() {
                    assert(rest[i] == items[i]);
                }
            }
        }
    }
}

/// A request passes exactly when its title and description are strings
/// that are not blank, its category and priority are strings naming one,
/// its tags are absent, `null` or an array of strings only, and its file
/// reference is absent, `null`, the empty string, or a UUID of a file that
/// was found.
pub proof fn request_passes_exactly_when_fields_are_acceptable(req: SubmissionRequest, found: bool)
    ensures
        request_errors(req, found).len() == 0 <==> {
            &&& req.title matches Some(FieldValue::Str(t)) && trimmed(t@).len() > 0
            &&& req.description matches Some(FieldValue::Str(d)) && trimmed(d@).len() > 0
            &&& req.category matches Some(FieldValue::Str(c)) && Category::parse_spec(c@) is Some
            &&& req.priority matches Some(FieldValue::Str(p)) && Priority::parse_spec(p@) is Some
            &&& match req.tags {
                None => true,
                Some(FieldValue::Null) => true,
                Some(FieldValue::Array(items)) => forall|i: int|
                    0 <= i < items@.len() ==> (#[trigger] items@[i]) is Some,
                Some(_) => false,
            }
            &&& match req.file_id {
                None => true,
                Some(FieldValue::Null) => true,
                Some(FieldValue::Str(s)) => s@.len() == 0 || (uuid_parse(s@) is Some && found),
                Some(_) => false,
            }
        },
{
    if let Some(FieldValue::Array(items)) = req.tags {
        lemma_no_tag_errors(items@);
    }
}

/// The strings of a tag array kept as tags: the non-blank string elements,
/// each trimmed, in order.
pub open spec fn nonblank_trimmed(items: Seq<Option<String>>) -> Seq<Seq<char>> {
    items.filter(|o: Option<String>| o matches Some(t) && trimmed(t@).len() > 0).map_values(
        |o: Option<String>| trimmed(o->0@),
    )
}

proof fn lemma_kept_tags_filter(items: Seq<Option<String>>)
    ensures
        kept_tags(items) == nonblank_trimmed(items),
    decreases items.len(),
{
    reveal_with_fuel(Seq::<Option<String>>::filter, 1);
    if items.len() > 0 {
        lemma_kept_tags_filter(items.drop_last());
        let pred = |o: Option<String>| o matches Some(t) && trimmed(t@).len() > 0;
        let f = |o: Option<String>| trimmed(o->0@);
        let rest = items.drop_last().filter(pred);
        if pred(items.last()) {
            assert(rest.push(items.last()).map_values(f) =~= rest.map_values(f).push(f(items.last())));
        }
    } else {
        assert(nonblank_trimmed(items) =~= Seq::<Seq<char>>::empty());
    }
}

/// A passing request keeps its title and description trimmed, and as tags
/// the trimmed non-blank strings of its tag array, in order (none without
/// an array).
pub proof fn passing_request_keeps_trimmed_texts(
    req: SubmissionRequest,
    resolved: Option<UploadedFile>,
    v: ValidSubmission,
)
    requires
        passes(req, resolved, v),
    ensures
        req.title matches Some(FieldValue::Str(t)) && v.title@ == trimmed(t@),
        req.description matches Some(FieldValue::Str(d)) && v.description@ == trimmed(d@),
        req.tags matches Some(FieldValue::Array(items)) ==> texts_view(v.tags@) == nonblank_trimmed(
            items@,
        ),
        !(req.tags matches Some(FieldValue::Array(_))) ==> v.tags@.len() == 0,
{
    assert(texts_view(v.tags@).len() == v.tags@.len());
    if let Some(FieldValue::Array(items)) = req.tags {
        lemma_kept_tags_filter(items@);
    }
}

/// An accepted title or description is non-empty and already trimmed.
pub proof fn accepted_text_is_trimmed(v: Option<FieldValue>, name: Seq<char>)
    ensures
        text_outcome(v, name) matches Ok(t) ==> t.len() > 0 && trimmed(t) == t,
{
    if let Some(FieldValue::Str(s)) = v {
        trim_is_idempotent(s@);
    }
}

/// Every kept tag is non-empty and already trimmed, and an array yields at
/// most one kept tag or one problem per element.
pub proof fn kept_tags_are_trimmed(items: Seq<Option<String>>)
    ensures
        forall|i: int|
            0 <= i < kept_tags(items).len() ==> (#[trigger] kept_tags(items)[i]).len() > 0
                && trimmed(kept_tags(items)[i]) == kept_tags(items)[i],
        kept_tags(items).len() + tag_item_errors(items).len() <= items.len(),
    decreases items.len(),
{
    if items.len() > 0 {
        kept_tags_are_trimmed(items.drop_last());
        if let Some(t) = items.last() {
            trim_is_idempotent(t@);
        }
    }
}

/// The answer to a request that fails validation with these details.
pub open spec fn rejection(details: Seq<(Seq<char>, Seq<char>)>) -> (u16, Seq<char>, Seq<
    (Seq<char>, Seq<char>),
>) {
    (400, "Validation failed"@, details)
}

/// `v` holds what a passing request asks for: its trimmed title and
/// description, its category and priority, its kept tags, and the resolved
/// file when it references one.
pub open spec fn passes(req: SubmissionRequest, resolved: Option<UploadedFile>, v: ValidSubmission) -> bool {
    &&& text_outcome(req.title, "title"@) == Ok::<Seq<char>, Seq<char>>(v.title@)
    &&& text_outcome(req.description, "description"@) == Ok::<Seq<char>, Seq<char>>(v.description@)
    &&& category_outcome(req.category) == Ok::<Category, Seq<char>>(v.category)
    &&& priority_outcome(req.priority) == Ok::<Priority, Seq<char>>(v.priority)
    &&& texts_view(v.tags@) == tags_outcome(req.tags).0
    &&& v.file_info == (if file_ref_spec(req.file_id) is Lookup {
        resolved
    } else {
        None
    })
}

fn issue(field: &str, suffix: &str) -> (r: ValidationError)
    ensures
        r@ == (field@, field@ + suffix@),
{
    let m = String::from_str(field).concat(suffix);
    ValidationError::new(field, m)
}

proof fn lemma_push_details(old_d: Seq<ValidationError>, e: ValidationError)
    ensures
        details_view(old_d.push(e)) == details_view(old_d) + seq![e@],
{
    assert(details_view(old_d.push(e)) =~= details_view(old_d) + seq![e@]);
}

fn push_detail(details: &mut Vec<ValidationError>, e: ValidationError)
    ensures
        details_view(final(details)@) == details_view(old(details)@) + seq![e@],
{
    let ghost before = details@;
    details.push(e);
    proof {
        lemma_push_details(before, e);
    }
}

fn check_text(v: &Option<FieldValue>, name: &str, details: &mut Vec<ValidationError>) -> (r:
    Option<String>)
    ensures
        details_view(final(details)@) == details_view(old(details)@) + outcome_errors(
            text_outcome(*v, name@),
            name@,
        ),
        match text_outcome(*v, name@) {
            Ok(t) => r is Some && r->0@ == t,
            Err(_) => r is None,
        },
{
    match v {
        None => {
            push_detail(details, issue(name, " is missing"));
            None
        },
        Some(FieldValue::Null) => {
            push_detail(details, issue(name, " cannot be null"));
            None
        },
        Some(FieldValue::Str(s)) => {
            let t = trim(s.as_str());
            if t.unicode_len() == 0 {
                push_detail(details, issue(name, " cannot be empty"));
                None
            } else {
                proof {
                    assert(details_view(details@) + outcome_errors(text_outcome(*v, name@), name@)
                        =~= details_view(details@));
                }
                Some(String::from_str(t))
            }
        },
        Some(_) => {
            push_detail(details, issue(name, " must be a string"));
            None
        },
    }
}

fn check_category(v: &Option<FieldValue>, details: &mut Vec<ValidationError>) -> (r: Option<
    Category,
>)
    ensures
        details_view(final(details)@) == details_view(old(details)@) + outcome_errors(
            category_outcome(*v),
            "category"@,
        ),
        match category_outcome(*v) {
            Ok(c) => r == Some(c),
            Err(_) => r is None,
        },
{
    match v {
        None => {
            push_detail(details, issue("category", " is missing"));
            None
        },
        Some(FieldValue::Null) => {
            push_detail(details, issue("category", " cannot be null"));
            None
        },
        Some(FieldValue::Str(s)) => match Category::from_str(s.as_str()) {
            Some(c) => {
                assert(details_view(details@) + outcome_errors(category_outcome(*v), "category"@)
                    =~= details_view(details@));
                Some(c)
            },
            None => {
                push_detail(
                    details,
                    ValidationError::new(
                        "category",
                        String::from_str(
                            "category must be exactly 'Bug Report', 'Feature Request', 'Feedback', or 'Other'",
                        ),
                    ),
                );
                None
            },
        },
        Some(_) => {
            push_detail(details, issue("category", " must be a string"));
            None
        },
    }
}

fn check_priority(v: &Option<FieldValue>, details: &mut Vec<ValidationError>) -> (r: Option<
    Priority,
>)
    ensures
        details_view(final(details)@) == details_view(old(details)@) + outcome_errors(
            priority_outcome(*v),
            "priority"@,
        ),
        match priority_outcome(*v) {
            Ok(p) => r == Some(p),
            Err(_) => r is None,
        },
{
    match v {
        None => {
            push_detail(details, issue("priority", " is missing"));
            None
        },
        Some(FieldValue::Null) => {
            push_detail(details, issue("priority", " cannot be null"));
            None
        },
        Some(FieldValue::Str(s)) => match Priority::from_str(s.as_str()) {
            Some(p) => {
                assert(details_view(details@) + outcome_errors(priority_outcome(*v), "priority"@)
                    =~= details_view(details@));
                Some(p)
            },
            None => {
                push_detail(
                    details,
                    ValidationError::new(
                        "priority",
                        String::from_str("priority must be exactly 'Low', 'Medium', or 'High'"),
                    ),
                );
                None
            },
        },
        Some(_) => {
            push_detail(details, issue("priority", " must be a string"));
            None
        },
    }
}

fn tag_field_name(i: usize) -> (r: String)
    ensures
        r@ == "tags["@ + decimal(i as nat) + "]"@,
{
    let mut r = String::from_str("tags[");
    let d = decimal_text(i);
    r.append(d.as_str());
    r.append("]");
    r
}

fn check_tags(v: &Option<FieldValue>, details: &mut Vec<ValidationError>) -> (r: Vec<String>)
    ensures
        details_view(final(details)@) == details_view(old(details)@) + tags_outcome(*v).1,
        texts_view(r@) == tags_outcome(*v).0,
{
    let mut tags: Vec<String> = Vec::new();
    match v {
        None => {
            assert(details_view(details@) + tags_outcome(*v).1 =~= details_view(details@));
            assert(texts_view(tags@) =~= tags_outcome(*v).0);
        },
        Some(FieldValue::Null) => {
            assert(details_view(details@) + tags_outcome(*v).1 =~= details_view(details@));
            assert(texts_view(tags@) =~= tags_outcome(*v).0);
        },
        Some(FieldValue::Array(items)) => {
            let ghost base = details_view(details@);
            let n = items.len();
            let mut i: usize = 0;
            assert(items@.take(0) =~= Seq::<Option<String>>::empty());
            assert(texts_view(tags@) =~= Seq::<Seq<char>>::empty());
            assert(base + tag_item_errors(items@.take(0)) =~= base);
            while i < n
                invariant
                    n == items@.len(),
                    i <= n,
                    texts_view(tags@) == kept_tags(items@.take(i as int)),
                    details_view(details@) == base + tag_item_errors(items@.take(i as int)),
                decreases n - i,
            {
                let ghost prefix = items@.take(i as int);
                let ghost next = items@.take(i + 1);
                assert(next.drop_last() =~= prefix);
                assert(next.last() == items@[i as int]);
                match &items[i] {
                    Some(t) => {
                        let tt = trim(t.as_str());
                        if tt.unicode_len() > 0 {
                            let ghost before = tags@;
                            tags.push(String::from_str(tt));
                            assert(texts_view(tags@) =~= texts_view(before).push(tt@));
                        }
                    },
                    None => {
                        let field = tag_field_name(i);
                        let e = ValidationError::new(
                            field.as_str(),
                            String::from_str("tag must be a string"),
                        );
                        push_detail(details, e);
                        assert(base + tag_item_errors(next) =~= base + tag_item_errors(prefix)
                            + seq![e@]);
                    },
                }
                i = i + 1;
            }
            assert(items@.take(n as int) =~= items@);
        },
        Some(_) => {
            push_detail(
                details,
                ValidationError::new("tags", String::from_str("tags must be an array of strings")),
            );
            assert(texts_view(tags@) =~= tags_outcome(*v).0);
        },
    }
    tags
}

/// What the `file_id` field of a request asks for: the identifier to look
/// up, if any.
pub fn file_reference(v: &Option<FieldValue>) -> (r: FileRef)
    ensures
        r == file_ref_spec(*v),
{
    match v {
        None => FileRef::Absent,
        Some(FieldValue::Null) => FileRef::Absent,
        Some(FieldValue::Str(s)) => {
            if s.as_str().unicode_len() == 0 {
                FileRef::Absent
            } else {
                match parse_uuid(s.as_str()) {
                    Some(id) => FileRef::Lookup(id),
                    None => FileRef::NotUuid,
                }
            }
        },
        Some(_) => FileRef::NotString,
    }
}

fn check_file(r: FileRef, found: bool, details: &mut Vec<ValidationError>)
    ensures
        details_view(final(details)@) == details_view(old(details)@) + file_errors(r, found),
{
    match r {
        FileRef::Absent => {
            assert(details_view(details@) + file_errors(r, found) =~= details_view(details@));
        },
        FileRef::Lookup(id) => {
            if found {
                assert(details_view(details@) + file_errors(r, found) =~= details_view(details@));
            } else {
                let mut m = String::from_str("file_id ");
                let t = uuid_text(id);
                m.append(t.as_str());
                m.append(" does not reference an uploaded file");
                push_detail(details, ValidationError::new("file_id", m));
            }
        },
        FileRef::NotUuid => {
            push_detail(
                details,
                ValidationError::new("file_id", String::from_str("file_id must be a valid UUID")),
            );
        },
        FileRef::NotString => {
            push_detail(
                details,
                ValidationError::new("file_id", String::from_str("file_id must be a string")),
            );
        },
    }
}

/// Validates a request. `resolved` is what the lookup of the file that the
/// request references found (see `file_reference`); it is ignored when the
/// request references no file. Every problem is reported, in field order;
/// the request passes exactly when there is none.
pub fn validate_submission(req: &SubmissionRequest, resolved: Option<UploadedFile>) -> (r: Result<
    ValidSubmission,
    ApiError,
>)
    ensures
        match r {
            Ok(v) => request_errors(*req, resolved is Some).len() == 0 && passes(*req, resolved, v),
            Err(e) => request_errors(*req, resolved is Some).len() > 0 && e@ == rejection(
                request_errors(*req, resolved is Some),
            ),
        },
{
    let mut details: Vec<ValidationError> = Vec::new();
    let ghost d0 = details_view(details@);
    assert(d0 =~= Seq::<(Seq<char>, Seq<char>)>::empty());
    let title = check_text(&req.title, "title", &mut details);
    let description = check_text(&req.description, "description", &mut details);
    let category = check_category(&req.category, &mut details);
    let priority = check_priority(&req.priority, &mut details);
    let tags = check_tags(&req.tags, &mut details);
    let fref = file_reference(&req.file_id);
    check_file(fref, resolved.is_some(), &mut details);
    assert(details_view(details@) =~= request_errors(*req, resolved is Some));
    if details.len() > 0 {
        return Err(
            ApiError {
                status: 400,
                body: ErrorResponse { error: String::from_str("Validation failed"), details },
            },
        );
    }
    let file_info = match fref {
        FileRef::Lookup(_) => resolved,
        _ => None,
    };
    match (title, description, category, priority) {
        (Some(title), Some(description), Some(category), Some(priority)) => Ok(
            ValidSubmission { title, description, category, priority, tags, file_info },
        ),
        _ => {
            proof {
                assert(false);
            }
            Err(
                ApiError {
                    status: 400,
                    body: ErrorResponse { error: String::from_str("Validation failed"), details },
                },
            )
        },
    }
}


impl ValidSubmission {
    /// The submission made of these fields, under the given identifier and
    /// creation time.
    pub fn into_submission(self, id: u128, created_at: Timestamp) -> (r: Submission)
        ensures
            r.id == id,
            r.title == self.title,
            r.description == self.description,
            r.category == self.category,
            r.priority == self.priority,
            r.tags == self.tags,
            r.file_info == self.file_info,
            r.created_at == created_at,
    {
        Submission {
            id,
            title: self.title,
            description: self.description,
            category: self.category,
            priority: self.priority,
            tags: self.tags,
            file_info: self.file_info,
            created_at,
        }
    }

    /// The fields of a submission, as validation would have produced them.
    pub open spec fn of(s: Submission) -> ValidSubmission {
        ValidSubmission {
            title: s.title,
            description: s.description,
            category: s.category,
            priority: s.priority,
            tags: s.tags,
            file_info: s.file_info,
        }
    }
}

/// Creates a submission from a request: validates it (see
/// `validate_submission`) and, when it passes, gives it a fresh random
/// identifier and the current time.
pub fn create_submission(req: &SubmissionRequest, resolved: Option<UploadedFile>) -> (r: Result<
    Submission,
    ApiError,
>)
    ensures
        match r {
            Ok(s) => {
                &&& request_errors(*req, resolved is Some).len() == 0
                &&& passes(*req, resolved, ValidSubmission::of(s))
                &&& (s.id >> 76u128) & 15u128 == 4
                &&& (s.id >> 62u128) & 3u128 == 2
                &&& s.created_at.secs >= 0
                &&& s.created_at.nanos < 1_000_000_000
            },
            Err(e) => request_errors(*req, resolved is Some).len() > 0 && e@ == rejection(
                request_errors(*req, resolved is Some),
            ),
        },
{
    match validate_submission(req, resolved) {
        Ok(v) => {
            let id = new_uuid_v4();
            let created_at = now();
            Ok(v.into_submission(id, created_at))
        },
        Err(e) => Err(e),
    }
}

} // verus!
