//! File uploads: gathering the bytes of a multipart upload under the size
//! limit, naming the stored object, and the in-memory index of uploaded
//! files.

use vstd::prelude::*;
use std::collections::HashMap;
use crate::errors::{Failure, MAX_UPLOAD_SIZE, failure_response};
use crate::ids::{hyphenated, new_uuid_v4, parse_uuid, uuid_parse, uuid_text};
use crate::model::{ApiError, UploadMetadata, UploadedFile};
use crate::text::text_eq;

verus! {

broadcast use vstd::std_specs::hash::group_hash_axioms;

/// The state of an upload while its multipart body is read: the file bytes
/// so far, and the file name and content type of the file part.
pub struct UploadAccumulator {
    pub data: Vec<u8>,
    pub file_name: String,
    pub content_type: String,
}

/// An upload that is complete and named, ready to be stored.
pub struct PendingUpload {
    pub meta: UploadMetadata,
    pub data: Vec<u8>,
}

/// Where a stored object lies on local disk.
pub open spec fn local_path_spec(storage_path: Seq<char>) -> Seq<char> {
    "./uploads/"@ + storage_path
}

/// The path on local disk of a stored object.
pub fn local_path(storage_path: &str) -> (r: String)
    ensures
        r@ == local_path_spec(storage_path@),
{
    String::from_str("./uploads/").concat(storage_path)
}

/// The name under which an upload is stored: its identifier, an underscore
/// and the file name the client gave.
pub open spec fn storage_name(id: u128, file_name: Seq<char>) -> Seq<char> {
    hyphenated(id) + "_"@ + file_name
}

impl View for UploadAccumulator {
    type V = (Seq<u8>, Seq<char>, Seq<char>);

    open spec fn view(&self) -> Self::V {
        (self.data@, self.file_name@, self.content_type@)
    }
}

/// The characters of an optional text.
pub open spec fn opt_view(t: Option<&str>) -> Option<Seq<char>> {
    match t {
        Some(t) => Some(t@),
        None => None,
    }
}

/// Whether a part of a multipart body is the file part, the one named
/// `file`.
pub open spec fn is_file_part(name: Option<Seq<char>>) -> bool {
    name == Some("file"@)
}

/// The upload state (bytes, file name, content type) after a part with
/// this name, file name and content type begins.
pub open spec fn begin_part_spec(
    s: (Seq<u8>, Seq<char>, Seq<char>),
    name: Option<Seq<char>>,
    file_name: Option<Seq<char>>,
    content_type: Option<Seq<char>>,
) -> (Seq<u8>, Seq<char>, Seq<char>) {
    if is_file_part(name) {
        (
            s.0,
            match file_name {
                Some(f) => f,
                None => "file.bin"@,
            },
            match content_type {
                Some(c) => c,
                None => "application/octet-stream"@,
            },
        )
    } else {
        s
    }
}

/// The upload state after a chunk of the file part, or `None` where the
/// chunk takes the file past the size limit.
pub open spec fn add_chunk_spec(s: (Seq<u8>, Seq<char>, Seq<char>), chunk: Seq<u8>) -> Option<
    (Seq<u8>, Seq<char>, Seq<char>),
> {
    if s.0.len() + chunk.len() > MAX_UPLOAD_SIZE {
        None
    } else {
        Some((s.0 + chunk, s.1, s.2))
    }
}

/// A part of a multipart body: its name, file name, content type and
/// chunks.
pub type PartSpec = (Option<Seq<char>>, Option<Seq<char>>, Option<Seq<char>>, Seq<Seq<u8>>);

/// The upload state after these chunks of the file part, or `None` where
/// one of them is refused.
pub open spec fn chunks_spec(s: (Seq<u8>, Seq<char>, Seq<char>), chunks: Seq<Seq<u8>>) -> Option<
    (Seq<u8>, Seq<char>, Seq<char>),
>
    decreases chunks.len(),
{
    if chunks.len() == 0 {
        Some(s)
    } else {
        match add_chunk_spec(s, chunks[0]) {
            Some(t) => chunks_spec(t, chunks.drop_first()),
            None => None,
        }
    }
}

/// The upload state after reading a whole multipart body part by part, as
/// `begin_part` and `add_chunk` do it: the chunks of the file part are
/// added, those of other parts are not read. `None` where a chunk is
/// refused for size.
pub open spec fn body_spec(s: (Seq<u8>, Seq<char>, Seq<char>), parts: Seq<PartSpec>) -> Option<
    (Seq<u8>, Seq<char>, Seq<char>),
>
    decreases parts.len(),
{
    if parts.len() == 0 {
        Some(s)
    } else {
        let p = parts[0];
        let t = begin_part_spec(s, p.0, p.1, p.2);
        let u = if is_file_part(p.0) {
            chunks_spec(t, p.3)
        } else {
            Some(t)
        };
        match u {
            Some(v) => body_spec(v, parts.drop_first()),
            None => None,
        }
    }
}

/// The parts named `file` of a body, in order.
pub open spec fn file_parts(parts: Seq<PartSpec>) -> Seq<PartSpec>
    decreases parts.len(),
{
    if parts.len() == 0 {
        parts
    } else if is_file_part(parts[0].0) {
        seq![parts[0]] + file_parts(parts.drop_first())
    } else {
        file_parts(parts.drop_first())
    }
}

proof fn lemma_body_only_file_parts(s: (Seq<u8>, Seq<char>, Seq<char>), parts: Seq<PartSpec>)
    ensures
        body_spec(s, parts) == body_spec(s, file_parts(parts)),
    decreases parts.len(),
{
    if parts.len() > 0 {
        let p = parts[0];
        let rest = parts.drop_first();
        if is_file_part(p.0) {
            let f = file_parts(parts);
            assert(f[0] == p);
            assert(f.drop_first() =~= file_parts(rest));
            let t = begin_part_spec(s, p.0, p.1, p.2);
            match chunks_spec(t, p.3) {
                Some(v) => lemma_body_only_file_parts(v, rest),
                None => {},
            }
        } else {
            lemma_body_only_file_parts(s, rest);
        }
    }
}

/// Parts not named `file` change nothing: two multipart bodies with the
/// same file parts, in the same order, leave the same upload state (or are
/// both refused for size), whatever their other parts.
pub proof fn other_parts_change_nothing(
    s: (Seq<u8>, Seq<char>, Seq<char>),
    body1: Seq<PartSpec>,
    body2: Seq<PartSpec>,
)
    requires
        file_parts(body1) == file_parts(body2),
    ensures
        body_spec(s, body1) == body_spec(s, body2),
{
    lemma_body_only_file_parts(s, body1);
    lemma_body_only_file_parts(s, body2);
}

impl UploadAccumulator {
    /// No more file bytes than the limit allows.
    pub open spec fn wf(&self) -> bool {
        self.data@.len() <= MAX_UPLOAD_SIZE
    }

    /// An empty upload, with the default file name and content type.
    pub fn new() -> (r: Self)
        ensures
            r.wf(),
            r.data@.len() == 0,
            r.file_name@ == "unknown.bin"@,
            r.content_type@ == "application/octet-stream"@,
    {
        UploadAccumulator {
            data: Vec::new(),
            file_name: String::from_str("unknown.bin"),
            content_type: String::from_str("application/octet-stream"),
        }
    }

    /// A new part of the multipart body begins. Only the part named `file`
    /// is read: then its file name (by default `file.bin`) and content type
    /// (by default `application/octet-stream`) replace the current ones, and
    /// the answer is `true`, so that its chunks are to be added. The bytes
    /// gathered so far are kept either way.
    pub fn begin_part(
        &mut self,
        name: Option<&str>,
        file_name: Option<&str>,
        content_type: Option<&str>,
    ) -> (r: bool)
        ensures
            r == (name is Some && name->0@ == "file"@),
            final(self)@ == begin_part_spec(old(self)@, opt_view(name), opt_view(file_name), opt_view(content_type)),
            final(self).data == old(self).data,
            r ==> final(self).file_name@ == (match file_name {
                Some(f) => f@,
                None => "file.bin"@,
            }),
            r ==> final(self).content_type@ == (match content_type {
                Some(c) => c@,
                None => "application/octet-stream"@,
            }),
            !r ==> final(self).file_name == old(self).file_name,
            !r ==> final(self).content_type == old(self).content_type,
    {
        let is_file = match name {
            Some(n) => text_eq(n, "file"),
            None => false,
        };
        if is_file {
            self.file_name = match file_name {
                Some(f) => String::from_str(f),
                None => String::from_str("file.bin"),
            };
            self.content_type = match content_type {
                Some(c) => String::from_str(c),
                None => String::from_str("application/octet-stream"),
            };
        }
        is_file
    }

    /// Adds a chunk of the file part. A chunk that would take the file past
    /// `MAX_UPLOAD_SIZE` is refused with `Failure::TooLarge`'s answer and
    /// nothing is added.
    pub fn add_chunk(&mut self, chunk: &[u8]) -> (r: Result<(), ApiError>)
        requires
            old(self).wf(),
        ensures
            final(self).wf(),
            final(self).file_name == old(self).file_name,
            final(self).content_type == old(self).content_type,
            old(self).data@.len() + chunk@.len() > MAX_UPLOAD_SIZE ==> {
                &&& r is Err
                &&& r->Err_0@ == failure_response(Failure::TooLarge)
                &&& final(self).data@ == old(self).data@
            },
            old(self).data@.len() + chunk@.len() <= MAX_UPLOAD_SIZE ==> {
                &&& r is Ok
                &&& final(self).data@ == old(self).data@ + chunk@
            },
            match add_chunk_spec(old(self)@, chunk@) {
                Some(t) => r is Ok && final(self)@ == t,
                None => r is Err && final(self)@ == old(self)@,
            },
    {
        if chunk.len() > MAX_UPLOAD_SIZE - self.data.len() {
            return Err(Failure::TooLarge.response());
        }
        let ghost before = self.data@;
        let mut i: usize = 0;
        while i < chunk.len()
            invariant
                i <= chunk@.len(),
                before.len() + chunk@.len() <= MAX_UPLOAD_SIZE,
                self.data@ == before + chunk@.take(i as int),
                self.file_name == old(self).file_name,
                self.content_type == old(self).content_type,
            decreases chunk@.len() - i,
        {
            self.data.push(chunk[i]);
            assert(chunk@.take(i + 1) =~= chunk@.take(i as int).push(chunk@[i as int]));
            i = i + 1;
        }
        assert(chunk@.take(chunk@.len() as int) =~= chunk@);
        Ok(())
    }

    /// Completes the upload under the identifier `id`. An upload without any
    /// file byte is refused with `Failure::NoFile`'s answer; otherwise the
    /// metadata records the name, type and size, and the stored name
    /// `<id>_<file name>`.
    pub fn finish_with_id(self, id: u128) -> (r: Result<PendingUpload, ApiError>)
        ensures
            self.data@.len() == 0 ==> r is Err && r->Err_0@ == failure_response(Failure::NoFile),
            self.data@.len() > 0 ==> {
                &&& r is Ok
                &&& r->Ok_0.meta@ == (
                    id,
                    self.file_name@,
                    self.content_type@,
                    self.data@.len() as usize,
                    storage_name(id, self.file_name@),
                )
                &&& r->Ok_0.data@ == self.data@
            },
    {
        if self.data.len() == 0 {
            return Err(Failure::NoFile.response());
        }
        let mut storage = uuid_text(id);
        storage.append("_");
        storage.append(self.file_name.as_str());
        let size = self.data.len();
        let meta = UploadMetadata {
            file_id: id,
            file_name: self.file_name,
            mime_type: self.content_type,
            size_bytes: size,
            storage_path: storage,
        };
        Ok(PendingUpload { meta, data: self.data })
    }

    /// Completes the upload under a fresh random identifier (see
    /// `finish_with_id`).
    pub fn finish(self) -> (r: Result<PendingUpload, ApiError>)
        ensures
            self.data@.len() == 0 ==> r is Err && r->Err_0@ == failure_response(Failure::NoFile),
            self.data@.len() > 0 ==> {
                &&& r is Ok
                &&& (r->Ok_0.meta.file_id >> 76u128) & 15u128 == 4
                &&& (r->Ok_0.meta.file_id >> 62u128) & 3u128 == 2
                &&& r->Ok_0.meta.file_name@ == self.file_name@
                &&& r->Ok_0.meta.mime_type@ == self.content_type@
                &&& r->Ok_0.meta.size_bytes == self.data@.len()
                &&& r->Ok_0.meta.storage_path@ == storage_name(
                    r->Ok_0.meta.file_id,
                    self.file_name@,
                )
                &&& r->Ok_0.data@ == self.data@
            },
    {
        if self.data.len() == 0 {
            return Err(Failure::NoFile.response());
        }
        let id = new_uuid_v4();
        self.finish_with_id(id)
    }
}

/// The files uploaded while the service runs, by identifier.
pub struct UploadStore {
    files: HashMap<u128, UploadMetadata>,
}

impl View for UploadStore {
    type V = Map<u128, (u128, Seq<char>, Seq<char>, usize, Seq<char>)>;

    closed spec fn view(&self) -> Self::V {
        self.files@.map_values(|m: UploadMetadata| m@)
    }
}

impl UploadStore {
    /// A store without files.
    pub fn new() -> (r: Self)
        ensures
            r@ == Map::<u128, (u128, Seq<char>, Seq<char>, usize, Seq<char>)>::empty(),
    {
        let r = UploadStore { files: HashMap::new() };
        assert(r@ =~= Map::<u128, (u128, Seq<char>, Seq<char>, usize, Seq<char>)>::empty());
        r
    }

    /// Records a file under its identifier, replacing any earlier record.
    pub fn insert(&mut self, meta: UploadMetadata)
        ensures
            final(self)@ == old(self)@.insert(meta.file_id, meta@),
    {
        let ghost m = meta@;
        let id = meta.file_id;
        self.files.insert(id, meta);
        assert(self@ =~= old(self)@.insert(id, m));
    }

    /// The record of the file with this identifier, if any.
    pub fn get(&self, id: u128) -> (r: Option<UploadMetadata>)
        ensures
            match r {
                Some(m) => self@.contains_key(id) && m@ == self@[id],
                None => !self@.contains_key(id),
            },
    {
        match self.files.get(&id) {
            Some(m) => Some(m.duplicate()),
            None => None,
        }
    }
}


/// After a file is recorded, looking up its identifier gives its record,
/// and every other identifier gives what it gave before.
pub proof fn lookup_after_insert(before: UploadStore, after: UploadStore, meta: UploadMetadata, other: u128)
    requires
        after@ == before@.insert(meta.file_id, meta@),
    ensures
        after@.contains_key(meta.file_id),
        after@[meta.file_id] == meta@,
        other != meta.file_id ==> (after@.contains_key(other) == before@.contains_key(other)),
        other != meta.file_id && before@.contains_key(other) ==> after@[other] == before@[other],
{
}

/// Reads the file identifier in a request path; a text that is not a UUID
/// is refused with `Failure::InvalidFileId`'s answer.
pub fn parse_file_id(id: &str) -> (r: Result<u128, ApiError>)
    ensures
        match uuid_parse(id@) {
            Some(u) => r == Ok::<u128, ApiError>(u),
            None => r is Err && r->Err_0@ == failure_response(Failure::InvalidFileId),
        },
{
    match parse_uuid(id) {
        Some(u) => Ok(u),
        None => Err(Failure::InvalidFileId.response()),
    }
}

/// The metadata of a file: what the database returned for it when it
/// returned something, and otherwise the in-memory record, if any.
pub fn resolve_metadata(db: Option<UploadMetadata>, store: &UploadStore, id: u128) -> (r: Option<
    UploadMetadata,
>)
    ensures
        db is Some ==> r == db,
        db is None ==> match r {
            Some(m) => store@.contains_key(id) && m@ == store@[id],
            None => !store@.contains_key(id),
        },
{
    match db {
        Some(m) => Some(m),
        None => store.get(id),
    }
}

/// The public description of a referenced file: what the database returned
/// for it when it returned something, and otherwise the in-memory record's,
/// if any.
pub fn resolve_upload(db: Option<UploadedFile>, store: &UploadStore, id: u128) -> (r: Option<
    UploadedFile,
>)
    ensures
        db is Some ==> r == db,
        db is None ==> match r {
            Some(f) => store@.contains_key(id) && f@ == (
                store@[id].0,
                store@[id].1,
                store@[id].2,
                store@[id].3,
            ),
            None => !store@.contains_key(id),
        },
{
    match db {
        Some(f) => Some(f),
        None => match store.get(id) {
            Some(m) => Some(m.to_uploaded_file()),
            None => None,
        },
    }
}

} // verus!
