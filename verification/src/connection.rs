//! What the server learns from a request, and what it answers.

use vstd::prelude::*;
use crate::assoc::get;
use crate::error::ErrorKind;
use crate::text::{before_colon, concat, head_before_colon, underscore, underscored};

verus! {

/// The content of a list of headers.
pub open spec fn header_models(headers: Seq<(String, String)>) -> Seq<(Seq<char>, Seq<char>)> {
    Seq::new(headers.len(), |i: int| (headers[i].0@, headers[i].1@))
}

/// The value of the first header named `name`, or `fallback` where there
/// is none.
pub open spec fn header_or(
    headers: Seq<(Seq<char>, Seq<char>)>,
    name: Seq<char>,
    fallback: Seq<char>,
) -> Seq<char> {
    match get(headers, name) {
        Some(v) => v,
        None => fallback,
    }
}

/// Looks up the first header named `name`.
pub fn find_header<'a>(headers: &'a Vec<(String, String)>, name: &str) -> (r: Option<&'a String>)
    ensures
        match r {
            Some(v) => get(header_models(headers@), name@) == Some(v@),
            None => get(header_models(headers@), name@) is None,
        },
{
    let wanted = name.to_string();
    let mut i: usize = 0;
    while i < headers.len() && headers[i].0 != wanted
        invariant
            i <= headers.len(),
            wanted@ == name@,
            crate::assoc::key_index(header_models(headers@), name@, 0) == crate::assoc::key_index(
                header_models(headers@),
                name@,
                i as int,
            ),
        decreases headers.len() - i,
    {
        i += 1;
    }
    if i < headers.len() {
        Some(&headers[i].1)
    } else {
        None
    }
}

/// Reads a header, or a fallback.
fn header_value(headers: &Vec<(String, String)>, name: &str, fallback: &str) -> (r: String)
    ensures
        r@ == header_or(header_models(headers@), name@, fallback@),
{
    match find_header(headers, name) {
        Some(v) => v.clone(),
        None => fallback.to_string(),
    }
}

/// What a request says of its sender and of its upload.
#[derive(Debug)]
pub struct Connection {
    /// Who sends the request.
    pub username: String,
    /// The credential of the sender.
    pub password: String,
    /// The name under which the upload is stored.
    pub filename: String,
    /// The collection of the upload.
    pub collection: String,
    /// The revision id, or for an upload the hash of the archive.
    pub filehash: String,
    /// An error that was met while the request was read.
    pub err: Option<String>,
}

/// The sender that is assumed where a request names none.
pub open spec fn default_user() -> Seq<char> {
    "admin"@
}

impl Connection {
    /// Reads the headers of a request. A request without a `username` is
    /// taken to come from the administrator; any other header that is
    /// missing is taken as empty.
    pub fn get_conn_info(headers: &Vec<(String, String)>) -> (c: Connection)
        ensures
            c.username@ == header_or(header_models(headers@), "username"@, default_user()),
            c.password@ == header_or(header_models(headers@), "password"@, Seq::empty()),
            c.filename@ == header_or(header_models(headers@), "filename"@, Seq::empty()),
            c.filehash@ == header_or(header_models(headers@), "filehash"@, Seq::empty()),
            c.collection@ == header_or(header_models(headers@), "collection"@, Seq::empty()),
            c.err is None,
    {
        proof {
            reveal_strlit("");
            assert(""@ =~= Seq::<char>::empty());
        }
        Connection {
            username: header_value(headers, "username", "admin"),
            password: header_value(headers, "password", ""),
            filename: header_value(headers, "filename", ""),
            collection: header_value(headers, "collection", ""),
            filehash: header_value(headers, "filehash", ""),
            err: None,
        }
    }

    /// The collection that a revision id belongs to: the part of the id
    /// before its first colon.
    pub fn collection_of(&self) -> (r: String)
        ensures
            r@ == before_colon(self.filehash@),
    {
        head_before_colon(self.filehash.as_str())
    }

    /// The name of the stored archive: the given name, or the hash where no
    /// name was given.
    pub fn stored_name(&self) -> (r: String)
        ensures
            r@ == stored_name(self.filename@, self.filehash@),
    {
        if self.filename.as_str().is_empty() {
            self.filehash.clone()
        } else {
            self.filename.clone()
        }
    }

    /// The path at which the archive is written.
    pub fn upload_path(&self, data_path: &str) -> (r: String)
        ensures
            r@ == archive_path(data_path@, stored_name(self.filename@, self.filehash@)),
    {
        let name = self.stored_name();
        let stem = concat(data_path, name.as_str());
        concat(stem.as_str(), ".tar.gz")
    }

    /// Gives the upload another name where the path it would be written to
    /// is taken: the old name, an underscore and the time stamp, with an
    /// underscore for each space. Returns the new path.
    pub fn rename_taken(&mut self, data_path: &str, stamp: &str) -> (r: String)
        ensures
            final(self).filename@ == suffixed(old(self).filename@, stamp@),
            r@ == archive_path(data_path@, final(self).filename@),
            *final(self) == (Connection { filename: final(self).filename, ..*old(self) }),
    {
        let marked = concat(self.filename.as_str(), "_");
        let stamped = underscore(stamp);
        proof {
            reveal_strlit("_");
            assert("_"@ =~= seq!['_']);
        }
        self.filename = concat(marked.as_str(), stamped.as_str());
        let stem = concat(data_path, self.filename.as_str());
        concat(stem.as_str(), ".tar.gz")
    }
}

/// The name of a stored archive.
pub open spec fn stored_name(filename: Seq<char>, filehash: Seq<char>) -> Seq<char> {
    if filename.len() == 0 {
        filehash
    } else {
        filename
    }
}

/// The path of a stored archive.
pub open spec fn archive_path(data_path: Seq<char>, name: Seq<char>) -> Seq<char> {
    data_path + name + ".tar.gz"@
}

/// A name with a time stamp behind it.
pub open spec fn suffixed(name: Seq<char>, stamp: Seq<char>) -> Seq<char> {
    name + seq!['_'] + underscored(stamp)
}

/// The answer to a check for a revision id that the store does not hold.
pub open spec fn missing_name() -> Seq<char> {
    "DNE"@
}

/// Whether an upload is admitted: not where the store already holds
/// `existing` records of its revision id, and `existing` is not zero.
pub fn admit_upload(existing: usize) -> (r: Result<(), ErrorKind>)
    ensures
        match r {
            Ok(()) => existing == 0,
            Err(e) => e == ErrorKind::DedupConflict && existing > 0,
        },
{
    if existing > 0 {
        Err(ErrorKind::DedupConflict)
    } else {
        Ok(())
    }
}

/// The answer to a check: the name of the upload that holds the revision,
/// or `DNE` where the store holds none.
pub fn check_reply(found: Option<&String>) -> (r: String)
    ensures
        r@ == match found {
            Some(name) => name@,
            None => missing_name(),
        },
{
    match found {
        Some(name) => name.clone(),
        None => "DNE".to_string(),
    }
}

/// The status code of a request that failed.
pub const STATUS_UNAUTHORIZED: u16 = 401;

/// The answer to a request that failed, for whatever reason: the status
/// that refuses the request, and the message as the body.
pub fn failure_reply(message: &str) -> (r: (u16, String))
    ensures
        r.0 == STATUS_UNAUTHORIZED,
        r.1@ == message@,
{
    (STATUS_UNAUTHORIZED, message.to_string())
}

/// The acknowledgment of an upload.
pub fn upload_reply(filename: &str) -> (r: String)
    ensures
        r@ == "New file created: "@ + filename@,
{
    concat("New file created: ", filename)
}

/// What a request asks for.
#[derive(Clone, Copy, Debug, PartialEq, Eq, Structural)]
pub enum Route {
    /// To store an archive.
    Upload,
    /// To tell whether a revision id is in the store.
    Check,
    /// To send the latest archive of a collection.
    Update,
    /// To sweep the files that no record names.
    Cleanup,
    /// To provision credentials.
    Register,
    /// Anything else.
    Other,
}

/// What a request for the first segment `segment` of a path asks for, sent
/// by `POST` or not.
pub open spec fn route_of(post: bool, segment: Seq<char>) -> Route {
    if !post {
        Route::Other
    } else if segment == "upload"@ {
        Route::Upload
    } else if segment == "check"@ {
        Route::Check
    } else if segment == "update"@ {
        Route::Update
    } else if segment == "cleanup"@ {
        Route::Cleanup
    } else if segment == "register"@ {
        Route::Register
    } else {
        Route::Other
    }
}

/// Tells what a request asks for.
pub fn route(post: bool, segment: &str) -> (r: Route)
    ensures
        r == route_of(post, segment@),
{
    let s = segment.to_string();
    if !post {
        Route::Other
    } else if s == "upload".to_string() {
        Route::Upload
    } else if s == "check".to_string() {
        Route::Check
    } else if s == "update".to_string() {
        Route::Update
    } else if s == "cleanup".to_string() {
        Route::Cleanup
    } else if s == "register".to_string() {
        Route::Register
    } else {
        Route::Other
    }
}

} // verus!
