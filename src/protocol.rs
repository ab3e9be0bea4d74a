//! The exchange between client and server: the client sends its manifest
//! followed by a blank line, and the server answers with an archive of the
//! paths it chose by diffing that manifest against its own.

use vstd::prelude::*;
use vstd::string::*;
use crate::diff::{diff, diff_paths, paths_view};
use crate::json::{
    ManifestError, all_strings, json_object_members, members_manifest, parse_manifest,
};

verus! {

/// The manifest body of a request, gathered line by line until the first
/// blank line.
pub struct ManifestRequest {
    body: String,
    complete: bool,
}

impl ManifestRequest {
    /// The lines gathered so far, joined without separators.
    pub closed spec fn body_view(&self) -> Seq<char> {
        self.body@
    }

    /// Whether the blank line that ends the manifest has been seen.
    pub closed spec fn is_complete(&self) -> bool {
        self.complete
    }

    /// A request with no line yet.
    pub fn new() -> (r: ManifestRequest)
        ensures
            r.body_view() == Seq::<char>::empty(),
            !r.is_complete(),
    {
        ManifestRequest { body: String::new(), complete: false }
    }

    /// Takes the next line read from the connection, without its line
    /// ending. Returns whether more lines are wanted: a blank line ends the
    /// manifest, and a complete request takes no more lines.
    pub fn push_line(&mut self, line: &str) -> (more: bool)
        ensures
            more == !final(self).is_complete(),
            old(self).is_complete() ==> *final(self) == *old(self),
            !old(self).is_complete() && line@.len() == 0 ==> final(self).is_complete()
                && final(self).body_view() == old(self).body_view(),
            !old(self).is_complete() && line@.len() > 0 ==> !final(self).is_complete()
                && final(self).body_view() == old(self).body_view() + line@,
    {
        if self.complete {
            return false;
        }
        if line.unicode_len() == 0 {
            self.complete = true;
            false
        } else {
            self.body.append(line);
            true
        }
    }

    /// Whether the blank line has been seen.
    pub fn complete(&self) -> (r: bool)
        ensures
            r == self.is_complete(),
    {
        self.complete
    }

    /// The manifest text gathered so far.
    pub fn body(&self) -> (r: &str)
        ensures
            r@ == self.body_view(),
    {
        self.body.as_str()
    }
}

/// The bytes a client sends for a manifest: its text, then a line ending and
/// the blank line that ends the manifest.
pub fn frame_manifest(text: &str) -> (r: String)
    ensures
        r@ == text@ + "\r\n\r\n"@,
{
    let mut r = String::from_str(text);
    r.append("\r\n\r\n");
    r
}

/// Splits a `host/resource` address at its first `/`; `None` where it has
/// none.
pub fn split_uri(uri: &str) -> (r: Option<(String, String)>)
    ensures
        r is None <==> !uri@.contains('/'),
        r matches Some((host, resource)) ==> !host@.contains('/') && uri@ == host@ + seq!['/']
            + resource@,
{
    let n = uri.unicode_len();
    let mut i: usize = 0;
    while i < n
        invariant
            i <= n,
            n == uri@.len(),
            forall|j: int| 0 <= j < i ==> uri@[j] != '/',
        decreases n - i,
    {
        if uri.get_char(i) == '/' {
            let host = String::from_str(uri.substring_char(0, i));
            let resource = String::from_str(uri.substring_char(i + 1, n));
            proof {
                assert(uri@ =~= host@ + seq!['/'] + resource@);
                if host@.contains('/') {
                    let k = choose|k: int| 0 <= k < host@.len() && host@[k] == '/';
                    assert(uri@[k] == '/');
                }
                assert(uri@.contains('/'));
            }
            return Some((host, resource));
        }
        i += 1;
    }
    None
}

/// The manifest that a text holds, where it holds one: a JSON object whose
/// values are all strings.
pub open spec fn manifest_of_text(t: Seq<char>) -> Option<Seq<(Seq<char>, Seq<char>)>> {
    match json_object_members(t) {
        Some(e) => if all_strings(e) {
            Some(members_manifest(e))
        } else {
            None
        },
        None => None,
    }
}

/// Why a request gets no archive.
pub enum TransferError {
    /// The client's manifest could not be read.
    BadRequest(ManifestError),
    /// The server's own manifest could not be read.
    BadServerManifest(ManifestError),
}

/// The paths that the server sends in answer to a request: the diff of the
/// client's manifest against the server's.
pub fn plan_transfer(request: &str, server: &str) -> (r: Result<Vec<String>, TransferError>)
    ensures
        r is Ok <==> manifest_of_text(request@) is Some && manifest_of_text(server@) is Some,
        r matches Ok(v) ==> paths_view(v@) == diff_paths(
            manifest_of_text(request@)->0,
            manifest_of_text(server@)->0,
        ),
        r matches Err(TransferError::BadRequest(_)) ==> manifest_of_text(request@) is None,
        r matches Err(TransferError::BadServerManifest(_)) ==> manifest_of_text(request@) is Some
            && manifest_of_text(server@) is None,
{
    let client = match parse_manifest(request) {
        Ok(m) => m,
        Err(e) => {
            return Err(TransferError::BadRequest(e));
        },
    };
    let own = match parse_manifest(server) {
        Ok(m) => m,
        Err(e) => {
            return Err(TransferError::BadServerManifest(e));
        },
    };
    Ok(diff(&client, &own))
}

} // verus!
