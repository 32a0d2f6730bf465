//! Data carried to and from the remote storage collaborator.
//!
//! The storage service itself (authenticated uploads and folder listings over
//! HTTP) is an external collaborator and lives outside this crate; these are
//! the plain shapes of what it returns, and the startup arithmetic on them:
//! how many slots must still be provisioned, and the identifier list a pool
//! is built from.

use vstd::prelude::*;

verus! {

/// A stored file as the storage service describes it.
#[derive(Debug, Clone)]
pub struct GDriveFile {
    pub id: String,
    pub web_content_link: String,
}

/// The storage service's answer to an upload.
#[derive(Debug, Clone)]
pub struct GDriveUploaded {
    pub kind: String,
    pub id: String,
    pub name: String,
    pub mime_type: String,
    pub drive_id: Option<String>,
}

/// One page of a folder listing.
#[derive(Debug, Clone)]
pub struct GDriveChildList {
    pub next_page_token: Option<String>,
    pub next_link: Option<String>,
    pub items: Vec<GDriveChild>,
}

/// One child of a listed folder.
#[derive(Debug, Clone)]
pub struct GDriveChild {
    pub id: String,
    pub self_link: String,
    pub child_link: String,
}

/// Extract the slot identifiers from a folder listing, in listing order.
pub fn child_ids(list: &GDriveChildList) -> (r: Vec<String>)
    ensures
        r@.len() == list.items@.len(),
        forall|j: int| 0 <= j < r@.len() ==> #[trigger] r@[j]@ == list.items@[j].id@,
{
    let mut r: Vec<String> = Vec::new();
    let mut i: usize = 0;
    while i < list.items.len()
        invariant
            i <= list.items@.len(),
            r@.len() == i,
            forall|j: int| 0 <= j < i ==> #[trigger] r@[j]@ == list.items@[j].id@,
        decreases list.items@.len() - i,
    {
        r.push(list.items[i].id.clone());
        i = i + 1;
    }
    r
}

/// How many slots must still be created so that `file_count` exist, given how
/// many the startup listing already found.
pub fn slots_missing(existing: usize, file_count: u16) -> (n: usize)
    ensures
        existing >= file_count ==> n == 0,
        existing < file_count ==> n == file_count - existing,
        existing + n >= file_count,
{
    if existing >= file_count as usize {
        0
    } else {
        file_count as usize - existing
    }
}

} // verus!
