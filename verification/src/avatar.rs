//! Avatar parts: where they are kept and what an upload brings.
use crate::text::{join, same_text};
use vstd::prelude::*;
use vstd::slice::slice_to_vec;

verus! {

/// A part of the avatar that can be replaced.
#[derive(Debug, Clone)]
pub struct AvatarPart {
    pub id: String,
    pub name: String,
}

/// A part and the size of its file, if it has one.
#[derive(Debug, Clone)]
pub struct PartStatus {
    pub part: AvatarPart,
    pub size: Option<u64>,
}

/// A field of an upload: its name, and its bytes unless reading them failed.
#[derive(Debug, Clone)]
pub struct UploadField {
    pub name: String,
    pub bytes: Option<Vec<u8>>,
}

/// The file of a part.
pub open spec fn file_of(id: Seq<char>) -> Seq<char> {
    "static/avatar/"@ + id
}

/// The bytes of the last field named `file` among the first `n` that could be read.
pub open spec fn last_file(fields: Seq<UploadField>, n: int) -> Option<Seq<u8>>
    decreases n,
{
    if n <= 0 {
        None
    } else if fields[n - 1].name@ == "file"@ && fields[n - 1].bytes is Some {
        Some(fields[n - 1].bytes->0@)
    } else {
        last_file(fields, n - 1)
    }
}

/// The file of a part.
pub fn part_path(id: &str) -> (r: String)
    ensures
        r@ == file_of(id@),
{
    join("static/avatar/", id)
}

/// What an upload puts into the file of a part: the bytes of the last field named `file` that
/// could be read.
pub fn upload_content(fields: &[UploadField]) -> (r: Option<Vec<u8>>)
    ensures
        match r {
            Some(bytes) => last_file(fields@, fields@.len() as int) == Some(bytes@),
            None => last_file(fields@, fields@.len() as int) is None,
        },
{
    let mut n: usize = fields.len();
    while n > 0
        invariant
            n <= fields@.len(),
            last_file(fields@, fields@.len() as int) == last_file(fields@, n as int),
        decreases n,
    {
        let f = &fields[n - 1];
        if same_text(&f.name, "file") {
            if let Some(bytes) = &f.bytes {
                return Some(slice_to_vec(bytes));
            }
        }
        n -= 1;
    }
    None
}

/// The status that an upload is answered with: whether it brought a file, and whether that
/// could be written.
pub fn upload_status(content: bool, written: bool) -> (r: u16)
    ensures
        r == (if !content {
            400
        } else if !written {
            500
        } else {
            200int
        }),
{
    if !content {
        400
    } else if !written {
        500
    } else {
        200
    }
}

/// The parts with the sizes of their files, in their order.
pub fn list_parts(parts: Vec<AvatarPart>, sizes: &[Option<u64>]) -> (out: Vec<PartStatus>)
    requires
        parts@.len() == sizes@.len(),
    ensures
        out@ == Seq::new(
            parts@.len(),
            |i: int| PartStatus { part: parts@[i], size: sizes@[i] },
        ),
{
    let mut out: Vec<PartStatus> = Vec::new();
    let mut i: usize = 0;
    for part in it: parts
        invariant
            i == it.index(),
            it.seq() == parts@,
            parts@.len() == sizes@.len(),
            out@ =~= Seq::new(
                i as nat,
                |k: int| PartStatus { part: parts@[k], size: sizes@[k] },
            ),
    {
        out.push(PartStatus { part, size: sizes[i] });
        i += 1;
    }
    out
}

/// An upload without a readable field named `file` brings nothing, whatever else it holds.
pub proof fn law_only_file_fields_count(fields: Seq<UploadField>, n: int)
    requires
        0 <= n <= fields.len(),
    ensures
        last_file(fields, n) is None <==> forall|k: int|
            0 <= k < n ==> !((#[trigger] fields[k]).name@ == "file"@ && fields[k].bytes is Some),
    decreases n,
{
    if n > 0 {
        law_only_file_fields_count(fields, n - 1);
    }
}

} // verus!
