//! The copier's decisions about its source and destination, made from what
//! the file system was found to hold.

use vstd::prelude::*;
use vstd::string::*;
use crate::paths::{join_path, joined_path, parent_of, parent_path};

verus! {

/// A message of the form `{head}{path}{tail}`.
pub open spec fn about(head: Seq<char>, path: Seq<char>, tail: Seq<char>) -> Seq<char> {
    head + path + tail
}

fn message(head: &str, path: &str, tail: &str) -> (m: String)
    ensures
        m@ == about(head@, path@, tail@),
{
    let mut m = head.to_owned();
    m.append(path);
    m.append(tail);
    m
}

/// What was found about the source path.
#[derive(Clone, Copy, Debug)]
pub struct SourceFacts {
    /// The path itself is a symbolic link.
    pub is_symlink: bool,
    /// Something exists at the path (following links).
    pub exists: bool,
    /// What exists at the path is a regular file (following links).
    pub is_file: bool,
}

/// Accepts the source only when it is a regular file that is not a
/// symbolic link; otherwise says why not, in this order of precedence:
/// a symbolic link, nothing there, not a file.
pub fn resolve_source(src: String, facts: SourceFacts) -> (r: Result<String, String>)
    ensures
        facts.is_symlink ==> (r matches Err(m) && m@ == about(
            "source("@,
            src@,
            ") is a symlink!"@,
        )),
        !facts.is_symlink && !facts.exists ==> (r matches Err(m) && m@ == about(
            "source("@,
            src@,
            ") not exists!"@,
        )),
        !facts.is_symlink && facts.exists && !facts.is_file ==> (r matches Err(m) && m@ == about(
            "source("@,
            src@,
            ") is not a file!"@,
        )),
        !facts.is_symlink && facts.exists && facts.is_file ==> (r matches Ok(p) && p@ == src@),
{
    if facts.is_symlink {
        Err(message("source(", src.as_str(), ") is a symlink!"))
    } else if !facts.exists {
        Err(message("source(", src.as_str(), ") not exists!"))
    } else if facts.is_file {
        Ok(src)
    } else {
        Err(message("source(", src.as_str(), ") is not a file!"))
    }
}

/// What was found about the destination path.
#[derive(Clone, Copy, Debug)]
pub struct DestinationFacts {
    /// The path or one of its ancestors is an existing symbolic link.
    pub has_symlink_component: bool,
    /// Something exists at the path (following links).
    pub exists: bool,
    /// What exists at the path is a directory (following links).
    pub is_dir: bool,
}

/// Where the copy goes, and the directory to create first, if any.
#[derive(Debug)]
pub struct DestinationPlan {
    pub create_dir: Option<String>,
    pub resolved: String,
}

/// The message for a destination that passes through a symbolic link.
pub open spec fn symlink_destination(path: Seq<char>) -> Seq<char> {
    "destination path contains a symlink component: "@ + path
}

/// Decides where a copy of a file named `src_filename` goes when it is
/// asked to go to `dst`: a destination through a symbolic link is refused;
/// a missing destination is the target, its parent directory to be created;
/// an existing directory receives the file under its name; any other
/// existing destination is the target itself.
pub fn plan_destination(dst: String, src_filename: &str, facts: DestinationFacts) -> (r: Result<
    DestinationPlan,
    String,
>)
    ensures
        facts.has_symlink_component ==> (r matches Err(m) && m@ == symlink_destination(dst@)),
        !facts.has_symlink_component && !facts.exists ==> (r matches Ok(plan) && plan.resolved@
            == dst@ && match plan.create_dir {
            Some(dir) => parent_path(dst@) == Some(dir@),
            None => parent_path(dst@) is None,
        }),
        !facts.has_symlink_component && facts.exists && facts.is_dir ==> (r matches Ok(plan)
            && plan.resolved@ == joined_path(dst@, src_filename@) && plan.create_dir is None),
        !facts.has_symlink_component && facts.exists && !facts.is_dir ==> (r matches Ok(plan)
            && plan.resolved@ == dst@ && plan.create_dir is None),
{
    if facts.has_symlink_component {
        let mut m = "destination path contains a symlink component: ".to_owned();
        m.append(dst.as_str());
        return Err(m);
    }
    if !facts.exists {
        let parent = parent_of(dst.as_str());
        Ok(DestinationPlan { create_dir: parent, resolved: dst })
    } else if facts.is_dir {
        let resolved = join_path(dst.as_str(), src_filename);
        Ok(DestinationPlan { create_dir: None, resolved })
    } else {
        Ok(DestinationPlan { create_dir: None, resolved: dst })
    }
}

/// The message for a destination directory that could not be created.
pub fn create_dir_failure(dir: &str, error: &str) -> (m: String)
    ensures
        m@ == about("failed to create destination directory("@, dir@, "): "@ + error@),
{
    let mut m = message("failed to create destination directory(", dir, "): ");
    m.append(error);
    assert(m@ =~= about("failed to create destination directory("@, dir@, "): "@ + error@));
    m
}

/// Accepts the resolved destination only when no component of it is a
/// symbolic link.
pub fn check_resolved_destination(resolved: String, has_symlink_component: bool) -> (r: Result<
    String,
    String,
>)
    ensures
        has_symlink_component ==> (r matches Err(m) && m@ == symlink_destination(resolved@)),
        !has_symlink_component ==> (r matches Ok(p) && p@ == resolved@),
{
    if has_symlink_component {
        let mut m = "destination path contains a symlink component: ".to_owned();
        m.append(resolved.as_str());
        Err(m)
    } else {
        Ok(resolved)
    }
}

/// The device and inode that identify a file.
#[derive(Clone, Copy, Debug)]
pub struct FileIdentity {
    pub device: u64,
    pub inode: u64,
}

/// What was found when comparing the source with an existing destination:
/// the canonical forms of both paths and the identities of both files, or
/// the messages of the errors met in finding them.
#[derive(Debug)]
pub struct SameFileFacts {
    pub destination_exists: bool,
    pub canonical_source: Result<Vec<u8>, String>,
    pub canonical_destination: Result<Vec<u8>, String>,
    pub source_identity: Result<FileIdentity, String>,
    pub destination_identity: Result<FileIdentity, String>,
}

/// The message for a source that is the destination.
pub open spec fn same_file() -> Seq<char> {
    "source and destination is same!"@
}

/// The verdict on copying `src` to `dst`: a missing destination is fine;
/// otherwise the first failure to canonicalize or to stat (source first) is
/// reported, and the copy is refused when both canonical paths or both file
/// identities agree.
pub open spec fn same_file_verdict(src: Seq<char>, dst: Seq<char>, f: SameFileFacts) -> Result<
    (),
    Seq<char>,
> {
    if !f.destination_exists {
        Ok(())
    } else {
        match (f.canonical_source, f.canonical_destination) {
            (Err(e), _) => Err(about("failed to canonicalize source("@, src, "): "@ + e@)),
            (Ok(_), Err(e)) => Err(about("failed to canonicalize destination("@, dst, "): "@ + e@)),
            (Ok(cs), Ok(cd)) => if cs@ == cd@ {
                Err(same_file())
            } else {
                match (f.source_identity, f.destination_identity) {
                    (Err(e), _) => Err(about("failed to stat source("@, src, "): "@ + e@)),
                    (Ok(_), Err(e)) => Err(about("failed to stat destination("@, dst, "): "@ + e@)),
                    (Ok(a), Ok(b)) => if a.device == b.device && a.inode == b.inode {
                        Err(same_file())
                    } else {
                        Ok(())
                    },
                }
            },
        }
    }
}

/// The contents of a result whose error is a message.
pub open spec fn message_view(r: Result<(), String>) -> Result<(), Seq<char>> {
    match r {
        Ok(()) => Ok(()),
        Err(m) => Err(m@),
    }
}

fn bytes_equal(a: &Vec<u8>, b: &Vec<u8>) -> (r: bool)
    ensures
        r == (a@ == b@),
{
    if a.len() != b.len() {
        return false;
    }
    let n = a.len();
    let mut i: usize = 0;
    while i < n
        invariant
            i <= n,
            n == a@.len(),
            n == b@.len(),
            forall|k: int| 0 <= k < i ==> a@[k] == b@[k],
        decreases n - i,
    {
        if a[i] != b[i] {
            return false;
        }
        i = i + 1;
    }
    assert(a@ =~= b@);
    true
}

fn failure(head: &str, path: &str, error: &String) -> (r: Result<(), String>)
    ensures
        message_view(r) == Err::<(), Seq<char>>(about(head@, path@, "): "@ + error@)),
{
    let mut m = message(head, path, "): ");
    m.append(error.as_str());
    assert(m@ =~= about(head@, path@, "): "@ + error@));
    Err(m)
}

/// A file is never copied onto itself: when the destination exists and
/// both paths and both files could be examined, the copy is refused if the
/// canonical paths agree, and it is refused if the two files have the same
/// device and inode (a hard link), whatever their paths.
pub proof fn lemma_same_file_refused(src: Seq<char>, dst: Seq<char>, f: SameFileFacts)
    requires
        f.destination_exists,
        f.canonical_source is Ok,
        f.canonical_destination is Ok,
        f.source_identity is Ok,
        f.destination_identity is Ok,
        f.canonical_source->Ok_0@ == f.canonical_destination->Ok_0@ || (
        f.source_identity->Ok_0.device == f.destination_identity->Ok_0.device
            && f.source_identity->Ok_0.inode == f.destination_identity->Ok_0.inode),
    ensures
        same_file_verdict(src, dst, f) == Err::<(), Seq<char>>(
            "source and destination is same!"@,
        ),
{
}

/// A copy onto an existing destination is allowed only when both paths and
/// both files could be examined, the canonical paths differ, and the files
/// differ in device or inode; a missing destination is always allowed.
pub proof fn lemma_copy_allowed_only_for_distinct_files(
    src: Seq<char>,
    dst: Seq<char>,
    f: SameFileFacts,
)
    ensures
        same_file_verdict(src, dst, f) is Ok <==> !f.destination_exists || (
        f.canonical_source is Ok && f.canonical_destination is Ok && f.source_identity is Ok
            && f.destination_identity is Ok && f.canonical_source->Ok_0@
            != f.canonical_destination->Ok_0@ && !(f.source_identity->Ok_0.device
            == f.destination_identity->Ok_0.device && f.source_identity->Ok_0.inode
            == f.destination_identity->Ok_0.inode)),
{
}

/// Refuses to copy a file onto itself.
pub fn ensure_not_same_file(src: &str, dst: &str, facts: &SameFileFacts) -> (r: Result<(), String>)
    ensures
        message_view(r) == same_file_verdict(src@, dst@, *facts),
        r is Ok <==> !facts.destination_exists || (facts.canonical_source is Ok
            && facts.canonical_destination is Ok && facts.source_identity is Ok
            && facts.destination_identity is Ok && facts.canonical_source->Ok_0@
            != facts.canonical_destination->Ok_0@ && !(facts.source_identity->Ok_0.device
            == facts.destination_identity->Ok_0.device && facts.source_identity->Ok_0.inode
            == facts.destination_identity->Ok_0.inode)),
{
    proof {
        lemma_copy_allowed_only_for_distinct_files(src@, dst@, *facts);
    }
    if !facts.destination_exists {
        return Ok(());
    }
    let canonical_source = match &facts.canonical_source {
        Err(e) => {
            return failure("failed to canonicalize source(", src, e);
        },
        Ok(c) => c,
    };
    let canonical_destination = match &facts.canonical_destination {
        Err(e) => {
            return failure("failed to canonicalize destination(", dst, e);
        },
        Ok(c) => c,
    };
    if bytes_equal(canonical_source, canonical_destination) {
        return Err("source and destination is same!".to_owned());
    }
    let source_identity = match &facts.source_identity {
        Err(e) => {
            return failure("failed to stat source(", src, e);
        },
        Ok(id) => id,
    };
    let destination_identity = match &facts.destination_identity {
        Err(e) => {
            return failure("failed to stat destination(", dst, e);
        },
        Ok(id) => id,
    };
    if source_identity.device == destination_identity.device && source_identity.inode
        == destination_identity.inode {
        return Err("source and destination is same!".to_owned());
    }
    Ok(())
}

} // verus!
