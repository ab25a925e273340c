//! Paths as the copier handles them: made absolute, then cleaned lexically
//! with `path_clean`.

use vstd::prelude::*;
use vstd::string::*;

verus! {

/// What `path_clean::clean` makes of a path: repeated slashes, `.` elements
/// and `..` elements with what they cancel removed, lexically; `.` for what
/// would be empty.
pub uninterp spec fn cleaned_path(path: Seq<char>) -> Seq<char>;

/// What `std::path::Path::join` makes of a base path and a path adjoined
/// to it.
pub uninterp spec fn joined_path(base: Seq<char>, adjoined: Seq<char>) -> Seq<char>;

/// What `std::path::Path::parent` gives for a path: the path without its
/// final component, if it has one.
pub uninterp spec fn parent_path(path: Seq<char>) -> Option<Seq<char>>;

/// A path given as text is absolute: it starts at the root.
pub open spec fn is_absolute_text(path: Seq<char>) -> bool {
    path.len() > 0 && path[0] == '/'
}

/// Calls `path_clean::clean`. Its result is a function of the path alone
/// (the crate works on the path's components, without touching the file
/// system). As its source shows, the root component is never removed, so a
/// rooted path stays rooted, and what it gives back holds no `.`, no `..`
/// that could cancel an element and no repeated slash, so cleaning it again
/// leaves it as it is. For a path given as UTF-8 text every component is
/// UTF-8, so the conversion back to text loses nothing.
#[verifier::external_body]
fn clean_path(path: &str) -> (r: String)
    ensures
        r@ == cleaned_path(path@),
        cleaned_path(r@) == r@,
        is_absolute_text(path@) ==> is_absolute_text(r@),
{
    path_clean::clean(path).to_string_lossy().into_owned()
}

/// Calls `std::path::absolute`. As its documentation says, the result is an
/// absolute path (on Unix one that starts at the root), an empty path is an
/// error, and the working directory is used only for a relative path: an
/// absolute path comes back with the same components (a `.` dropped, a
/// trailing slash or a leading `//` kept), so cleaning it gives what
/// cleaning the path itself gives. A relative path comes back as the
/// working directory (an absolute path) followed by the path's components,
/// so cleaning it gives what cleaning the working directory joined with the
/// path gives; which working directory that is, is not said. An absolute path that
/// is not UTF-8 text (possible only under such a working directory) is
/// handed on as an error rather than altered; any other error is handed on
/// as its message.
#[verifier::external_body]
fn make_absolute(path: &str) -> (r: Result<String, String>)
    ensures
        path@.len() == 0 ==> r is Err,
        r matches Ok(a) ==> is_absolute_text(a@),
        is_absolute_text(path@) ==> r is Ok,
        r matches Ok(a) ==> (is_absolute_text(path@) ==> cleaned_path(a@) == cleaned_path(
            path@,
        )),
        r matches Ok(a) ==> exists|cwd: Seq<char>|
            is_absolute_text(cwd) && cleaned_path(a@) == cleaned_path(joined_path(cwd, path@)),
{
    match std::path::absolute(path) {
        Ok(p) => match p.into_os_string().into_string() {
            Ok(text) => Ok(text),
            Err(raw) => Err(format!("not valid UTF-8: {}", raw.to_string_lossy())),
        },
        Err(e) => Err(e.to_string()),
    }
}

/// Calls `std::path::Path::join`. Its result depends on the two paths
/// alone; as its documentation says, an absolute path adjoined replaces the
/// base.
#[verifier::external_body]
pub(crate) fn join_path(base: &str, adjoined: &str) -> (r: String)
    ensures
        r@ == joined_path(base@, adjoined@),
        adjoined@.len() > 0 && adjoined@[0] == '/' ==> r@ == adjoined@,
{
    std::path::Path::new(base).join(adjoined).to_string_lossy().into_owned()
}

/// Calls `std::path::Path::parent`. Its result depends on the path alone;
/// as its documentation says, the empty path has no parent.
#[verifier::external_body]
pub(crate) fn parent_of(path: &str) -> (r: Option<String>)
    ensures
        r matches Some(p) ==> parent_path(path@) == Some(p@),
        r is None ==> parent_path(path@) is None,
        path@.len() == 0 ==> r is None,
{
    match std::path::Path::new(path).parent() {
        Some(p) => Some(p.to_string_lossy().into_owned()),
        None => None,
    }
}

/// The message for a path that could not be made absolute.
pub open spec fn absolute_failure(path: Seq<char>, error: Seq<char>) -> Seq<char> {
    "failed to make absolute path("@ + path + "): "@ + error
}

/// A path as normalization gives it: absolute, and left as it is by
/// cleaning.
pub open spec fn is_normalized(path: Seq<char>) -> bool {
    is_absolute_text(path) && cleaned_path(path) == path
}

/// Finishes the normalization of `path` from what making it absolute gave:
/// the absolute path cleaned twice (which is cleaning it once), or the
/// failure's message.
pub fn normalize_absolute(path: &str, absolute: Result<String, String>) -> (r: Result<
    String,
    String,
>)
    ensures
        absolute matches Ok(a) ==> (r matches Ok(n) && n@ == cleaned_path(cleaned_path(a@))
            && n@ == cleaned_path(a@) && cleaned_path(n@) == n@),
        absolute matches Ok(a) && is_absolute_text(a@) ==> (r matches Ok(n) && is_normalized(
            n@,
        )),
        absolute matches Err(e) ==> (r matches Err(m) && m@ == absolute_failure(path@, e@)),
{
    match absolute {
        Ok(a) => {
            let once = clean_path(a.as_str());
            Ok(clean_path(once.as_str()))
        },
        Err(e) => {
            let mut m = "failed to make absolute path(".to_owned();
            m.append(path);
            m.append("): ");
            m.append(e.as_str());
            Err(m)
        },
    }
}

/// The message for a missing path argument.
pub open spec fn missing_path() -> Seq<char> {
    "path not provided"@
}

/// Makes the optional path absolute and cleans it. A missing path is an
/// error, and so is a path that cannot be made absolute (the empty one
/// among them). An absolute path always succeeds and gives the path
/// cleaned; a relative one, when it succeeds, gives the working directory
/// joined with the path, cleaned. Whatever succeeds is absolute and clean.
pub fn normalize_path_result(path_opt: Option<String>) -> (r: Result<String, String>)
    ensures
        path_opt is None ==> (r matches Err(m) && m@ == missing_path()),
        path_opt matches Some(p) ==> {
            &&& p@.len() == 0 ==> r is Err
            &&& is_absolute_text(p@) ==> (r matches Ok(n) && n@ == cleaned_path(p@))
            &&& r matches Ok(n) ==> exists|a: Seq<char>|
                is_absolute_text(a) && n@ == cleaned_path(a)
            &&& r matches Ok(n) ==> exists|cwd: Seq<char>|
                is_absolute_text(cwd) && n@ == cleaned_path(joined_path(cwd, p@))
            &&& r matches Err(m) ==> exists|e: Seq<char>| m@ == absolute_failure(p@, e)
        },
        r matches Ok(n) ==> is_normalized(n@),
{
    match path_opt {
        None => Err("path not provided".to_owned()),
        Some(path) => {
            let absolute = make_absolute(path.as_str());
            let ghost abs = absolute;
            let r = normalize_absolute(path.as_str(), absolute);
            proof {
                match abs {
                    Ok(a) => {
                        assert(r matches Ok(n) && n@ == cleaned_path(a@) && is_normalized(n@));
                    },
                    Err(e) => {
                        assert(r matches Err(m) && m@ == absolute_failure(path@, e@));
                    },
                }
            }
            r
        },
    }
}

/// A path that normalization gave back is absolute and left unchanged by
/// cleaning. With the clause of `normalize_path_result` for absolute paths
/// (which then gives the path cleaned), this is why normalizing such a path
/// again gives it back.
pub proof fn lemma_normalized_is_fixed(n: Seq<char>)
    requires
        is_normalized(n),
    ensures
        is_absolute_text(n),
        cleaned_path(n) == n,
{
}

} // verus!
