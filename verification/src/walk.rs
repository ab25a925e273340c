//! Opening a path one component at a time, each component relative to the
//! directory opened for the one before it, so that no symbolic link on the
//! way is followed. The opening itself is done by the caller; this module
//! decides, step by step, what to open and how.

use vstd::prelude::*;
use vstd::string::*;

verus! {

pub const O_RDONLY: i32 = 0;

pub const O_WRONLY: i32 = 1;

pub const O_CREAT: i32 = 0o100;

pub const O_TRUNC: i32 = 0o1000;

pub const O_DIRECTORY: i32 = 0o200000;

pub const O_NOFOLLOW: i32 = 0o400000;

pub const O_CLOEXEC: i32 = 0o2000000;

pub const O_PATH: i32 = 0o10000000;

/// The directory descriptor that stands for the working directory.
pub const AT_FDCWD: i32 = -100;

/// A component of a path, as `std::path::Path::components` yields it.
#[derive(Clone, Debug)]
pub enum PathComponent {
    Prefix,
    RootDir,
    CurDir,
    ParentDir,
    Normal(String),
}

/// What a name is opened relative to.
#[derive(Clone, Copy, Debug, PartialEq, Eq)]
pub enum OpenFrom {
    /// The working directory of the process (`AT_FDCWD`).
    WorkingDirectory,
    /// The directory opened at the step before.
    PreviousStep,
}

/// One `openat` call: the name, relative to what, with which flags and mode.
#[derive(Clone, Debug)]
pub struct OpenRequest {
    pub from: OpenFrom,
    pub name: String,
    pub flags: i32,
    pub mode: u32,
}

/// Why a path cannot be walked.
#[derive(Clone, Copy, Debug, PartialEq, Eq)]
pub enum WalkError {
    /// The path is empty or starts with neither the root nor a name.
    NotAbsoluteOrNormal,
    /// A component after the first is not a name (`.`, `..` or a prefix).
    UnsupportedComponent,
    /// A name holds a NUL character and cannot be passed to the system.
    InteriorNul,
}

impl WalkError {
    /// The text of the error.
    pub fn message(&self) -> (m: String)
        ensures
            m@ == walk_error_text(*self),
    {
        match self {
            WalkError::NotAbsoluteOrNormal => "path must be absolute or contain normal components".to_owned(),
            WalkError::UnsupportedComponent => "path contains unsupported component".to_owned(),
            WalkError::InteriorNul => "path component contains an interior NUL byte".to_owned(),
        }
    }
}

pub open spec fn walk_error_text(e: WalkError) -> Seq<char> {
    match e {
        WalkError::NotAbsoluteOrNormal => "path must be absolute or contain normal components"@,
        WalkError::UnsupportedComponent => "path contains unsupported component"@,
        WalkError::InteriorNul => "path component contains an interior NUL byte"@,
    }
}

/// What to do next in a walk.
#[derive(Clone, Debug)]
pub enum WalkStep {
    /// Open this; its result is the file when it is the last step, and the
    /// directory the next step opens from otherwise.
    Open(OpenRequest),
    /// The walk is complete: the last thing opened is the result.
    Done,
    /// The walk stops with this error.
    Fail(WalkError),
}

/// The flags of a step, with symbolic links never followed and the
/// descriptor closed on exec.
pub open spec fn no_follow(flags: i32) -> i32 {
    flags | O_NOFOLLOW | O_CLOEXEC
}

/// The flags for a directory that is only walked through.
pub open spec fn directory_flags() -> i32 {
    O_PATH | O_DIRECTORY
}

/// `step` opens `name` relative to `from` with `flags` and `mode`.
pub open spec fn opens(step: WalkStep, from: OpenFrom, name: Seq<char>, flags: i32, mode: u32) -> bool {
    step matches WalkStep::Open(req) && req.from == from && req.name@ == name && req.flags == flags
        && req.mode == mode
}

/// The step for a name: refused when it holds a NUL; opened with the
/// caller's flags and mode when it is the last component, and as a
/// directory to walk through otherwise.
pub open spec fn name_step(
    name: Seq<char>,
    from: OpenFrom,
    last: bool,
    flags: i32,
    mode: u32,
    step: WalkStep,
) -> bool {
    if name.contains('\0') {
        step == WalkStep::Fail(WalkError::InteriorNul)
    } else if last {
        opens(step, from, name, no_follow(flags), mode)
    } else {
        opens(step, from, name, no_follow(directory_flags()), 0)
    }
}

/// `step` is what comes after `opened` successful steps of the walk of
/// `components` that ends in opening the path with `flags` and `mode`.
pub open spec fn walk_step_is(
    components: Seq<PathComponent>,
    opened: int,
    flags: i32,
    mode: u32,
    step: WalkStep,
) -> bool {
    if opened == 0 {
        if components.len() == 0 {
            step == WalkStep::Fail(WalkError::NotAbsoluteOrNormal)
        } else {
            match components[0] {
                PathComponent::RootDir => opens(
                    step,
                    OpenFrom::WorkingDirectory,
                    "/"@,
                    no_follow(directory_flags()),
                    0,
                ),
                PathComponent::Normal(first) => name_step(
                    first@,
                    OpenFrom::WorkingDirectory,
                    components.len() == 1,
                    flags,
                    mode,
                    step,
                ),
                _ => step == WalkStep::Fail(WalkError::NotAbsoluteOrNormal),
            }
        }
    } else if opened == components.len() {
        step == WalkStep::Done
    } else {
        match components[opened] {
            PathComponent::Normal(name) => name_step(
                name@,
                OpenFrom::PreviousStep,
                opened == components.len() - 1,
                flags,
                mode,
                step,
            ),
            _ => step == WalkStep::Fail(WalkError::UnsupportedComponent),
        }
    }
}

/// No step of a walk follows a symbolic link: every open carries
/// `O_NOFOLLOW`, and `O_CLOEXEC` too.
pub proof fn lemma_walk_never_follows_links(
    components: Seq<PathComponent>,
    opened: int,
    flags: i32,
    mode: u32,
    step: WalkStep,
)
    requires
        walk_step_is(components, opened, flags, mode, step),
    ensures
        step matches WalkStep::Open(req) ==> (req.flags & O_NOFOLLOW) == O_NOFOLLOW && (req.flags
            & O_CLOEXEC) == O_CLOEXEC,
{
    assert(forall|x: i32|
        #![trigger (x | 0o400000i32 | 0o2000000i32)]
        ((x | 0o400000i32 | 0o2000000i32) & 0o400000i32) == 0o400000i32 && ((x | 0o400000i32
            | 0o2000000i32) & 0o2000000i32) == 0o2000000i32) by (bit_vector);
}

/// Every component but the last is opened only as a directory to walk
/// through (`O_PATH | O_DIRECTORY`, mode 0); the caller's flags and mode go
/// to the last component alone, unless the path is the root itself, which
/// is opened as a directory too.
pub proof fn lemma_walk_flags(
    components: Seq<PathComponent>,
    opened: int,
    flags: i32,
    mode: u32,
    step: WalkStep,
)
    requires
        0 <= opened <= components.len(),
        walk_step_is(components, opened, flags, mode, step),
    ensures
        opened + 1 < components.len() ==> (step matches WalkStep::Open(req) ==> req.flags
            == no_follow(directory_flags()) && req.mode == 0),
        opened + 1 == components.len() && !(opened == 0 && components[0] is RootDir) ==> (
        step matches WalkStep::Open(req) ==> req.flags == no_follow(flags) && req.mode == mode),
{
}

/// The first step opens from the working directory (the root `/` for an
/// absolute path); every later step opens a name relative to the directory
/// opened at the step before.
pub proof fn lemma_walk_relative_to_previous(
    components: Seq<PathComponent>,
    opened: int,
    flags: i32,
    mode: u32,
    step: WalkStep,
)
    requires
        0 <= opened <= components.len(),
        walk_step_is(components, opened, flags, mode, step),
    ensures
        step matches WalkStep::Open(req) ==> (req.from == OpenFrom::WorkingDirectory <==> opened
            == 0),
        opened == 0 && components.len() > 0 && components[0] is RootDir ==> opens(
            step,
            OpenFrom::WorkingDirectory,
            "/"@,
            no_follow(directory_flags()),
            0,
        ),
{
}

/// A walk opens one thing per component: before every component is opened
/// it is not done, and once all are (there being at least one) it is.
pub proof fn lemma_walk_length(
    components: Seq<PathComponent>,
    opened: int,
    flags: i32,
    mode: u32,
    step: WalkStep,
)
    requires
        0 <= opened <= components.len(),
        walk_step_is(components, opened, flags, mode, step),
    ensures
        opened < components.len() ==> !(step is Done),
        0 < opened == components.len() ==> step is Done,
        components.len() == 0 ==> step == WalkStep::Fail(WalkError::NotAbsoluteOrNormal),
{
}

/// Every name of the path is opened, none refused unless it holds a NUL:
/// the step for a name opens exactly that name, from the working directory
/// when it is the first component and from the directory opened just before
/// otherwise. A name that is walked through is opened as a directory path
/// only; the last name gets the caller's flags and mode. Both always carry
/// `O_NOFOLLOW | O_CLOEXEC`.
pub proof fn lemma_walk_opens_every_name(
    components: Seq<PathComponent>,
    opened: int,
    flags: i32,
    mode: u32,
    step: WalkStep,
    name: String,
)
    requires
        0 <= opened < components.len(),
        components[opened] == PathComponent::Normal(name),
        forall|i: int| 0 <= i < name@.len() ==> name@[i] != '\0',
        walk_step_is(components, opened, flags, mode, step),
    ensures
        step matches WalkStep::Open(req) && req.name@ == name@,
        step matches WalkStep::Open(req) && (opened == 0 ==> req.from == OpenFrom::WorkingDirectory)
            && (opened > 0 ==> req.from == OpenFrom::PreviousStep),
        opened + 1 < components.len() ==> (step matches WalkStep::Open(req) && req.flags == O_PATH
            | O_DIRECTORY | O_NOFOLLOW | O_CLOEXEC && req.mode == 0),
        opened + 1 == components.len() ==> (step matches WalkStep::Open(req) && req.flags == flags
            | O_NOFOLLOW | O_CLOEXEC && req.mode == mode),
{
    assert(!name@.contains('\0'));
}

/// A step is refused only for a reason: a name holding a NUL, a first
/// component that is neither the root nor a name (or no component at all),
/// or a later component that is not a name. The root as first component is
/// always opened, as the directory `/` from the working directory.
pub proof fn lemma_walk_refuses_only_for_cause(
    components: Seq<PathComponent>,
    opened: int,
    flags: i32,
    mode: u32,
    step: WalkStep,
)
    requires
        0 <= opened <= components.len(),
        walk_step_is(components, opened, flags, mode, step),
    ensures
        step == WalkStep::Fail(WalkError::InteriorNul) ==> opened < components.len() && (
        components[opened] matches PathComponent::Normal(name) && exists|i: int|
            0 <= i < name@.len() && name@[i] == '\0'),
        step == WalkStep::Fail(WalkError::NotAbsoluteOrNormal) ==> opened == 0 && (
        components.len() == 0 || !(components[0] is RootDir || components[0] is Normal)),
        step == WalkStep::Fail(WalkError::UnsupportedComponent) ==> 0 < opened
            < components.len() && !(components[opened] is Normal),
        opened == 0 && components.len() > 0 && components[0] is RootDir ==> (
        step matches WalkStep::Open(req) && req.from == OpenFrom::WorkingDirectory && req.name@
            == seq!['/'] && req.flags == O_PATH | O_DIRECTORY | O_NOFOLLOW | O_CLOEXEC && req.mode
            == 0),
{
    reveal_strlit("/");
    assert("/"@ =~= seq!['/']);
}

fn contains_nul(name: &str) -> (r: bool)
    ensures
        r == name@.contains('\0'),
{
    let n = name.unicode_len();
    let mut i: usize = 0;
    while i < n
        invariant
            i <= n,
            n == name@.len(),
            forall|k: int| 0 <= k < i ==> name@[k] != '\0',
        decreases n - i,
    {
        if name.get_char(i) == '\0' {
            assert(name@[i as int] == '\0');
            return true;
        }
        i = i + 1;
    }
    false
}

fn open_name(name: &String, from: OpenFrom, last: bool, flags: i32, mode: u32) -> (step: WalkStep)
    ensures
        name_step(name@, from, last, flags, mode, step),
{
    if contains_nul(name.as_str()) {
        WalkStep::Fail(WalkError::InteriorNul)
    } else if last {
        WalkStep::Open(
            OpenRequest { from, name: name.clone(), flags: flags | O_NOFOLLOW | O_CLOEXEC, mode },
        )
    } else {
        WalkStep::Open(
            OpenRequest {
                from,
                name: name.clone(),
                flags: O_PATH | O_DIRECTORY | O_NOFOLLOW | O_CLOEXEC,
                mode: 0,
            },
        )
    }
}

/// The next step of the walk of `components`, after `opened` steps have
/// succeeded, for opening the path with `flags` and `mode`.
pub fn walk_step(components: &Vec<PathComponent>, opened: usize, flags: i32, mode: u32) -> (step:
    WalkStep)
    requires
        opened <= components@.len(),
    ensures
        walk_step_is(components@, opened as int, flags, mode, step),
{
    let n = components.len();
    if opened == 0 {
        if n == 0 {
            return WalkStep::Fail(WalkError::NotAbsoluteOrNormal);
        }
        match &components[0] {
            PathComponent::RootDir => {
                let root = "/".to_owned();
                WalkStep::Open(
                    OpenRequest {
                        from: OpenFrom::WorkingDirectory,
                        name: root,
                        flags: O_PATH | O_DIRECTORY | O_NOFOLLOW | O_CLOEXEC,
                        mode: 0,
                    },
                )
            },
            PathComponent::Normal(first) => open_name(
                first,
                OpenFrom::WorkingDirectory,
                n == 1,
                flags,
                mode,
            ),
            _ => WalkStep::Fail(WalkError::NotAbsoluteOrNormal),
        }
    } else if opened == n {
        WalkStep::Done
    } else {
        match &components[opened] {
            PathComponent::Normal(name) => open_name(
                name,
                OpenFrom::PreviousStep,
                opened == n - 1,
                flags,
                mode,
            ),
            _ => WalkStep::Fail(WalkError::UnsupportedComponent),
        }
    }
}

} // verus!
