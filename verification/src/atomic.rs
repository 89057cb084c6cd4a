//! Which files and directories may be used, and how files are replaced.
use vstd::prelude::*;

use crate::error;
use crate::error::Error;
use crate::hyprland::ipc::FileFacts;
use crate::lines;
use crate::path;
use crate::text;

verus! {

/// The mode of a file for the user alone.
pub const PRIVATE_FILE_MODE: u32 = 0o600;

/// The mode of a directory for the user alone.
pub const PRIVATE_DIR_MODE: u32 = 0o700;

/// The mode of a file that all may read.
pub const PUBLIC_FILE_MODE: u32 = 0o644;

// ---------------------------------------------------------------------------
// Directories
// ---------------------------------------------------------------------------
/// What is to be made sure of on the way to a directory.
#[derive(Debug, PartialEq, Eq)]
pub enum DirectoryStep {
    /// It is a real directory; where it is missing it is made, for the user
    /// alone.
    Present(String),
    /// It is a real directory of the user that nobody else may write.
    Private(String),
}

/// What a [`DirectoryStep`] holds.
pub enum StepView {
    Present(Seq<char>),
    Private(Seq<char>),
}

impl View for DirectoryStep {
    type V = StepView;

    open spec fn view(&self) -> StepView {
        match self {
            DirectoryStep::Present(dir) => StepView::Present(dir@),
            DirectoryStep::Private(dir) => StepView::Private(dir@),
        }
    }
}

/// What steps hold.
pub open spec fn step_views(steps: Seq<DirectoryStep>) -> Seq<StepView> {
    steps.map_values(|step: DirectoryStep| step@)
}

/// The components among the first `n` of `parts`: those that are neither empty
/// nor a dot, and a dot in front of a relative path.
pub open spec fn components(parts: Seq<Seq<char>>, n: int) -> Seq<Seq<char>>
    decreases n,
{
    if n <= 0 {
        seq![]
    } else {
        let before = components(parts, n - 1);
        let part = parts[n - 1];
        if part.len() == 0 || (part == "."@ && n > 1) {
            before
        } else {
            before.push(part)
        }
    }
}

/// `dir` begins at the root.
pub open spec fn is_absolute(dir: Seq<char>) -> bool {
    dir.len() > 0 && dir[0] == '/'
}

/// The path of the first `n` of `components`.
pub open spec fn path_of(absolute: bool, components: Seq<Seq<char>>, n: int) -> Seq<char>
    decreases n,
{
    if n <= 0 {
        if absolute {
            "/"@
        } else {
            ""@
        }
    } else {
        path::below(path_of(absolute, components, n - 1), components[n - 1])
    }
}

/// `component` is a name.
pub open spec fn is_name(component: Seq<char>) -> bool {
    component != "."@ && component != ".."@
}

/// The named directories among the first `n` components.
pub open spec fn named(absolute: bool, components: Seq<Seq<char>>, n: int) -> Seq<StepView>
    decreases n,
{
    if n <= 0 {
        seq![]
    } else {
        let before = named(absolute, components, n - 1);
        if is_name(components[n - 1]) {
            before.push(StepView::Present(path_of(absolute, components, n)))
        } else {
            before
        }
    }
}

/// The first `n` of `parts` as they stand in the path.
pub open spec fn front_of(parts: Seq<Seq<char>>, n: int) -> Seq<char>
    decreases n,
{
    if n <= 0 {
        ""@
    } else if n == 1 {
        parts[0]
    } else {
        front_of(parts, n - 1) + "/"@ + parts[n - 1]
    }
}

/// How the directory of the first `n` of `parts` is written: the whole path as it
/// was given where nothing more follows, else as far as it goes.
pub open spec fn written(dir: Seq<char>, parts: Seq<Seq<char>>, n: int) -> Seq<char> {
    if components(parts, n).len() == components(parts, parts.len() as int).len() {
        dir
    } else {
        front_of(parts, n)
    }
}

/// The steps for a directory that has `components` and is written `dir`.
pub open spec fn level(absolute: bool, components: Seq<Seq<char>>, dir: Seq<char>) -> Seq<
    StepView,
> {
    named(absolute, components, components.len() as int).push(StepView::Private(dir))
}

/// The steps for every directory of the relative path `dir` up to the first `n`
/// of its `parts`, from the front: first for the current directory, where the path
/// does not begin with it.
pub open spec fn levels(dir: Seq<char>, parts: Seq<Seq<char>>, n: int) -> Seq<StepView>
    decreases n,
{
    if n <= 0 {
        if parts[0] == "."@ {
            seq![]
        } else {
            seq![StepView::Private("."@)]
        }
    } else if components(parts, n).len() == components(parts, n - 1).len() {
        levels(dir, parts, n - 1)
    } else {
        levels(dir, parts, n - 1) + level(false, components(parts, n), written(dir, parts, n))
    }
}

/// What is to be made sure of for the directory `dir`, in order; the empty path
/// stands for the current directory.
pub open spec fn private_steps(dir: Seq<char>) -> Seq<StepView> {
    let parts = lines::parts(dir, '/');
    if dir.len() == 0 {
        seq![StepView::Private("."@)]
    } else if is_absolute(dir) {
        level(true, components(parts, parts.len() as int), dir)
    } else {
        levels(dir, parts, parts.len() as int)
    }
}

fn push_component(components: &mut Vec<String>, parts: &Vec<String>, i: usize) -> (result: bool)
    requires
        i < parts@.len(),
        text::texts(old(components)@) == self::components(text::texts(parts@), i as int),
    ensures
        text::texts(final(components)@) == self::components(text::texts(parts@), i + 1),
        result == (final(components)@.len() > old(components)@.len()),
{
    let ghost all = text::texts(parts@);
    assert(all[i as int] == parts@[i as int]@);
    let part: &str = parts[i].as_str();
    if part.unicode_len() == 0 || (i > 0 && text::same(part, ".")) {
        return false;
    }
    let ghost before = text::texts(components@);
    components.push(part.to_owned());
    assert(text::texts(components@) =~= before.push(part@));
    true
}

fn collect_components(parts: &Vec<String>) -> (result: Vec<String>)
    ensures
        text::texts(result@) == components(text::texts(parts@), parts@.len() as int),
{
    let mut result: Vec<String> = Vec::new();
    assert(text::texts(result@) =~= seq![]);
    let mut i: usize = 0;
    while i < parts.len()
        invariant
            i <= parts@.len(),
            text::texts(result@) == components(text::texts(parts@), i as int),
        decreases parts@.len() - i,
    {
        push_component(&mut result, parts, i);
        i += 1;
    }
    result
}

fn push_level(
    steps: &mut Vec<DirectoryStep>,
    absolute: bool,
    components: &Vec<String>,
    dir: String,
)
    ensures
        step_views(final(steps)@) == step_views(old(steps)@) + level(
            absolute,
            text::texts(components@),
            dir@,
        ),
{
    let ghost all = text::texts(components@);
    let ghost first = step_views(steps@);
    let mut current: String = if absolute {
        "/".to_owned()
    } else {
        "".to_owned()
    };
    let mut i: usize = 0;
    assert(step_views(steps@) =~= first + named(absolute, all, 0));
    while i < components.len()
        invariant
            i <= components@.len(),
            all == text::texts(components@),
            current@ == path_of(absolute, all, i as int),
            step_views(steps@) == first + named(absolute, all, i as int),
        decreases components@.len() - i,
    {
        assert(all[i as int] == components@[i as int]@);
        let component: &str = components[i].as_str();
        current = path::join(current.as_str(), component);
        if !text::same(component, ".") && !text::same(component, "..") {
            let ghost before = step_views(steps@);
            steps.push(DirectoryStep::Present(current.clone()));
            assert(step_views(steps@) =~= before.push(StepView::Present(current@)));
            assert(step_views(steps@) =~= first + named(absolute, all, i + 1));
        }
        i += 1;
    }
    let ghost before = step_views(steps@);
    let ghost end = dir@;
    steps.push(DirectoryStep::Private(dir));
    assert(step_views(steps@) =~= before.push(StepView::Private(end)));
    assert(step_views(steps@) =~= first + level(absolute, all, end));
}

/// What is to be made sure of for the directory `dir`, in order.
pub fn ensure_private_directory(dir: &str) -> (result: Vec<DirectoryStep>)
    ensures
        step_views(result@) == private_steps(dir@),
{
    let mut steps: Vec<DirectoryStep> = Vec::new();
    assert(step_views(steps@) =~= seq![]);
    if dir.unicode_len() == 0 {
        steps.push(DirectoryStep::Private(".".to_owned()));
        assert(step_views(steps@) =~= seq![StepView::Private("."@)]);
        return steps;
    }
    let parts: Vec<String> = lines::split(dir, '/');
    let ghost all = text::texts(parts@);
    let whole: Vec<String> = collect_components(&parts);
    if dir.get_char(0) == '/' {
        push_level(&mut steps, true, &whole, dir.to_owned());
        assert(step_views(steps@) =~= level(true, text::texts(whole@), dir@));
        return steps;
    }
    assert(all[0] == parts@[0]@);
    if !text::same(parts[0].as_str(), ".") {
        steps.push(DirectoryStep::Private(".".to_owned()));
        assert(step_views(steps@) =~= seq![StepView::Private("."@)]);
    }
    let mut front: String = "".to_owned();
    let mut components: Vec<String> = Vec::new();
    assert(text::texts(components@) =~= seq![]);
    let mut n: usize = 0;
    while n < parts.len()
        invariant
            n <= parts@.len(),
            all == text::texts(parts@),
            text::texts(whole@) == self::components(all, all.len() as int),
            text::texts(components@) == self::components(all, n as int),
            front@ == front_of(all, n as int),
            step_views(steps@) == levels(dir@, all, n as int),
        decreases parts@.len() - n,
    {
        assert(all[n as int] == parts@[n as int]@);
        front = if n == 0 {
            parts[0].clone()
        } else {
            front.concat("/").concat(parts[n].as_str())
        };
        let longer: bool = push_component(&mut components, &parts, n);
        assert(text::texts(components@).len() == components@.len());
        assert(text::texts(whole@).len() == whole@.len());
        if longer {
            let path: String = if components.len() == whole.len() {
                dir.to_owned()
            } else {
                front.clone()
            };
            push_level(&mut steps, false, &components, path);
        }
        n += 1;
    }
    steps
}

/// Why the directory `dir` may not be used.
pub open spec fn private_error(dir: Seq<char>, facts: FileFacts, uid: u32) -> Option<Seq<char>> {
    if facts.symlink || !facts.directory {
        Some(dir + " must be a real directory, not a symlink"@)
    } else if facts.uid != uid {
        Some(
            "directory "@ + dir + " is owned by uid "@ + text::int_text(facts.uid as int)
                + ", expected "@ + text::int_text(uid as int),
        )
    } else if facts.writable_by_others() {
        Some("directory "@ + dir + " must not be group- or world-writable"@)
    } else {
        None
    }
}

/// Whether the directory `dir` is one of the user that nobody else may write.
pub fn validate_private_directory(dir: &str, facts: FileFacts, uid: u32) -> (result: Result<
    (),
    Error,
>)
    ensures
        error::refused_as(result, private_error(dir@, facts, uid)),
{
    if facts.symlink || !facts.directory {
        return Err(Error::new(dir.to_owned().concat(" must be a real directory, not a symlink")));
    }
    if facts.uid != uid {
        return Err(
            Error::new(
                "directory ".to_owned().concat(dir).concat(" is owned by uid ").concat(
                    text::decimal(facts.uid as i128).as_str(),
                ).concat(", expected ").concat(text::decimal(uid as i128).as_str()),
            ),
        );
    }
    if facts.mode & 0o022 != 0 {
        return Err(
            Error::new(
                "directory ".to_owned().concat(dir).concat(" must not be group- or world-writable"),
            ),
        );
    }
    Ok(())
}

/// Whether `dir`, which exists, is a real directory.
pub fn validate_present_directory(dir: &str, facts: FileFacts) -> (result: Result<(), Error>)
    ensures
        error::refused_as(
            result,
            if facts.symlink || !facts.directory {
                Some(dir@ + " must be a real directory, not a symlink"@)
            } else {
                None
            },
        ),
{
    if facts.symlink || !facts.directory {
        Err(Error::new(dir.to_owned().concat(" must be a real directory, not a symlink")))
    } else {
        Ok(())
    }
}

// ---------------------------------------------------------------------------
// Files
// ---------------------------------------------------------------------------
/// Why the open file at `place` may not be used.
pub open spec fn file_error(
    place: Seq<char>,
    label: Seq<char>,
    regular: bool,
    owner: u32,
    require_owner: bool,
    uid: u32,
) -> Option<Seq<char>> {
    if !regular {
        Some(label + " at "@ + place + " is not a regular file"@)
    } else if require_owner && owner != uid {
        Some(
            label + " at "@ + place + " is owned by uid "@ + text::int_text(owner as int)
                + ", expected "@ + text::int_text(uid as int),
        )
    } else {
        None
    }
}

/// Whether the open file at `place` may be used.
pub fn validate_open_regular_file(
    place: &str,
    label: &str,
    regular: bool,
    owner: u32,
    require_owner: bool,
    uid: u32,
) -> (result: Result<(), Error>)
    ensures
        error::refused_as(result, file_error(place@, label@, regular, owner, require_owner, uid)),
{
    if !regular {
        return Err(
            Error::new(label.to_owned().concat(" at ").concat(place).concat(" is not a regular file")),
        );
    }
    if require_owner && owner != uid {
        return Err(
            Error::new(
                label.to_owned().concat(" at ").concat(place).concat(" is owned by uid ").concat(
                    text::decimal(owner as i128).as_str(),
                ).concat(", expected ").concat(text::decimal(uid as i128).as_str()),
            ),
        );
    }
    Ok(())
}

/// Whether a file of `size` bytes is read at all.
pub fn validate_size(place: &str, label: &str, size: u64, maximum_bytes: u64) -> (result: Result<
    (),
    Error,
>)
    ensures
        error::refused_as(
            result,
            if size > maximum_bytes {
                Some(
                    label@ + " at "@ + place@ + " is too large ("@ + text::int_text(size as int)
                        + " bytes; maximum is "@ + text::int_text(maximum_bytes as int) + ")"@,
                )
            } else {
                None
            },
        ),
{
    if size > maximum_bytes {
        Err(
            Error::new(
                label.to_owned().concat(" at ").concat(place).concat(" is too large (").concat(
                    text::decimal(size as i128).as_str(),
                ).concat(" bytes; maximum is ").concat(
                    text::decimal(maximum_bytes as i128).as_str(),
                ).concat(")"),
            ),
        )
    } else {
        Ok(())
    }
}

/// Whether what was read of a file, which may have grown meanwhile, is kept.
pub fn validate_contents(
    place: &str,
    label: &str,
    contents: Vec<u8>,
    maximum_bytes: u64,
) -> (result: Result<Vec<u8>, Error>)
    ensures
        error::refused_as(
            result,
            if contents@.len() > maximum_bytes {
                Some(
                    label@ + " at "@ + place@ + " is too large (more than "@ + text::int_text(
                        maximum_bytes as int,
                    ) + " bytes)"@,
                )
            } else {
                None
            },
        ),
        result matches Ok(kept) ==> kept@ == contents@,
{
    if contents.len() as u64 > maximum_bytes {
        Err(
            Error::new(
                label.to_owned().concat(" at ").concat(place).concat(
                    " is too large (more than ",
                ).concat(text::decimal(maximum_bytes as i128).as_str()).concat(" bytes)"),
            ),
        )
    } else {
        Ok(contents)
    }
}

/// What is in the place of a file that is to be written.
#[derive(Debug, Clone, Copy, PartialEq, Eq, Structural)]
pub enum Target {
    Missing,
    File { mode: u32 },
    Symlink,
    Other,
}

/// The mode of a file that takes the place of `target`: it grants nothing that
/// the file in its place did not.
pub fn replacement_mode(place: &str, target: Target, requested_mode: u32) -> (result: Result<
    u32,
    Error,
>)
    ensures
        error::refused_as(
            result,
            if target is Other {
                Some("refusing to replace non-file target "@ + place@)
            } else {
                None
            },
        ),
        result matches Ok(mode) ==> mode == (match target {
            Target::File { mode: present } => present & 0o777 & requested_mode,
            _ => requested_mode,
        }),
{
    match target {
        Target::File { mode } => Ok(mode & 0o777 & requested_mode),
        Target::Symlink => Ok(requested_mode),
        Target::Missing => Ok(requested_mode),
        Target::Other => Err(
            Error::new("refusing to replace non-file target ".to_owned().concat(place)),
        ),
    }
}

/// The name under which a file is written before it takes its place.
pub fn temp_name(file_name: Option<&str>, process: u32, nanos: u128) -> (result: String)
    ensures
        result@ == "."@ + (match file_name {
            Some(name) => name@,
            None => "output"@,
        }) + "."@ + text::int_text(process as int) + "."@ + text::radix_text(nanos as nat, 10)
            + ".tmp"@,
{
    let name: &str = match file_name {
        Some(name) => name,
        None => "output",
    };
    ".".to_owned().concat(name).concat(".").concat(text::decimal(process as i128).as_str()).concat(
        ".",
    ).concat(text::radix(nanos, 10).as_str()).concat(".tmp")
}

// ---------------------------------------------------------------------------
// Laws
// ---------------------------------------------------------------------------
/// A file that takes the place of another grants nothing that the other did not
/// and nothing that was not asked for.
pub proof fn law_replacing_grants_nothing(present: u32, requested: u32, bit: u32)
    ensures
        (present & 0o777 & requested) & bit != 0 ==> present & bit != 0 && requested & bit != 0,
{
    assert((present & 0o777 & requested) & bit != 0 ==> present & bit != 0 && requested & bit
        != 0) by (bit_vector);
}

proof fn lemma_components_grow(parts: Seq<Seq<char>>, m: int, n: int)
    requires
        0 <= m <= n,
    ensures
        components(parts, m).len() <= components(parts, n).len(),
    decreases n,
{
    if m < n {
        lemma_components_grow(parts, m, n - 1);
    }
}

proof fn lemma_levels_end(dir: Seq<char>, parts: Seq<Seq<char>>, n: int)
    requires
        1 <= n <= parts.len(),
        parts[0].len() > 0,
    ensures
        levels(dir, parts, n).len() > 0,
        components(parts, n).len() == components(parts, parts.len() as int).len() ==> levels(
            dir,
            parts,
            n,
        ).last() == StepView::Private(dir),
    decreases n,
{
    lemma_components_grow(parts, 1, n);
    assert(components(parts, 1).len() == 1) by {
        reveal_with_fuel(components, 2);
    }
    if components(parts, n).len() == components(parts, n - 1).len() {
        if n > 1 {
            lemma_levels_end(dir, parts, n - 1);
        }
    } else {
        assert(levels(dir, parts, n).last() == level(
            false,
            components(parts, n),
            written(dir, parts, n),
        ).last());
    }
}

proof fn lemma_first_part(s: Seq<char>, c: char)
    requires
        s.len() > 0,
        s[0] != c,
    ensures
        lines::parts(s, c).len() >= 1,
        lines::parts(s, c)[0].len() > 0,
    decreases s.len(),
{
    let front = s.drop_last();
    reveal_with_fuel(lines::parts, 2);
    if s.len() > 1 {
        assert(front[0] == s[0]);
        lemma_first_part(front, c);
    }
}

/// The directory itself, as it was given, is the last to be made sure of, and is
/// one of the user that nobody else may write.
pub proof fn law_directory_ends_private(dir: Seq<char>)
    ensures
        private_steps(dir).len() > 0,
        private_steps(dir).last() == StepView::Private(
            if dir.len() == 0 {
                "."@
            } else {
                dir
            },
        ),
{
    if dir.len() > 0 && !is_absolute(dir) {
        let parts = lines::parts(dir, '/');
        lemma_first_part(dir, '/');
        lemma_levels_end(dir, parts, parts.len() as int);
    }
}

} // verus!
