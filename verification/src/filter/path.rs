use vstd::prelude::*;
use crate::eval::{BaseResult, ErrorKind};
use crate::parse::AnyString;
use crate::split::split_text;
use crate::text::{chars_of, push_char, string_from_str, texts};
use normpath::PathExt;

verus! {

/// The separator of path components.
pub const MAIN_SEPARATOR: char = '/';

/// The path starts with the current directory: `.` alone, or `.` and a separator.
pub open spec fn starts_with_cur(path: Seq<char>) -> bool {
    path.len() > 0 && path[0] == '.' && (path.len() == 1 || path[1] == MAIN_SEPARATOR)
}

/// The parts that name something, in order: empty parts and `.` are left out.
pub open spec fn kept_names(parts: Seq<Seq<char>>) -> Seq<Seq<char>>
    decreases parts.len(),
{
    if parts.len() == 0 {
        Seq::empty()
    } else {
        let rest = kept_names(parts.drop_first());
        if parts[0].len() == 0 || is_cur(parts[0]) {
            rest
        } else {
            seq![parts[0]] + rest
        }
    }
}

/// The texts of the components of `path`, as `std::path::Path::components` gives them on
/// Unix, where its documentation says how: `/` first for a path that starts at the root,
/// `.` first for one that starts with `.` alone or `./`, then each part between separators
/// as written (`..` and names), except the empty ones that repeated and trailing separators
/// make and `.`.
pub open spec fn path_components(path: Seq<char>) -> Seq<Seq<char>> {
    let names = kept_names(separated_parts(path));
    if is_absolute(path) {
        seq![seq![MAIN_SEPARATOR]] + names
    } else if starts_with_cur(path) {
        seq![seq!['.']] + names
    } else {
        names
    }
}

/// What `std::path::Path::parent` gives for `path`, as text.
pub uninterp spec fn path_parent(path: Seq<char>) -> Option<Seq<char>>;

/// What `std::path::Path::file_name` gives for `path`, as text.
pub uninterp spec fn path_file_name(path: Seq<char>) -> Option<Seq<char>>;

/// What `pathdiff::diff_paths(path, base)` gives for `path` and `base`, as text.
pub uninterp spec fn path_diff(path: Seq<char>, base: Seq<char>) -> Option<Seq<char>>;

/// `pathdiff::diff_paths`: the path that leads from `base` to `path`, written as text. The
/// way it pairs up components is not written out: the result is named as a function of
/// both paths.
#[verifier::external_body]
fn diff_paths_of(path: &str, base: &str) -> (r: Option<String>)
    ensures
        match r {
            Some(p) => path_diff(path@, base@) == Some(p@),
            None => path_diff(path@, base@) is None,
        },
{
    pathdiff::diff_paths(path, base).map(|p| p.to_string_lossy().into_owned())
}

/// `Path::components`, each component given by its text (see [`path_components`]).
#[verifier::external_body]
fn components_of(path: &str) -> (r: Vec<String>)
    ensures
        r@.map_values(|s: String| s@) == path_components(path@),
{
    std::path::Path::new(path).components().map(|c| c.as_os_str().to_string_lossy().into_owned()).collect()
}

/// `Path::parent`, as text.
#[verifier::external_body]
fn parent_of(path: &str) -> (r: Option<String>)
    ensures
        match r {
            Some(p) => path_parent(path@) == Some(p@),
            None => path_parent(path@) is None,
        },
{
    std::path::Path::new(path).parent().map(|p| p.to_string_lossy().into_owned())
}

/// `Path::file_name`, as text.
#[verifier::external_body]
fn file_name_of(path: &str) -> (r: Option<String>)
    ensures
        match r {
            Some(p) => path_file_name(path@) == Some(p@),
            None => path_file_name(path@) is None,
        },
{
    std::path::Path::new(path).file_name().map(|p| p.to_string_lossy().into_owned())
}

/// `normpath::PathExt::normalize`: resolves a path against the file system. On Unix the
/// crate documents it as canonicalization (it calls `fs::canonicalize`), so a path it gives
/// back is absolute and holds no `.` or `..` component. Which path that is, and whether one
/// is given at all, depends on what is on disk: that is left unsaid. The error is turned
/// into its message.
#[verifier::external_body]
fn normalize_on_disk(path: &str) -> (r: std::result::Result<String, String>)
    ensures
        r matches Ok(s) ==> is_canonical_text(s@),
{
    match std::path::Path::new(path).normalize() {
        Ok(p) => Ok(p.into_path_buf().to_string_lossy().into_owned()),
        Err(error) => Err(error.to_string()),
    }
}

/// The parts of `path` between separators.
pub open spec fn separated_parts(path: Seq<char>) -> Seq<Seq<char>> {
    split_text(path, seq![MAIN_SEPARATOR])
}

/// A canonical path as text: absolute, and none of its components is `.` or `..`.
pub open spec fn is_canonical_text(path: Seq<char>) -> bool {
    &&& is_absolute(path)
    &&& forall|i: int|
        0 <= i < separated_parts(path).len() ==> !is_cur(#[trigger] separated_parts(path)[i])
            && !is_parent(separated_parts(path)[i])
}

/// Whether `path` is absolute (on Unix: it starts with the root).
pub open spec fn is_absolute(path: Seq<char>) -> bool {
    path.len() > 0 && path[0] == MAIN_SEPARATOR
}

/// `dir` joined with the relative path `path` (what `Path::join` gives on Unix):
/// a separator goes between them unless `dir` is empty or already ends with one.
pub open spec fn join_relative(dir: Seq<char>, path: Seq<char>) -> Seq<char> {
    if dir.len() == 0 || dir.last() == MAIN_SEPARATOR {
        dir + path
    } else {
        dir.push(MAIN_SEPARATOR) + path
    }
}

/// `dir` joined with `path`; an absolute `path` replaces `dir`.
pub open spec fn join_path(dir: Seq<char>, path: Seq<char>) -> Seq<char> {
    if is_absolute(path) {
        path
    } else {
        join_relative(dir, path)
    }
}

pub(crate) fn join(dir: &str, path: &str) -> (r: String)
    ensures
        r@ == join_path(dir@, path@),
{
    let d = chars_of(dir);
    let p = chars_of(path);
    if p.len() > 0 && p[0] == MAIN_SEPARATOR {
        return string_from_str(path);
    }
    let mut s = string_from_str(dir);
    if d.len() > 0 && d[d.len() - 1] != MAIN_SEPARATOR {
        push_char(&mut s, MAIN_SEPARATOR);
    }
    s.append(path);
    s
}

/// The value as an absolute path: relative paths are resolved against `current_dir`,
/// an empty value stands for `current_dir` itself.
pub open spec fn absolute_text(value: Seq<char>, current_dir: Seq<char>) -> Seq<char> {
    if value.len() == 0 {
        current_dir
    } else if is_absolute(value) {
        value
    } else {
        join_relative(current_dir, value)
    }
}

/// The value as an absolute path.
pub fn get_absolute(value: String, current_dir: &str) -> (r: BaseResult<String>)
    ensures
        r matches Ok(s) && s@ == absolute_text(value@, current_dir@),
{
    if value.as_str().unicode_len() == 0 {
        Ok(string_from_str(current_dir))
    } else {
        Ok(join(current_dir, value.as_str()))
    }
}

/// The value resolved against the file system (symbolic links followed); fails when the
/// path does not exist. The path given back is absolute and free of `.` and `..`; which
/// path it is, and whether the call fails, is left to the file system.
pub fn get_canonical(value: String, current_dir: &str) -> (r: BaseResult<String>)
    ensures
        r matches Ok(s) ==> is_canonical_text(s@),
        r matches Err(k) ==> k@ == crate::eval::ErrorKindView::CanonicalizationFailed,
{
    let absolute = get_absolute(value, current_dir)?;
    match normalize_on_disk(absolute.as_str()) {
        Ok(path) => Ok(path),
        Err(message) => Err(ErrorKind::CanonicalizationFailed(AnyString(message))),
    }
}

/// The value as an absolute path, resolved against the working directory.
pub fn to_absolute(value: String, working_dir: &str) -> (r: BaseResult<String>)
    ensures
        r matches Ok(s) && s@ == absolute_text(value@, working_dir@),
{
    get_absolute(value, working_dir)
}

/// The value as a path relative to the working directory: a relative value stays as it is;
/// an absolute one is given from the working directory (nothing when no such path exists).
pub fn to_relative(value: String, working_dir: &str) -> (r: BaseResult<String>)
    ensures
        r matches Ok(s) && s@ == if !is_absolute(value@) {
            value@
        } else {
            match path_diff(value@, working_dir@) {
                Some(p) => p,
                None => Seq::<char>::empty(),
            }
        },
{
    let chars = chars_of(value.as_str());
    if chars.len() == 0 || chars[0] != MAIN_SEPARATOR {
        return Ok(value);
    }
    match diff_paths_of(value.as_str(), working_dir) {
        Some(p) => Ok(p),
        None => Ok(String::new()),
    }
}

/// The value, made absolute against the working directory, resolved against the file
/// system; fails when the path does not exist. The path given back is absolute and free of
/// `.` and `..`.
pub fn canonicalize(value: String, working_dir: &str) -> (r: BaseResult<String>)
    ensures
        r matches Ok(s) ==> is_canonical_text(s@),
        r matches Err(k) ==> k@ == crate::eval::ErrorKindView::CanonicalizationFailed,
{
    get_canonical(value, working_dir)
}

/// The root component.
pub open spec fn is_root(c: Seq<char>) -> bool {
    c == seq![MAIN_SEPARATOR]
}

/// The `.` component.
pub open spec fn is_cur(c: Seq<char>) -> bool {
    c == seq!['.']
}

/// The `..` component.
pub open spec fn is_parent(c: Seq<char>) -> bool {
    c == seq!['.', '.']
}

/// The components left after dropping `.`, and resolving `..` against a preceding name
/// (a `..` right after the root is dropped, and one with nothing but `..` before it stays).
pub open spec fn normalize_components(cs: Seq<Seq<char>>) -> Seq<Seq<char>>
    decreases cs.len(),
{
    if cs.len() == 0 {
        Seq::empty()
    } else {
        let acc = normalize_components(cs.drop_last());
        let c = cs.last();
        if is_cur(c) {
            acc
        } else if is_parent(c) {
            if acc.len() == 0 || is_parent(acc.last()) {
                acc.push(c)
            } else if is_root(acc.last()) {
                acc
            } else {
                acc.drop_last()
            }
        } else {
            acc.push(c)
        }
    }
}

/// Components without `.`, in which each `..` comes first or right after another `..`.
pub open spec fn is_normal_form(cs: Seq<Seq<char>>) -> bool {
    &&& forall|i: int| 0 <= i < cs.len() ==> !is_cur(#[trigger] cs[i])
    &&& forall|i: int| 0 < i < cs.len() && is_parent(#[trigger] cs[i]) ==> is_parent(cs[i - 1])
}

proof fn lemma_root_kind(c: Seq<char>)
    requires
        is_root(c),
    ensures
        !is_cur(c),
        !is_parent(c),
{
    assert(c.len() == 1 && c[0] == MAIN_SEPARATOR);
    if is_cur(c) {
        assert(c[0] == '.');
    }
}

proof fn lemma_normalize_shape(cs: Seq<Seq<char>>)
    ensures
        is_normal_form(normalize_components(cs)),
        cs.len() > 0 && is_root(cs[0]) ==> normalize_components(cs).len() > 0 && is_root(
            normalize_components(cs)[0],
        ),
    decreases cs.len(),
{
    if cs.len() > 0 {
        let prefix = cs.drop_last();
        lemma_normalize_shape(prefix);
        let acc = normalize_components(prefix);
        let c = cs.last();
        let n = normalize_components(cs);
        if cs.len() > 1 {
            assert(prefix[0] == cs[0]);
        } else {
            assert(c == cs[0]);
            assert(acc.len() == 0);
            if is_root(c) {
                lemma_root_kind(c);
            }
        }
        if is_cur(c) {
        } else if is_parent(c) {
            if acc.len() == 0 || is_parent(acc.last()) {
                assert(n == acc.push(c));
                assert forall|i: int| 0 < i < n.len() && is_parent(#[trigger] n[i]) implies is_parent(n[i - 1]) by {
                    if i < acc.len() {
                        assert(n[i] == acc[i] && n[i - 1] == acc[i - 1]);
                    }
                }
                assert forall|i: int| 0 <= i < n.len() implies !is_cur(#[trigger] n[i]) by {
                    if i < acc.len() {
                        assert(n[i] == acc[i]);
                    }
                }
                if acc.len() > 0 {
                    assert(n[0] == acc[0]);
                }
            } else if is_root(acc.last()) {
            } else {
                assert(n == acc.drop_last());
                assert forall|i: int| 0 < i < n.len() && is_parent(#[trigger] n[i]) implies is_parent(n[i - 1]) by {
                    assert(n[i] == acc[i] && n[i - 1] == acc[i - 1]);
                }
                assert forall|i: int| 0 <= i < n.len() implies !is_cur(#[trigger] n[i]) by {
                    assert(n[i] == acc[i]);
                }
                if cs.len() > 0 && is_root(cs[0]) && acc.len() == 1 {
                    assert(acc.last() == acc[0]);
                }
                if n.len() > 0 {
                    assert(n[0] == acc[0]);
                }
            }
        } else {
            assert(n == acc.push(c));
            assert forall|i: int| 0 < i < n.len() && is_parent(#[trigger] n[i]) implies is_parent(n[i - 1]) by {
                if i < acc.len() {
                    assert(n[i] == acc[i] && n[i - 1] == acc[i - 1]);
                }
            }
            assert forall|i: int| 0 <= i < n.len() implies !is_cur(#[trigger] n[i]) by {
                if i < acc.len() {
                    assert(n[i] == acc[i]);
                }
            }
            if acc.len() > 0 {
                assert(n[0] == acc[0]);
            }
        }
    }
}

proof fn lemma_normal_form_fixed(ns: Seq<Seq<char>>)
    requires
        is_normal_form(ns),
    ensures
        normalize_components(ns) == ns,
    decreases ns.len(),
{
    if ns.len() > 0 {
        let prefix = ns.drop_last();
        assert forall|i: int| 0 < i < prefix.len() && is_parent(#[trigger] prefix[i]) implies is_parent(prefix[i - 1]) by {
            assert(prefix[i] == ns[i] && prefix[i - 1] == ns[i - 1]);
        }
        assert forall|i: int| 0 <= i < prefix.len() implies !is_cur(#[trigger] prefix[i]) by {
            assert(prefix[i] == ns[i]);
        }
        lemma_normal_form_fixed(prefix);
        let c = ns.last();
        assert(!is_cur(ns[ns.len() - 1]));
        if is_parent(c) && ns.len() > 1 {
            assert(is_parent(ns[ns.len() - 1]));
            assert(prefix.last() == ns[ns.len() - 2]);
        }
        assert(prefix.push(c) =~= ns);
    }
}

proof fn lemma_rooted_normal_form(ns: Seq<Seq<char>>, i: int)
    requires
        is_normal_form(ns),
        ns.len() > 0,
        is_root(ns[0]),
        0 <= i < ns.len(),
    ensures
        !is_parent(ns[i]),
    decreases i,
{
    if i == 0 {
        assert(ns[0].len() != 2);
    } else {
        lemma_rooted_normal_form(ns, i - 1);
    }
}

/// Normalizing path components leaves no `.`, and each `..` that stays comes first or
/// right after another `..` (none follows a name or the root); normalizing again changes
/// nothing; and components that start at the root keep it first and hold no `..`.
pub proof fn lemma_normalize_components_law(cs: Seq<Seq<char>>)
    ensures
        is_normal_form(normalize_components(cs)),
        normalize_components(normalize_components(cs)) == normalize_components(cs),
        cs.len() > 0 && is_root(cs[0]) ==> {
            let n = normalize_components(cs);
            &&& n.len() > 0 && is_root(n[0])
            &&& forall|i: int| 0 <= i < n.len() ==> !is_parent(#[trigger] n[i])
        },
{
    lemma_normalize_shape(cs);
    let n = normalize_components(cs);
    lemma_normal_form_fixed(n);
    if cs.len() > 0 && is_root(cs[0]) {
        assert forall|i: int| 0 <= i < n.len() implies !is_parent(#[trigger] n[i]) by {
            lemma_rooted_normal_form(n, i);
        }
    }
}

/// Whether some component is not the root.
pub open spec fn has_name(cs: Seq<Seq<char>>) -> bool {
    exists|i: int| 0 <= i < cs.len() && !is_root(#[trigger] cs[i])
}

/// The components written out: the root as it is, names separated by the separator.
pub open spec fn render_components(cs: Seq<Seq<char>>) -> Seq<char>
    decreases cs.len(),
{
    if cs.len() == 0 {
        Seq::empty()
    } else {
        let prev = render_components(cs.drop_last());
        let c = cs.last();
        if is_root(c) || !has_name(cs.drop_last()) {
            prev + c
        } else {
            prev.push(MAIN_SEPARATOR) + c
        }
    }
}

/// The normalized form of a path: `.` dropped, `..` resolved where a name precedes it,
/// redundant separators removed; `.` when nothing is left.
pub open spec fn normalized_text(value: Seq<char>) -> Seq<char> {
    let rendered = render_components(normalize_components(path_components(value)));
    if rendered.len() == 0 {
        seq!['.']
    } else {
        rendered
    }
}

/// A component that names something: a non-empty text without a separator.
pub open spec fn is_name_text(c: Seq<char>) -> bool {
    c.len() > 0 && forall|j: int| 0 <= j < c.len() ==> c[j] != MAIN_SEPARATOR
}

/// Components as a path has them: the root only first, and every other one a name.
pub open spec fn components_wf(cs: Seq<Seq<char>>) -> bool {
    forall|i: int| 0 <= i < cs.len() ==> if is_root(#[trigger] cs[i]) {
        i == 0
    } else {
        is_name_text(cs[i])
    }
}

proof fn lemma_root_not_name(c: Seq<char>)
    requires
        is_root(c),
    ensures
        !is_name_text(c),
{
    assert(c[0] == MAIN_SEPARATOR);
}

proof fn lemma_kept_names(parts: Seq<Seq<char>>)
    requires
        crate::split::parts_without(parts, MAIN_SEPARATOR),
    ensures
        forall|i: int| 0 <= i < kept_names(parts).len() ==> is_name_text(#[trigger] kept_names(parts)[i])
            && !is_cur(kept_names(parts)[i]),
    decreases parts.len(),
{
    if parts.len() > 0 {
        let tail = parts.drop_first();
        assert forall|k: int, j: int| 0 <= k < tail.len() && 0 <= j < tail[k].len() implies #[trigger] tail[k][j]
            != MAIN_SEPARATOR by {
            assert(tail[k] == parts[k + 1]);
        }
        lemma_kept_names(tail);
        let kept = kept_names(parts);
        let rest = kept_names(tail);
        if parts[0].len() == 0 || is_cur(parts[0]) {
            assert(kept == rest);
        } else {
            assert(kept == seq![parts[0]] + rest);
            assert forall|i: int| 0 <= i < kept.len() implies is_name_text(#[trigger] kept[i]) && !is_cur(kept[i]) by {
                if i == 0 {
                    assert(kept[0] == parts[0]);
                    assert forall|j: int| 0 <= j < parts[0].len() implies parts[0][j] != MAIN_SEPARATOR by {
                        assert(parts[0][j] != MAIN_SEPARATOR);
                    }
                } else {
                    assert(kept[i] == rest[i - 1]);
                }
            }
        }
    }
}

proof fn lemma_kept_names_fixed(names: Seq<Seq<char>>)
    requires
        forall|i: int| 0 <= i < names.len() ==> (#[trigger] names[i]).len() > 0 && !is_cur(names[i]),
    ensures
        kept_names(names) == names,
    decreases names.len(),
{
    if names.len() > 0 {
        let tail = names.drop_first();
        assert forall|i: int| 0 <= i < tail.len() implies (#[trigger] tail[i]).len() > 0 && !is_cur(tail[i]) by {
            assert(tail[i] == names[i + 1]);
        }
        lemma_kept_names_fixed(tail);
        assert(names[0].len() > 0 && !is_cur(names[0]));
        assert(seq![names[0]] + tail =~= names);
    }
}

/// The components of a path are as a path has them.
proof fn lemma_path_components_wf(path: Seq<char>)
    ensures
        components_wf(path_components(path)),
{
    let parts = separated_parts(path);
    crate::split::lemma_split_parts_without(path, MAIN_SEPARATOR);
    lemma_kept_names(parts);
    let names = kept_names(parts);
    let cs = path_components(path);
    assert forall|i: int| 0 <= i < cs.len() implies if is_root(#[trigger] cs[i]) {
        i == 0
    } else {
        is_name_text(cs[i])
    } by {
        if is_absolute(path) || starts_with_cur(path) {
            if i > 0 {
                assert(cs[i] == names[i - 1]);
                if is_root(cs[i]) {
                    lemma_root_not_name(cs[i]);
                }
            } else if !is_absolute(path) {
                assert(cs[0] == seq!['.']);
                assert(cs[0][0] == '.');
            }
        } else {
            assert(cs[i] == names[i]);
            if is_root(cs[i]) {
                lemma_root_not_name(cs[i]);
            }
        }
    }
}

/// Normalizing keeps components as a path has them.
proof fn lemma_normalize_wf(cs: Seq<Seq<char>>)
    requires
        components_wf(cs),
    ensures
        components_wf(normalize_components(cs)),
    decreases cs.len(),
{
    if cs.len() > 0 {
        let prefix = cs.drop_last();
        assert forall|i: int| 0 <= i < prefix.len() implies if is_root(#[trigger] prefix[i]) {
            i == 0
        } else {
            is_name_text(prefix[i])
        } by {
            assert(prefix[i] == cs[i]);
        }
        lemma_normalize_wf(prefix);
        let acc = normalize_components(prefix);
        let c = cs.last();
        let n = normalize_components(cs);
        assert(c == cs[cs.len() - 1]);
        if cs.len() == 1 {
            assert(acc.len() == 0);
        }
        if is_cur(c) {
        } else if is_parent(c) {
            if acc.len() == 0 || is_parent(acc.last()) {
                assert(n == acc.push(c));
                assert(!is_root(c)) by {
                    if is_root(c) {
                        lemma_root_kind(c);
                    }
                }
                assert forall|i: int| 0 <= i < n.len() implies if is_root(#[trigger] n[i]) {
                    i == 0
                } else {
                    is_name_text(n[i])
                } by {
                    if i < acc.len() {
                        assert(n[i] == acc[i]);
                    }
                }
            } else if is_root(acc.last()) {
            } else {
                assert(n == acc.drop_last());
                assert forall|i: int| 0 <= i < n.len() implies if is_root(#[trigger] n[i]) {
                    i == 0
                } else {
                    is_name_text(n[i])
                } by {
                    assert(n[i] == acc[i]);
                }
            }
        } else {
            assert(n == acc.push(c));
            assert forall|i: int| 0 <= i < n.len() implies if is_root(#[trigger] n[i]) {
                i == 0
            } else {
                is_name_text(n[i])
            } by {
                if i < acc.len() {
                    assert(n[i] == acc[i]);
                } else {
                    assert(n[i] == c);
                    if is_root(c) {
                        assert(cs.len() == 1);
                    }
                }
            }
        }
    }
}

/// Components that are all names are written out joined by the separator.
proof fn lemma_render_names(ns: Seq<Seq<char>>)
    requires
        forall|i: int| 0 <= i < ns.len() ==> !is_root(#[trigger] ns[i]),
    ensures
        render_components(ns) == crate::split::join(ns, seq![MAIN_SEPARATOR]),
        has_name(ns) <==> ns.len() > 0,
    decreases ns.len(),
{
    if ns.len() > 0 {
        let prefix = ns.drop_last();
        assert forall|i: int| 0 <= i < prefix.len() implies !is_root(#[trigger] prefix[i]) by {
            assert(prefix[i] == ns[i]);
        }
        lemma_render_names(prefix);
        assert(!is_root(ns[0]));
        if prefix.len() > 0 {
            assert(!is_root(prefix[0]));
            crate::split::lemma_join_append(prefix, seq![ns.last()], seq![MAIN_SEPARATOR]);
            assert(prefix + seq![ns.last()] =~= ns);
            assert(crate::split::join(seq![ns.last()], seq![MAIN_SEPARATOR]) == ns.last());
        } else {
            assert(Seq::<char>::empty() + ns.last() =~= ns.last());
            assert(ns.last() == ns[0]);
        }
    }
}

/// Components that start at the root and go on with names are written out as the root
/// followed by the names joined by the separator.
proof fn lemma_render_rooted(names: Seq<Seq<char>>)
    requires
        forall|i: int| 0 <= i < names.len() ==> !is_root(#[trigger] names[i]),
    ensures
        render_components(seq![seq![MAIN_SEPARATOR]] + names) == if names.len() == 0 {
            seq![MAIN_SEPARATOR]
        } else {
            seq![MAIN_SEPARATOR] + crate::split::join(names, seq![MAIN_SEPARATOR])
        },
    decreases names.len(),
{
    let root = seq![MAIN_SEPARATOR];
    let cs = seq![root] + names;
    if names.len() == 0 {
        assert(cs =~= seq![root]);
        assert(cs.drop_last() =~= Seq::<Seq<char>>::empty());
        assert(Seq::<char>::empty() + root =~= root);
        assert(render_components(Seq::<Seq<char>>::empty()) == Seq::<char>::empty());
        assert(is_root(cs.last()));
        assert(render_components(cs) == root);
    } else {
        let prefix = names.drop_last();
        assert forall|i: int| 0 <= i < prefix.len() implies !is_root(#[trigger] prefix[i]) by {
            assert(prefix[i] == names[i]);
        }
        lemma_render_rooted(prefix);
        assert(cs.drop_last() =~= seq![root] + prefix);
        assert(cs.last() == names.last());
        assert(!is_root(names[names.len() - 1]));
        let c = names.last();
        let prev = render_components(cs.drop_last());
        assert(!is_root(c));
        if has_name(cs.drop_last()) {
            assert(render_components(cs) == prev.push(MAIN_SEPARATOR) + c);
            assert(prev.push(MAIN_SEPARATOR) + c =~= prev + root + c);
        } else {
            assert(render_components(cs) == prev + c);
        }
        if prefix.len() == 0 {
            assert(!has_name(seq![root])) by {
                if has_name(seq![root]) {
                    let k = choose|k: int| 0 <= k < seq![root].len() && !is_root(#[trigger] seq![root][k]);
                    assert(k == 0);
                }
            }
            assert(names =~= seq![c]);
            assert(crate::split::join(names, root) == c);
            assert(prev == root);
            assert(render_components(cs) == root + c);
        } else {
            assert(has_name(seq![root] + prefix)) by {
                assert(!is_root((seq![root] + prefix)[1]));
            }
            crate::split::lemma_join_append(prefix, seq![c], root);
            assert(prefix + seq![c] =~= names);
            assert(crate::split::join(seq![c], root) == c);
            assert(root + crate::split::join(prefix, root) + root + c =~= root + (crate::split::join(prefix, root)
                + root + c));
            assert(prev == root + crate::split::join(prefix, root));
            assert(render_components(cs) == root + crate::split::join(names, root));
        }
    }
}

/// The first part of joined parts starts the text.
proof fn lemma_join_starts(parts: Seq<Seq<char>>, t: Seq<char>, j: int)
    requires
        parts.len() >= 1,
        0 <= j < parts[0].len(),
    ensures
        crate::split::join(parts, t).len() >= parts[0].len(),
        crate::split::join(parts, t)[j] == parts[0][j],
{
    if parts.len() > 1 {
        assert(crate::split::join(parts, t) == parts[0] + t + crate::split::join(parts.drop_first(), t));
    }
}

/// The last part of joined parts ends the text.
proof fn lemma_join_ends(parts: Seq<Seq<char>>, t: Seq<char>)
    requires
        parts.len() >= 1,
        parts.last().len() > 0,
    ensures
        crate::split::join(parts, t).len() > 0,
        crate::split::join(parts, t).last() == parts.last().last(),
{
    if parts.len() > 1 {
        let prefix = parts.drop_last();
        crate::split::lemma_join_append(prefix, seq![parts.last()], t);
        assert(prefix + seq![parts.last()] =~= parts);
        assert(crate::split::join(seq![parts.last()], t) == parts.last());
    } else {
        assert(parts.last() == parts[0]);
    }
}

/// Normalized components, written out, are read back as the same components.
proof fn lemma_components_of_render(ns: Seq<Seq<char>>)
    requires
        components_wf(ns),
        is_normal_form(ns),
        ns.len() > 0,
    ensures
        path_components(render_components(ns)) == ns,
        render_components(ns).len() > 0,
        is_absolute(render_components(ns)) <==> is_root(ns[0]),
        render_components(ns).last() == MAIN_SEPARATOR ==> render_components(ns) == seq![MAIN_SEPARATOR],
{
    let sep = seq![MAIN_SEPARATOR];
    let empty = Seq::<char>::empty();
    if is_root(ns[0]) {
        let names = ns.drop_first();
        assert forall|i: int| 0 <= i < names.len() implies !is_root(#[trigger] names[i]) && is_name_text(names[i])
            && !is_cur(names[i]) by {
            assert(names[i] == ns[i + 1]);
            assert(!is_cur(ns[i + 1]));
        }
        assert(ns =~= seq![sep] + names);
        lemma_render_rooted(names);
        let n = render_components(ns);
        if names.len() == 0 {
            let parts = seq![empty, empty];
            assert(crate::split::join(parts, sep) == empty + sep + crate::split::join(parts.drop_first(), sep));
            assert(parts.drop_first() =~= seq![empty]);
            assert(empty + sep + empty =~= sep);
            crate::split::lemma_split_of_join(parts, MAIN_SEPARATOR);
            let one = seq![empty];
            assert(one.drop_first() =~= Seq::<Seq<char>>::empty());
            assert(one[0].len() == 0);
            assert(kept_names(one) == kept_names(one.drop_first()));
            assert(parts[0].len() == 0);
            assert(kept_names(parts) == kept_names(one));
            assert(kept_names(parts) == Seq::<Seq<char>>::empty());
            assert(path_components(n) =~= seq![sep]);
        } else {
            let parts = seq![empty] + names;
            assert(parts.drop_first() =~= names);
            assert(crate::split::join(parts, sep) == empty + sep + crate::split::join(names, sep));
            assert(empty + sep + crate::split::join(names, sep) =~= sep + crate::split::join(names, sep));
            assert forall|k: int, j: int| 0 <= k < parts.len() && 0 <= j < parts[k].len() implies #[trigger] parts[k][j]
                != MAIN_SEPARATOR by {
                assert(parts[k] == names[k - 1]);
            }
            crate::split::lemma_split_of_join(parts, MAIN_SEPARATOR);
            lemma_kept_names_fixed(names);
            assert(kept_names(parts) == kept_names(names));
            lemma_join_ends(names, sep);
            assert(names.last() == names[names.len() - 1]);
            assert((sep + crate::split::join(names, sep)).last() == crate::split::join(names, sep).last());
            assert(path_components(n) =~= seq![sep] + names);
        }
    } else {
        assert forall|i: int| 0 <= i < ns.len() implies !is_root(#[trigger] ns[i]) && is_name_text(ns[i]) by {
            if i > 0 && is_root(ns[i]) {
                assert(i == 0);
            }
        }
        lemma_render_names(ns);
        let n = render_components(ns);
        assert forall|k: int, j: int| 0 <= k < ns.len() && 0 <= j < ns[k].len() implies #[trigger] ns[k][j]
            != MAIN_SEPARATOR by {
            assert(is_name_text(ns[k]));
        }
        crate::split::lemma_split_of_join(ns, MAIN_SEPARATOR);
        assert forall|i: int| 0 <= i < ns.len() implies (#[trigger] ns[i]).len() > 0 && !is_cur(ns[i]) by {
            assert(is_name_text(ns[i]));
        }
        lemma_kept_names_fixed(ns);
        let first = ns[0];
        assert(is_name_text(first) && !is_cur(first));
        lemma_join_starts(ns, sep, 0);
        assert(n[0] != MAIN_SEPARATOR);
        if first.len() >= 2 {
            lemma_join_starts(ns, sep, 1);
        } else {
            assert(first[0] != '.') by {
                if first[0] == '.' {
                    assert(first =~= seq!['.']);
                }
            }
        }
        assert(!starts_with_cur(n));
        lemma_join_ends(ns, sep);
        assert(ns.last() == ns[ns.len() - 1]);
    }
}

/// Normalizing a path gives a path that is not empty and that normalizing again leaves
/// as it is. Unless it is `.`, its components hold no `.`, a `..` comes only first or
/// right after another `..` (never after a name or the root), a path that starts at the
/// root holds no `..`, and it ends with a separator only when it is the root itself.
pub proof fn lemma_normalized_text_law(value: Seq<char>)
    ensures
        normalized_text(value).len() > 0,
        normalized_text(normalized_text(value)) == normalized_text(value),
        normalized_text(value) != seq!['.'] ==> is_normal_form(path_components(normalized_text(value))),
        is_absolute(normalized_text(value)) ==> forall|i: int|
            0 <= i < path_components(normalized_text(value)).len() ==> !is_parent(
                #[trigger] path_components(normalized_text(value))[i],
            ),
        normalized_text(value).last() == MAIN_SEPARATOR ==> normalized_text(value) == seq![MAIN_SEPARATOR],
{
    let cs = path_components(value);
    lemma_path_components_wf(value);
    lemma_normalize_wf(cs);
    lemma_normalize_components_law(cs);
    let ns = normalize_components(cs);
    let n = normalized_text(value);
    if ns.len() == 0 {
        assert(render_components(ns) == Seq::<char>::empty());
        assert(n == seq!['.']);
        let dot = seq!['.'];
        let parts = seq![dot];
        assert(crate::split::join(parts, seq![MAIN_SEPARATOR]) == dot);
        crate::split::lemma_split_of_join(parts, MAIN_SEPARATOR);
        assert(parts.drop_first() =~= Seq::<Seq<char>>::empty());
        assert(is_cur(parts[0]));
        assert(kept_names(parts) == kept_names(parts.drop_first()));
        assert(kept_names(parts) == Seq::<Seq<char>>::empty());
        assert(starts_with_cur(dot));
        assert(path_components(dot) =~= seq![dot]);
        let one = seq![dot];
        assert(one.drop_last() =~= Seq::<Seq<char>>::empty());
        assert(normalize_components(one) == Seq::<Seq<char>>::empty());
    } else {
        lemma_components_of_render(ns);
        assert(n == render_components(ns));
        assert(path_components(n) == ns);
        if is_absolute(n) {
            assert forall|i: int| 0 <= i < ns.len() implies !is_parent(#[trigger] ns[i]) by {
                lemma_rooted_normal_form(ns, i);
            }
        }
    }
}

fn text_is(s: &String, expected: &str) -> (b: bool)
    ensures
        b == (s@ == expected@),
{
    crate::text::text_eq(s.as_str(), expected)
}

proof fn lemma_literals()
    ensures
        "/"@ == seq![MAIN_SEPARATOR],
        "."@ == seq!['.'],
        ".."@ == seq!['.', '.'],
{
    reveal_strlit("/");
    reveal_strlit(".");
    reveal_strlit("..");
    assert("/"@ =~= seq![MAIN_SEPARATOR]);
    assert("."@ =~= seq!['.']);
    assert(".."@ =~= seq!['.', '.']);
}

proof fn lemma_texts_push(v: Seq<String>, x: String)
    ensures
        texts(v.push(x)) == texts(v).push(x@),
{
    assert(texts(v.push(x)) =~= texts(v).push(x@));
}

proof fn lemma_texts_drop_last(v: Seq<String>)
    requires
        v.len() > 0,
    ensures
        texts(v.drop_last()) == texts(v).drop_last(),
{
    assert(texts(v.drop_last()) =~= texts(v).drop_last());
}

/// Normalizes a path without touching the file system. The result is never empty, and
/// normalizing it again gives it back.
pub fn normalize(value: &str) -> (r: BaseResult<String>)
    ensures
        r matches Ok(s) && s@ == normalized_text(value@),
        r matches Ok(s) ==> s@.len() > 0 && normalized_text(s@) == s@,
{
    proof {
        lemma_normalized_text_law(value@);
    }
    let components = components_of(value);
    let ghost cs = path_components(value@);
    let mut kept: Vec<String> = Vec::new();
    let mut i: usize = 0;
    proof {
        lemma_literals();
        assert(cs.take(0) =~= Seq::<Seq<char>>::empty());
        assert(texts(kept@) =~= Seq::<Seq<char>>::empty());
    }
    while i < components.len()
        invariant
            i <= components@.len(),
            texts(components@) == cs,
            cs == path_components(value@),
            texts(kept@) == normalize_components(cs.take(i as int)),
        decreases components.len() - i,
    {
        proof {
            lemma_literals();
            assert(cs.take(i + 1).drop_last() =~= cs.take(i as int));
            assert(cs.take(i + 1).last() == components@[i as int]@);
        }
        let c = &components[i];
        let ghost before = kept@;
        if text_is(c, ".") {
        } else if text_is(c, "..") {
            let n = kept.len();
            if n == 0 || text_is(&kept[n - 1], "..") {
                proof {
                    if n > 0 {
                        assert(texts(kept@).last() == kept@[n - 1]@);
                    }
                }
                let d = crate::text::string_from_str("..");
                kept.push(d);
                proof {
                    lemma_texts_push(before, d);
                }
            } else if text_is(&kept[n - 1], "/") {
                assert(texts(kept@).last() == kept@[n - 1]@);
            } else {
                assert(texts(kept@).last() == kept@[n - 1]@);
                kept.pop();
                proof {
                    lemma_texts_drop_last(before);
                    assert(kept@ =~= before.drop_last());
                }
            }
        } else {
            let d = crate::text::string_from_str(c.as_str());
            kept.push(d);
            proof {
                lemma_texts_push(before, d);
            }
        }
        i = i + 1;
    }
    assert(cs.take(i as int) =~= cs);
    let ghost ks = texts(kept@);
    let mut s = String::new();
    let mut name_added = false;
    let mut j: usize = 0;
    assert(ks.take(0) =~= Seq::<Seq<char>>::empty());
    while j < kept.len()
        invariant
            j <= kept@.len(),
            ks == texts(kept@),
            s@ == render_components(ks.take(j as int)),
            name_added == has_name(ks.take(j as int)),
        decreases kept.len() - j,
    {
        proof {
            lemma_literals();
            assert(ks.take(j + 1).drop_last() =~= ks.take(j as int));
            assert(ks.take(j + 1).last() == kept@[j as int]@);
            assert(ks.take(j + 1)[j as int] == kept@[j as int]@);
        }
        let c = &kept[j];
        if text_is(c, "/") {
            s.append(c.as_str());
            proof {
                assert(has_name(ks.take(j + 1)) == has_name(ks.take(j as int))) by {
                    if has_name(ks.take(j + 1)) {
                        let k = choose|k: int| 0 <= k < ks.take(j + 1).len() && !is_root(#[trigger] ks.take(j + 1)[k]);
                        assert(k < j);
                        assert(ks.take(j as int)[k] == ks.take(j + 1)[k]);
                    }
                    if has_name(ks.take(j as int)) {
                        let k = choose|k: int| 0 <= k < ks.take(j as int).len() && !is_root(#[trigger] ks.take(j as int)[k]);
                        assert(ks.take(j as int)[k] == ks.take(j + 1)[k]);
                    }
                }
            }
        } else {
            if name_added {
                push_char(&mut s, MAIN_SEPARATOR);
            }
            s.append(c.as_str());
            name_added = true;
            proof {
                assert(!is_root(ks.take(j + 1)[j as int]));
                assert(has_name(ks.take(j + 1)));
            }
        }
        j = j + 1;
    }
    assert(ks.take(j as int) =~= ks);
    if s.as_str().unicode_len() == 0 {
        push_char(&mut s, '.');
        assert(s@ =~= seq!['.']);
    }
    Ok(s)
}

/// The normalized path (see [`normalize`]).
pub fn get_normalized(value: String) -> (r: BaseResult<String>)
    ensures
        r matches Ok(s) && s@ == normalized_text(value@),
        r matches Ok(s) ==> s@.len() > 0 && normalized_text(s@) == s@,
{
    normalize(value.as_str())
}

/// The path without its last component (`Path::parent`), or nothing when it has none.
pub fn get_parent_path(value: String) -> (r: BaseResult<String>)
    ensures
        r matches Ok(s) && s@ == match path_parent(value@) {
            Some(p) => p,
            None => Seq::<char>::empty(),
        },
{
    match parent_of(value.as_str()) {
        Some(p) => Ok(p),
        None => Ok(String::new()),
    }
}

/// The directory that contains the path: `..` is appended after `.`, `..` or an empty
/// path, the root stays the root, and a name directly in the current directory gives `.`.
pub open spec fn parent_directory_text(value: Seq<char>) -> Seq<char> {
    let cs = path_components(value);
    if cs.len() > 0 && is_root(cs.last()) {
        value
    } else if cs.len() == 0 || is_cur(cs.last()) || is_parent(cs.last()) {
        join_relative(value, seq!['.', '.'])
    } else {
        let parent = match path_parent(value) {
            Some(p) => p,
            None => Seq::<char>::empty(),
        };
        if path_components(parent).len() > 0 {
            parent
        } else {
            seq!['.']
        }
    }
}

/// A path without components is empty, so one with components is not.
proof fn lemma_components_of_empty()
    ensures
        path_components(Seq::<char>::empty()).len() == 0,
{
    let e = Seq::<char>::empty();
    let parts = seq![e];
    crate::split::lemma_split_of_join(parts, MAIN_SEPARATOR);
    assert(crate::split::join(parts, seq![MAIN_SEPARATOR]) == e);
    assert(parts.drop_first() =~= Seq::<Seq<char>>::empty());
    assert(kept_names(parts) == kept_names(parts.drop_first()));
}

/// The directory that contains a path is never empty: the root for the root, the path
/// followed by `..` for a path that ends with `.` or `..` (or is empty), its parent for a
/// path in some directory, and `.` for a name directly in the current directory.
pub proof fn lemma_parent_directory_not_empty(value: Seq<char>)
    ensures
        parent_directory_text(value).len() > 0,
{
    lemma_components_of_empty();
    let cs = path_components(value);
    if cs.len() > 0 && is_root(cs.last()) {
        assert(value.len() > 0);
    } else if cs.len() == 0 || is_cur(cs.last()) || is_parent(cs.last()) {
        let dots = seq!['.', '.'];
        if value.len() == 0 || value.last() == MAIN_SEPARATOR {
            assert((value + dots).len() >= 2);
        } else {
            assert((value.push(MAIN_SEPARATOR) + dots).len() >= 2);
        }
    } else {
        let parent = match path_parent(value) {
            Some(p) => p,
            None => Seq::<char>::empty(),
        };
        if path_components(parent).len() > 0 {
            assert(parent.len() > 0);
        }
    }
}

/// The directory that contains the path; it is never empty.
pub fn get_parent_directory(value: String) -> (r: BaseResult<String>)
    ensures
        r matches Ok(s) && s@ == parent_directory_text(value@),
        r matches Ok(s) ==> s@.len() > 0,
{
    proof {
        lemma_parent_directory_not_empty(value@);
    }
    let components = components_of(value.as_str());
    proof {
        lemma_literals();
    }
    let n = components.len();
    assert(texts(components@).len() == n);
    if n > 0 && text_is(&components[n - 1], "/") {
        assert(texts(components@)[n - 1] == components@[n - 1]@);
        return Ok(value);
    }
    if n == 0 || text_is(&components[n - 1], ".") || text_is(&components[n - 1], "..") {
        proof {
            if n > 0 {
                assert(texts(components@)[n - 1] == components@[n - 1]@);
            }
        }
        let r = join(value.as_str(), "..");
        proof {
            assert(!is_absolute(".."@));
        }
        return Ok(r);
    }
    assert(texts(components@)[n - 1] == components@[n - 1]@);
    let parent = match parent_of(value.as_str()) {
        Some(p) => p,
        None => String::new(),
    };
    let parent_components = components_of(parent.as_str());
    assert(texts(parent_components@).len() == parent_components@.len());
    if parent_components.len() > 0 {
        Ok(parent)
    } else {
        let mut s = String::new();
        push_char(&mut s, '.');
        assert(s@ =~= seq!['.']);
        Ok(s)
    }
}

/// The last component when it is a name (`Path::file_name`), or nothing.
pub open spec fn file_name_text(value: Seq<char>) -> Seq<char> {
    match path_file_name(value) {
        Some(n) => n,
        None => Seq::<char>::empty(),
    }
}

/// The file name of the path, or nothing.
pub fn get_file_name(value: String) -> (r: BaseResult<String>)
    ensures
        r matches Ok(s) && s@ == file_name_text(value@),
{
    match file_name_of(value.as_str()) {
        Some(n) => Ok(n),
        None => Ok(String::new()),
    }
}

/// The index of the last `.` in `name` that is not its first character, if any.
pub open spec fn extension_dot(name: Seq<char>) -> Option<int>
    decreases name.len(),
{
    if name.len() <= 1 {
        None
    } else if name.last() == '.' {
        Some(name.len() - 1)
    } else {
        extension_dot(name.drop_last())
    }
}

/// The file name without its extension (what `Path::file_stem` gives): the whole name when
/// it has no `.` other than a leading one, and `..` stays `..`.
pub open spec fn stem_text(value: Seq<char>) -> Seq<char> {
    match path_file_name(value) {
        Some(n) => if n == seq!['.', '.'] {
            n
        } else {
            match extension_dot(n) {
                Some(i) => n.take(i),
                None => n,
            }
        },
        None => Seq::<char>::empty(),
    }
}

/// The extension of the file name, if it has one (what `Path::extension` gives): the part
/// after its last `.`, unless that `.` is its first character; `..` has none.
pub open spec fn extension_of(value: Seq<char>) -> Option<Seq<char>> {
    match path_file_name(value) {
        Some(n) => if n == seq!['.', '.'] {
            None
        } else {
            match extension_dot(n) {
                Some(i) => Some(n.skip(i + 1)),
                None => None,
            }
        },
        None => None,
    }
}

/// The path with the extension of its file name (and the dot before it) removed.
pub fn remove_extension(value: String) -> (r: BaseResult<String>)
    ensures
        r matches Ok(s) && s@ == without_extension_text(value@),
{
    get_base_name_with_path(value)
}

/// The extension of the file name, or nothing.
pub open spec fn extension_text(value: Seq<char>) -> Seq<char> {
    match extension_of(value) {
        Some(e) => e,
        None => Seq::<char>::empty(),
    }
}

/// The path with the extension of its file name (and the `.` before it) removed from its end.
pub open spec fn without_extension_text(value: Seq<char>) -> Seq<char> {
    match extension_of(value) {
        Some(e) => if e.len() + 1 <= value.len() {
            value.take(value.len() - (e.len() + 1))
        } else {
            value
        },
        None => value,
    }
}

proof fn lemma_extension_dot(s: Seq<char>)
    ensures
        extension_dot(s) matches Some(i) ==> 0 < i < s.len() && s[i] == '.' && forall|j: int|
            i < j < s.len() ==> s[j] != '.',
        extension_dot(s) is None ==> forall|j: int| 1 <= j < s.len() ==> s[j] != '.',
    decreases s.len(),
{
    if s.len() > 1 && s.last() != '.' {
        let prefix = s.drop_last();
        lemma_extension_dot(prefix);
        assert forall|j: int| 0 <= j < prefix.len() implies prefix[j] == s[j] by {}
        assert(s[s.len() - 1] != '.');
    }
}

/// The extension is what follows the last `.` of the file name that is not its first
/// character, so it holds no `.`; the base name is what comes before that `.`, not empty,
/// and the file name is the base name, the `.` and the extension. A file name without such
/// a `.` (or `..`) has no extension and is its own base name.
pub proof fn lemma_extension_law(value: Seq<char>)
    ensures
        extension_of(value) matches Some(e) ==> {
            &&& forall|j: int| 0 <= j < e.len() ==> e[j] != '.'
            &&& stem_text(value).len() > 0
            &&& path_file_name(value) == Some(stem_text(value) + seq!['.'] + e)
        },
        extension_of(value) is None ==> (path_file_name(value) matches Some(n) ==> stem_text(value) == n && (n
            != seq!['.', '.'] ==> forall|j: int| 1 <= j < n.len() ==> n[j] != '.')),
        extension_text(value) == match extension_of(value) {
            Some(e) => e,
            None => Seq::<char>::empty(),
        },
{
    if let Some(n) = path_file_name(value) {
        lemma_extension_dot(n);
        if n != seq!['.', '.'] {
            if let Some(i) = extension_dot(n) {
                let e = n.skip(i + 1);
                assert forall|j: int| 0 <= j < e.len() implies e[j] != '.' by {
                    assert(e[j] == n[i + 1 + j]);
                }
                assert(n.take(i) + seq!['.'] + e =~= n);
            }
        }
    }
}

fn find_extension_dot(name: &Vec<char>) -> (r: Option<usize>)
    ensures
        extension_dot(name@) == match r {
            Some(i) => Some(i as int),
            None => None,
        },
        r matches Some(i) ==> 0 < i < name@.len(),
{
    proof {
        lemma_extension_dot(name@);
    }
    let mut i: usize = name.len();
    assert(name@.take(i as int) =~= name@);
    while i > 1
        invariant
            i <= name@.len(),
            extension_dot(name@) == extension_dot(name@.take(i as int)),
        decreases i,
    {
        assert(name@.take(i as int).drop_last() =~= name@.take(i - 1));
        if name[i - 1] == '.' {
            return Some(i - 1);
        }
        i = i - 1;
    }
    assert(name@.take(name@.len() as int) =~= name@);
    None
}

fn is_double_dot(name: &Vec<char>) -> (b: bool)
    ensures
        b == (name@ == seq!['.', '.']),
{
    if name.len() == 2 && name[0] == '.' && name[1] == '.' {
        assert(name@ =~= seq!['.', '.']);
        true
    } else {
        false
    }
}

/// The file name without its extension, or nothing.
pub fn get_base_name(value: String) -> (r: BaseResult<String>)
    ensures
        r matches Ok(s) && s@ == stem_text(value@),
{
    match file_name_of(value.as_str()) {
        Some(n) => {
            let chars = chars_of(n.as_str());
            assert(path_file_name(value@) == Some(chars@));
            if is_double_dot(&chars) {
                return Ok(n);
            }
            match find_extension_dot(&chars) {
                Some(i) => {
                    let mut s = String::new();
                    crate::text::push_chars(&mut s, vstd::slice::slice_subrange(chars.as_slice(), 0, i));
                    assert(s@ =~= chars@.take(i as int));
                    Ok(s)
                },
                None => Ok(n),
            }
        },
        None => Ok(String::new()),
    }
}

fn extension_exec(value: &str) -> (r: Option<Vec<char>>)
    ensures
        match extension_of(value@) {
            Some(e) => r matches Some(v) && v@ == e,
            None => r is None,
        },
{
    match file_name_of(value) {
        Some(n) => {
            let chars = chars_of(n.as_str());
            if is_double_dot(&chars) {
                return None;
            }
            match find_extension_dot(&chars) {
                Some(i) => {
                    let n = chars.len();
                    let part = vstd::slice::slice_subrange(chars.as_slice(), i + 1, n);
                    let v = vstd::slice::slice_to_vec(part);
                    assert(v@ =~= chars@.skip(i + 1));
                    Some(v)
                },
                None => None,
            }
        },
        None => None,
    }
}

/// The path without the extension of its file name.
pub fn get_base_name_with_path(value: String) -> (r: BaseResult<String>)
    ensures
        r matches Ok(s) && s@ == without_extension_text(value@),
{
    match extension_exec(value.as_str()) {
        Some(e) => {
            let chars = chars_of(value.as_str());
            if e.len() < chars.len() {
                let mut s = String::new();
                crate::text::push_chars(&mut s, vstd::slice::slice_subrange(chars.as_slice(), 0, chars.len() - (e.len() + 1)));
                assert(s@ =~= value@.take(value@.len() - (e@.len() + 1)));
                Ok(s)
            } else {
                Ok(value)
            }
        },
        None => Ok(value),
    }
}

/// The extension of the file name, or nothing. It holds no `.`.
pub fn get_extension(value: String) -> (r: BaseResult<String>)
    ensures
        r matches Ok(s) && s@ == extension_text(value@),
        r matches Ok(s) ==> forall|j: int| 0 <= j < s@.len() ==> s@[j] != '.',
{
    proof {
        lemma_extension_law(value@);
    }
    match file_name_of(value.as_str()) {
        Some(n) => {
            let chars = chars_of(n.as_str());
            if is_double_dot(&chars) {
                return Ok(String::new());
            }
            match find_extension_dot(&chars) {
                Some(i) => {
                    let n = chars.len();
                    let mut s = String::new();
                    crate::text::push_chars(&mut s, vstd::slice::slice_subrange(chars.as_slice(), i + 1, n));
                    assert(s@ =~= chars@.skip(i + 1));
                    Ok(s)
                },
                None => Ok(String::new()),
            }
        },
        None => Ok(String::new()),
    }
}

/// The extension of the file name after a `.`, or nothing when there is none.
pub fn get_extension_with_dot(value: String) -> (r: BaseResult<String>)
    ensures
        r matches Ok(s) && s@ == if extension_text(value@).len() == 0 {
            Seq::<char>::empty()
        } else {
            seq!['.'] + extension_text(value@)
        },
{
    let extension = get_extension(value)?;
    if extension.as_str().unicode_len() == 0 {
        Ok(extension)
    } else {
        let mut s = String::new();
        push_char(&mut s, '.');
        s.append(extension.as_str());
        assert(s@ =~= seq!['.'] + extension@);
        Ok(s)
    }
}

/// The path without its last component, or the path itself when it has no parent.
pub fn remove_last_name(value: String) -> (r: BaseResult<String>)
    ensures
        r matches Ok(s) && s@ == match path_parent(value@) {
            Some(p) => p,
            None => value@,
        },
{
    match parent_of(value.as_str()) {
        Some(parent) => Ok(parent),
        None => Ok(value),
    }
}

/// The text of the last component when it is a name, `.` or `..`; nothing otherwise.
pub open spec fn last_name_text(value: Seq<char>) -> Seq<char> {
    let cs = path_components(value);
    if cs.len() > 0 && !is_root(cs.last()) {
        cs.last()
    } else {
        Seq::empty()
    }
}

/// The last component of the path when it is a name, `.` or `..`.
pub fn get_last_name(value: &str) -> (r: BaseResult<String>)
    ensures
        r matches Ok(s) && s@ == last_name_text(value@),
{
    let mut components = components_of(value);
    proof {
        lemma_literals();
    }
    let n = components.len();
    assert(texts(components@).len() == n);
    if n > 0 {
        assert(texts(components@)[n - 1] == components@[n - 1]@);
        if !text_is(&components[n - 1], "/") {
            return Ok(components.pop().unwrap());
        }
    }
    Ok(String::new())
}

/// The path ending with a directory separator.
pub open spec fn with_trailing_separator(value: Seq<char>) -> Seq<char> {
    if value.len() > 0 && value.last() == MAIN_SEPARATOR {
        value
    } else {
        value.push(MAIN_SEPARATOR)
    }
}

/// The path with a directory separator at its end, added when missing.
pub fn ensure_trailing_dir_separator(value: String) -> (s: String)
    ensures
        s@ == with_trailing_separator(value@),
{
    let chars = chars_of(value.as_str());
    let n = chars.len();
    if n > 0 && chars[n - 1] == MAIN_SEPARATOR {
        value
    } else {
        let mut value = value;
        push_char(&mut value, MAIN_SEPARATOR);
        value
    }
}

/// The path without the directory separator at its end, if it has one.
pub open spec fn without_trailing_separator(value: Seq<char>) -> Seq<char> {
    if value.len() > 0 && value.last() == MAIN_SEPARATOR {
        value.drop_last()
    } else {
        value
    }
}

/// The path with one directory separator at its end removed.
pub fn remove_trailing_dir_separator(value: String) -> (s: String)
    ensures
        s@ == without_trailing_separator(value@),
{
    let chars = chars_of(value.as_str());
    let n = chars.len();
    if n > 0 && chars[n - 1] == MAIN_SEPARATOR {
        let s = crate::text::string_from_chars(vstd::slice::slice_subrange(chars.as_slice(), 0, n - 1));
        assert(s@ =~= value@.drop_last());
        s
    } else {
        value
    }
}

} // verus!
