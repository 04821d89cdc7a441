//! Paths as text: file extensions, joining, components and containment.

use vstd::prelude::*;
use vstd::string::StringExecFns;
use vstd::string::StrSliceExecFns;
use crate::text::{chars_of, str_eq, texts_of};

verus! {

/// The separator between the components of a path.
pub const SEPARATOR: char = '/';

/// Index of the last `.` among the first `end` scalar values of `name`, or
/// `-1` if there is none.
pub open spec fn last_dot_before(name: Seq<char>, end: int) -> int
    decreases end,
{
    if end <= 0 {
        -1
    } else if name[end - 1] == '.' {
        end - 1
    } else {
        last_dot_before(name, end - 1)
    }
}

/// The extension of a file name: what follows its last `.`, unless the name
/// has no `.`, has its only `.` in front, or is `..`.
pub open spec fn extension_of(name: Seq<char>) -> Option<Seq<char>> {
    let dot = last_dot_before(name, name.len() as int);
    if dot <= 0 || name == seq!['.', '.'] {
        None
    } else {
        Some(name.subrange(dot + 1, name.len() as int))
    }
}

/// A name with an extension is a non-empty stem, a `.`, and the extension,
/// and the extension holds no `.`.
pub proof fn lemma_extension_splits_name(name: Seq<char>)
    requires
        extension_of(name) is Some,
    ensures
        ({
            let ext = extension_of(name)->0;
            let stem = name.subrange(0, name.len() - ext.len() - 1);
            &&& stem.len() > 0
            &&& name == stem + seq!['.'] + ext
            &&& forall|i: int| 0 <= i < ext.len() ==> ext[i] != '.'
        }),
{
    lemma_last_dot(name, name.len() as int);
    let ext = extension_of(name)->0;
    let stem = name.subrange(0, name.len() - ext.len() - 1);
    assert(name =~= stem + seq!['.'] + ext);
}

/// `last_dot_before` finds a `.` with none after it, or `-1` where there is
/// no `.` at all.
pub proof fn lemma_last_dot(name: Seq<char>, end: int)
    requires
        0 <= end <= name.len(),
    ensures
        -1 <= last_dot_before(name, end) < end,
        last_dot_before(name, end) >= 0 ==> name[last_dot_before(name, end)] == '.',
        forall|i: int| last_dot_before(name, end) < i < end ==> name[i] != '.',
    decreases end,
{
    if end > 0 && name[end - 1] != '.' {
        lemma_last_dot(name, end - 1);
    }
}

/// Splits the extension off a file name.
pub fn file_extension(name: &str) -> (ext: Option<String>)
    ensures
        ext matches Some(e) ==> extension_of(name@) == Some(e@),
        ext is None ==> extension_of(name@) is None,
{
    let chars = chars_of(name);
    let len = chars.len();
    let mut end: usize = len;
    while end > 0 && chars[end - 1] != '.'
        invariant
            0 <= end <= len,
            len == chars@.len(),
            chars@ == name@,
            last_dot_before(name@, len as int) == last_dot_before(name@, end as int),
        decreases end,
    {
        end -= 1;
    }
    if end <= 1 {
        return None;
    }
    if len == 2 && chars[0] == '.' {
        assert(name@ =~= seq!['.', '.']);
        return None;
    }
    assert(name@ != seq!['.', '.']) by {
        if name@ == seq!['.', '.'] {
            assert(seq!['.', '.'][0] == '.');
        }
    }
    Some(String::from_str(name.substring_char(end, len)))
}

/// The path of `part` inside `base`: an absolute `part` stands alone,
/// otherwise the two are joined by one separator, which an empty `base` or one
/// that ends in a separator does not need.
pub open spec fn joined_path(base: Seq<char>, part: Seq<char>) -> Seq<char> {
    if part.len() > 0 && part[0] == SEPARATOR {
        part
    } else if base.len() == 0 || base.last() == SEPARATOR {
        base + part
    } else {
        base + seq![SEPARATOR] + part
    }
}

/// Joins `part` onto `base`.
pub fn join_path(base: &str, part: &str) -> (joined: String)
    ensures
        joined@ == joined_path(base@, part@),
{
    let base_chars = chars_of(base);
    let part_chars = chars_of(part);
    if part_chars.len() > 0 && part_chars[0] == SEPARATOR {
        return String::from_str(part);
    }
    let mut joined = String::from_str(base);
    if base_chars.len() > 0 && base_chars[base_chars.len() - 1] != SEPARATOR {
        proof {
            reveal_strlit("/");
        }
        joined.append("/");
        assert(joined@ =~= base@ + seq![SEPARATOR]);
    }
    joined.append(part);
    joined
}

/// The parent of a path as `Path::parent` gives it, `None` where it gives
/// none.
pub uninterp spec fn parent_path(path: Seq<char>) -> Option<Seq<char>>;

/// Calls `Path::parent`. The contract only names the result: the same path
/// text always has the same parent.
#[verifier::external_body]
pub(crate) fn path_parent(path: &str) -> (parent: Option<String>)
    ensures
        parent matches Some(p) ==> parent_path(path@) == Some(p@),
        parent is None ==> parent_path(path@) is None,
{
    std::path::Path::new(path).parent().map(|p| p.to_string_lossy().into_owned())
}

/// Whether a stretch of a path between separators counts as a component: an
/// empty stretch and a lone `.` do not.
pub open spec fn is_named(segment: Seq<char>) -> bool {
    segment.len() > 0 && segment != seq!['.']
}

/// A sequence of at most one component.
pub open spec fn kept(segment: Seq<char>) -> Seq<Seq<char>> {
    if is_named(segment) {
        seq![segment]
    } else {
        Seq::empty()
    }
}

/// The components among the stretches of `path` from position `start` on,
/// where the stretch that begins at `start` has been read up to `at`.
pub open spec fn named_from(path: Seq<char>, start: int, at: int) -> Seq<Seq<char>>
    decreases path.len() - at,
{
    if at < 0 || at >= path.len() {
        kept(path.subrange(start, path.len() as int))
    } else if path[at] == SEPARATOR {
        kept(path.subrange(start, at)) + named_from(path, at + 1, at + 1)
    } else {
        named_from(path, start, at + 1)
    }
}

/// What a path begins with: the root for an absolute path, the current
/// directory for a path that is `.` or begins with `./`, nothing otherwise.
pub open spec fn leading_component(path: Seq<char>) -> Seq<Seq<char>> {
    if path.len() > 0 && path[0] == SEPARATOR {
        seq![seq![SEPARATOR]]
    } else if path.len() > 0 && path[0] == '.' && (path.len() == 1 || path[1] == SEPARATOR) {
        seq![seq!['.']]
    } else {
        Seq::empty()
    }
}

/// The components of a path: what it begins with, then every stretch between
/// separators that is neither empty nor a lone `.`. So repeated separators,
/// a trailing separator and `.` inside the path make no difference.
pub open spec fn components_of(path: Seq<char>) -> Seq<Seq<char>> {
    leading_component(path) + named_from(path, 0, 0)
}

/// Whether `path` lies under `base`: the components of `base` are the first
/// components of `path`. Only whole components match.
pub open spec fn path_within(path: Seq<char>, base: Seq<char>) -> bool {
    components_of(base).is_prefix_of(components_of(path))
}

/// The component that steps up to the parent directory.
pub open spec fn parent_step() -> Seq<char> {
    seq!['.', '.']
}

/// Whether `path` lies under `base` and cannot leave it again: the
/// components of `base` are its first components, and none of its components
/// steps up to a parent directory.
pub open spec fn stays_within(path: Seq<char>, base: Seq<char>) -> bool {
    path_within(path, base) && !components_of(path).contains(parent_step())
}

/// Every path lies under itself.
pub proof fn lemma_path_within_itself(path: Seq<char>)
    ensures
        path_within(path, path),
{
    let components = components_of(path);
    assert(components.subrange(0, components.len() as int) =~= components);
}

/// Lying under is transitive: what lies under a folder lies under every
/// folder that the folder lies under.
pub proof fn lemma_path_within_transitive(path: Seq<char>, middle: Seq<char>, base: Seq<char>)
    requires
        path_within(path, middle),
        path_within(middle, base),
    ensures
        path_within(path, base),
{
    let p = components_of(path);
    let m = components_of(middle);
    let b = components_of(base);
    assert(b =~= p.subrange(0, b.len() as int)) by {
        assert(b == m.subrange(0, b.len() as int));
        assert(m == p.subrange(0, m.len() as int));
    }
}

/// Reading on behind a prefix finds what reading the rest alone finds.
proof fn lemma_named_from_behind(prefix: Seq<char>, rest: Seq<char>, start: int, at: int)
    requires
        0 <= start <= at <= rest.len(),
    ensures
        named_from(prefix + rest, prefix.len() + start, prefix.len() + at) == named_from(
            rest,
            start,
            at,
        ),
    decreases rest.len() - at,
{
    let whole = prefix + rest;
    let p = prefix.len() as int;
    if at >= rest.len() {
        assert(whole.subrange(p + start, whole.len() as int) =~= rest.subrange(
            start,
            rest.len() as int,
        ));
    } else {
        assert(whole[p + at] == rest[at]);
        if rest[at] == SEPARATOR {
            assert(whole.subrange(p + start, p + at) =~= rest.subrange(start, at));
            lemma_named_from_behind(prefix, rest, at + 1, at + 1);
        } else {
            lemma_named_from_behind(prefix, rest, start, at + 1);
        }
    }
}

/// Reading a path that goes on behind a separator finds the components up
/// to the separator first, then those behind it.
proof fn lemma_named_from_before(front: Seq<char>, rest: Seq<char>, start: int, at: int)
    requires
        0 <= start <= at <= front.len(),
    ensures
        named_from(front + seq![SEPARATOR] + rest, start, at) == named_from(front, start, at)
            + named_from(rest, 0, 0),
    decreases front.len() - at,
{
    let whole = front + seq![SEPARATOR] + rest;
    if at >= front.len() {
        assert(whole[at] == SEPARATOR);
        assert(whole.subrange(start, at) =~= front.subrange(start, front.len() as int));
        lemma_named_from_behind(front + seq![SEPARATOR], rest, 0, 0);
    } else {
        assert(whole[at] == front[at]);
        if front[at] == SEPARATOR {
            assert(whole.subrange(start, at) =~= front.subrange(start, at));
            lemma_named_from_before(front, rest, at + 1, at + 1);
            assert(kept(front.subrange(start, at)) + (named_from(front, at + 1, at + 1)
                + named_from(rest, 0, 0)) =~= (kept(front.subrange(start, at)) + named_from(
                front,
                at + 1,
                at + 1,
            )) + named_from(rest, 0, 0));
        } else {
            lemma_named_from_before(front, rest, start, at + 1);
        }
    }
}

/// A path that ends in a separator has the components of the path without
/// it.
proof fn lemma_named_from_trailing(front: Seq<char>, start: int, at: int)
    requires
        0 <= start <= at <= front.len(),
    ensures
        named_from(front + seq![SEPARATOR], start, at) == named_from(front, start, at),
    decreases front.len() - at,
{
    let whole = front + seq![SEPARATOR];
    if at >= front.len() {
        assert(whole[at] == SEPARATOR);
        assert(whole.subrange(start, at) =~= front.subrange(start, front.len() as int));
        assert(whole.subrange(at + 1, whole.len() as int) =~= Seq::<char>::empty());
        assert(named_from(whole, at + 1, at + 1) =~= Seq::<Seq<char>>::empty());
        assert(named_from(whole, start, at) =~= kept(front.subrange(start, front.len() as int)));
    } else {
        assert(whole[at] == front[at]);
        if front[at] == SEPARATOR {
            assert(whole.subrange(start, at) =~= front.subrange(start, at));
            lemma_named_from_trailing(front, at + 1, at + 1);
        } else {
            lemma_named_from_trailing(front, start, at + 1);
        }
    }
}

/// The components of a joined path are those of the folder, then those
/// named in what was joined on.
proof fn lemma_joined_components(base: Seq<char>, part: Seq<char>)
    requires
        part.len() == 0 || part[0] != SEPARATOR,
        base.len() > 0,
    ensures
        components_of(joined_path(base, part)) == components_of(base) + named_from(part, 0, 0),
{
    let joined = joined_path(base, part);
    let front = if base.last() == SEPARATOR {
        base.drop_last()
    } else {
        base
    };
    assert(joined =~= front + seq![SEPARATOR] + part);
    lemma_named_from_before(front, part, 0, 0);
    if base.last() == SEPARATOR {
        assert(base =~= front + seq![SEPARATOR]);
        lemma_named_from_trailing(front, 0, 0);
    }
    assert(named_from(joined, 0, 0) == named_from(base, 0, 0) + named_from(part, 0, 0));
    assert(leading_component(joined) =~= leading_component(base)) by {
        assert(joined[0] == base[0]);
        if base.len() > 1 {
            assert(joined[1] == base[1]);
        } else if base[0] != SEPARATOR {
            assert(joined[1] == SEPARATOR);
        }
    }
    assert(components_of(joined) =~= components_of(base) + named_from(part, 0, 0));
}

/// What is joined onto a folder lies under the folder, unless it is an
/// absolute path, which stands alone.
pub proof fn lemma_joined_path_within(base: Seq<char>, part: Seq<char>)
    requires
        part.len() == 0 || part[0] != SEPARATOR,
    ensures
        path_within(joined_path(base, part), base),
{
    let joined = joined_path(base, part);
    if base.len() == 0 {
        assert(components_of(base) =~= Seq::<Seq<char>>::empty()) by {
            assert(base.subrange(0, 0) =~= Seq::<char>::empty());
        }
        assert(components_of(base) =~= components_of(joined).subrange(0, 0));
    } else {
        lemma_joined_components(base, part);
        assert(components_of(base) =~= components_of(joined).subrange(
            0,
            components_of(base).len() as int,
        ));
    }
}

/// A joined path steps up to a parent directory only where the folder or
/// what was joined on does.
pub proof fn lemma_joined_path_steps(base: Seq<char>, part: Seq<char>)
    requires
        part.len() == 0 || part[0] != SEPARATOR,
        !components_of(base).contains(parent_step()),
        !components_of(part).contains(parent_step()),
    ensures
        !components_of(joined_path(base, part)).contains(parent_step()),
{
    let joined = components_of(joined_path(base, part));
    if base.len() > 0 {
        lemma_joined_components(base, part);
        let first = components_of(base);
        let second = named_from(part, 0, 0);
        if joined.contains(parent_step()) {
            let i = choose|i: int| 0 <= i < joined.len() && joined[i] == parent_step();
            if i < first.len() {
                assert(first[i] == parent_step());
            } else {
                assert(second[i - first.len()] == parent_step());
                let lead = leading_component(part);
                assert(components_of(part)[lead.len() + (i - first.len())] == parent_step());
            }
        }
    }
}

/// A path has a component that steps up to a parent directory only if it
/// holds two dots in a row.
pub proof fn lemma_parent_step_shows(path: Seq<char>)
    requires
        components_of(path).contains(parent_step()),
    ensures
        exists|i: int| 0 <= i && i + 1 < path.len() && path[i] == '.' && #[trigger] path[i + 1] == '.',
{
    let all = components_of(path);
    let lead = leading_component(path);
    let i = choose|i: int| 0 <= i < all.len() && all[i] == parent_step();
    if i < lead.len() {
        assert(lead[i].len() == 1);
    } else {
        assert(named_from(path, 0, 0)[i - lead.len()] == parent_step());
        lemma_named_parent_step_shows(path, 0, 0);
    }
}

proof fn lemma_named_parent_step_shows(path: Seq<char>, start: int, at: int)
    requires
        0 <= start <= at <= path.len(),
        named_from(path, start, at).contains(parent_step()),
    ensures
        exists|i: int| 0 <= i && i + 1 < path.len() && path[i] == '.' && #[trigger] path[i + 1] == '.',
    decreases path.len() - at,
{
    let found = named_from(path, start, at);
    let k = choose|k: int| 0 <= k < found.len() && found[k] == parent_step();
    let end = if at >= path.len() {
        path.len() as int
    } else {
        at
    };
    if at < path.len() && path[at] != SEPARATOR {
        lemma_named_parent_step_shows(path, start, at + 1);
    } else {
        let stretch = path.subrange(start, end);
        let first = kept(stretch);
        if k < first.len() {
            assert(stretch == parent_step());
            assert(stretch[0] == '.' && stretch[1] == '.');
            assert(path[start] == '.' && path[start + 1] == '.');
        } else {
            assert(at < path.len());
            assert(named_from(path, at + 1, at + 1)[k - first.len()] == parent_step());
            lemma_named_parent_step_shows(path, at + 1, at + 1);
        }
    }
}

/// Splits a path into its components.
pub fn path_components(path: &str) -> (components: Vec<String>)
    ensures
        texts_of(components@) == components_of(path@),
{
    let chars = chars_of(path);
    let len = chars.len();
    let mut components: Vec<String> = Vec::new();
    if len > 0 && chars[0] == SEPARATOR {
        proof {
            reveal_strlit("/");
        }
        components.push(String::from_str("/"));
        assert(texts_of(components@) =~= leading_component(path@)) by {
            assert("/"@ =~= seq![SEPARATOR]);
        }
    } else if len > 0 && chars[0] == '.' && (len == 1 || chars[1] == SEPARATOR) {
        proof {
            reveal_strlit(".");
        }
        components.push(String::from_str("."));
        assert(texts_of(components@) =~= leading_component(path@)) by {
            assert("."@ =~= seq!['.']);
        }
    } else {
        assert(texts_of(components@) =~= leading_component(path@));
    }
    let mut start: usize = 0;
    let mut at: usize = 0;
    while at < len
        invariant
            0 <= start <= at <= len,
            len == chars@.len(),
            chars@ == path@,
            texts_of(components@) + named_from(path@, start as int, at as int) == components_of(
                path@,
            ),
        decreases len - at,
    {
        if chars[at] == SEPARATOR {
            let ghost before = texts_of(components@);
            let named = at > start && !(at - start == 1 && chars[start] == '.');
            proof {
                let segment = path@.subrange(start as int, at as int);
                if at - start == 1 && chars[start as int] == '.' {
                    assert(segment =~= seq!['.']);
                }
                if segment == seq!['.'] {
                    assert(segment.len() == 1 && segment[0] == '.');
                }
                assert(named == is_named(segment));
            }
            if named {
                components.push(String::from_str(path.substring_char(start, at)));
                assert(texts_of(components@) =~= before + kept(
                    path@.subrange(start as int, at as int),
                ));
            }
            assert(texts_of(components@) + named_from(path@, at + 1, at + 1) =~= before
                + named_from(path@, start as int, at as int));
            start = at + 1;
        }
        at += 1;
    }
    let ghost before = texts_of(components@);
    let named = len > start && !(len - start == 1 && chars[start] == '.');
    proof {
        let segment = path@.subrange(start as int, len as int);
        if len - start == 1 && chars[start as int] == '.' {
            assert(segment =~= seq!['.']);
        }
        if segment == seq!['.'] {
            assert(segment.len() == 1 && segment[0] == '.');
        }
        assert(named == is_named(segment));
    }
    if named {
        components.push(String::from_str(path.substring_char(start, len)));
        assert(texts_of(components@) =~= before + kept(path@.subrange(start as int, len as int)));
    }
    assert(texts_of(components@) =~= components_of(path@));
    components
}

fn components_start_with(whole: &Vec<String>, prefix: &Vec<String>) -> (starts: bool)
    ensures
        starts == texts_of(prefix@).is_prefix_of(texts_of(whole@)),
{
    if prefix.len() > whole.len() {
        return false;
    }
    let mut i: usize = 0;
    while i < prefix.len()
        invariant
            0 <= i <= prefix@.len() <= whole@.len(),
            forall|k: int| 0 <= k < i ==> prefix@[k]@ == whole@[k]@,
        decreases prefix@.len() - i,
    {
        if prefix[i] != whole[i] {
            assert(texts_of(prefix@)[i as int] != texts_of(whole@).subrange(
                0,
                prefix@.len() as int,
            )[i as int]);
            return false;
        }
        i += 1;
    }
    assert(texts_of(prefix@) =~= texts_of(whole@).subrange(0, prefix@.len() as int));
    true
}

fn has_parent_step(components: &Vec<String>) -> (found: bool)
    ensures
        found == texts_of(components@).contains(parent_step()),
{
    proof {
        reveal_strlit("..");
        assert(".."@ =~= parent_step());
    }
    let mut i: usize = 0;
    while i < components.len()
        invariant
            0 <= i <= components@.len(),
            ".."@ == parent_step(),
            forall|k: int| 0 <= k < i ==> components@[k]@ != parent_step(),
        decreases components@.len() - i,
    {
        if str_eq(components[i].as_str(), "..") {
            assert(texts_of(components@)[i as int] == parent_step());
            return true;
        }
        i += 1;
    }
    assert forall|k: int| 0 <= k < texts_of(components@).len() implies texts_of(components@)[k]
        != parent_step() by {
        assert(texts_of(components@)[k] == components@[k]@);
    }
    false
}

/// Decides whether `path` lies under `base`, component by component.
pub fn path_starts_with(path: &str, base: &str) -> (within: bool)
    ensures
        within == path_within(path@, base@),
{
    let whole = path_components(path);
    let prefix = path_components(base);
    components_start_with(&whole, &prefix)
}

/// Decides whether `path` lies under `base` without a step up to a parent
/// directory anywhere in it.
pub fn path_stays_within(path: &str, base: &str) -> (within: bool)
    ensures
        within == stays_within(path@, base@),
{
    let whole = path_components(path);
    let prefix = path_components(base);
    components_start_with(&whole, &prefix) && !has_parent_step(&whole)
}

} // verus!
