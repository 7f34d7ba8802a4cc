//! Paths of the file browser: resolving them without touching a filesystem, and
//! confining them to a root.

use vstd::prelude::*;

use crate::errors::FileError;
use crate::text::{
    alpha, begins, blank, chars_of, concat2, concat3, control, cut_last, every, find_last,
    has_char, is_alpha, is_blank, is_control, is_space, join, join_strings, lemma_find_last,
    lemma_join_every, lemma_join_front, lemma_not_blank, lemma_split_every, lemma_split_head,
    lemma_split_parts, lemma_split_plain, same, split, split_char, split_undoes_join, starts_with,
    string_from, trim_end_of, trim_end_set, views,
};

verus! {

// ---------------------------------------------------------------------------
// What the operations mean
// ---------------------------------------------------------------------------

/// The path with every backslash turned into a slash.
pub open spec fn unified(path: Seq<char>) -> Seq<char> {
    path.map_values(|c: char| if c == '\\' { '/' } else { c })
}

/// Does the path start with a drive such as `C:`?
pub open spec fn has_drive(path: Seq<char>) -> bool {
    path.len() >= 2 && is_alpha(path[0]) && path[1] == ':'
}

/// Is the path a drive root such as `C:` or `C:/`, with nothing but separators
/// behind the drive?
pub open spec fn names_drive_root(path: Seq<char>) -> bool {
    &&& has_drive(path)
    &&& forall|i: int| 2 <= i < path.len() ==> #[trigger] path[i] == '/' || path[i] == '\\'
}

/// The path without its drive.
pub open spec fn after_drive(path: Seq<char>) -> Seq<char> {
    if has_drive(path) {
        path.skip(2)
    } else {
        path
    }
}

/// A segment that names nothing: empty, or a single dot.
pub open spec fn is_idle(part: Seq<char>) -> bool {
    part.len() == 0 || part == seq!['.']
}

/// The segment that leads one level up.
pub open spec fn is_up(part: Seq<char>) -> bool {
    part == seq!['.', '.']
}

/// The segments that are left when idle ones are dropped and each `..` takes
/// the name before it away. At the top there is nothing to take away.
pub open spec fn resolve(parts: Seq<Seq<char>>) -> Seq<Seq<char>>
    decreases parts.len(),
{
    if parts.len() == 0 {
        parts
    } else {
        let before = resolve(parts.drop_last());
        let part = parts.last();
        if is_idle(part) {
            before
        } else if is_up(part) {
            if before.len() > 0 {
                before.drop_last()
            } else {
                before
            }
        } else {
            before.push(part)
        }
    }
}

/// The names that the path leads through, below its drive or root.
pub open spec fn names(path: Seq<char>) -> Seq<Seq<char>> {
    resolve(split(after_drive(unified(path)), '/'))
}

/// The path resolved lexically. A drive keeps a separator behind it, a path
/// that starts at the root still does, and a relative path stays relative.
pub open spec fn normalised(path: Seq<char>) -> Seq<char> {
    let u = unified(path);
    let joined = join(names(path), seq!['/']);
    if has_drive(u) {
        u.take(2) + seq!['/'] + joined
    } else if begins(u, seq!['/']) {
        seq!['/'] + joined
    } else {
        joined
    }
}

/// Why a path is refused.
pub enum Refusal {
    Control,
    Escape,
}

/// The path without leading `./`, however many there are.
pub open spec fn without_here(path: Seq<char>) -> Seq<char>
    decreases path.len(),
{
    if begins(path, seq!['.', '/']) {
        without_here(path.skip(2))
    } else {
        path
    }
}

/// The path that a request below a resolved root stands for. Below a root that
/// resolves to nothing, such as `.`, it stays relative.
pub open spec fn below(root: Seq<char>, path: Seq<char>) -> Seq<char> {
    if root.len() == 0 {
        path
    } else {
        root + seq!['/'] + path
    }
}

/// The path whose resolved form a request names: the root itself where it is
/// blank, an absolute path as it is, and anything else below the root.
pub open spec fn requested_path(requested: Seq<char>, root: Seq<char>) -> Seq<char> {
    if is_blank(requested) {
        root
    } else if begins(requested, seq!['/']) || has_drive(requested) {
        requested
    } else {
        below(normalised(root), without_here(requested))
    }
}

/// The place that a request names.
pub open spec fn requested_place(requested: Seq<char>, root: Seq<char>) -> Seq<char> {
    normalised(requested_path(requested, root))
}

/// Does a resolved path lie at or below a resolved root? The boundary falls on
/// a separator. Below a root that resolves to nothing lies what is relative.
pub open spec fn lies_inside(path: Seq<char>, root: Seq<char>) -> bool {
    if root.len() == 0 {
        !begins(path, seq!['/']) && !has_drive(path)
    } else {
        ||| path == root
        ||| root == seq!['/']
        ||| begins(path, trim_end_of(root, seq!['/']) + seq!['/'])
    }
}

/// Does the text hold a control character?
pub open spec fn has_control(s: Seq<char>) -> bool {
    exists|i: int| 0 <= i < s.len() && is_control(#[trigger] s[i])
}

/// The path that a request may have below a root, or why it is refused.
pub open spec fn confined(requested: Seq<char>, root: Seq<char>) -> Result<Seq<char>, Refusal> {
    let place = requested_place(requested, root);
    if has_control(requested) || has_control(root) {
        Err(Refusal::Control)
    } else if lies_inside(place, normalised(root)) {
        Ok(place)
    } else {
        Err(Refusal::Escape)
    }
}

/// The path that is opened for a place. The empty one is where one stands.
pub open spec fn opened(place: Seq<char>) -> Seq<char> {
    if place.len() == 0 {
        "."@
    } else {
        place
    }
}

/// The path of `name` in `dir`, with the separator that `dir` already uses. A
/// bare drive, and a drive with a relative name, take a backslash.
pub open spec fn joined_path(dir: Seq<char>, name: Seq<char>) -> Seq<char> {
    let t = trim_end_of(dir, seq!['/', '\\']);
    if t.len() == 0 {
        seq!['/'] + name
    } else if t.len() == 2 && t[0] as u32 <= 0x7f && t[1] == ':' {
        t + seq!['\\'] + name
    } else if t.contains('\\') || (has_drive(t) && !t.contains('/')) {
        t + seq!['\\'] + name
    } else {
        t + seq!['/'] + name
    }
}

// ---------------------------------------------------------------------------
// The operations
// ---------------------------------------------------------------------------

/// Turns every backslash into a slash.
fn unify(path: &str) -> (r: String)
    ensures
        r@ == unified(path@),
{
    let v = chars_of(path);
    let mut out = String::new();
    let mut i: usize = 0;
    while i < v.len()
        invariant
            i <= v@.len(),
            v@ == path@,
            out@ == unified(path@).take(i as int),
        decreases v.len() - i,
    {
        if v[i] == '\\' {
            out.push('/');
        } else {
            out.push(v[i]);
        }
        i = i + 1;
        assert(unified(path@).take(i as int) =~= unified(path@).take(i - 1).push(
            unified(path@)[i - 1],
        ));
    }
    assert(unified(path@).take(i as int) =~= unified(path@));
    out
}

/// The drive prefix of a path, if it has one.
pub fn drive_prefix(path: &str) -> (r: Option<String>)
    ensures
        match r {
            Some(d) => has_drive(path@) && d@ == path@.take(2),
            None => !has_drive(path@),
        },
{
    let v = chars_of(path);
    if v.len() >= 2 && v[1] == ':' && alpha(v[0]) {
        let d = string_from(&v, 0, 2);
        assert(d@ =~= path@.take(2));
        Some(d)
    } else {
        None
    }
}

/// Is this a drive root such as `C:` or `C:/`?
pub fn is_drive_root(path: &str) -> (r: bool)
    ensures
        r == names_drive_root(path@),
{
    if drive_prefix(path).is_none() {
        return false;
    }
    let v = chars_of(path);
    let mut i: usize = 2;
    while i < v.len()
        invariant
            2 <= i <= v@.len(),
            v@ == path@,
            forall|j: int| 2 <= j < i ==> #[trigger] path@[j] == '/' || path@[j] == '\\',
        decreases v.len() - i,
    {
        if v[i] != '/' && v[i] != '\\' {
            assert(path@[i as int] != '/' && path@[i as int] != '\\');
            return false;
        }
        i = i + 1;
    }
    true
}

/// Resolves `.` and `..` lexically, without touching the filesystem.
pub fn normalise(path: &str) -> (r: String)
    ensures
        r@ == normalised(path@),
{
    let u = unify(path);
    let drive = drive_prefix(u.as_str());
    let rest = match &drive {
        Some(_) => {
            let v = chars_of(u.as_str());
            let t = string_from(&v, 2, v.len());
            assert(t@ =~= u@.skip(2));
            t
        },
        None => u.clone(),
    };
    let parts = split_char(rest.as_str(), '/');
    let ghost pv = views(parts@);
    let mut out: Vec<String> = Vec::new();
    let mut i: usize = 0;
    assert(views(out@) =~= resolve(pv.take(0)));
    while i < parts.len()
        invariant
            i <= parts@.len(),
            pv == views(parts@),
            views(out@) == resolve(pv.take(i as int)),
        decreases parts.len() - i,
    {
        let part = &parts[i];
        let ghost before = views(out@);
        proof {
            reveal_strlit(".");
            reveal_strlit("..");
            assert("."@ =~= seq!['.']);
            assert(".."@ =~= seq!['.', '.']);
            assert(pv.take(i + 1).drop_last() =~= pv.take(i as int));
            assert(pv.take(i + 1).last() == part@);
        }
        if part.as_str().is_empty() || same(part.as_str(), ".") {
        } else if same(part.as_str(), "..") {
            if out.len() > 0 {
                let _ = out.pop();
                assert(views(out@) =~= before.drop_last());
            }
        } else {
            out.push(part.clone());
            assert(views(out@) =~= before.push(part@));
        }
        i = i + 1;
    }
    assert(pv.take(i as int) =~= pv);
    let joined = join_strings(&out, "/");
    proof {
        reveal_strlit("/");
        assert("/"@ =~= seq!['/']);
    }
    match drive {
        Some(d) => concat3(d.as_str(), "/", joined.as_str()),
        None => if starts_with(u.as_str(), "/") {
            concat2("/", joined.as_str())
        } else {
            joined
        },
    }
}

/// Removes leading `./`.
fn strip_here(path: &str) -> (r: String)
    ensures
        r@ == without_here(path@),
{
    let v = chars_of(path);
    let mut lo: usize = 0;
    assert(v@.skip(0) =~= path@);
    while v.len() - lo >= 2 && v[lo] == '.' && v[lo + 1] == '/'
        invariant
            lo <= v@.len(),
            without_here(path@) == without_here(v@.skip(lo as int)),
        decreases v.len() - lo,
    {
        assert(v@.skip(lo as int).subrange(0, 2) =~= seq!['.', '/']);
        assert(v@.skip(lo as int).skip(2) =~= v@.skip(lo + 2));
        lo = lo + 2;
    }
    proof {
        let s = v@.skip(lo as int);
        if begins(s, seq!['.', '/']) {
            assert(s.subrange(0, 2)[0] == '.' && s.subrange(0, 2)[1] == '/');
            assert(v@[lo as int] == '.' && v@[lo + 1] == '/');
        }
    }
    let r = string_from(&v, lo, v.len());
    assert(r@ =~= v@.skip(lo as int));
    r
}

/// Does the text hold a control character?
fn any_control(s: &str) -> (r: bool)
    ensures
        r == has_control(s@),
{
    let v = chars_of(s);
    let mut i: usize = 0;
    while i < v.len()
        invariant
            i <= v@.len(),
            v@ == s@,
            forall|j: int| 0 <= j < i ==> !is_control(#[trigger] v@[j]),
        decreases v.len() - i,
    {
        if control(v[i]) {
            assert(is_control(s@[i as int]));
            return true;
        }
        i = i + 1;
    }
    false
}

/// Refuses a path that could climb out of the root it was given, or that
/// carries a control character; hands the resolved path back otherwise.
pub fn safe_path(requested: &str, root: &str) -> (r: Result<String, FileError>)
    ensures
        match r {
            Ok(p) => confined(requested@, root@) == Ok::<Seq<char>, Refusal>(p@),
            Err(FileError::Escape) => confined(requested@, root@) == Err::<Seq<char>, Refusal>(
                Refusal::Escape,
            ),
            Err(FileError::Other(m)) => confined(requested@, root@) == Err::<Seq<char>, Refusal>(
                Refusal::Control,
            ) && m@ == "path contains control characters"@,
            Err(FileError::Exec(_)) => false,
        },
{
    if any_control(requested) || any_control(root) {
        return Err(FileError::Other(String::from_str("path contains control characters")));
    }
    let root = normalise(root);
    proof {
        reveal_strlit("/");
        assert("/"@ =~= seq!['/']);
    }
    let candidate = if blank(requested) {
        root.clone()
    } else if starts_with(requested, "/") || drive_prefix(requested).is_some() {
        normalise(requested)
    } else {
        let rest = strip_here(requested);
        if root.as_str().is_empty() {
            normalise(rest.as_str())
        } else {
            let whole = concat3(root.as_str(), "/", rest.as_str());
            normalise(whole.as_str())
        }
    };
    let inside = if root.as_str().is_empty() {
        !starts_with(candidate.as_str(), "/") && drive_prefix(candidate.as_str()).is_none()
    } else {
        let edge = trim_end_set(root.as_str(), "/");
        let prefix = concat2(edge.as_str(), "/");
        same(candidate.as_str(), root.as_str()) || same(root.as_str(), "/") || starts_with(
            candidate.as_str(),
            prefix.as_str(),
        )
    };
    if !inside {
        return Err(FileError::Escape);
    }
    Ok(candidate)
}

/// The path that is opened for a place.
pub fn to_open(place: &str) -> (r: String)
    ensures
        r@ == opened(place@),
{
    if place.is_empty() {
        String::from_str(".")
    } else {
        String::from_str(place)
    }
}

/// Joins a directory and a name with the separator the directory already uses.
pub fn join_path(dir: &str, name: &str) -> (r: String)
    ensures
        r@ == joined_path(dir@, name@),
{
    proof {
        reveal_strlit("/");
        reveal_strlit("\\");
        reveal_strlit("/\\");
        assert("/"@ =~= seq!['/']);
        assert("\\"@ =~= seq!['\\']);
        assert("/\\"@ =~= seq!['/', '\\']);
    }
    let t = trim_end_set(dir, "/\\");
    let v = chars_of(t.as_str());
    if v.len() == 0 {
        concat2("/", name)
    } else if v.len() == 2 && v[0] as u32 <= 0x7f && v[1] == ':' {
        concat3(t.as_str(), "\\", name)
    } else if has_char(t.as_str(), '\\') || (drive_prefix(t.as_str()).is_some()
        && !has_char(t.as_str(), '/')) {
        concat3(t.as_str(), "\\", name)
    } else {
        concat3(t.as_str(), "/", name)
    }
}

// ---------------------------------------------------------------------------
// Laws
// ---------------------------------------------------------------------------

/// Is the segment a real name: neither empty, nor a dot, nor two dots?
pub open spec fn is_name(part: Seq<char>) -> bool {
    !is_idle(part) && !is_up(part)
}

/// What is left after resolving are real names, and each was a segment before.
proof fn lemma_resolve_names(parts: Seq<Seq<char>>)
    ensures
        resolve(parts).len() <= parts.len(),
        forall|i: int|
            0 <= i < resolve(parts).len() ==> is_name(#[trigger] resolve(parts)[i])
                && parts.contains(resolve(parts)[i]),
    decreases parts.len(),
{
    if parts.len() > 0 {
        let t = parts.drop_last();
        lemma_resolve_names(t);
        let before = resolve(t);
        let out = resolve(parts);
        assert forall|i: int| 0 <= i < out.len() implies is_name(#[trigger] out[i])
            && parts.contains(out[i]) by {
            if i < before.len() {
                assert(out[i] == before[i]);
                let k = choose|k: int| 0 <= k < t.len() && t[k] == before[i];
                assert(parts[k] == before[i]);
            } else {
                assert(out[i] == parts.last());
                assert(parts[parts.len() - 1] == out[i]);
            }
        }
    }
}

/// Real names stay as they are.
proof fn lemma_resolve_fixed(parts: Seq<Seq<char>>)
    requires
        forall|i: int| 0 <= i < parts.len() ==> is_name(#[trigger] parts[i]),
    ensures
        resolve(parts) == parts,
    decreases parts.len(),
{
    if parts.len() > 0 {
        let t = parts.drop_last();
        assert forall|i: int| 0 <= i < t.len() implies is_name(#[trigger] t[i]) by {
            assert(t[i] == parts[i]);
        }
        lemma_resolve_fixed(t);
        assert(is_name(parts[parts.len() - 1]));
        assert(t.push(parts.last()) =~= parts);
    }
}

/// An idle segment in front changes nothing.
proof fn lemma_resolve_idle_front(first: Seq<char>, parts: Seq<Seq<char>>)
    requires
        is_idle(first),
    ensures
        resolve(seq![first] + parts) == resolve(parts),
    decreases parts.len(),
{
    let all = seq![first] + parts;
    if parts.len() == 0 {
        assert(all.drop_last() =~= parts);
    } else {
        lemma_resolve_idle_front(first, parts.drop_last());
        assert(all.drop_last() =~= seq![first] + parts.drop_last());
        assert(all.last() == parts.last());
    }
}

/// The names of a path hold no separator, and whatever holds of every character
/// of the path with its backslashes turned holds of every character of a name.
proof fn lemma_names(path: Seq<char>, p: spec_fn(char) -> bool)
    requires
        every(unified(path), p),
    ensures
        forall|i: int|
            0 <= i < names(path).len() ==> is_name(#[trigger] names(path)[i])
                && !names(path)[i].contains('/') && every(names(path)[i], p),
{
    let rest = after_drive(unified(path));
    assert(every(rest, p)) by {
        assert forall|i: int| 0 <= i < rest.len() implies p(#[trigger] rest[i]) by {
            if has_drive(unified(path)) {
                assert(rest[i] == unified(path)[i + 2]);
            }
        }
    }
    let parts = split(rest, '/');
    lemma_split_parts(rest, '/');
    lemma_split_every(rest, '/', p);
    lemma_resolve_names(parts);
    assert forall|i: int| 0 <= i < names(path).len() implies is_name(#[trigger] names(path)[i])
        && !names(path)[i].contains('/') && every(names(path)[i], p) by {
        let k = choose|k: int| 0 <= k < parts.len() && parts[k] == names(path)[i];
        assert(!parts[k].contains('/'));
        assert(every(parts[k], p));
    }
}

/// Whatever holds of a slash and of every character of a path with its
/// backslashes turned holds of every character of the resolved path.
pub proof fn resolving_adds_no_characters(path: Seq<char>, p: spec_fn(char) -> bool)
    requires
        every(unified(path), p),
        p('/'),
    ensures
        every(normalised(path), p),
{
    lemma_names(path, p);
    let joined = join(names(path), seq!['/']);
    lemma_join_every(names(path), seq!['/'], p);
    let u = unified(path);
    let n = normalised(path);
    assert forall|i: int| 0 <= i < n.len() implies p(#[trigger] n[i]) by {
        if has_drive(u) {
            if i < 2 {
                assert(n[i] == u[i]);
            } else if i > 2 {
                assert(n[i] == joined[i - 3]);
            }
        } else if begins(u, seq!['/']) {
            if i > 0 {
                assert(n[i] == joined[i - 1]);
            }
        }
    }
}

/// A resolved path, split at its separators below the drive or root, gives its
/// names: there is no `.` or `..` left in it and no doubled separator.
proof fn lemma_split_of_joined(parts: Seq<Seq<char>>)
    requires
        forall|i: int|
            0 <= i < parts.len() ==> is_name(#[trigger] parts[i]) && !parts[i].contains('/'),
    ensures
        resolve(split(join(parts, seq!['/']), '/')) == parts,
        resolve(split(seq!['/'] + join(parts, seq!['/']), '/')) == parts,
{
    let j = join(parts, seq!['/']);
    if parts.len() == 0 {
        assert(!j.contains('/'));
        lemma_split_plain(j, '/');
        assert(j =~= Seq::<char>::empty());
        assert(seq![j] =~= seq![j] + parts);
        lemma_resolve_idle_front(j, parts);
    } else {
        split_undoes_join(parts, '/');
        lemma_resolve_fixed(parts);
    }
    let none = Seq::<char>::empty();
    assert(!none.contains('/'));
    assert(seq!['/'] + j =~= none + seq!['/'] + j);
    lemma_split_head(none, '/', j);
    lemma_resolve_idle_front(none, split(j, '/'));
}

/// Resolving a second time changes nothing.
///
/// The one exception is left out: a relative path whose dot segments hid a
/// drive, which only shows as a drive once they are gone.
pub proof fn resolving_is_idempotent(path: Seq<char>)
    requires
        has_drive(unified(path)) || !has_drive(normalised(path)),
    ensures
        normalised(normalised(path)) == normalised(path),
        names(normalised(path)) == names(path),
{
    let p = |c: char| c != '\\';
    let u = unified(path);
    assert(every(u, p));
    resolving_adds_no_characters(path, p);
    lemma_names(path, p);
    let n = normalised(path);
    let parts = names(path);
    let j = join(parts, seq!['/']);
    assert(unified(n) =~= n) by {
        assert forall|i: int| 0 <= i < n.len() implies unified(n)[i] == n[i] by {
            assert(p(n[i]));
        }
    }
    lemma_split_of_joined(parts);
    if has_drive(u) {
        assert(n[0] == u[0] && n[1] == u[1]);
        assert(n.skip(2) =~= seq!['/'] + j);
        assert(n.take(2) =~= u.take(2));
    } else if begins(u, seq!['/']) {
        assert(n[0] == '/');
        assert(n.subrange(0, 1) =~= seq!['/']);
    } else {
        if begins(n, seq!['/']) {
            assert(n.subrange(0, 1)[0] == '/');
            assert(n[0] == '/');
            if parts.len() > 0 {
                lemma_join_starts(parts);
                assert(is_name(parts[0]));
                assert(parts[0][0] == '/');
                assert(parts[0].contains('/'));
            }
        }
    }
}

/// A joined text starts as its first part does.
proof fn lemma_join_starts(parts: Seq<Seq<char>>)
    requires
        parts.len() > 0,
        parts[0].len() > 0,
    ensures
        join(parts, seq!['/']).len() > 0,
        join(parts, seq!['/'])[0] == parts[0][0],
{
    if parts.len() > 1 {
        lemma_join_front(parts, seq!['/']);
    }
}

/// No segment of a resolved path leads up or names nothing: taken apart below
/// its drive, it gives real names, after at most one empty segment in front.
pub proof fn resolved_path_has_no_dots(path: Seq<char>, i: int)
    requires
        0 <= i < split(normalised(path), '/').len(),
    ensures
        !is_up(split(normalised(path), '/')[i]),
        split(normalised(path), '/')[i] != seq!['.'],
{
    let p = |c: char| true;
    lemma_names(path, p);
    let u = unified(path);
    let n = normalised(path);
    let parts = names(path);
    let j = join(parts, seq!['/']);
    if parts.len() == 0 {
        assert(!j.contains('/'));
        lemma_split_plain(j, '/');
    } else {
        split_undoes_join(parts, '/');
    }
    assert forall|k: int| 0 <= k < split(j, '/').len() implies !is_up(#[trigger] split(j, '/')[k])
        && split(j, '/')[k] != seq!['.'] by {
        if parts.len() > 0 {
            assert(is_name(parts[k]));
        }
    }
    if has_drive(u) {
        let d = u.take(2);
        assert(!d.contains('/'));
        lemma_split_head(d, '/', j);
        if i > 0 {
            assert(split(n, '/')[i] == split(j, '/')[i - 1]);
        } else {
            assert(split(n, '/')[0] == d);
            assert(d[1] == ':');
            assert(seq!['.', '.'][1] == '.');
        }
    } else if begins(u, seq!['/']) {
        let none = Seq::<char>::empty();
        assert(!none.contains('/'));
        assert(seq!['/'] + j =~= none + seq!['/'] + j);
        lemma_split_head(none, '/', j);
        if i > 0 {
            assert(split(n, '/')[i] == split(j, '/')[i - 1]);
        } else {
            assert(split(n, '/')[0] == none);
        }
    }
}

/// A path that is let through lies at the root or below it, with the boundary
/// on a separator, and has no segment that leads up. Below a root that resolves
/// to nothing, such as `.`, it is relative.
///
/// The root `/`, which everything lies below, is left out.
pub proof fn confinement(requested: Seq<char>, root: Seq<char>, place: Seq<char>)
    requires
        confined(requested, root) == Ok::<Seq<char>, Refusal>(place),
        normalised(root) != seq!['/'],
    ensures
        if normalised(root).len() == 0 {
            !begins(place, seq!['/']) && !has_drive(place)
        } else {
            place == normalised(root) || begins(
                place,
                trim_end_of(normalised(root), seq!['/']) + seq!['/'],
            )
        },
        forall|i: int|
            0 <= i < split(place, '/').len() ==> !is_up(#[trigger] split(place, '/')[i]),
{
    let origin = requested_path(requested, root);
    assert forall|i: int| 0 <= i < split(place, '/').len() implies !is_up(
        #[trigger] split(place, '/')[i],
    ) by {
        resolved_path_has_no_dots(origin, i);
    }
}

/// The characters that are not control characters.
spec fn printing() -> spec_fn(char) -> bool {
    |c: char| !is_control(c)
}

/// Resolving a path without control characters gives one without any.
proof fn lemma_resolved_has_no_control(path: Seq<char>)
    requires
        !has_control(path),
    ensures
        !has_control(normalised(path)),
{
    let p = printing();
    let u = unified(path);
    assert forall|i: int| 0 <= i < u.len() implies p(#[trigger] u[i]) by {
        assert(!is_control(path[i]));
    }
    resolving_adds_no_characters(path, p);
    let n = normalised(path);
    assert forall|i: int| 0 <= i < n.len() implies !is_control(#[trigger] n[i]) by {
        assert(p(n[i]));
    }
}

/// A path that is let through carries no control character.
pub proof fn confined_path_has_no_control(requested: Seq<char>, root: Seq<char>, place: Seq<char>)
    requires
        confined(requested, root) == Ok::<Seq<char>, Refusal>(place),
    ensures
        !has_control(place),
{
    let r = normalised(root);
    lemma_resolved_has_no_control(root);
    if is_blank(requested) {
    } else if begins(requested, seq!['/']) || has_drive(requested) {
        lemma_resolved_has_no_control(requested);
    } else {
        let w = without_here(requested);
        lemma_without_here(requested);
        let whole = below(r, w);
        let cut = requested.len() - w.len();
        assert forall|i: int| 0 <= i < whole.len() implies !is_control(#[trigger] whole[i]) by {
            if r.len() == 0 {
                assert(w[i] == requested[i + cut]);
            } else if i < r.len() {
                assert(whole[i] == r[i]);
            } else if i > r.len() {
                assert(whole[i] == w[i - r.len() - 1]);
                assert(w[i - r.len() - 1] == requested[i - r.len() - 1 + cut]);
            }
        }
        lemma_resolved_has_no_control(whole);
    }
}

/// What is left without leading `./` is an end of the path.
proof fn lemma_without_here(path: Seq<char>)
    ensures
        without_here(path).len() <= path.len(),
        without_here(path) == path.skip(path.len() - without_here(path).len()),
    decreases path.len(),
{
    if begins(path, seq!['.', '/']) {
        lemma_without_here(path.skip(2));
        let w = without_here(path);
        assert(path.skip(2).skip(path.skip(2).len() - w.len()) =~= path.skip(path.len() - w.len()));
    } else {
        assert(path.skip(0) =~= path);
    }
}

/// A path that was let through is let through again, unchanged: what a listing
/// hands back can be asked for. The root is one that starts at the top of a
/// filesystem or a drive.
pub proof fn accepted_path_is_accepted_again(
    requested: Seq<char>,
    root: Seq<char>,
    place: Seq<char>,
)
    requires
        confined(requested, root) == Ok::<Seq<char>, Refusal>(place),
        begins(unified(root), seq!['/']) || has_drive(unified(root)),
    ensures
        confined(place, root) == Ok::<Seq<char>, Refusal>(place),
{
    confined_path_has_no_control(requested, root, place);
    let origin = lemma_origin(requested, root);
    let o = unified(origin);
    if has_drive(o) {
        assert(place[0] == o[0] && place[1] == o[1]);
        assert(has_drive(place));
    } else {
        assert(o.subrange(0, 1)[0] == '/');
        assert(place[0] == '/');
        assert(place.subrange(0, 1) =~= seq!['/']);
    }
    resolving_is_idempotent(origin);
    assert(!is_space(place[0]));
    lemma_not_blank(place, 0);
}

/// The directory above a place.
pub open spec fn above(place: Seq<char>) -> Option<Seq<char>> {
    match cut_last(place, '/') {
        Some((p, _)) => Some(
            if p.len() == 0 {
                seq!['/']
            } else {
                p
            },
        ),
        None => None,
    }
}

/// The drive of a path, nothing where it has none.
spec fn drive_of(path: Seq<char>) -> Seq<char> {
    if has_drive(path) {
        path.take(2)
    } else {
        seq![]
    }
}

/// Does the path start at the top of a filesystem or a drive?
spec fn starts_at_the_top(path: Seq<char>) -> bool {
    begins(unified(path), seq!['/']) || has_drive(unified(path))
}

/// What a path is made of that is asked for below a root that starts at the top.
proof fn lemma_origin(requested: Seq<char>, root: Seq<char>) -> (origin: Seq<char>)
    requires
        starts_at_the_top(root),
    ensures
        starts_at_the_top(origin),
        requested_place(requested, root) == normalised(origin),
{
    let u = unified(root);
    let r = normalised(root);
    if has_drive(u) {
        assert(r[0] == u[0] && r[1] == u[1]);
    } else {
        assert(u.subrange(0, 1)[0] == '/');
        assert(r[0] == '/');
    }
    let origin = requested_path(requested, root);
    let o = unified(origin);
    if is_blank(requested) {
    } else if begins(requested, seq!['/']) {
        assert(requested.subrange(0, 1)[0] == '/');
        assert(o[0] == '/');
        assert(o.subrange(0, 1) =~= seq!['/']);
    } else if has_drive(requested) {
        assert(o[0] == requested[0] && o[1] == requested[1]);
    } else if has_drive(u) {
        assert(origin[0] == r[0] && origin[1] == r[1]);
        assert(o[0] == origin[0] && o[1] == origin[1]);
    } else {
        assert(origin[0] == '/');
        assert(o[0] == '/');
        assert(o.subrange(0, 1) =~= seq!['/']);
    }
    origin
}

/// A path that starts at the top resolves to its drive, a separator and its
/// names. Without names it ends in that separator, with some it ends in a name.
proof fn lemma_shape(path: Seq<char>)
    requires
        starts_at_the_top(path),
    ensures
        normalised(path) == drive_of(unified(path)) + seq!['/'] + join(names(path), seq!['/']),
        !drive_of(unified(path)).contains('/'),
        forall|i: int|
            0 <= i < names(path).len() ==> is_name(#[trigger] names(path)[i])
                && !names(path)[i].contains('/'),
        names(path).len() > 0 ==> normalised(path).len() > drive_of(unified(path)).len() + 1
            && normalised(path).last() != '/',
{
    lemma_names(path, |c: char| true);
    let u = unified(path);
    let j = join(names(path), seq!['/']);
    let none = Seq::<char>::empty();
    assert(none + seq!['/'] + j =~= seq!['/'] + j);
    if names(path).len() > 0 {
        let last = names(path).last();
        assert(is_name(names(path)[names(path).len() - 1]));
        assert(last.len() > 0);
        assert(j.len() >= last.len());
        assert(j.last() == last.last());
        assert(normalised(path).last() == j.last());
        if last.last() == '/' {
            assert(last.contains('/'));
        }
    }
}

/// The edge of a resolved root: without names it is the drive, with some it is
/// the root itself.
proof fn lemma_edge(root: Seq<char>)
    requires
        starts_at_the_top(root),
    ensures
        trim_end_of(normalised(root), seq!['/']) == if names(root).len() == 0 {
            drive_of(unified(root))
        } else {
            normalised(root)
        },
{
    lemma_shape(root);
    let r = normalised(root);
    let d = drive_of(unified(root));
    assert(seq!['/'].contains('/')) by {
        assert(seq!['/'][0] == '/');
    }
    if names(root).len() == 0 {
        assert(r =~= d.push('/'));
        assert(r.drop_last() =~= d);
        if d.len() > 0 {
            assert(d.last() != '/') by {
                if d.last() == '/' {
                    assert(d[d.len() - 1] == '/');
                    assert(d.contains('/'));
                }
            }
            assert(!seq!['/'].contains(d.last()));
        }
        assert(trim_end_of(d, seq!['/']) == d);
        assert(r.last() == '/');
    } else {
        assert(!seq!['/'].contains(r.last()));
    }
}

/// Above a place that was let through, other than the root, lies one that is let
/// through; above a drive lies the drive itself. The root is one that starts at
/// the top of a filesystem or a drive.
pub proof fn the_directory_above_is_accepted(
    requested: Seq<char>,
    root: Seq<char>,
    place: Seq<char>,
    up: Seq<char>,
)
    requires
        confined(requested, root) == Ok::<Seq<char>, Refusal>(place),
        begins(unified(root), seq!['/']) || has_drive(unified(root)),
        place != normalised(root) || names(root).len() == 0,
        above(place) == Some(up),
    ensures
        confined(up, root) is Ok,
{
    confined_path_has_no_control(requested, root, place);
    let origin = lemma_origin(requested, root);
    lemma_shape(origin);
    lemma_shape(root);
    lemma_edge(root);
    let d = drive_of(unified(origin));
    let parts = names(origin);
    let j = join(parts, seq!['/']);
    let r = normalised(root);
    let q = trim_end_of(r, seq!['/']) + seq!['/'];
    assert(place == d + seq!['/'] + j);
    lemma_find_last(place, '/');
    let i = find_last(place, '/');
    assert(place[d.len() as int] == '/');
    if parts.len() == 0 {
        // The top of a drive: going up stays there.
        assert(place =~= d.push('/'));
        assert(i == d.len());
        assert(place.take(i) =~= d);
        lemma_top(d);
        lemma_up_is_plain(place, up, d);
    } else {
        let last = parts.last();
        let front = parts.drop_last();
        let t = d + seq!['/'] + join(front, seq!['/']);
        assert(!last.contains('/')) by {
            assert(!parts[parts.len() - 1].contains('/'));
        }
        assert(forall|k: int| place.len() - last.len() <= k < place.len() ==> place[k] != '/') by {
            assert forall|k: int| place.len() - last.len() <= k < place.len() implies place[k]
                != '/' by {
                assert(place[k] == last[k - (place.len() - last.len())]);
                if place[k] == '/' {
                    assert(last.contains('/'));
                }
            }
        }
        assert forall|k: int| 0 <= k < front.len() implies is_name(#[trigger] front[k])
            && !front[k].contains('/') by {
            assert(front[k] == parts[k]);
        }
        let cutting = place.len() - last.len() - 1;
        assert(place[cutting as int] == '/');
        assert(i == cutting);
        if parts.len() == 1 {
            assert(j =~= last);
            assert(place =~= d + seq!['/'] + last);
            assert(i == d.len());
            assert(place.take(i) =~= d);
            assert(t =~= d + seq!['/']);
            lemma_top(d);
        } else {
            assert(j =~= join(front, seq!['/']) + seq!['/'] + last);
            assert(place =~= t + seq!['/'] + last);
            assert(i == t.len());
            assert(place.take(i) =~= t);
            assert(up == t);
            lemma_again(origin, d, front);
        }
        assert(normalised(up) == t);
        assert(lies_inside(t, r)) by {
            if r != seq!['/'] {
                assert(begins(place, q));
                assert forall|k: int| 0 <= k < q.len() implies place[k] == q[k] by {
                    assert(place.subrange(0, q.len() as int)[k] == q[k]);
                }
                let e = q.len() - 1;
                assert(place[e] == '/');
                assert(e <= i);
                if names(root).len() == 0 {
                    // The root is a drive, which the place has too.
                    let dr = drive_of(unified(root));
                    assert(q =~= r);
                    assert(dr.len() == 2 || r =~= seq!['/']);
                    assert(place[0] == dr[0] && place[1] == dr[1]);
                    assert(d.len() == 2);
                    assert(t.subrange(0, q.len() as int) =~= q) by {
                        assert forall|k: int| 0 <= k < q.len() implies t[k] == q[k] by {
                            assert(t[k] == place[k]);
                        }
                    }
                } else {
                    assert(q == r + seq!['/']);
                    let dr = drive_of(unified(root));
                    assert(r[dr.len() as int] == '/');
                    assert(place[dr.len() as int] == '/');
                    if parts.len() == 1 {
                        assert(dr.len() == d.len()) by {
                            lemma_only_slash(d, last, place, dr.len() as int);
                        }
                        lemma_only_slash(d, last, place, e);
                        assert(false);
                    }
                    if e == i {
                        assert(t =~= r);
                    } else {
                        assert(t.subrange(0, q.len() as int) =~= q) by {
                            assert forall|k: int| 0 <= k < q.len() implies t[k] == q[k] by {
                                assert(t[k] == place[k]);
                            }
                        }
                    }
                }
            }
        }
        lemma_up_is_plain(place, up, place.take(i));
    }
}

/// In a path of one name below the top there is one separator.
proof fn lemma_only_slash(d: Seq<char>, last: Seq<char>, place: Seq<char>, k: int)
    requires
        place == d + seq!['/'] + last,
        !d.contains('/'),
        !last.contains('/'),
        0 <= k < place.len(),
        place[k] == '/',
    ensures
        k == d.len(),
{
    if k < d.len() {
        assert(d[k] == '/');
    } else if k > d.len() {
        assert(last[k - d.len() - 1] == '/');
    }
}

/// The top of a drive, or of the filesystem, resolves to itself with a separator.
proof fn lemma_top(d: Seq<char>)
    requires
        d.len() == 0 || (d.len() == 2 && has_drive(d)),
    ensures
        normalised(
            if d.len() == 0 {
                seq!['/']
            } else {
                d
            },
        ) == d + seq!['/'],
{
    let none = Seq::<Seq<char>>::empty();
    let empty = Seq::<char>::empty();
    lemma_split_of_joined(none);
    assert(join(none, seq!['/']) =~= empty);
    if d.len() == 0 {
        let p = seq!['/'];
        assert(unified(p) =~= p);
        assert(p =~= seq!['/'] + empty);
        assert(p.subrange(0, 1) =~= seq!['/']);
        assert(normalised(p) =~= seq!['/']);
        assert(d + seq!['/'] =~= seq!['/']);
    } else {
        assert(is_alpha(d[0]) && d[1] == ':');
        assert(unified(d) =~= d);
        assert(d.skip(2) =~= empty);
        assert(d.take(2) =~= d);
        assert(normalised(d) =~= d + seq!['/']);
    }
}

/// A path of names below the top of a resolved one resolves to itself.
proof fn lemma_again(origin: Seq<char>, d: Seq<char>, parts: Seq<Seq<char>>)
    requires
        starts_at_the_top(origin),
        d == drive_of(unified(origin)),
        parts == names(origin).drop_last(),
        names(origin).len() > 0,
    ensures
        normalised(d + seq!['/'] + join(parts, seq!['/'])) == d + seq!['/'] + join(
            parts,
            seq!['/'],
        ),
{
    let p = |c: char| c != '\\';
    assert(every(unified(origin), p));
    lemma_names(origin, p);
    assert forall|k: int| 0 <= k < parts.len() implies is_name(#[trigger] parts[k])
        && !parts[k].contains('/') && every(parts[k], p) by {
        assert(parts[k] == names(origin)[k]);
    }
    lemma_join_every(parts, seq!['/'], p);
    lemma_split_of_joined(parts);
    let j = join(parts, seq!['/']);
    let t = d + seq!['/'] + j;
    assert(unified(t) =~= t) by {
        assert forall|k: int| 0 <= k < t.len() implies unified(t)[k] == t[k] by {
            if k < d.len() {
                assert(t[k] == unified(origin)[k]);
                assert(p(unified(origin)[k]));
            } else if k > d.len() {
                assert(t[k] == j[k - d.len() - 1]);
                assert(p(j[k - d.len() - 1]));
            }
        }
    }
    if d.len() > 0 {
        assert(t[0] == d[0] && t[1] == d[1]);
        assert(t.skip(2) =~= seq!['/'] + j);
        assert(t.take(2) =~= d);
    } else {
        assert(t =~= seq!['/'] + j);
        assert(t[0] == '/');
        assert(!has_drive(t));
        assert(t.subrange(0, 1) =~= seq!['/']);
    }
}

/// A step up is asked for by a path that starts at the top and is neither blank
/// nor carries a control character.
proof fn lemma_up_is_plain(place: Seq<char>, up: Seq<char>, head: Seq<char>)
    requires
        !has_control(place),
        place.len() > 0,
        place[0] == '/' || has_drive(place),
        above(place) == Some(up),
        find_last(place, '/') >= 0,
        head == place.take(find_last(place, '/')),
    ensures
        !has_control(up),
        !is_blank(up),
        begins(up, seq!['/']) || has_drive(up),
{
    lemma_find_last(place, '/');
    let i = find_last(place, '/');
    if has_control(up) {
        let k = choose|k: int| 0 <= k < up.len() && is_control(#[trigger] up[k]);
        if i > 0 {
            assert(place[k] == up[k]);
        }
    }
    if i == 0 {
        assert(up[0] == '/');
        assert(up.subrange(0, 1) =~= seq!['/']);
    } else if place[0] == '/' {
        assert(up[0] == '/');
        assert(up.subrange(0, 1) =~= seq!['/']);
    } else {
        assert(i >= 2);
        assert(up[0] == place[0] && up[1] == place[1]);
    }
    assert(!is_space(up[0]));
    lemma_not_blank(up, 0);
}

// ---------------------------------------------------------------------------
// Laws of resolving and joining
// ---------------------------------------------------------------------------

/// Resolving goes segment by segment: a real name goes one level down, `..` goes
/// one level up but never above the top, and an empty segment or a dot goes
/// nowhere.
pub proof fn resolving_goes_segment_by_segment(parts: Seq<Seq<char>>, name: Seq<char>)
    requires
        name.len() > 0,
        name != seq!['.'],
        name != seq!['.', '.'],
    ensures
        resolve(seq![]).len() == 0,
        resolve(parts.push(name)) == resolve(parts).push(name),
        resolve(parts.push(seq!['.'])) == resolve(parts),
        resolve(parts.push(seq![])) == resolve(parts),
        resolve(parts.push(seq!['.', '.'])) == if resolve(parts).len() > 0 {
            resolve(parts).drop_last()
        } else {
            seq![]
        },
{
    assert(parts.push(name).drop_last() =~= parts);
    assert(parts.push(seq!['.']).drop_last() =~= parts);
    assert(parts.push(seq![]).drop_last() =~= parts);
    assert(parts.push(seq!['.', '.']).drop_last() =~= parts);
    assert(seq!['.', '.'].len() == 2);
    assert(seq!['.'].len() == 1);
}

/// Backslashes count as slashes, and nothing else is touched.
pub proof fn backslashes_count_as_slashes(path: Seq<char>, i: int)
    requires
        0 <= i < path.len(),
    ensures
        unified(path).len() == path.len(),
        path[i] == '\\' ==> unified(path)[i] == '/',
        path[i] != '\\' ==> unified(path)[i] == path[i],
{
}

/// Is this a list of real names without separators?
pub open spec fn are_plain_names(parts: Seq<Seq<char>>) -> bool {
    forall|i: int|
        0 <= i < parts.len() ==> is_name(#[trigger] parts[i]) && !parts[i].contains('/')
            && !parts[i].contains('\\')
}

/// A path without backslashes counts as it is.
proof fn lemma_unified_is_kept(path: Seq<char>)
    requires
        !path.contains('\\'),
    ensures
        unified(path) == path,
{
    assert forall|i: int| 0 <= i < path.len() implies unified(path)[i] == path[i] by {
        assert(path.contains(path[i]));
    }
    assert(unified(path) =~= path);
}

/// Joined names hold no character that none of them holds, but for the separator.
proof fn lemma_join_lacks(parts: Seq<Seq<char>>)
    requires
        are_plain_names(parts),
    ensures
        !join(parts, seq!['/']).contains('\\'),
{
    let p = |c: char| c != '\\';
    assert(every(seq!['/'], p));
    assert forall|i: int| 0 <= i < parts.len() implies every(#[trigger] parts[i], p) by {
        assert(!parts[i].contains('\\'));
        assert forall|j: int| 0 <= j < parts[i].len() implies p(#[trigger] parts[i][j]) by {
            assert(parts[i].contains(parts[i][j]));
        }
    }
    lemma_join_every(parts, seq!['/'], p);
    let s = join(parts, seq!['/']);
    if s.contains('\\') {
        let i = choose|i: int| 0 <= i < s.len() && s[i] == '\\';
        assert(p(s[i]));
    }
}

/// A path from the root through real names resolves to itself, and leads through
/// those names.
pub proof fn a_plain_path_resolves_to_itself(parts: Seq<Seq<char>>)
    requires
        are_plain_names(parts),
    ensures
        normalised(seq!['/'] + join(parts, seq!['/'])) == seq!['/'] + join(parts, seq!['/']),
        names(seq!['/'] + join(parts, seq!['/'])) == parts,
{
    let path = seq!['/'] + join(parts, seq!['/']);
    lemma_join_lacks(parts);
    if path.contains('\\') {
        let i = choose|i: int| 0 <= i < path.len() && path[i] == '\\';
        assert(join(parts, seq!['/']).contains(join(parts, seq!['/'])[i - 1]));
    }
    lemma_unified_is_kept(path);
    lemma_split_of_joined(parts);
    assert(path[0] == '/');
    assert(!has_drive(path));
    assert(path.subrange(0, 1) =~= seq!['/']);
}

/// What lies below the root is let through, asked for by its name below the root
/// or by its whole path, and it is the place one level below the root.
pub proof fn what_lies_below_the_root_is_accepted(parts: Seq<Seq<char>>, name: Seq<char>)
    requires
        parts.len() > 0,
        are_plain_names(parts.push(name)),
        !has_control(seq!['/'] + join(parts, seq!['/'])),
        !has_control(name),
        !is_blank(name),
        !has_drive(name),
    ensures
        ({
            let root = seq!['/'] + join(parts, seq!['/']);
            let place = root + seq!['/'] + name;
            &&& confined(name, root) == Ok::<Seq<char>, Refusal>(place)
            &&& confined(place, root) == Ok::<Seq<char>, Refusal>(place)
            &&& confined(root, root) == Ok::<Seq<char>, Refusal>(root)
            &&& confined(seq![], root) == Ok::<Seq<char>, Refusal>(root)
        }),
{
    let root = seq!['/'] + join(parts, seq!['/']);
    let place = root + seq!['/'] + name;
    let all = parts.push(name);
    assert forall|i: int| 0 <= i < parts.len() implies is_name(#[trigger] parts[i])
        && !parts[i].contains('/') && !parts[i].contains('\\') by {
        assert(all[i] == parts[i]);
    }
    assert(all[parts.len() as int] == name);
    assert(is_name(name) && !name.contains('/'));
    a_plain_path_resolves_to_itself(parts);
    a_plain_path_resolves_to_itself(all);
    assert(all.drop_last() =~= parts);
    assert(place =~= seq!['/'] + join(all, seq!['/']));
    assert(root.subrange(0, 1) =~= seq!['/']);
    assert(place.subrange(0, 1) =~= seq!['/']);
    assert(!is_space('/'));
    lemma_not_blank(root, 0);
    lemma_not_blank(place, 0);
    assert(starts_at_the_top(root)) by {
        lemma_join_lacks(parts);
        if root.contains('\\') {
            let i = choose|i: int| 0 <= i < root.len() && root[i] == '\\';
            assert(join(parts, seq!['/']).contains(join(parts, seq!['/'])[i - 1]));
        }
        lemma_unified_is_kept(root);
    }
    lemma_edge(root);
    assert(place.subrange(0, (root + seq!['/']).len() as int) =~= root + seq!['/']);
    assert(lies_inside(place, root));
    assert(lies_inside(root, root));
    assert(name.contains(name[0]));
    assert(!begins(name, seq!['/'])) by {
        if begins(name, seq!['/']) {
            assert(name.subrange(0, 1)[0] == name[0]);
        }
    }
    assert(!begins(name, seq!['.', '/'])) by {
        if begins(name, seq!['.', '/']) {
            assert(name.subrange(0, 2)[1] == name[1]);
            assert(name.contains(name[1]));
        }
    }
    assert(without_here(name) == name);
    assert(requested_path(name, root) == place);
    assert forall|i: int| 0 <= i < place.len() implies !is_control(#[trigger] place[i]) by {
        if i < root.len() {
            assert(place[i] == root[i]);
        } else if i > root.len() {
            assert(place[i] == name[i - root.len() - 1]);
        }
    }
    assert(crate::text::trimmed(Seq::<char>::empty()).len() == 0);
}

/// A leading `./` goes nowhere, however many there are; a path that does not
/// start so is kept.
pub proof fn here_goes_nowhere(path: Seq<char>)
    ensures
        without_here(seq!['.', '/'] + path) == without_here(path),
        !begins(path, seq!['.', '/']) ==> without_here(path) == path,
{
    let p = seq!['.', '/'] + path;
    assert(p.subrange(0, 2) =~= seq!['.', '/']);
    assert(p.skip(2) =~= path);
}

/// A drive is a letter and a colon, and a drive root has nothing behind it but
/// separators.
pub proof fn a_drive_is_a_letter_and_a_colon(letter: char, rest: Seq<char>, i: int)
    ensures
        has_drive(seq![letter, ':'] + rest) == is_alpha(letter),
        is_alpha(letter) && (forall|j: int|
            0 <= j < rest.len() ==> #[trigger] rest[j] == '/' || rest[j] == '\\')
            ==> names_drive_root(seq![letter, ':'] + rest),
        0 <= i < rest.len() && rest[i] != '/' && rest[i] != '\\' ==> !names_drive_root(
            seq![letter, ':'] + rest,
        ),
        !is_alpha(letter) ==> !names_drive_root(seq![letter, ':'] + rest),
        after_drive(seq![letter, ':'] + rest) == if is_alpha(letter) {
            rest
        } else {
            seq![letter, ':'] + rest
        },
{
    let p = seq![letter, ':'] + rest;
    assert(p[0] == letter && p[1] == ':');
    assert(p.skip(2) =~= rest);
    if 0 <= i < rest.len() && rest[i] != '/' && rest[i] != '\\' {
        assert(p[i + 2] == rest[i]);
    }
    if is_alpha(letter) && (forall|j: int|
        0 <= j < rest.len() ==> #[trigger] rest[j] == '/' || rest[j] == '\\') {
        assert forall|j: int| 2 <= j < p.len() implies #[trigger] p[j] == '/' || p[j] == '\\' by {
            assert(p[j] == rest[j - 2]);
        }
    }
}

/// A name is joined to its directory with the separator that the directory uses:
/// a slash below a path of slashes, a backslash below one of backslashes or below
/// a drive. Below the root there is no second slash.
pub proof fn a_name_is_joined_with_the_separator_in_use(
    dir: Seq<char>,
    name: Seq<char>,
    letter: char,
)
    requires
        dir.len() > 0 && dir.last() != '/' && dir.last() != '\\',
        dir.len() == 2 ==> dir[1] != ':',
        is_alpha(letter),
    ensures
        !dir.contains('\\') && !has_drive(dir) ==> joined_path(dir, name) == dir + seq!['/']
            + name,
        dir.contains('\\') ==> joined_path(dir, name) == dir + seq!['\\'] + name,
        joined_path(seq!['/'], name) == seq!['/'] + name,
        joined_path(dir + seq!['/'], name) == joined_path(dir, name),
        joined_path(seq![letter, ':'], name) == seq![letter, ':', '\\'] + name,
{
    let set = seq!['/', '\\'];
    assert(set[0] == '/' && set[1] == '\\');
    assert(set.contains('/') && set.contains('\\'));
    assert forall|c: char| set.contains(c) implies c == '/' || c == '\\' by {}
    assert(trim_end_of(dir, set) == dir);
    assert((dir + seq!['/']).drop_last() =~= dir);
    assert(trim_end_of(dir + seq!['/'], set) == dir);
    reveal_with_fuel(trim_end_of, 2);
    assert(seq!['/'].drop_last() =~= Seq::<char>::empty());
    assert(trim_end_of(seq!['/'], set) =~= Seq::<char>::empty());
    let d = seq![letter, ':'];
    assert(d.last() == ':');
    assert(trim_end_of(d, set) == d);
    assert(d + seq!['\\'] + name =~= seq![letter, ':', '\\'] + name);
}

/// The place that is opened is the place itself; the empty one is where one
/// stands.
pub proof fn a_place_is_opened_as_it_is(place: Seq<char>)
    ensures
        place.len() > 0 ==> opened(place) == place,
        place.len() == 0 ==> opened(place) == seq!['.'],
{
    reveal_strlit(".");
    assert("."@ =~= seq!['.']);
}

/// Below a drive a name is joined with a slash where the path already has one, and
/// with a backslash where it has none.
pub proof fn a_name_below_a_drive(dir: Seq<char>, name: Seq<char>)
    requires
        has_drive(dir),
        dir.len() > 2 && dir.last() != '/' && dir.last() != '\\',
        !dir.contains('\\'),
    ensures
        dir.contains('/') ==> joined_path(dir, name) == dir + seq!['/'] + name,
        !dir.contains('/') ==> joined_path(dir, name) == dir + seq!['\\'] + name,
{
    let set = seq!['/', '\\'];
    assert forall|c: char| set.contains(c) implies c == '/' || c == '\\' by {}
    assert(trim_end_of(dir, set) == dir);
}

} // verus!
