//! Paths as sequences of components: those of POSIX here, those of Windows in
//! [`crate::windows_paths`].
use vstd::prelude::*;

use crate::platform::Platform;
use crate::text::{push_text, same_text, split, split_char};
use crate::windows_paths::{
    windows_file_name, windows_name, windows_parts, windows_path_within, windows_within,
};

verus! {

/// A piece of a path between slashes is a component unless it is empty, or a dot that is not
/// the first piece.
pub open spec fn is_component(index: int, piece: Seq<char>) -> bool {
    piece.len() > 0 && (piece != seq!['.'] || index == 0)
}

/// The components among the pieces of a path.
pub open spec fn kept_pieces(pieces: Seq<Seq<char>>) -> Seq<Seq<char>>
    decreases pieces.len(),
{
    if pieces.len() == 0 {
        pieces
    } else if is_component(pieces.len() - 1, pieces.last()) {
        kept_pieces(pieces.drop_last()).push(pieces.last())
    } else {
        kept_pieces(pieces.drop_last())
    }
}

/// The components of a path. A path from the root has a slash as its first component.
pub open spec fn components(path: Seq<char>) -> Seq<Seq<char>> {
    let names = kept_pieces(split(path, '/'));
    if path.len() > 0 && path[0] == '/' {
        seq![seq!['/']] + names
    } else {
        names
    }
}

/// The path lies at or below the other: its components begin with the other's.
pub open spec fn posix_within(path: Seq<char>, base: Seq<char>) -> bool {
    components(base).is_prefix_of(components(path))
}

/// The name of the file or directory that a path leads to.
pub open spec fn posix_file_name(path: Seq<char>) -> Option<Seq<char>> {
    let names = components(path);
    if names.len() == 0 || names.last() == seq!['/'] || names.last() == seq!['.'] || names.last()
        == seq!['.', '.'] {
        None
    } else {
        Some(names.last())
    }
}

/// The components of a path.
pub fn path_components(path: &str) -> (r: Vec<String>)
    ensures
        r.deep_view() == components(path@),
{
    let pieces = split_char(path, '/');
    let mut r: Vec<String> = Vec::new();
    let mut i: usize = 0;
    proof {
        reveal_strlit(".");
        reveal_strlit("/");
        assert("."@ =~= seq!['.']);
        assert("/"@ =~= seq!['/']);
    }
    let rooted = pieces.len() > 1 && pieces[0].as_str().is_empty();
    proof {
        lemma_rooted(path@);
        assert(pieces.deep_view().len() == pieces@.len());
        assert(pieces@.len() > 0 ==> pieces.deep_view()[0] == pieces@[0]@);
    }
    if rooted {
        push_text(&mut r, "/".to_string());
    }
    let ghost start = r.deep_view();
    assert(start + kept_pieces(pieces.deep_view().take(0)) =~= start);
    while i < pieces.len()
        invariant
            i <= pieces@.len(),
            "."@ == seq!['.'],
            r.deep_view() == start + kept_pieces(pieces.deep_view().take(i as int)),
        decreases pieces@.len() - i,
    {
        let ghost before = pieces.deep_view().take(i as int);
        let ghost after = pieces.deep_view().take(i + 1);
        assert(after.drop_last() =~= before);
        assert(after.last() == pieces@[i as int]@);
        let piece = &pieces[i];
        if !piece.as_str().is_empty() && (i == 0 || !same_text(piece.as_str(), ".")) {
            push_text(&mut r, piece.clone());
            assert(start + kept_pieces(before).push(piece@) =~= (start + kept_pieces(before)).push(
                piece@,
            ));
        }
        i += 1;
    }
    assert(pieces.deep_view().take(i as int) =~= pieces.deep_view());
    assert(rooted ==> start =~= seq![seq!['/']]);
    assert(r.deep_view() =~= components(path@));
    r
}

/// A path begins with a slash exactly where its first piece of several is empty.
proof fn lemma_rooted(path: Seq<char>)
    ensures
        split(path, '/').len() >= 1,
        (path.len() > 0 && path[0] == '/') <==> (split(path, '/').len() > 1 && split(
            path,
            '/',
        )[0].len() == 0),
        split(path, '/').len() == 1 ==> split(path, '/')[0] == path,
    decreases path.len(),
{
    if path.len() > 0 {
        let front = path.drop_last();
        lemma_rooted(front);
        if path.len() == 1 {
            assert(front =~= Seq::<char>::empty());
        } else {
            assert(front[0] == path[0]);
        }
        assert(front.push(path.last()) =~= path);
    }
}

/// Whether a path lies at or below another.
pub fn posix_path_within(path: &str, base: &str) -> (r: bool)
    ensures
        r == posix_within(path@, base@),
{
    let whole = path_components(path);
    let front = path_components(base);
    assert(whole.deep_view().len() == whole@.len());
    assert(front.deep_view().len() == front@.len());
    if front.len() > whole.len() {
        return false;
    }
    let mut i: usize = 0;
    while i < front.len()
        invariant
            i <= front@.len(),
            front@.len() <= whole@.len(),
            whole.deep_view() == components(path@),
            front.deep_view() == components(base@),
            forall|k: int| 0 <= k < i ==> front.deep_view()[k] == whole.deep_view()[k],
        decreases front@.len() - i,
    {
        if !same_text(front[i].as_str(), whole[i].as_str()) {
            assert(front.deep_view()[i as int] != whole.deep_view()[i as int]);
            return false;
        }
        i += 1;
    }
    assert(front.deep_view() =~= whole.deep_view().subrange(0, front@.len() as int));
    true
}

/// The last component of a path, if it is a name.
pub fn posix_name(path: &str) -> (r: Option<String>)
    ensures
        r.deep_view() == posix_file_name(path@),
{
    let names = path_components(path);
    assert(names.deep_view().len() == names@.len());
    if names.len() == 0 {
        return None;
    }
    let last = &names[names.len() - 1];
    proof {
        reveal_strlit("/");
        reveal_strlit(".");
        reveal_strlit("..");
        assert("/"@ =~= seq!['/']);
        assert("."@ =~= seq!['.']);
        assert(".."@ =~= seq!['.', '.']);
        assert(names.deep_view().last() == last@);
    }
    if same_text(last.as_str(), "/") || same_text(last.as_str(), ".") || same_text(
        last.as_str(),
        "..",
    ) {
        None
    } else {
        Some(last.clone())
    }
}

// ---------------------------------------------------------------------------
// Paths of a system
// ---------------------------------------------------------------------------

/// The path lies at or below the other, as the system reads paths.
pub open spec fn lies_within(platform: Platform, path: Seq<char>, base: Seq<char>) -> bool {
    match platform {
        Platform::Unix => posix_within(path, base),
        Platform::Windows => windows_within(path, base),
    }
}

/// The name of the file or directory that a path leads to, as the system reads paths.
pub open spec fn file_name_of(platform: Platform, path: Seq<char>) -> Option<Seq<char>> {
    match platform {
        Platform::Unix => posix_file_name(path),
        Platform::Windows => windows_file_name(path),
    }
}

/// Whether a path lies at or below another.
pub fn path_lies_within(platform: Platform, path: &str, base: &str) -> (r: bool)
    ensures
        r == lies_within(platform, path@, base@),
{
    match platform {
        Platform::Unix => posix_path_within(path, base),
        Platform::Windows => windows_path_within(path, base),
    }
}

/// The last component of a path, if it is a name.
pub fn file_name(platform: Platform, path: &str) -> (r: Option<String>)
    ensures
        r.deep_view() == file_name_of(platform, path@),
{
    match platform {
        Platform::Unix => posix_name(path),
        Platform::Windows => windows_name(path),
    }
}

/// Whether a working directory lies at or below a configured root. Both paths are taken as
/// they are: a caller that wants symbolic links followed resolves them first.
pub fn cwd_matches_root(platform: Platform, candidate_cwd: &str, configured_cwd: &str) -> (r: bool)
    ensures
        r == lies_within(platform, candidate_cwd@, configured_cwd@),
{
    path_lies_within(platform, candidate_cwd, configured_cwd)
}

// ---------------------------------------------------------------------------
// Laws
// ---------------------------------------------------------------------------

/// Every path lies within itself.
pub proof fn law_within_reflexive(platform: Platform, path: Seq<char>)
    ensures
        lies_within(platform, path, path),
{
    lemma_prefix_reflexive(components(path));
    lemma_prefix_reflexive(windows_parts(path));
}

proof fn lemma_prefix_reflexive<T>(parts: Seq<T>)
    ensures
        parts.is_prefix_of(parts),
{
    assert(parts =~= parts.subrange(0, parts.len() as int));
}

/// A path within a path within a third lies within the third.
pub proof fn law_within_transitive(
    platform: Platform,
    inner: Seq<char>,
    middle: Seq<char>,
    outer: Seq<char>,
)
    requires
        lies_within(platform, inner, middle),
        lies_within(platform, middle, outer),
    ensures
        lies_within(platform, inner, outer),
{
    match platform {
        Platform::Unix => {
            lemma_prefix_transitive(components(inner), components(middle), components(outer));
        },
        Platform::Windows => {
            lemma_prefix_transitive(
                windows_parts(inner),
                windows_parts(middle),
                windows_parts(outer),
            );
        },
    }
}

proof fn lemma_prefix_transitive<T>(a: Seq<T>, b: Seq<T>, c: Seq<T>)
    requires
        b.is_prefix_of(a),
        c.is_prefix_of(b),
    ensures
        c.is_prefix_of(a),
{
    assert forall|i: int| 0 <= i < c.len() implies c[i] == a[i] by {
        assert(c[i] == b.subrange(0, c.len() as int)[i]);
        assert(b[i] == a.subrange(0, b.len() as int)[i]);
    }
    assert(c =~= a.subrange(0, c.len() as int));
}

/// Splitting a text at a separator in its middle splits both sides of it.
pub proof fn lemma_split_concat(a: Seq<char>, sep: char, b: Seq<char>)
    ensures
        split(a.push(sep) + b, sep) == split(a, sep) + split(b, sep),
    decreases b.len(),
{
    let whole = a.push(sep) + b;
    if b.len() == 0 {
        assert(whole =~= a.push(sep));
        assert(whole.drop_last() =~= a);
        assert(split(a, sep).push(Seq::empty()) =~= split(a, sep) + split(b, sep));
    } else {
        let front = b.drop_last();
        assert(whole.drop_last() =~= a.push(sep) + front);
        lemma_split_concat(a, sep, front);
        crate::text::lemma_split_nonempty(front, sep);
        let p = split(a, sep);
        let q = split(front, sep);
        if b.last() == sep {
            assert((p + q).push(Seq::empty()) =~= p + q.push(Seq::empty()));
        } else {
            assert((p + q).drop_last() =~= p + q.drop_last());
            assert((p + q).last() == q.last());
            assert((p + q).drop_last().push(q.last().push(b.last())) =~= p + q.drop_last().push(
                q.last().push(b.last()),
            ));
        }
    }
}

proof fn lemma_kept_prefix(x: Seq<Seq<char>>, y: Seq<Seq<char>>)
    ensures
        kept_pieces(x).is_prefix_of(kept_pieces(x + y)),
    decreases y.len(),
{
    if y.len() == 0 {
        assert(x + y =~= x);
        assert(kept_pieces(x) =~= kept_pieces(x).subrange(0, kept_pieces(x).len() as int));
    } else {
        lemma_kept_prefix(x, y.drop_last());
        assert((x + y).drop_last() =~= x + y.drop_last());
        let shorter = kept_pieces(x + y.drop_last());
        let longer = kept_pieces(x + y);
        assert(kept_pieces(x) == shorter.subrange(0, kept_pieces(x).len() as int));
        assert(longer.subrange(0, kept_pieces(x).len() as int) =~= shorter.subrange(
            0,
            kept_pieces(x).len() as int,
        ));
    }
}

/// On a system with POSIX paths, what lies below a directory lies within it.
pub proof fn law_child_lies_within(base: Seq<char>, rest: Seq<char>)
    ensures
        lies_within(Platform::Unix, base.push('/') + rest, base),
{
    let path = base.push('/') + rest;
    lemma_split_concat(base, '/', rest);
    lemma_kept_prefix(split(base, '/'), split(rest, '/'));
    let inner = components(base);
    let outer = components(path);
    let x = kept_pieces(split(base, '/'));
    let y = kept_pieces(split(path, '/'));
    assert(x == y.subrange(0, x.len() as int));
    if base.len() == 0 {
        assert(split(base, '/') =~= seq![Seq::<char>::empty()]);
        assert(seq![Seq::<char>::empty()].drop_last() =~= Seq::<Seq<char>>::empty());
        reveal_with_fuel(kept_pieces, 2);
        assert(x =~= Seq::<Seq<char>>::empty());
        assert(inner =~= outer.subrange(0, 0));
    } else {
        assert(path[0] == base[0]);
        assert forall|i: int| 0 <= i < inner.len() implies inner[i] == outer[i] by {
            if base[0] == '/' {
                if i > 0 {
                    assert(inner[i] == x[i - 1]);
                    assert(outer[i] == y[i - 1]);
                }
            }
        }
        assert(inner =~= outer.subrange(0, inner.len() as int));
    }
}

} // verus!
