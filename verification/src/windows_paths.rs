//! Windows paths as sequences of parts. Both slashes separate; a path may begin with a drive, a
//! network share or a device; behind `\\?\` only backslashes separate and dots mean nothing.
use vstd::prelude::*;

use crate::lookup::push_item;
use crate::text::{
    chars_of, find_char, first_index, has_prefix, lemma_first_index, same_text, split, split_char,
    starts_with, strip_prefix, text_between, to_upper, upper_char,
};

verus! {

// ---------------------------------------------------------------------------
// Parts
// ---------------------------------------------------------------------------

/// What a path begins with.
#[derive(Debug, PartialEq)]
pub enum PathPrefix {
    /// `\\?\name`
    Verbatim { name: String },
    /// `\\?\UNC\server\share`
    VerbatimShare { server: String, share: String },
    /// `\\?\C:`
    VerbatimDrive { letter: char },
    /// `\\.\name`
    Device { name: String },
    /// `\\server\share`
    Share { server: String, share: String },
    /// `C:`
    Drive { letter: char },
}

/// The model of [`PathPrefix`].
pub enum PathPrefixView {
    Verbatim { name: Seq<char> },
    VerbatimShare { server: Seq<char>, share: Seq<char> },
    VerbatimDrive { letter: char },
    Device { name: Seq<char> },
    Share { server: Seq<char>, share: Seq<char> },
    Drive { letter: char },
}

impl DeepView for PathPrefix {
    type V = PathPrefixView;

    open spec fn deep_view(&self) -> PathPrefixView {
        match self {
            PathPrefix::Verbatim { name } => PathPrefixView::Verbatim { name: name@ },
            PathPrefix::VerbatimShare { server, share } => PathPrefixView::VerbatimShare {
                server: server@,
                share: share@,
            },
            PathPrefix::VerbatimDrive { letter } => PathPrefixView::VerbatimDrive {
                letter: *letter,
            },
            PathPrefix::Device { name } => PathPrefixView::Device { name: name@ },
            PathPrefix::Share { server, share } => PathPrefixView::Share {
                server: server@,
                share: share@,
            },
            PathPrefix::Drive { letter } => PathPrefixView::Drive { letter: *letter },
        }
    }
}

impl PathPrefixView {
    /// Only backslashes separate behind it, and dots mean nothing.
    pub open spec fn is_verbatim(self) -> bool {
        self is Verbatim || self is VerbatimShare || self is VerbatimDrive
    }

    /// What follows begins at a root even where no separator says so.
    pub open spec fn roots(self) -> bool {
        self is Device || self is Share
    }

    /// How many characters of the path it takes.
    pub open spec fn length(self) -> nat {
        match self {
            PathPrefixView::Verbatim { name } => 4 + name.len(),
            PathPrefixView::VerbatimShare { server, share } => 8 + shared_length(server, share),
            PathPrefixView::VerbatimDrive { .. } => 6,
            PathPrefixView::Device { name } => 4 + name.len(),
            PathPrefixView::Share { server, share } => 2 + shared_length(server, share),
            PathPrefixView::Drive { .. } => 2,
        }
    }
}

/// How many characters a server and its share take, with the separator between them.
pub open spec fn shared_length(server: Seq<char>, share: Seq<char>) -> nat {
    if share.len() > 0 {
        server.len() + 1 + share.len()
    } else {
        server.len()
    }
}

/// A part of a path: what it begins with, its root, or a name.
#[derive(Debug, PartialEq)]
pub enum PathPart {
    Prefix { prefix: PathPrefix },
    Root,
    Name { name: String },
}

/// The model of [`PathPart`].
pub enum PathPartView {
    Prefix { prefix: PathPrefixView },
    Root,
    Name { name: Seq<char> },
}

impl DeepView for PathPart {
    type V = PathPartView;

    open spec fn deep_view(&self) -> PathPartView {
        match self {
            PathPart::Prefix { prefix } => PathPartView::Prefix { prefix: prefix.deep_view() },
            PathPart::Root => PathPartView::Root,
            PathPart::Name { name } => PathPartView::Name { name: name@ },
        }
    }
}

// ---------------------------------------------------------------------------
// The meaning of a path
// ---------------------------------------------------------------------------

/// A separator written as a backslash.
pub open spec fn native_char(c: char) -> char {
    if c == '/' {
        '\\'
    } else {
        c
    }
}

/// The path with its slashes written as backslashes.
pub open spec fn native(s: Seq<char>) -> Seq<char> {
    s.map_values(|c: char| native_char(c))
}

/// What stands before the first backslash.
pub open spec fn before_separator(s: Seq<char>) -> Seq<char> {
    s.take(first_index(s, '\\'))
}

/// What stands behind the first backslash.
pub open spec fn behind_separator(s: Seq<char>) -> Seq<char> {
    if first_index(s, '\\') < s.len() {
        s.skip(first_index(s, '\\') + 1)
    } else {
        Seq::empty()
    }
}

pub open spec fn is_letter(c: char) -> bool {
    'a' <= c <= 'z' || 'A' <= c <= 'Z'
}

/// The drive that a text begins with; letters of both cases are the same drive.
pub open spec fn drive_of(s: Seq<char>) -> Option<char> {
    if s.len() >= 2 && is_letter(s[0]) && s[1] == ':' {
        Some(upper_char(s[0]))
    } else {
        None
    }
}

/// What a path begins with.
pub open spec fn prefix_of(path: Seq<char>) -> Option<PathPrefixView> {
    let plain = native(path);
    if has_prefix(path, "\\\\?\\"@) {
        let rest = path.skip(4);
        if has_prefix(native(rest), "UNC\\"@) {
            let place = rest.skip(4);
            Some(
                PathPrefixView::VerbatimShare {
                    server: before_separator(place),
                    share: before_separator(behind_separator(place)),
                },
            )
        } else {
            match drive_of(rest) {
                Some(letter) if rest.len() == 2 || native(rest)[2] == '\\' => Some(
                    PathPrefixView::VerbatimDrive { letter },
                ),
                _ => Some(PathPrefixView::Verbatim { name: before_separator(rest) }),
            }
        }
    } else if has_prefix(plain, "\\\\.\\"@) {
        Some(PathPrefixView::Device { name: before_separator(plain.skip(4)) })
    } else if has_prefix(plain, "\\\\"@) {
        let server = before_separator(plain.skip(2));
        let share = before_separator(behind_separator(plain.skip(2)));
        if server.len() > 0 && share.len() > 0 {
            Some(PathPrefixView::Share { server, share })
        } else {
            None
        }
    } else {
        match drive_of(path) {
            Some(letter) => Some(PathPrefixView::Drive { letter }),
            None => None,
        }
    }
}

/// A piece between separators is a name unless it is empty, or a dot; a dot is one where the
/// path is verbatim, and where a path without drive and root begins with it.
pub open spec fn is_name(piece: Seq<char>, dots: bool) -> bool {
    piece.len() > 0 && (piece != seq!['.'] || dots)
}

/// The names among pieces; `first_dot` says whether a dot in the first place is one, and `dots`
/// whether any is.
pub open spec fn names_of(pieces: Seq<Seq<char>>, first_dot: bool, dots: bool) -> Seq<PathPartView>
    decreases pieces.len(),
{
    if pieces.len() == 0 {
        Seq::empty()
    } else {
        let before = names_of(pieces.drop_last(), first_dot, dots);
        if is_name(pieces.last(), dots || (first_dot && pieces.len() == 1)) {
            before.push(PathPartView::Name { name: pieces.last() })
        } else {
            before
        }
    }
}

/// The path behind what it begins with.
pub open spec fn body_of(path: Seq<char>) -> Seq<char> {
    match prefix_of(path) {
        Some(prefix) => path.skip(prefix.length() as int),
        None => path,
    }
}

/// A separator stands behind what the path begins with.
pub open spec fn has_root_separator(path: Seq<char>) -> bool {
    body_of(path).len() > 0 && native_char(body_of(path)[0]) == '\\'
}

/// The path is verbatim.
pub open spec fn is_verbatim_path(path: Seq<char>) -> bool {
    prefix_of(path) matches Some(prefix) && prefix.is_verbatim()
}

/// The pieces of a path behind its root.
pub open spec fn pieces_of(path: Seq<char>) -> Seq<Seq<char>> {
    let body = if is_verbatim_path(path) {
        body_of(path)
    } else {
        native(body_of(path))
    };
    if has_root_separator(path) {
        split(body.skip(1), '\\')
    } else {
        split(body, '\\')
    }
}

/// What a path has before its names.
pub open spec fn front_of(path: Seq<char>) -> Seq<PathPartView> {
    let start = match prefix_of(path) {
        Some(prefix) => seq![PathPartView::Prefix { prefix }],
        None => Seq::empty(),
    };
    let rooted = has_root_separator(path) || (prefix_of(path) matches Some(prefix)
        && prefix.roots());
    if rooted {
        start.push(PathPartView::Root)
    } else {
        start
    }
}

/// The parts of a path.
pub open spec fn windows_parts(path: Seq<char>) -> Seq<PathPartView> {
    front_of(path) + names_of(
        pieces_of(path),
        prefix_of(path) is None && !has_root_separator(path),
        is_verbatim_path(path),
    )
}

/// The path lies at or below the other: its parts begin with the other's.
pub open spec fn windows_within(path: Seq<char>, base: Seq<char>) -> bool {
    windows_parts(base).is_prefix_of(windows_parts(path))
}

/// The name of the file or directory that a path leads to.
pub open spec fn windows_file_name(path: Seq<char>) -> Option<Seq<char>> {
    let parts = windows_parts(path);
    if parts.len() == 0 {
        None
    } else {
        match parts.last() {
            PathPartView::Name { name } if name != seq!['.'] && name != seq!['.', '.'] => Some(
                name,
            ),
            _ => None,
        }
    }
}

// ---------------------------------------------------------------------------
// Reading a path
// ---------------------------------------------------------------------------

fn to_native(s: &str) -> (r: String)
    ensures
        r@ == native(s@),
{
    let v = chars_of(s);
    let mut r = String::new();
    let mut i: usize = 0;
    assert(r@ =~= native(s@).take(0));
    while i < v.len()
        invariant
            v@ == s@,
            i <= v@.len(),
            r@ == native(s@).take(i as int),
        decreases v@.len() - i,
    {
        let c = v[i];
        if c == '/' {
            r.push('\\');
        } else {
            r.push(c);
        }
        assert(native(s@).take(i + 1) =~= native(s@).take(i as int).push(native_char(c)));
        i += 1;
    }
    assert(native(s@).take(i as int) =~= native(s@));
    r
}

fn skip_chars(s: &str, n: usize) -> (r: String)
    requires
        n <= s@.len(),
    ensures
        r@ == s@.skip(n as int),
{
    let v = chars_of(s);
    assert(s@.skip(n as int) =~= v@.subrange(n as int, v@.len() as int));
    text_between(&v, n, v.len())
}

/// What stands before and behind the first backslash.
fn at_separator(s: &str) -> (r: (String, String))
    ensures
        r.0@ == before_separator(s@),
        r.1@ == behind_separator(s@),
{
    let v = chars_of(s);
    let i = find_char(&v, '\\');
    assert(s@.take(i as int) =~= v@.subrange(0, i as int));
    let before = text_between(&v, 0, i);
    if i < v.len() {
        assert(s@.skip(i + 1) =~= v@.subrange(i + 1, v@.len() as int));
        (before, text_between(&v, i + 1, v.len()))
    } else {
        let behind = String::new();
        assert(behind@ =~= Seq::<char>::empty());
        (before, behind)
    }
}

fn upper_letter(c: char) -> (r: char)
    ensures
        r == upper_char(c),
{
    let text = to_upper(single(c).as_str());
    let v = chars_of(text.as_str());
    v[0]
}

fn single(c: char) -> (r: String)
    ensures
        r@ == seq![c],
{
    let mut r = String::new();
    r.push(c);
    assert(r@ =~= seq![c]);
    r
}

fn drive_letter(s: &str) -> (r: Option<char>)
    ensures
        r == drive_of(s@),
{
    let v = chars_of(s);
    if v.len() >= 2 && v[1] == ':' {
        let c = v[0];
        if ('a' <= c && c <= 'z') || ('A' <= c && c <= 'Z') {
            return Some(upper_letter(c));
        }
    }
    None
}

proof fn lemma_prefix_texts()
    ensures
        "\\\\?\\"@.len() == 4,
        "UNC\\"@.len() == 4,
        "\\\\.\\"@.len() == 4,
        "\\\\"@.len() == 2,
{
    reveal_strlit("\\\\?\\");
    reveal_strlit("UNC\\");
    reveal_strlit("\\\\.\\");
    reveal_strlit("\\\\");
}

fn find_prefix(path: &str) -> (r: Option<PathPrefix>)
    ensures
        r.deep_view() == prefix_of(path@),
{
    proof {
        lemma_prefix_texts();
    }
    if let Some(rest) = strip_prefix(path, "\\\\?\\") {
        let plain_rest = to_native(rest.as_str());
        if starts_with(plain_rest.as_str(), "UNC\\") {
            let place = skip_chars(rest.as_str(), 4);
            let (server, more) = at_separator(place.as_str());
            let (share, _) = at_separator(more.as_str());
            return Some(PathPrefix::VerbatimShare { server, share });
        }
        if let Some(letter) = drive_letter(rest.as_str()) {
            let v = chars_of(plain_rest.as_str());
            if v.len() == 2 || v[2] == '\\' {
                return Some(PathPrefix::VerbatimDrive { letter });
            }
        }
        let (name, _) = at_separator(rest.as_str());
        return Some(PathPrefix::Verbatim { name });
    }
    let plain = to_native(path);
    if let Some(rest) = strip_prefix(plain.as_str(), "\\\\.\\") {
        let (name, _) = at_separator(rest.as_str());
        return Some(PathPrefix::Device { name });
    }
    if let Some(rest) = strip_prefix(plain.as_str(), "\\\\") {
        let (server, more) = at_separator(rest.as_str());
        let (share, _) = at_separator(more.as_str());
        if !server.as_str().is_empty() && !share.as_str().is_empty() {
            return Some(PathPrefix::Share { server, share });
        }
        return None;
    }
    match drive_letter(path) {
        Some(letter) => Some(PathPrefix::Drive { letter }),
        None => None,
    }
}

/// What a path begins with is part of it.
proof fn lemma_prefix_fits(path: Seq<char>)
    ensures
        prefix_of(path) matches Some(prefix) ==> prefix.length() <= path.len(),
{
    lemma_prefix_texts();
    let plain = native(path);
    if has_prefix(path, "\\\\?\\"@) {
        let rest = path.skip(4);
        lemma_separator(rest);
        if has_prefix(native(rest), "UNC\\"@) {
            let place = rest.skip(4);
            lemma_separator(place);
            lemma_separator(behind_separator(place));
        }
    } else if has_prefix(plain, "\\\\.\\"@) {
        lemma_separator(plain.skip(4));
    } else if has_prefix(plain, "\\\\"@) {
        lemma_separator(plain.skip(2));
        lemma_separator(behind_separator(plain.skip(2)));
    }
}

/// The first separator lies in the text, and stands between what is before and behind it.
proof fn lemma_separator(s: Seq<char>)
    ensures
        0 <= first_index(s, '\\') <= s.len(),
        behind_separator(s).len() > 0 ==> before_separator(s).len() + 1 + behind_separator(s).len()
            == s.len(),
        before_separator(s).len() + behind_separator(s).len() <= s.len(),
{
    lemma_first_index(s, '\\');
}

fn length_of(prefix: &PathPrefix, path: &str) -> (r: usize)
    requires
        prefix_of(path@) == Some(prefix.deep_view()),
    ensures
        r == prefix.deep_view().length(),
        r <= path@.len(),
{
    proof {
        lemma_prefix_fits(path@);
    }
    let limit = chars_of(path).len();
    match prefix {
        PathPrefix::Verbatim { name } | PathPrefix::Device { name } => 4 + chars_of(
            name.as_str(),
        ).len(),
        PathPrefix::VerbatimShare { server, share } => 8 + shared(
            server.as_str(),
            share.as_str(),
            limit,
        ),
        PathPrefix::VerbatimDrive { .. } => 6,
        PathPrefix::Share { server, share } => 2 + shared(server.as_str(), share.as_str(), limit),
        PathPrefix::Drive { .. } => 2,
    }
}

fn shared(server: &str, share: &str, limit: usize) -> (r: usize)
    requires
        shared_length(server@, share@) <= limit,
    ensures
        r == shared_length(server@, share@),
{
    let first = chars_of(server).len();
    let second = chars_of(share).len();
    if second > 0 {
        first + 1 + second
    } else {
        first
    }
}

/// The parts of a path.
pub fn parts_of(path: &str) -> (r: Vec<PathPart>)
    ensures
        r.deep_view() == windows_parts(path@),
{
    let mut r: Vec<PathPart> = Vec::new();
    assert(r.deep_view() =~= Seq::<PathPartView>::empty());
    let prefix = find_prefix(path);
    let mut verbatim = false;
    let mut rooted = false;
    let no_prefix = prefix.is_none();
    let body = match prefix {
        Some(prefix) => {
            let length = length_of(&prefix, path);
            match prefix {
                PathPrefix::Verbatim { .. } | PathPrefix::VerbatimShare { .. }
                | PathPrefix::VerbatimDrive { .. } => {
                    verbatim = true;
                },
                PathPrefix::Device { .. } | PathPrefix::Share { .. } => {
                    rooted = true;
                },
                PathPrefix::Drive { .. } => {},
            }
            push_item(&mut r, PathPart::Prefix { prefix });
            skip_chars(path, length)
        },
        None => path.to_string(),
    };
    assert(body@ == body_of(path@));
    assert(verbatim == is_verbatim_path(path@));
    let plain = to_native(body.as_str());
    let separators = chars_of(plain.as_str());
    let has_separator = separators.len() > 0 && separators[0] == '\\';
    assert(has_separator == has_root_separator(path@));
    if has_separator || rooted {
        push_item(&mut r, PathPart::Root);
    }
    let ghost front = r.deep_view();
    assert(front =~= front_of(path@));
    let text = if verbatim {
        body
    } else {
        plain
    };
    let names = if has_separator {
        skip_chars(text.as_str(), 1)
    } else {
        text
    };
    let pieces = split_char(names.as_str(), '\\');
    let first_dot = no_prefix && !has_separator;
    let ghost all = pieces.deep_view();
    assert(all == pieces_of(path@));
    proof {
        reveal_strlit(".");
        assert("."@ =~= seq!['.']);
    }
    let mut i: usize = 0;
    assert(front + names_of(all.take(0), first_dot, verbatim) =~= front);
    while i < pieces.len()
        invariant
            i <= pieces@.len(),
            all == pieces.deep_view(),
            "."@ == seq!['.'],
            r.deep_view() == front + names_of(all.take(i as int), first_dot, verbatim),
        decreases pieces@.len() - i,
    {
        let ghost before = names_of(all.take(i as int), first_dot, verbatim);
        assert(all.take(i + 1).drop_last() =~= all.take(i as int));
        let piece = &pieces[i];
        assert(all.take(i + 1).last() == piece@);
        let dot = same_text(piece.as_str(), ".");
        if !piece.as_str().is_empty() && (!dot || verbatim || (first_dot && i == 0)) {
            push_item(&mut r, PathPart::Name { name: piece.clone() });
            assert(front + before.push(PathPartView::Name { name: piece@ }) =~= (front
                + before).push(PathPartView::Name { name: piece@ }));
        }
        i += 1;
    }
    assert(all.take(i as int) =~= all);
    r
}

fn same_prefix(a: &PathPrefix, b: &PathPrefix) -> (r: bool)
    ensures
        r == (a.deep_view() == b.deep_view()),
{
    match (a, b) {
        (PathPrefix::Verbatim { name: x }, PathPrefix::Verbatim { name: y }) => same_text(
            x.as_str(),
            y.as_str(),
        ),
        (
            PathPrefix::VerbatimShare { server: x, share: s },
            PathPrefix::VerbatimShare { server: y, share: t },
        ) => same_text(x.as_str(), y.as_str()) && same_text(s.as_str(), t.as_str()),
        (PathPrefix::VerbatimDrive { letter: x }, PathPrefix::VerbatimDrive { letter: y }) => *x
            == *y,
        (PathPrefix::Device { name: x }, PathPrefix::Device { name: y }) => same_text(
            x.as_str(),
            y.as_str(),
        ),
        (
            PathPrefix::Share { server: x, share: s },
            PathPrefix::Share { server: y, share: t },
        ) => same_text(x.as_str(), y.as_str()) && same_text(s.as_str(), t.as_str()),
        (PathPrefix::Drive { letter: x }, PathPrefix::Drive { letter: y }) => *x == *y,
        _ => false,
    }
}

fn same_part(a: &PathPart, b: &PathPart) -> (r: bool)
    ensures
        r == (a.deep_view() == b.deep_view()),
{
    match (a, b) {
        (PathPart::Prefix { prefix: x }, PathPart::Prefix { prefix: y }) => same_prefix(x, y),
        (PathPart::Root, PathPart::Root) => true,
        (PathPart::Name { name: x }, PathPart::Name { name: y }) => same_text(
            x.as_str(),
            y.as_str(),
        ),
        _ => false,
    }
}

/// Whether a path lies at or below another.
pub fn windows_path_within(path: &str, base: &str) -> (r: bool)
    ensures
        r == windows_within(path@, base@),
{
    let whole = parts_of(path);
    let front = parts_of(base);
    let ghost outer = whole.deep_view();
    let ghost inner = front.deep_view();
    assert(outer.len() == whole@.len());
    assert(inner.len() == front@.len());
    if front.len() > whole.len() {
        return false;
    }
    let mut i: usize = 0;
    while i < front.len()
        invariant
            i <= front@.len(),
            front@.len() <= whole@.len(),
            outer == whole.deep_view(),
            inner == front.deep_view(),
            outer == windows_parts(path@),
            inner == windows_parts(base@),
            forall|k: int| 0 <= k < i ==> inner[k] == outer[k],
        decreases front@.len() - i,
    {
        if !same_part(&front[i], &whole[i]) {
            assert(inner[i as int] != outer[i as int]);
            return false;
        }
        i += 1;
    }
    assert(inner =~= outer.subrange(0, inner.len() as int));
    true
}

/// The last name of a path, if it ends in one.
pub fn windows_name(path: &str) -> (r: Option<String>)
    ensures
        r.deep_view() == windows_file_name(path@),
{
    let parts = parts_of(path);
    assert(parts.deep_view().len() == parts@.len());
    if parts.len() == 0 {
        return None;
    }
    proof {
        reveal_strlit(".");
        reveal_strlit("..");
        assert("."@ =~= seq!['.']);
        assert(".."@ =~= seq!['.', '.']);
        assert(parts.deep_view().last() == parts@.last().deep_view());
    }
    match &parts[parts.len() - 1] {
        PathPart::Name { name } => {
            if same_text(name.as_str(), ".") || same_text(name.as_str(), "..") {
                None
            } else {
                Some(name.clone())
            }
        },
        _ => None,
    }
}

} // verus!
