//! Which path lies below which.
use vstd::prelude::*;

use crate::laws::texts::law_one_piece;
use crate::paths::{
    components, file_name_of, kept_pieces, law_child_lies_within, lemma_split_concat, lies_within,
};
use crate::platform::Platform;
use crate::text::{
    first_index, has_prefix, lemma_first_index, lemma_split_nonempty, split, upper_char,
};
use crate::windows_paths::{
    drive_of, front_of, is_letter, names_of, native, prefix_of, windows_parts, PathPartView,
    PathPrefixView,
};

verus! {

/// The name of a file or a directory: not empty, without separators, and neither of the dots.
pub open spec fn is_plain_name(name: Seq<char>) -> bool {
    &&& name.len() > 0
    &&& name != seq!['.']
    &&& name != seq!['.', '.']
    &&& forall|i: int|
        0 <= i < name.len() ==> #[trigger] name[i] != '/' && name[i] != '\\' && name[i] != ':'
}

proof fn lemma_child_components(base: Seq<char>, name: Seq<char>)
    requires
        is_plain_name(name),
        base.len() > 0,
    ensures
        components(base.push('/') + name) == components(base).push(name),
{
    let path = base.push('/') + name;
    law_one_piece(name, '/');
    lemma_split_concat(base, '/', name);
    let pieces = split(base, '/');
    assert(pieces + seq![name] =~= pieces.push(name));
    assert(pieces.push(name).drop_last() =~= pieces);
    assert(path[0] == base[0]);
    assert(components(path) =~= components(base).push(name));
}

/// The name of a file is what follows the last slash, if anything; a name alone is its own.
pub proof fn law_file_names(dir: Seq<char>, name: Seq<char>)
    requires
        is_plain_name(name),
    ensures
        file_name_of(Platform::Unix, dir.push('/') + name) == Some(name),
        file_name_of(Platform::Unix, name) == Some(name),
        file_name_of(Platform::Unix, dir.push('/') + name + seq!['/']) == Some(name),
{
    law_one_piece(name, '/');
    reveal_with_fuel(kept_pieces, 2);
    assert(seq![name].drop_last() =~= Seq::<Seq<char>>::empty());
    assert(kept_pieces(seq![name]) =~= seq![name]);
    let path = dir.push('/') + name;
    if dir.len() > 0 {
        lemma_child_components(dir, name);
    } else {
        lemma_split_concat(dir, '/', name);
        assert(split(dir, '/') + seq![name] =~= split(dir, '/').push(name));
        assert(split(dir, '/').push(name).drop_last() =~= split(dir, '/'));
        assert(components(path).last() == name);
    }
    let ended = path + seq!['/'];
    assert(ended =~= path.push('/') + Seq::<char>::empty());
    lemma_split_concat(path, '/', Seq::empty());
    let pieces = split(path, '/');
    assert(split(Seq::<char>::empty(), '/') =~= seq![Seq::<char>::empty()]);
    assert(pieces + seq![Seq::<char>::empty()] =~= pieces.push(Seq::empty()));
    assert(pieces.push(Seq::<char>::empty()).drop_last() =~= pieces);
    assert(ended[0] == path[0]);
    assert(components(ended) =~= components(path));
    assert(components(name) =~= seq![name]);
    assert(name != seq!['/']) by {
        assert(name[0] != '/');
    }
}

/// A path that is empty has no components, and the root has one; neither has a name, and neither
/// has one that ends in two dots.
pub proof fn law_paths_without_names(dir: Seq<char>)
    ensures
        components(Seq::empty()).len() == 0,
        components(seq!['/']) == seq![seq!['/']],
        file_name_of(Platform::Unix, Seq::empty()) is None,
        file_name_of(Platform::Unix, seq!['/']) is None,
        file_name_of(Platform::Unix, dir + seq!['/', '.', '.']) is None,
{
    let e = Seq::<char>::empty();
    let up = seq!['.', '.'];
    reveal_with_fuel(kept_pieces, 3);
    assert(split(e, '/') =~= seq![e]);
    assert(seq![e].drop_last() =~= Seq::<Seq<char>>::empty());
    assert(kept_pieces(seq![e]) =~= Seq::<Seq<char>>::empty());
    assert(components(e) =~= Seq::<Seq<char>>::empty());
    lemma_split_concat(e, '/', e);
    assert(e.push('/') + e =~= seq!['/']);
    assert(split(seq!['/'], '/') =~= seq![e, e]);
    assert(seq![e, e].drop_last() =~= seq![e]);
    assert(components(seq!['/']) =~= seq![seq!['/']]);
    law_one_piece(up, '/');
    lemma_split_concat(dir, '/', up);
    let path = dir + seq!['/', '.', '.'];
    assert(dir.push('/') + up =~= path);
    let pieces = split(dir, '/');
    assert(pieces + seq![up] =~= pieces.push(up));
    assert(pieces.push(up).drop_last() =~= pieces);
    assert(up.len() == 2 && seq!['.'].len() == 1);
    assert(components(path).last() == up);
}

/// A directory does not lie below what lies in it.
pub proof fn law_parents_are_outside(base: Seq<char>, name: Seq<char>)
    requires
        is_plain_name(name),
        base.len() > 0,
    ensures
        lies_within(Platform::Unix, base.push('/') + name, base),
        !lies_within(Platform::Unix, base, base.push('/') + name),
{
    law_child_lies_within(base, name);
    lemma_child_components(base, name);
}

/// Two directories of different names side by side do not lie below each other, even where the
/// one name begins with the other.
pub proof fn law_siblings_are_apart(dir: Seq<char>, a: Seq<char>, b: Seq<char>, rest: Seq<char>)
    requires
        is_plain_name(a),
        is_plain_name(b),
        a != b,
        dir.len() > 0,
    ensures
        !lies_within(Platform::Unix, dir.push('/') + a, dir.push('/') + b),
        !lies_within(Platform::Unix, (dir.push('/') + a).push('/') + rest, dir.push('/') + b),
{
    lemma_child_components(dir, a);
    lemma_child_components(dir, b);
    let x = components(dir.push('/') + a);
    let y = components(dir.push('/') + b);
    let n = components(dir).len() as int;
    assert(x[n] == a && y[n] == b);
    let deep = components((dir.push('/') + a).push('/') + rest);
    law_child_lies_within(dir.push('/') + a, rest);
    assert(x =~= deep.subrange(0, x.len() as int));
    assert(deep[n] == x[n]);
    if y.is_prefix_of(deep) {
        assert(y =~= deep.subrange(0, y.len() as int));
        assert(y[n] == deep[n]);
    }
    if y.is_prefix_of(x) {
        assert(y =~= x.subrange(0, y.len() as int));
    }
}

/// Slashes at the end, doubled slashes and single dots behind a slash do not matter.
pub proof fn law_idle_pieces(dir: Seq<char>, rest: Seq<char>)
    requires
        dir.len() > 0,
    ensures
        components(dir.push('/')) == components(dir),
        components(dir + seq!['/', '.']) == components(dir),
        components(dir + seq!['/', '.', '/'] + rest) == components(dir.push('/') + rest),
        components(dir + seq!['/', '/'] + rest) == components(dir.push('/') + rest),
{
    let e = Seq::<char>::empty();
    let dot = seq!['.'];
    let pieces = split(dir, '/');
    lemma_split_nonempty(dir, '/');
    assert(split(e, '/') =~= seq![e]);
    law_one_piece(dot, '/');
    lemma_split_concat(dir, '/', e);
    assert(dir.push('/') + e =~= dir.push('/'));
    assert(pieces + seq![e] =~= pieces.push(e));
    assert(pieces.push(e).drop_last() =~= pieces);
    lemma_split_concat(dir, '/', dot);
    let dotted = dir + seq!['/', '.'];
    assert(dir.push('/') + dot =~= dotted);
    assert(pieces + seq![dot] =~= pieces.push(dot));
    assert(pieces.push(dot).drop_last() =~= pieces);
    assert(dotted[0] == dir[0] && dir.push('/')[0] == dir[0]);
    assert(components(dir.push('/')) =~= components(dir));
    assert(components(dotted) =~= components(dir));
    lemma_split_concat(dotted, '/', rest);
    lemma_split_concat(dir.push('/'), '/', rest);
    lemma_split_concat(dir, '/', rest);
    let a = dir + seq!['/', '.', '/'] + rest;
    let b = dir + seq!['/', '/'] + rest;
    let c = dir.push('/') + rest;
    assert(a =~= dotted.push('/') + rest);
    assert(b =~= dir.push('/').push('/') + rest);
    let more = split(rest, '/');
    lemma_idle_piece(pieces, dot, more);
    lemma_idle_piece(pieces, e, more);
    assert(a[0] == dir[0] && b[0] == dir[0] && c[0] == dir[0]);
    assert(components(a) =~= components(c));
    assert(components(b) =~= components(c));
}

proof fn lemma_idle_piece(pieces: Seq<Seq<char>>, idle: Seq<char>, more: Seq<Seq<char>>)
    requires
        pieces.len() > 0,
        idle.len() == 0 || idle == seq!['.'],
    ensures
        kept_pieces(pieces.push(idle) + more) == kept_pieces(pieces + more),
    decreases more.len(),
{
    if more.len() == 0 {
        assert(pieces.push(idle) + more =~= pieces.push(idle));
        assert(pieces + more =~= pieces);
        assert(pieces.push(idle).drop_last() =~= pieces);
    } else {
        let front = more.drop_last();
        lemma_idle_piece(pieces, idle, front);
        assert((pieces.push(idle) + more).drop_last() =~= pieces.push(idle) + front);
        assert((pieces + more).drop_last() =~= pieces + front);
        assert((pieces.push(idle) + more).last() == more.last());
        assert((pieces + more).last() == more.last());
    }
}

/// A path on a drive.
pub open spec fn on_drive(letter: char, rest: Seq<char>) -> Seq<char> {
    seq![letter, ':', '\\'] + rest
}

proof fn lemma_on_drive(letter: char, rest: Seq<char>)
    requires
        is_letter(letter),
    ensures
        prefix_of(on_drive(letter, rest)) == Some(
            PathPrefixView::Drive { letter: upper_char(letter) },
        ),
        windows_parts(on_drive(letter, rest)) == seq![
            PathPartView::Prefix { prefix: PathPrefixView::Drive { letter: upper_char(letter) } },
            PathPartView::Root,
        ] + names_of(split(native(rest), '\\'), false, false),
{
    let path = on_drive(letter, rest);
    reveal_strlit("\\\\?\\");
    reveal_strlit("\\\\.\\");
    reveal_strlit("\\\\");
    let plain = native(path);
    assert(path[0] == letter && path[1] == ':' && path[2] == '\\');
    assert(plain[0] == letter);
    assert(letter != '\\' && letter != '/');
    if has_prefix(path, "\\\\?\\"@) {
        assert(path.take(4)[0] == '\\');
    }
    if has_prefix(plain, "\\\\.\\"@) {
        assert(plain.take(4)[0] == '\\');
    }
    if has_prefix(plain, "\\\\"@) {
        assert(plain.take(2)[0] == '\\');
    }
    let body = path.skip(2);
    assert(body[0] == '\\');
    assert(native(body).skip(1) =~= native(rest));
    assert(front_of(path) =~= seq![
        PathPartView::Prefix { prefix: PathPrefixView::Drive { letter: upper_char(letter) } },
        PathPartView::Root,
    ]);
}

proof fn lemma_drive_child(dir: Seq<char>, separator: char, name: Seq<char>)
    requires
        is_plain_name(name),
        separator == '\\' || separator == '/',
    ensures
        names_of(split(native(dir.push(separator) + name), '\\'), false, false) == names_of(
            split(native(dir), '\\'),
            false,
            false,
        ).push(PathPartView::Name { name }),
{
    assert(native(dir.push(separator) + name) =~= native(dir).push('\\') + name);
    law_one_piece(name, '\\');
    lemma_split_concat(native(dir), '\\', name);
    let pieces = split(native(dir), '\\');
    assert(pieces + seq![name] =~= pieces.push(name));
    assert(pieces.push(name).drop_last() =~= pieces);
}

/// On Windows the name of a file is what follows the last separator, of either kind; what lies in
/// a directory lies below it, whichever case the letter of the drive is written in; what lies
/// beside it does not.
pub proof fn law_paths_on_a_drive(
    upper: char,
    lower: char,
    dir: Seq<char>,
    separator: char,
    a: Seq<char>,
    b: Seq<char>,
)
    requires
        is_letter(upper),
        is_letter(lower),
        upper_char(upper) == upper_char(lower),
        separator == '\\' || separator == '/',
        is_plain_name(a),
        is_plain_name(b),
        a != b,
    ensures
        file_name_of(Platform::Windows, on_drive(upper, dir.push(separator) + a)) == Some(a),
        lies_within(
            Platform::Windows,
            on_drive(upper, dir.push(separator) + a),
            on_drive(lower, dir),
        ),
        !lies_within(
            Platform::Windows,
            on_drive(lower, dir),
            on_drive(upper, dir.push(separator) + a),
        ),
        !lies_within(
            Platform::Windows,
            on_drive(upper, dir.push(separator) + a),
            on_drive(lower, dir.push(separator) + b),
        ),
{
    lemma_on_drive(upper, dir.push(separator) + a);
    lemma_on_drive(lower, dir.push(separator) + b);
    lemma_on_drive(lower, dir);
    lemma_drive_child(dir, separator, a);
    lemma_drive_child(dir, separator, b);
    let base = windows_parts(on_drive(lower, dir));
    let x = windows_parts(on_drive(upper, dir.push(separator) + a));
    let y = windows_parts(on_drive(lower, dir.push(separator) + b));
    assert(x =~= base.push(PathPartView::Name { name: a }));
    assert(y =~= base.push(PathPartView::Name { name: b }));
    assert(base =~= x.subrange(0, base.len() as int));
    if y.is_prefix_of(x) {
        assert(y =~= x.subrange(0, y.len() as int));
        assert(y[base.len() as int] == x[base.len() as int]);
    }
}

/// A drive is named by a letter of the alphabet, in either case, and a colon; nothing else is a
/// drive.
pub proof fn law_drives(s: Seq<char>)
    ensures
        drive_of(s) is Some <==> s.len() >= 2 && s[1] == ':' && (('a' <= s[0] && s[0] <= 'z') || (
        'A' <= s[0] && s[0] <= 'Z')),
        drive_of(s) is Some ==> drive_of(s) == Some(upper_char(s[0])),
{
}

/// A share of a server.
pub open spec fn share_of_server(server: Seq<char>, share: Seq<char>) -> Seq<char> {
    seq!['\\', '\\'] + server + seq!['\\'] + share
}

proof fn lemma_separator_at(s: Seq<char>, k: int)
    requires
        0 <= k <= s.len(),
        k < s.len() ==> s[k] == '\\',
        forall|i: int| 0 <= i < k ==> #[trigger] s[i] != '\\',
    ensures
        first_index(s, '\\') == k,
{
    lemma_first_index(s, '\\');
    let found = first_index(s, '\\');
    if found < k {
        assert(s[found] != '\\');
    }
}

proof fn lemma_on_share(server: Seq<char>, share: Seq<char>, rest: Seq<char>)
    requires
        is_plain_name(server),
        is_plain_name(share),
        server != seq!['?'],
    ensures
        windows_parts(share_of_server(server, share)) == seq![
            PathPartView::Prefix { prefix: PathPrefixView::Share { server, share } },
            PathPartView::Root,
        ],
        windows_parts(share_of_server(server, share).push('\\') + rest) == seq![
            PathPartView::Prefix { prefix: PathPrefixView::Share { server, share } },
            PathPartView::Root,
        ] + names_of(split(native(rest), '\\'), false, false),
{
    let bare = share_of_server(server, share);
    let path = bare.push('\\') + rest;
    lemma_share_prefix(server, share, Seq::empty());
    lemma_share_prefix(server, share, seq!['\\'] + rest);
    assert(bare + Seq::<char>::empty() =~= bare);
    assert(bare + (seq!['\\'] + rest) =~= path);
    let n = bare.len() as int;
    assert(bare.skip(n) =~= Seq::<char>::empty());
    assert(path.skip(n) =~= seq!['\\'] + rest);
    assert(native(seq!['\\'] + rest).skip(1) =~= native(rest));
    assert(native(Seq::<char>::empty()) =~= Seq::<char>::empty());
    reveal_with_fuel(names_of, 2);
    assert(split(Seq::<char>::empty(), '\\').drop_last() =~= Seq::<Seq<char>>::empty());
    let front = seq![
        PathPartView::Prefix { prefix: PathPrefixView::Share { server, share } },
        PathPartView::Root,
    ];
    assert(front_of(bare) =~= front);
    assert(front_of(path) =~= front);
    assert(windows_parts(bare) =~= front);
}

proof fn lemma_share_prefix(server: Seq<char>, share: Seq<char>, tail: Seq<char>)
    requires
        is_plain_name(server),
        is_plain_name(share),
        server != seq!['?'],
        tail.len() == 0 || tail[0] == '\\',
    ensures
        prefix_of(share_of_server(server, share) + tail) == Some(
            PathPrefixView::Share { server, share },
        ),
        share_of_server(server, share).len() == (PathPrefixView::Share { server, share }).length(),
{
    let path = share_of_server(server, share) + tail;
    let plain = native(path);
    reveal_strlit("\\\\?\\");
    reveal_strlit("\\\\.\\");
    reveal_strlit("\\\\");
    assert(path[0] == '\\' && path[1] == '\\');
    assert(plain.take(2) =~= "\\\\"@);
    assert(path[2] == server[0]);
    if server.len() > 1 {
        assert(path[3] == server[1]);
        assert(server[1] != '\\');
    } else {
        assert(server =~= seq![server[0]]);
        assert(server[0] != '?');
        assert(server[0] != '.');
    }
    if has_prefix(path, "\\\\?\\"@) {
        assert(path.take(4)[2] == '?' && path.take(4)[3] == '\\');
    }
    assert(plain[2] == server[0]);
    if server.len() > 1 {
        assert(plain[3] == server[1]);
    }
    if has_prefix(plain, "\\\\.\\"@) {
        assert(plain.take(4)[2] == '.' && plain.take(4)[3] == '\\');
    }
    let place = plain.skip(2);
    assert(place =~= server + seq!['\\'] + share + native(tail));
    assert forall|i: int| 0 <= i < server.len() implies #[trigger] place[i] != '\\' by {
        assert(place[i] == server[i]);
    }
    lemma_separator_at(place, server.len() as int);
    assert(place.take(server.len() as int) =~= server);
    let behind = place.skip(server.len() as int + 1);
    assert(behind =~= share + native(tail));
    assert forall|i: int| 0 <= i < share.len() implies #[trigger] behind[i] != '\\' by {
        assert(behind[i] == share[i]);
    }
    lemma_separator_at(behind, share.len() as int);
    assert(behind.take(share.len() as int) =~= share);
}

/// What lies in a share lies below it, and a share with a separator behind it is the share; other
/// shares, and those of other servers, are apart.
pub proof fn law_paths_on_a_share(
    server: Seq<char>,
    share: Seq<char>,
    rest: Seq<char>,
    other_server: Seq<char>,
    other_share: Seq<char>,
)
    requires
        is_plain_name(server),
        is_plain_name(share),
        is_plain_name(other_server),
        is_plain_name(other_share),
        server != seq!['?'],
        other_server != seq!['?'],
    ensures
        lies_within(
            Platform::Windows,
            share_of_server(server, share).push('\\') + rest,
            share_of_server(server, share),
        ),
        lies_within(
            Platform::Windows,
            share_of_server(server, share),
            share_of_server(server, share).push('\\') + Seq::empty(),
        ),
        (server, share) != (other_server, other_share) ==> !lies_within(
            Platform::Windows,
            share_of_server(server, share).push('\\') + rest,
            share_of_server(other_server, other_share),
        ),
{
    lemma_on_share(server, share, rest);
    lemma_on_share(server, share, Seq::empty());
    lemma_on_share(other_server, other_share, rest);
    let bare = windows_parts(share_of_server(server, share));
    let deep = windows_parts(share_of_server(server, share).push('\\') + rest);
    let ended = windows_parts(share_of_server(server, share).push('\\') + Seq::empty());
    assert(native(Seq::<char>::empty()) =~= Seq::<char>::empty());
    reveal_with_fuel(names_of, 2);
    assert(split(Seq::<char>::empty(), '\\').drop_last() =~= Seq::<Seq<char>>::empty());
    assert(ended =~= bare);
    assert(bare =~= deep.subrange(0, bare.len() as int));
    assert(ended =~= bare.subrange(0, ended.len() as int));
    let other = windows_parts(share_of_server(other_server, other_share));
    if other.is_prefix_of(deep) {
        assert(other =~= deep.subrange(0, other.len() as int));
        assert(other[0] == deep[0]);
    }
}

/// A path that is taken as it is keeps its dots and its slashes, and is none on the drive.
pub proof fn law_paths_taken_as_they_are(letter: char, rest: Seq<char>, plain: Seq<char>)
    requires
        is_letter(letter),
    ensures
        windows_parts(seq!['\\', '\\', '?', '\\', letter, ':', '\\'] + rest) == seq![
            PathPartView::Prefix {
                prefix: PathPrefixView::VerbatimDrive { letter: upper_char(letter) },
            },
            PathPartView::Root,
        ] + names_of(split(rest, '\\'), false, true),
        !lies_within(
            Platform::Windows,
            seq!['\\', '\\', '?', '\\', letter, ':', '\\'] + rest,
            on_drive(letter, plain),
        ),
{
    let path = seq!['\\', '\\', '?', '\\', letter, ':', '\\'] + rest;
    reveal_strlit("\\\\?\\");
    reveal_strlit("UNC\\");
    assert(path.take(4) =~= "\\\\?\\"@);
    let behind = path.skip(4);
    assert(behind[0] == letter && behind[1] == ':' && behind[2] == '\\');
    if has_prefix(native(behind), "UNC\\"@) {
        assert(native(behind).take(4)[1] == 'N');
        assert(native(behind)[1] == ':');
    }
    assert(native(behind)[2] == '\\');
    assert(prefix_of(path) == Some(
        PathPrefixView::VerbatimDrive { letter: upper_char(letter) },
    ));
    assert(path.skip(6) =~= seq!['\\'] + rest);
    assert(path.skip(6).skip(1) =~= rest);
    let front = seq![
        PathPartView::Prefix {
            prefix: PathPrefixView::VerbatimDrive { letter: upper_char(letter) },
        },
        PathPartView::Root,
    ];
    assert(front_of(path) =~= front);
    lemma_on_drive(letter, plain);
    let p = windows_parts(path);
    let q = windows_parts(on_drive(letter, plain));
    if q.is_prefix_of(p) {
        assert(q =~= p.subrange(0, q.len() as int));
        assert(q[0] == p[0]);
    }
}

/// A share that is taken as it is holds the rest of the path, with its dots and its slashes.
pub proof fn law_shares_taken_as_they_are(server: Seq<char>, share: Seq<char>, rest: Seq<char>)
    requires
        is_plain_name(server),
        is_plain_name(share),
    ensures
        windows_parts(
            seq!['\\', '\\', '?', '\\', 'U', 'N', 'C', '\\'] + server + seq!['\\'] + share + seq![
                '\\',
            ] + rest,
        ) == seq![
            PathPartView::Prefix { prefix: PathPrefixView::VerbatimShare { server, share } },
            PathPartView::Root,
        ] + names_of(split(rest, '\\'), false, true),
{
    let start = seq!['\\', '\\', '?', '\\', 'U', 'N', 'C', '\\'];
    let path = start + server + seq!['\\'] + share + seq!['\\'] + rest;
    reveal_strlit("\\\\?\\");
    reveal_strlit("UNC\\");
    assert(path.take(4) =~= "\\\\?\\"@);
    let behind = path.skip(4);
    assert(native(behind).take(4) =~= "UNC\\"@);
    let place = behind.skip(4);
    assert(place =~= server + seq!['\\'] + share + seq!['\\'] + rest);
    assert forall|i: int| 0 <= i < server.len() implies #[trigger] place[i] != '\\' by {
        assert(place[i] == server[i]);
    }
    lemma_separator_at(place, server.len() as int);
    assert(place.take(server.len() as int) =~= server);
    let next = place.skip(server.len() as int + 1);
    assert(next =~= share + seq!['\\'] + rest);
    assert forall|i: int| 0 <= i < share.len() implies #[trigger] next[i] != '\\' by {
        assert(next[i] == share[i]);
    }
    lemma_separator_at(next, share.len() as int);
    assert(next.take(share.len() as int) =~= share);
    let prefix = PathPrefixView::VerbatimShare { server, share };
    assert(prefix_of(path) == Some(prefix));
    let n = prefix.length() as int;
    assert(path.skip(n) =~= seq!['\\'] + rest);
    assert(path.skip(n).skip(1) =~= rest);
    assert(front_of(path) =~= seq![PathPartView::Prefix { prefix }, PathPartView::Root]);
}

/// The names in a path on Windows are its pieces, but for empty ones and, where the path is not
/// taken as it is, single dots; one at the very front may stay.
pub proof fn law_names_one_by_one(
    pieces: Seq<Seq<char>>,
    piece: Seq<char>,
    first_dot: bool,
    dots: bool,
)
    ensures
        names_of(Seq::empty(), first_dot, dots).len() == 0,
        names_of(pieces.push(piece), first_dot, dots) == (if piece.len() == 0 || (piece == seq!['.']
            && !dots && !(first_dot && pieces.len() == 0)) {
            names_of(pieces, first_dot, dots)
        } else {
            names_of(pieces, first_dot, dots).push(PathPartView::Name { name: piece })
        }),
{
    assert(pieces.push(piece).drop_last() =~= pieces);
}

/// Different drives hold different paths.
pub proof fn law_drives_are_apart(a: char, b: char, x: Seq<char>, y: Seq<char>)
    requires
        is_letter(a),
        is_letter(b),
        upper_char(a) != upper_char(b),
    ensures
        !lies_within(Platform::Windows, on_drive(a, x), on_drive(b, y)),
{
    lemma_on_drive(a, x);
    lemma_on_drive(b, y);
    let p = windows_parts(on_drive(a, x));
    let q = windows_parts(on_drive(b, y));
    assert(p[0] != q[0]);
    if q.is_prefix_of(p) {
        assert(q =~= p.subrange(0, q.len() as int));
        assert(q[0] == p[0]);
    }
}

/// On Windows a slash separates as a backslash does, but in a path that begins with the marks of
/// one that is taken as it is.
pub proof fn law_either_separator(path: Seq<char>)
    requires
        !has_prefix(native(path), "\\\\?\\"@),
    ensures
        windows_parts(native(path)) == windows_parts(path),
{
    let plain = native(path);
    assert(native(plain) =~= plain);
    reveal_strlit("\\\\?\\");
    if has_prefix(path, "\\\\?\\"@) {
        assert forall|i: int| 0 <= i < 4 implies #[trigger] plain[i] == "\\\\?\\"@[i] by {
            assert(path.take(4)[i] == "\\\\?\\"@[i]);
        }
        assert(plain.take(4) =~= "\\\\?\\"@);
    }
    assert(drive_of(plain) == drive_of(path));
    assert(prefix_of(plain) == prefix_of(path));
    lemma_prefix_fits(path);
    let n = match prefix_of(path) {
        Some(prefix) => prefix.length() as int,
        None => 0,
    };
    assert(path.skip(0) =~= path);
    assert(plain.skip(0) =~= plain);
    assert(native(plain.skip(n)) =~= native(path.skip(n)));
    assert(native(native(path.skip(n))) =~= native(path.skip(n)));
    assert(plain.skip(n) =~= native(path.skip(n)));
}

proof fn lemma_prefix_fits(path: Seq<char>)
    requires
        !has_prefix(path, "\\\\?\\"@),
    ensures
        prefix_of(path) matches Some(prefix) ==> prefix.length() <= path.len(),
{
    let plain = native(path);
    reveal_strlit("\\\\.\\");
    reveal_strlit("\\\\");
    if has_prefix(plain, "\\\\.\\"@) {
        crate::text::lemma_first_index(plain.skip(4), '\\');
    } else if has_prefix(plain, "\\\\"@) {
        let place = plain.skip(2);
        crate::text::lemma_first_index(place, '\\');
        crate::text::lemma_first_index(
            crate::windows_paths::behind_separator(place),
            '\\',
        );
    }
}

} // verus!
