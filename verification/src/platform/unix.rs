//! macOS and Linux: process groups, `ps` and `lsof`.
use vstd::prelude::*;

use crate::command::{display_command, displayed};
use crate::lookup::push_item;
use crate::models::{CommandLine, CommandLineView, CommandOutput};
use crate::paths::lemma_split_concat;
use crate::percent::{is_number, reads_as_number, share_of, share_text};
use crate::platform::{
    bytes_of_kb, command_of, entries_of_path, error_of, kb_to_bytes, kept_entries, path_entries,
    printed, printed_text, ExternalProcessRow, ExternalProcessRowView, GroupError, GroupErrorView,
};
use crate::text::{
    chars_of, concat, contains_char, contains_text, decimal, decimal_text, extend_texts, is_space,
    is_whitespace, join, joined, lines, parse_u32, parse_u64, parse_uint, push_text, split,
    split_lines, split_whitespace, text_between, texts, trim_start, trimmed, trimmed_end,
    trimmed_start, words,
};

verus! {

// ---------------------------------------------------------------------------
// Process groups
// ---------------------------------------------------------------------------

/// A signal for a process group.
#[derive(Clone, Copy, PartialEq, Eq, Structural, Debug)]
pub enum GroupSignal {
    Term,
    Kill,
}

/// A request to the system: a signal for a process group, or none to ask whether it is there.
#[derive(Clone, Copy, PartialEq, Eq, Structural, Debug)]
pub struct GroupRequest {
    pub process_group: i32,
    pub signal: Option<GroupSignal>,
}

/// What the system answered to a [`GroupRequest`].
#[derive(Debug, PartialEq)]
pub enum GroupReply {
    Delivered,
    NoSuchGroup,
    Refused { message: String },
}

/// The model of [`GroupReply`].
pub enum GroupReplyView {
    Delivered,
    NoSuchGroup,
    Refused { message: Seq<char> },
}

impl DeepView for GroupReply {
    type V = GroupReplyView;

    open spec fn deep_view(&self) -> GroupReplyView {
        match self {
            GroupReply::Delivered => GroupReplyView::Delivered,
            GroupReply::NoSuchGroup => GroupReplyView::NoSuchGroup,
            GroupReply::Refused { message } => GroupReplyView::Refused { message: message@ },
        }
    }
}

/// The signed 32-bit number with the same bits.
pub open spec fn signed(n: u32) -> int {
    if n <= i32::MAX {
        n as int
    } else {
        n - 0x1_0000_0000
    }
}

fn to_signed(n: u32) -> (r: i32)
    ensures
        r == signed(n),
{
    if n <= 0x7fff_ffff {
        n as i32
    } else {
        ((n as i64) - 0x1_0000_0000) as i32
    }
}

/// The request that sends a process group a signal, or none.
pub fn group_request(process_group_id: u32, signal: Option<GroupSignal>) -> (r: GroupRequest)
    ensures
        r.process_group == signed(process_group_id),
        r.signal == signal,
{
    GroupRequest { process_group: to_signed(process_group_id), signal }
}

/// nix's `killpg`: hands the request to the system. What comes back depends on the processes of
/// the machine, so nothing is claimed of it.
#[verifier::external_body]
fn nix_killpg(request: GroupRequest) -> (r: GroupReply) {
    let signal = match request.signal {
        Some(GroupSignal::Term) => Some(nix::sys::signal::Signal::SIGTERM),
        Some(GroupSignal::Kill) => Some(nix::sys::signal::Signal::SIGKILL),
        None => None,
    };
    match nix::sys::signal::killpg(nix::unistd::Pid::from_raw(request.process_group), signal) {
        Ok(()) => GroupReply::Delivered,
        Err(nix::errno::Errno::ESRCH) => GroupReply::NoSuchGroup,
        Err(errno) => GroupReply::Refused { message: errno.to_string() },
    }
}

/// What a reply to a signal means: `None` where it was delivered.
pub open spec fn reply_error(reply: GroupReplyView) -> Option<GroupErrorView> {
    match reply {
        GroupReplyView::Delivered => None,
        GroupReplyView::NoSuchGroup => Some(GroupErrorView::NotFound),
        GroupReplyView::Refused { message } => Some(GroupErrorView::Other(message)),
    }
}

/// What a reply to a signal means.
pub fn signal_result(reply: GroupReply) -> (r: Result<(), GroupError>)
    ensures
        error_of(r) == reply_error(reply.deep_view()),
{
    match reply {
        GroupReply::Delivered => Ok(()),
        GroupReply::NoSuchGroup => Err(GroupError::NotFound),
        GroupReply::Refused { message } => Err(GroupError::Other(message)),
    }
}

/// What a reply to the question whether a group is there means: only the answer that there is
/// none says no.
pub fn probe_result(reply: GroupReply) -> (r: bool)
    ensures
        r == !(reply.deep_view() is NoSuchGroup),
{
    match reply {
        GroupReply::NoSuchGroup => false,
        _ => true,
    }
}

/// The request that asks a process group to end.
pub fn terminate_request(process_group_id: u32) -> (r: GroupRequest)
    ensures
        r.process_group == signed(process_group_id),
        r.signal == Some(GroupSignal::Term),
{
    group_request(process_group_id, Some(GroupSignal::Term))
}

/// The request that kills a process group.
pub fn force_kill_request(process_group_id: u32) -> (r: GroupRequest)
    ensures
        r.process_group == signed(process_group_id),
        r.signal == Some(GroupSignal::Kill),
{
    group_request(process_group_id, Some(GroupSignal::Kill))
}

/// The request that asks whether a process group is there.
pub fn probe_request(process_group_id: u32) -> (r: GroupRequest)
    ensures
        r.process_group == signed(process_group_id),
        r.signal is None,
{
    group_request(process_group_id, None)
}

/// Asks a process group to end: hands the [`terminate_request`] to the system and reads the
/// reply with [`signal_result`]. Which reply comes depends on the machine's processes.
pub fn terminate_group(process_group_id: u32) -> (r: Result<(), GroupError>) {
    signal_result(nix_killpg(terminate_request(process_group_id)))
}

/// Kills a process group: hands the [`force_kill_request`] to the system and reads the reply
/// with [`signal_result`]. Which reply comes depends on the machine's processes.
pub fn force_kill_group(process_group_id: u32) -> (r: Result<(), GroupError>) {
    signal_result(nix_killpg(force_kill_request(process_group_id)))
}

/// Whether a process group is there: hands the [`probe_request`] to the system and reads the
/// reply with [`probe_result`]. Which reply comes depends on the machine's processes.
pub fn group_exists(process_group_id: u32) -> (r: bool) {
    probe_result(nix_killpg(probe_request(process_group_id)))
}

// ---------------------------------------------------------------------------
// Command lines
// ---------------------------------------------------------------------------

/// The login shell that runs words which are no program by themselves.
pub open spec fn shell_line(tokens: Seq<Seq<char>>) -> CommandLineView {
    command_of("/bin/zsh"@, seq!["-lc"@, "exec "@ + displayed(tokens)])
}

/// The login shell that runs words which are no program by themselves.
pub fn shell_command(tokens: &Vec<String>) -> (r: CommandLine)
    ensures
        r.deep_view() == shell_line(tokens.deep_view()),
{
    let shown = display_command(tokens);
    let script = concat("exec ", shown.as_str());
    let args = texts(&["-lc", script.as_str()]);
    assert(args.deep_view() =~= seq!["-lc"@, "exec "@ + displayed(tokens.deep_view())]);
    CommandLine { program: "/bin/zsh".to_string(), args }
}

/// The folders that every process finds programs in.
pub open spec fn standard_paths() -> Seq<Seq<char>> {
    seq![
        "/opt/homebrew/bin"@,
        "/usr/local/bin"@,
        "/usr/bin"@,
        "/bin"@,
        "/usr/sbin"@,
        "/sbin"@,
    ]
}

/// The folders of a list, each where it first occurs.
pub open spec fn deduped(paths: Seq<Seq<char>>) -> Seq<Seq<char>>
    decreases paths.len(),
{
    if paths.len() == 0 {
        paths
    } else {
        let front = paths.drop_last();
        if front.contains(paths.last()) {
            deduped(front)
        } else {
            deduped(front).push(paths.last())
        }
    }
}

/// The folders of a home directory, the standard ones and the inherited ones.
pub open spec fn default_paths(
    inherited: Option<Seq<char>>,
    home: Option<Seq<char>>,
) -> Seq<Seq<char>> {
    let own = match home {
        Some(home) => seq![home + "/Library/Application Support/Herd/bin"@],
        None => Seq::empty(),
    };
    let rest = match inherited {
        Some(path) => path_entries(path, ':'),
        None => Seq::empty(),
    };
    own + standard_paths() + rest
}

/// The folders of a list, each where it first occurs.
pub fn dedupe_paths(paths: &Vec<String>) -> (r: Vec<String>)
    ensures
        r.deep_view() == deduped(paths.deep_view()),
{
    let ghost all = paths.deep_view();
    let mut r: Vec<String> = Vec::new();
    let mut i: usize = 0;
    assert(r.deep_view() =~= deduped(all.take(0)));
    while i < paths.len()
        invariant
            i <= paths@.len(),
            all == paths.deep_view(),
            r.deep_view() == deduped(all.take(i as int)),
        decreases paths@.len() - i,
    {
        proof {
            assert(all.take(i + 1).drop_last() =~= all.take(i as int));
            lemma_deduped_same(all.take(i as int), all[i as int]);
        }
        if !contains_text(&r, paths[i].as_str()) {
            push_text(&mut r, paths[i].clone());
        }
        i += 1;
    }
    assert(all.take(i as int) =~= all);
    r
}

proof fn lemma_deduped_same(paths: Seq<Seq<char>>, path: Seq<char>)
    ensures
        deduped(paths).contains(path) <==> paths.contains(path),
    decreases paths.len(),
{
    if paths.len() > 0 {
        let front = paths.drop_last();
        lemma_deduped_same(front, path);
        assert(paths =~= front.push(paths.last()));
        lemma_push_contains(front, paths.last(), path);
        lemma_push_contains(deduped(front), paths.last(), path);
    }
}

proof fn lemma_push_contains(list: Seq<Seq<char>>, last: Seq<char>, item: Seq<char>)
    ensures
        list.push(last).contains(item) <==> list.contains(item) || last == item,
{
    let all = list.push(last);
    if list.contains(item) {
        let i = choose|i: int| 0 <= i < list.len() && list[i] == item;
        assert(all[i] == item);
    }
    if last == item {
        assert(all[list.len() as int] == item);
    }
    if all.contains(item) && last != item {
        let i = choose|i: int| 0 <= i < all.len() && all[i] == item;
        assert(list[i] == item);
    }
}

/// The folders that a process finds programs in: Herd's, the standard ones, then the inherited
/// ones.
pub fn default_process_path(inherited_path: Option<String>, home_dir: Option<String>) -> (r: String)
    ensures
        r@ == default_path(inherited_path.deep_view(), home_dir.deep_view()),
{
    let mut paths: Vec<String> = Vec::new();
    let ghost own = match home_dir.deep_view() {
        Some(home) => seq![home + "/Library/Application Support/Herd/bin"@],
        None => Seq::<Seq<char>>::empty(),
    };
    if let Some(home) = &home_dir {
        push_text(&mut paths, concat(home.as_str(), "/Library/Application Support/Herd/bin"));
    }
    assert(paths.deep_view() =~= own);
    let standard = texts(
        &["/opt/homebrew/bin", "/usr/local/bin", "/usr/bin", "/bin", "/usr/sbin", "/sbin"],
    );
    assert(standard.deep_view() =~= standard_paths());
    extend_texts(&mut paths, &standard);
    if let Some(inherited) = &inherited_path {
        let entries = entries_of_path(inherited.as_str(), ':');
        extend_texts(&mut paths, &entries);
    }
    assert(paths.deep_view() =~= default_paths(
        inherited_path.deep_view(),
        home_dir.deep_view(),
    ));
    let kept = dedupe_paths(&paths);
    proof {
        reveal_strlit(":");
        assert(":"@ =~= seq![':']);
    }
    join(&kept, ":")
}

/// No folder occurs twice, none is lost, and none is added.
pub proof fn law_deduped_keeps_each_once(paths: Seq<Seq<char>>)
    ensures
        deduped(paths).no_duplicates(),
        forall|path: Seq<char>| #[trigger] deduped(paths).contains(path) <==> paths.contains(path),
    decreases paths.len(),
{
    if paths.len() > 0 {
        let front = paths.drop_last();
        law_deduped_keeps_each_once(front);
        if !front.contains(paths.last()) {
            let kept = deduped(front);
            let all = kept.push(paths.last());
            assert forall|i: int, j: int|
                0 <= i < all.len() && 0 <= j < all.len() && i != j implies all[i] != all[j] by {
                if i < kept.len() {
                    assert(kept.contains(all[i]));
                }
                if j < kept.len() {
                    assert(kept.contains(all[j]));
                }
            }
        }
    }
    assert forall|path: Seq<char>| #[trigger]
        deduped(paths).contains(path) <==> paths.contains(path) by {
        lemma_deduped_same(paths, path);
    }
}

/// Leaving out repetitions a second time changes nothing.
pub proof fn law_deduped_idempotent(paths: Seq<Seq<char>>)
    ensures
        deduped(deduped(paths)) == deduped(paths),
    decreases paths.len(),
{
    if paths.len() > 0 {
        let front = paths.drop_last();
        law_deduped_idempotent(front);
        if !front.contains(paths.last()) {
            lemma_deduped_same(front, paths.last());
            assert(deduped(front).push(paths.last()).drop_last() =~= deduped(front));
        }
    }
}

/// What comes behind a list adds to the list without its repetitions what is new, once.
proof fn lemma_deduped_concat(a: Seq<Seq<char>>, b: Seq<Seq<char>>)
    ensures
        deduped(a).is_prefix_of(deduped(a + b)),
        forall|i: int|
            deduped(a).len() <= i < deduped(a + b).len() ==> !a.contains(
                #[trigger] deduped(a + b)[i],
            ),
    decreases b.len(),
{
    if b.len() == 0 {
        assert(a + b =~= a);
        assert(deduped(a) =~= deduped(a).subrange(0, deduped(a).len() as int));
    } else {
        let front = b.drop_last();
        lemma_deduped_concat(a, front);
        assert((a + b).drop_last() =~= a + front);
        let before = deduped(a + front);
        let after = deduped(a + b);
        assert(deduped(a) == before.subrange(0, deduped(a).len() as int));
        if !(a + front).contains(b.last()) {
            assert(after == before.push(b.last()));
            assert(after.subrange(0, deduped(a).len() as int) =~= before.subrange(
                0,
                deduped(a).len() as int,
            ));
            if a.contains(b.last()) {
                let k = choose|k: int| 0 <= k < a.len() && a[k] == b.last();
                assert((a + front)[k] == b.last());
            }
            assert forall|i: int| deduped(a).len() <= i < after.len() implies !a.contains(
                #[trigger] after[i],
            ) by {
                if i < before.len() {
                    assert(after[i] == before[i]);
                }
            }
        }
    }
}

/// What is there already adds nothing.
proof fn lemma_deduped_absorbs(a: Seq<Seq<char>>, b: Seq<Seq<char>>)
    requires
        forall|i: int| 0 <= i < b.len() ==> a.contains(#[trigger] b[i]),
    ensures
        deduped(a + b) == deduped(a),
    decreases b.len(),
{
    if b.len() == 0 {
        assert(a + b =~= a);
    } else {
        let front = b.drop_last();
        assert forall|i: int| 0 <= i < front.len() implies a.contains(#[trigger] front[i]) by {
            assert(front[i] == b[i]);
        }
        lemma_deduped_absorbs(a, front);
        assert((a + b).drop_last() =~= a + front);
        assert(a.contains(b[b.len() - 1]));
        let k = choose|k: int| 0 <= k < a.len() && a[k] == b.last();
        assert((a + front)[k] == b.last());
    }
}

/// What is new and occurs once is added as it is.
proof fn lemma_deduped_adds(a: Seq<Seq<char>>, b: Seq<Seq<char>>)
    requires
        b.no_duplicates(),
        forall|i: int| 0 <= i < b.len() ==> !a.contains(#[trigger] b[i]),
    ensures
        deduped(a + b) == deduped(a) + b,
    decreases b.len(),
{
    if b.len() == 0 {
        assert(a + b =~= a);
        assert(deduped(a) + b =~= deduped(a));
    } else {
        let front = b.drop_last();
        assert forall|i: int| 0 <= i < front.len() implies !a.contains(#[trigger] front[i]) by {
            assert(front[i] == b[i]);
        }
        lemma_deduped_adds(a, front);
        assert((a + b).drop_last() =~= a + front);
        if (a + front).contains(b.last()) {
            let k = choose|k: int| 0 <= k < (a + front).len() && (a + front)[k] == b.last();
            if k < a.len() {
                assert(a[k] == b.last());
                assert(a.contains(b[b.len() - 1]));
            } else {
                assert(b[k - a.len()] == b[b.len() - 1]);
            }
        }
        assert((deduped(a) + front).push(b.last()) =~= deduped(a) + b);
    }
}

/// Putting the beginning of a list before the list without its repetitions adds nothing.
proof fn lemma_deduped_again(a: Seq<Seq<char>>, b: Seq<Seq<char>>)
    ensures
        deduped(a + deduped(a + b)) == deduped(a + b),
{
    let once = deduped(a + b);
    let n = deduped(a).len() as int;
    lemma_deduped_concat(a, b);
    law_deduped_keeps_each_once(a);
    law_deduped_keeps_each_once(a + b);
    let old_part = once.subrange(0, n);
    let new_part = once.skip(n);
    assert(old_part == deduped(a));
    assert forall|i: int| 0 <= i < old_part.len() implies a.contains(#[trigger] old_part[i]) by {
        assert(deduped(a).contains(old_part[i]));
    }
    lemma_deduped_absorbs(a, old_part);
    assert forall|i: int| 0 <= i < new_part.len() implies !(a + old_part).contains(
        #[trigger] new_part[i],
    ) by {
        assert(new_part[i] == once[i + n]);
        assert(!a.contains(once[i + n]));
        if (a + old_part).contains(new_part[i]) {
            let k = choose|k: int|
                0 <= k < (a + old_part).len() && (a + old_part)[k] == new_part[i];
            if k < a.len() {
                assert(a[k] == new_part[i]);
            } else {
                assert(old_part[k - a.len()] == new_part[i]);
                assert(a.contains(old_part[k - a.len()]));
            }
        }
    }
    assert(new_part.no_duplicates()) by {
        assert forall|i: int, j: int|
            0 <= i < new_part.len() && 0 <= j < new_part.len() && i != j implies new_part[i]
            != new_part[j] by {
            assert(once[i + n] != once[j + n]);
        }
    }
    lemma_deduped_adds(a + old_part, new_part);
    assert(a + once =~= a + old_part + new_part);
    assert(old_part + new_part =~= once);
}

/// A folder that a list of folders can hold: not empty, without a colon, and without whitespace
/// at its ends.
pub open spec fn is_entry(path: Seq<char>) -> bool {
    path.len() > 0 && !path.contains(':') && !is_space(path[0]) && !is_space(path.last())
}

proof fn lemma_split_plain(s: Seq<char>)
    requires
        !s.contains(':'),
    ensures
        split(s, ':') == seq![s],
    decreases s.len(),
{
    if s.len() > 0 {
        let front = s.drop_last();
        assert forall|i: int| 0 <= i < front.len() implies front[i] != ':' by {
            assert(s[i] != ':');
        }
        lemma_split_plain(front);
        assert(s[s.len() - 1] != ':');
        assert(split(s, ':') =~= seq![front.push(s.last())]);
        assert(front.push(s.last()) =~= s);
    } else {
        assert(s =~= Seq::<char>::empty());
    }
}

proof fn lemma_split_joined(entries: Seq<Seq<char>>)
    requires
        entries.len() > 0,
        forall|i: int| 0 <= i < entries.len() ==> is_entry(#[trigger] entries[i]),
    ensures
        split(joined(entries, seq![':']), ':') == entries,
    decreases entries.len(),
{
    assert(is_entry(entries[entries.len() - 1]));
    lemma_split_plain(entries.last());
    if entries.len() == 1 {
        assert(entries =~= seq![entries.last()]);
    } else {
        let front = entries.drop_last();
        assert forall|i: int| 0 <= i < front.len() implies is_entry(#[trigger] front[i]) by {
            assert(front[i] == entries[i]);
        }
        lemma_split_joined(front);
        let text = joined(front, seq![':']);
        assert(joined(entries, seq![':']) =~= text.push(':') + entries.last());
        lemma_split_concat(text, ':', entries.last());
        assert(front + seq![entries.last()] =~= entries);
    }
}

proof fn lemma_kept_all_entries(entries: Seq<Seq<char>>)
    requires
        forall|i: int| 0 <= i < entries.len() ==> is_entry(#[trigger] entries[i]),
    ensures
        kept_entries(entries) == entries,
    decreases entries.len(),
{
    if entries.len() > 0 {
        let front = entries.drop_last();
        assert forall|i: int| 0 <= i < front.len() implies is_entry(#[trigger] front[i]) by {
            assert(front[i] == entries[i]);
        }
        lemma_kept_all_entries(front);
        assert(is_entry(entries[entries.len() - 1]));
        assert(trimmed(entries.last()) == entries.last());
        assert(front.push(entries.last()) =~= entries);
    }
}

proof fn lemma_pieces_plain(s: Seq<char>)
    ensures
        split(s, ':').len() > 0,
        forall|i: int| 0 <= i < split(s, ':').len() ==> !(#[trigger] split(s, ':')[i]).contains(
            ':',
        ),
    decreases s.len(),
{
    if s.len() > 0 {
        lemma_pieces_plain(s.drop_last());
        let before = split(s.drop_last(), ':');
        let last = before.last();
        assert(!before[before.len() - 1].contains(':'));
        if s.last() != ':' {
            let grown = last.push(s.last());
            if grown.contains(':') {
                let k = choose|k: int| 0 <= k < grown.len() && grown[k] == ':';
                assert(last[k] == ':');
            }
        }
    }
}

proof fn lemma_trimmed_start_part(s: Seq<char>)
    ensures
        trimmed_start(s).len() > 0 ==> !is_space(trimmed_start(s)[0]),
        forall|c: char| #[trigger] trimmed_start(s).contains(c) ==> s.contains(c),
    decreases s.len(),
{
    if s.len() > 0 && is_space(s[0]) {
        lemma_trimmed_start_part(s.skip(1));
        assert forall|c: char| #[trigger] trimmed_start(s).contains(c) implies s.contains(c) by {
            assert(s.skip(1).contains(c));
            let k = choose|k: int| 0 <= k < s.skip(1).len() && s.skip(1)[k] == c;
            assert(s[k + 1] == c);
        }
    }
}

proof fn lemma_trimmed_end_part(s: Seq<char>)
    ensures
        trimmed_end(s).len() > 0 ==> !is_space(trimmed_end(s).last()) && trimmed_end(s)[0] == s[0],
        forall|c: char| #[trigger] trimmed_end(s).contains(c) ==> s.contains(c),
    decreases s.len(),
{
    if s.len() > 0 && is_space(s.last()) {
        lemma_trimmed_end_part(s.drop_last());
        assert forall|c: char| #[trigger] trimmed_end(s).contains(c) implies s.contains(c) by {
            assert(s.drop_last().contains(c));
            let k = choose|k: int| 0 <= k < s.drop_last().len() && s.drop_last()[k] == c;
            assert(s[k] == c);
        }
    }
}

proof fn lemma_kept_are_entries(pieces: Seq<Seq<char>>)
    requires
        forall|i: int| 0 <= i < pieces.len() ==> !(#[trigger] pieces[i]).contains(':'),
    ensures
        forall|i: int|
            0 <= i < kept_entries(pieces).len() ==> is_entry(#[trigger] kept_entries(pieces)[i]),
    decreases pieces.len(),
{
    if pieces.len() > 0 {
        let front = pieces.drop_last();
        assert forall|i: int| 0 <= i < front.len() implies !(#[trigger] front[i]).contains(
            ':',
        ) by {
            assert(front[i] == pieces[i]);
        }
        lemma_kept_are_entries(front);
        let piece = pieces[pieces.len() - 1];
        lemma_trimmed_start_part(piece);
        lemma_trimmed_end_part(trimmed_start(piece));
        let entry = trimmed(piece);
        if entry.len() > 0 {
            assert(!piece.contains(':'));
            assert(!trimmed_start(piece).contains(':'));
            assert(!entry.contains(':'));
            assert(entry[0] == trimmed_start(piece)[0]);
            assert(trimmed_start(piece).len() > 0) by {
                assert(entry.contains(entry[0]));
            }
            assert(is_entry(entry));
        }
        let before = kept_entries(front);
        let after = kept_entries(pieces);
        assert forall|i: int| 0 <= i < after.len() implies is_entry(#[trigger] after[i]) by {
            if i < before.len() {
                assert(after[i] == before[i]);
            }
        }
    }
}

proof fn lemma_fixed_folders(home: Option<Seq<char>>)
    requires
        home matches Some(home) ==> !home.contains(':') && (home.len() == 0 || !is_space(home[0])),
    ensures
        ({
            let fixed = default_paths(None, home);
            &&& fixed.len() > 0
            &&& forall|i: int| 0 <= i < fixed.len() ==> is_entry(#[trigger] fixed[i])
        }),
{
    reveal_strlit("/Library/Application Support/Herd/bin");
    reveal_strlit("/opt/homebrew/bin");
    reveal_strlit("/usr/local/bin");
    reveal_strlit("/usr/bin");
    reveal_strlit("/bin");
    reveal_strlit("/usr/sbin");
    reveal_strlit("/sbin");
    let fixed = default_paths(None, home);
    let shim = "/Library/Application Support/Herd/bin"@;
    assert(is_entry("/opt/homebrew/bin"@));
    assert(is_entry("/usr/local/bin"@));
    assert(is_entry("/usr/bin"@));
    assert(is_entry("/bin"@));
    assert(is_entry("/usr/sbin"@));
    assert(is_entry("/sbin"@));
    let n = standard_paths().len();
    if let Some(home) = home {
        let own = home + shim;
        assert(is_entry(own)) by {
            assert forall|i: int| 0 <= i < own.len() implies own[i] != ':' by {
                if i < home.len() {
                    assert(own[i] == home[i]);
                    assert(home.contains(home[i]));
                } else {
                    assert(own[i] == shim[i - home.len()]);
                }
            }
        }
        assert forall|i: int| 0 <= i < fixed.len() implies is_entry(#[trigger] fixed[i]) by {
            if i > 0 {
                assert(fixed[i] == standard_paths()[i - 1]);
            }
        }
    } else {
        assert forall|i: int| 0 <= i < fixed.len() implies is_entry(#[trigger] fixed[i]) by {
            assert(fixed[i] == standard_paths()[i]);
        }
    }
}

/// The folders that a process finds programs in, as one text.
pub open spec fn default_path(inherited: Option<Seq<char>>, home: Option<Seq<char>>) -> Seq<char> {
    joined(deduped(default_paths(inherited, home)), seq![':'])
}

/// A process that inherits the folders which were made for another finds the same ones: making
/// them again changes nothing. The home directory must be one that a list of folders can hold:
/// without colons, and without whitespace at its beginning.
pub proof fn law_default_path_idempotent(inherited: Option<Seq<char>>, home: Option<Seq<char>>)
    requires
        home matches Some(home) ==> !home.contains(':') && (home.len() == 0 || !is_space(home[0])),
    ensures
        default_path(Some(default_path(inherited, home)), home) == default_path(inherited, home),
{
    let fixed = default_paths(None, home);
    let rest = match inherited {
        Some(path) => path_entries(path, ':'),
        None => Seq::empty(),
    };
    let all = default_paths(inherited, home);
    assert(all =~= fixed + rest);
    lemma_fixed_folders(home);
    if let Some(path) = inherited {
        lemma_pieces_plain(path);
        lemma_kept_are_entries(split(path, ':'));
    }
    let once = deduped(all);
    law_deduped_keeps_each_once(all);
    lemma_deduped_first(all);
    assert forall|i: int| 0 <= i < once.len() implies is_entry(#[trigger] once[i]) by {
        assert(once.contains(once[i]));
        assert(all.contains(once[i]));
        let k = choose|k: int| 0 <= k < all.len() && all[k] == once[i];
        if k < fixed.len() {
            assert(is_entry(fixed[k]));
        } else {
            assert(is_entry(rest[k - fixed.len()]));
        }
    }
    lemma_split_joined(once);
    lemma_kept_all_entries(once);
    assert(default_paths(Some(default_path(inherited, home)), home) =~= fixed + once);
    lemma_deduped_again(fixed, rest);
}

/// With a home directory, Herd's folder comes first; the standard folders and every inherited
/// one are there.
pub proof fn law_default_paths_complete(
    inherited: Option<Seq<char>>,
    home: Option<Seq<char>>,
    path: Seq<char>,
)
    ensures
        home matches Some(home) ==> deduped(default_paths(inherited, Some(home)))[0] == home
            + "/Library/Application Support/Herd/bin"@ && deduped(
            default_paths(inherited, Some(home)),
        ).len() > 0,
        standard_paths().contains(path) ==> deduped(default_paths(inherited, home)).contains(path),
        inherited matches Some(inherited) ==> (path_entries(inherited, ':').contains(path)
            ==> deduped(default_paths(Some(inherited), home)).contains(path)),
{
    let all = default_paths(inherited, home);
    law_deduped_keeps_each_once(all);
    if home is Some {
        lemma_deduped_first(all);
    }
    let own = match home {
        Some(home) => seq![home + "/Library/Application Support/Herd/bin"@],
        None => Seq::empty(),
    };
    if standard_paths().contains(path) {
        let i = choose|i: int| 0 <= i < standard_paths().len() && standard_paths()[i] == path;
        assert(all[own.len() + i] == path);
    }
    if inherited is Some && path_entries(inherited->0, ':').contains(path) {
        let entries = path_entries(inherited->0, ':');
        let i = choose|i: int| 0 <= i < entries.len() && entries[i] == path;
        assert(all[own.len() + standard_paths().len() + i] == path);
    }
}

proof fn lemma_deduped_first(paths: Seq<Seq<char>>)
    requires
        paths.len() > 0,
    ensures
        deduped(paths).len() > 0,
        deduped(paths)[0] == paths[0],
    decreases paths.len(),
{
    let front = paths.drop_last();
    if front.len() > 0 {
        lemma_deduped_first(front);
    } else {
        assert(!front.contains(paths.last()));
        assert(deduped(front) =~= Seq::<Seq<char>>::empty());
    }
}

// ---------------------------------------------------------------------------
// ps
// ---------------------------------------------------------------------------

/// A process that has not ended: a zombie has.
pub open spec fn live_stat(stat: Seq<char>) -> bool {
    !stat.contains('Z')
}

/// Whether the state that `ps` lists is that of a process that has not ended.
pub fn is_live_stat(stat: &str) -> (r: bool)
    ensures
        r == live_stat(stat@),
{
    !contains_char(stat, 'Z')
}

/// The command that lists all processes.
pub open spec fn list_line() -> CommandLineView {
    command_of(
        "ps"@,
        seq![
            "-ax"@,
            "-o"@,
            "pid="@,
            "-o"@,
            "pgid="@,
            "-o"@,
            "user="@,
            "-o"@,
            "rss="@,
            "-o"@,
            "pcpu="@,
            "-o"@,
            "etime="@,
            "-o"@,
            "stat="@,
            "-o"@,
            "lstart="@,
            "-o"@,
            "command="@,
        ],
    )
}

/// The command that lists all processes.
pub fn list_command() -> (r: CommandLine)
    ensures
        r.deep_view() == list_line(),
{
    let args = texts(
        &[
            "-ax",
            "-o",
            "pid=",
            "-o",
            "pgid=",
            "-o",
            "user=",
            "-o",
            "rss=",
            "-o",
            "pcpu=",
            "-o",
            "etime=",
            "-o",
            "stat=",
            "-o",
            "lstart=",
            "-o",
            "command=",
        ],
    );
    assert(args.deep_view() =~= list_line().args);
    CommandLine { program: "ps".to_string(), args }
}

/// The position of the first whitespace, the length where there is none.
pub open spec fn first_space(s: Seq<char>) -> int
    decreases s.len(),
{
    if s.len() == 0 || is_space(s[0]) {
        0
    } else {
        1 + first_space(s.skip(1))
    }
}

/// The first word of a text and what stands behind it.
pub open spec fn first_token(input: Seq<char>) -> Option<(Seq<char>, Seq<char>)> {
    let text = trimmed_start(input);
    if text.len() == 0 {
        None
    } else {
        Some((text.take(first_space(text)), text.skip(first_space(text))))
    }
}

/// The first word of a text and what stands behind it.
pub fn take_process_token(input: &str) -> (r: Option<(String, String)>)
    ensures
        r.deep_view() == first_token(input@),
{
    let text = trim_start(input);
    if text.as_str().is_empty() {
        return None;
    }
    let v = chars_of(text.as_str());
    let mut end: usize = 0;
    assert(v@.skip(0) =~= v@);
    while end < v.len() && !is_whitespace(v[end])
        invariant
            v@ == text@,
            end <= v@.len(),
            first_space(text@) == end + first_space(v@.skip(end as int)),
        decreases v@.len() - end,
    {
        assert(v@.skip(end as int).skip(1) =~= v@.skip(end + 1));
        end += 1;
    }
    assert(text@.take(end as int) =~= v@.subrange(0, end as int));
    assert(text@.skip(end as int) =~= v@.subrange(end as int, v@.len() as int));
    Some((text_between(&v, 0, end), text_between(&v, end, v.len())))
}

/// The first `n` words of a text and what stands behind them, if it has so many.
pub open spec fn first_tokens(input: Seq<char>, n: nat) -> Option<(Seq<Seq<char>>, Seq<char>)>
    decreases n,
{
    if n == 0 {
        Some((Seq::empty(), input))
    } else {
        match first_tokens(input, (n - 1) as nat) {
            None => None,
            Some((tokens, rest)) => match first_token(rest) {
                None => None,
                Some((token, rest)) => Some((tokens.push(token), rest)),
            },
        }
    }
}

fn take_tokens(input: &str, n: usize) -> (r: Option<(Vec<String>, String)>)
    ensures
        r.deep_view() == first_tokens(input@, n as nat),
        r matches Some(pair) ==> pair.0@.len() == n,
{
    let mut tokens: Vec<String> = Vec::new();
    let mut rest = input.to_string();
    let mut i: usize = 0;
    assert(tokens.deep_view() =~= Seq::<Seq<char>>::empty());
    while i < n
        invariant
            i <= n,
            tokens@.len() == i,
            first_tokens(input@, i as nat) == Some((tokens.deep_view(), rest@)),
        decreases n - i,
    {
        assert(tokens.deep_view().len() == tokens@.len());
        match take_process_token(rest.as_str()) {
            None => {
                proof {
                    assert(first_tokens(input@, (i + 1) as nat) is None);
                    lemma_too_few_tokens(input@, (i + 1) as nat, n as nat);
                }
                return None;
            },
            Some((token, behind)) => {
                push_text(&mut tokens, token);
                assert(tokens.deep_view().len() == tokens@.len());
                rest = behind;
            },
        }
        i += 1;
    }
    Some((tokens, rest))
}

proof fn lemma_too_few_tokens(input: Seq<char>, n: nat, more: nat)
    requires
        n <= more,
        first_tokens(input, n) is None,
    ensures
        first_tokens(input, more) is None,
    decreases more - n,
{
    if n < more {
        lemma_too_few_tokens(input, n, (more - 1) as nat);
    }
}

/// The process that a line of [`list_command`] tells of: twelve words, of which five are the
/// time of its start, and the command.
pub open spec fn process_row(line: Seq<char>) -> Option<ExternalProcessRowView> {
    match first_tokens(line, 12) {
        None => None,
        Some((tokens, rest)) => match (
            parse_uint(tokens[0], u32::MAX as nat),
            parse_uint(tokens[1], u32::MAX as nat),
        ) {
            (Some(pid), Some(group)) => Some(
                ExternalProcessRowView {
                    pid: pid as u32,
                    process_group_id: group as u32,
                    stat: tokens[6],
                    command: trimmed_start(rest),
                    user: tokens[2],
                    memory_kb: match parse_uint(tokens[3], u64::MAX as nat) {
                        Some(kb) => kb as u64,
                        None => 0,
                    },
                    cpu_percent: share_of(tokens[4]),
                    etime: tokens[5],
                    started_at: joined(tokens.subrange(7, 12), seq![' ']),
                },
            ),
            _ => None,
        },
    }
}

/// The process that a line of [`list_command`] tells of.
pub fn parse_external_process_row(line: &str) -> (r: Option<ExternalProcessRow>)
    ensures
        r.deep_view() == process_row(line@),
{
    let (tokens, rest) = match take_tokens(line, 12) {
        Some(pair) => pair,
        None => {
            return None;
        },
    };
    let ghost all = tokens.deep_view();
    assert(forall|i: int| 0 <= i < all.len() ==> #[trigger] all[i] == tokens@[i]@);
    match (parse_u32(tokens[0].as_str()), parse_u32(tokens[1].as_str())) {
        (Some(pid), Some(process_group_id)) => {
            let mut started: Vec<String> = Vec::new();
            let mut i: usize = 7;
            while i < 12
                invariant
                    7 <= i <= 12,
                    tokens@.len() == 12,
                    all == tokens.deep_view(),
                    started.deep_view() =~= all.subrange(7, i as int),
                decreases 12 - i,
            {
                push_text(&mut started, tokens[i].clone());
                i += 1;
            }
            proof {
                reveal_strlit(" ");
                assert(" "@ =~= seq![' ']);
            }
            Some(
                ExternalProcessRow {
                    pid,
                    process_group_id,
                    stat: tokens[6].clone(),
                    command: trim_start(rest.as_str()),
                    user: tokens[2].clone(),
                    memory_kb: match parse_u64(tokens[3].as_str()) {
                        Some(kb) => kb,
                        None => 0,
                    },
                    cpu_percent: share_text(tokens[4].as_str()),
                    etime: tokens[5].clone(),
                    started_at: join(&started, " "),
                },
            )
        },
        _ => None,
    }
}

/// The processes that lines tell of, without those that have ended.
pub open spec fn live_rows(list: Seq<Seq<char>>) -> Seq<ExternalProcessRowView>
    decreases list.len(),
{
    if list.len() == 0 {
        Seq::empty()
    } else {
        let before = live_rows(list.drop_last());
        match process_row(list.last()) {
            Some(row) if live_stat(row.stat) => before.push(row),
            _ => before,
        }
    }
}

/// The live processes that the [`list_command`] told of.
pub fn list_live_processes(output: &Option<CommandOutput>) -> (r: Vec<ExternalProcessRow>)
    ensures
        r.deep_view() == live_rows(lines(printed(output.deep_view()))),
{
    let text = printed_text(output);
    let list = split_lines(text.as_str());
    let ghost all = list.deep_view();
    let mut r: Vec<ExternalProcessRow> = Vec::new();
    let mut i: usize = 0;
    assert(r.deep_view() =~= live_rows(all.take(0)));
    while i < list.len()
        invariant
            i <= list@.len(),
            all == list.deep_view(),
            r.deep_view() == live_rows(all.take(i as int)),
        decreases list@.len() - i,
    {
        assert(all.take(i + 1).drop_last() =~= all.take(i as int));
        if let Some(row) = parse_external_process_row(list[i].as_str()) {
            if is_live_stat(row.stat.as_str()) {
                push_item(&mut r, row);
            }
        }
        i += 1;
    }
    assert(all.take(i as int) =~= all);
    r
}

/// The command that tells the group and the state of a process.
pub open spec fn process_info_line(pid: u32) -> CommandLineView {
    command_of("ps"@, seq!["-o"@, "pgid="@, "-o"@, "stat="@, "-p"@, decimal(pid as nat)])
}

/// The command that tells the group and the state of a process.
pub fn process_info_command(pid: u32) -> (r: CommandLine)
    ensures
        r.deep_view() == process_info_line(pid),
{
    let number = decimal_text(pid as u64);
    let args = texts(&["-o", "pgid=", "-o", "stat=", "-p", number.as_str()]);
    assert(args.deep_view() =~= process_info_line(pid).args);
    CommandLine { program: "ps".to_string(), args }
}

/// The group and the state of a process, by the words that were printed.
pub open spec fn process_info(tokens: Seq<Seq<char>>) -> Option<(u32, Seq<char>)> {
    if tokens.len() < 2 {
        None
    } else {
        match parse_uint(tokens[0], u32::MAX as nat) {
            Some(group) => Some((group as u32, tokens[1])),
            None => None,
        }
    }
}

/// The group and the state of the process that the [`process_info_command`] told of.
pub fn process_info_for_pid(output: &Option<CommandOutput>) -> (r: Option<(u32, String)>)
    ensures
        r.deep_view() == process_info(words(printed(output.deep_view()))),
{
    let text = printed_text(output);
    let tokens = split_whitespace(text.as_str());
    assert(tokens.deep_view().len() == tokens@.len());
    if tokens.len() < 2 {
        return None;
    }
    assert(tokens.deep_view()[0] == tokens@[0]@);
    match parse_u32(tokens[0].as_str()) {
        Some(group) => Some((group, tokens[1].clone())),
        None => None,
    }
}

/// The command that lists the group and the state of all processes.
pub open spec fn group_list_line() -> CommandLineView {
    command_of("ps"@, seq!["-ax"@, "-o"@, "pid="@, "-o"@, "pgid="@, "-o"@, "stat="@])
}

/// The command that lists the group and the state of all processes.
pub fn group_list_command() -> (r: CommandLine)
    ensures
        r.deep_view() == group_list_line(),
{
    let args = texts(&["-ax", "-o", "pid=", "-o", "pgid=", "-o", "stat="]);
    assert(args.deep_view() =~= group_list_line().args);
    CommandLine { program: "ps".to_string(), args }
}

/// A process, its group and its state, by the words of a line of [`group_list_command`].
pub open spec fn group_row(tokens: Seq<Seq<char>>) -> Option<(u32, u32, Seq<char>)> {
    if tokens.len() < 3 {
        None
    } else {
        match (parse_uint(tokens[0], u32::MAX as nat), parse_uint(tokens[1], u32::MAX as nat)) {
            (Some(pid), Some(group)) => Some((pid as u32, group as u32, tokens[2])),
            _ => None,
        }
    }
}

/// The process, its group and its state that a line of [`group_list_command`] tells of.
pub fn parse_process_group_row(line: &str) -> (r: Option<(u32, u32, String)>)
    ensures
        r.deep_view() == group_row(words(line@)),
{
    let tokens = split_whitespace(line);
    assert(tokens.deep_view().len() == tokens@.len());
    if tokens.len() < 3 {
        return None;
    }
    assert(forall|i: int|
        0 <= i < tokens@.len() ==> #[trigger] tokens.deep_view()[i] == tokens@[i]@);
    match (parse_u32(tokens[0].as_str()), parse_u32(tokens[1].as_str())) {
        (Some(pid), Some(group)) => Some((pid, group, tokens[2].clone())),
        _ => None,
    }
}

/// The first live process of a group.
pub open spec fn first_live(list: Seq<Seq<char>>, process_group_id: u32) -> Option<u32>
    decreases list.len(),
{
    if list.len() == 0 {
        None
    } else {
        match group_row(words(list[0])) {
            Some((pid, group, stat)) if group == process_group_id && live_stat(stat) => Some(pid),
            _ => first_live(list.skip(1), process_group_id),
        }
    }
}

/// The first live process of a group that the [`group_list_command`] told of.
pub fn live_process_in_group(output: &Option<CommandOutput>, process_group_id: u32) -> (r: Option<
    u32,
>)
    ensures
        r == first_live(lines(printed(output.deep_view())), process_group_id),
{
    let text = printed_text(output);
    let list = split_lines(text.as_str());
    let ghost all = list.deep_view();
    let mut i: usize = 0;
    assert(all.skip(0) =~= all);
    while i < list.len()
        invariant
            i <= list@.len(),
            all == list.deep_view(),
            all == lines(printed(output.deep_view())),
            first_live(all, process_group_id) == first_live(all.skip(i as int), process_group_id),
        decreases list@.len() - i,
    {
        assert(all.skip(i as int).skip(1) =~= all.skip(i + 1));
        assert(all.skip(i as int)[0] == list@[i as int]@);
        if let Some((pid, group, stat)) = parse_process_group_row(list[i].as_str()) {
            assert(group_row(words(all.skip(i as int)[0])) == Some((pid, group, stat@)));
            if group == process_group_id && is_live_stat(stat.as_str()) {
                return Some(pid);
            }
        }
        i += 1;
    }
    None
}

/// The command that tells the memory and the processor share of a process.
pub open spec fn metrics_line(pid: u32) -> CommandLineView {
    command_of("ps"@, seq!["-o"@, "rss=,pcpu="@, "-p"@, decimal(pid as nat)])
}

/// The command that tells the memory and the processor share of a process.
pub fn metrics_command(pid: u32) -> (r: CommandLine)
    ensures
        r.deep_view() == metrics_line(pid),
{
    let number = decimal_text(pid as u64);
    let args = texts(&["-o", "rss=,pcpu=", "-p", number.as_str()]);
    assert(args.deep_view() =~= metrics_line(pid).args);
    CommandLine { program: "ps".to_string(), args }
}

/// The memory in bytes and the processor share as it is written, if it is a number, by the words
/// that were printed.
pub open spec fn metrics(tokens: Seq<Seq<char>>) -> Option<(u64, Option<Seq<char>>)> {
    if tokens.len() == 0 {
        None
    } else {
        match parse_uint(tokens[0], u64::MAX as nat) {
            Some(kb) => Some(
                (
                    bytes_of_kb(kb),
                    if tokens.len() > 1 && is_number(tokens[1]) {
                        Some(tokens[1])
                    } else {
                        None
                    },
                ),
            ),
            None => None,
        }
    }
}

/// The memory in bytes and the processor share, as it is written, if it is a number, of the
/// process that the [`metrics_command`] told of.
pub fn read_process_metrics(output: &Option<CommandOutput>) -> (r: Option<(u64, Option<String>)>)
    ensures
        r.deep_view() == metrics(words(printed(output.deep_view()))),
{
    let text = printed_text(output);
    let tokens = split_whitespace(text.as_str());
    assert(tokens.deep_view().len() == tokens@.len());
    if tokens.len() == 0 {
        return None;
    }
    assert(tokens.deep_view()[0] == tokens@[0]@);
    match parse_u64(tokens[0].as_str()) {
        Some(kb) => {
            assert(tokens@.len() > 1 ==> tokens.deep_view()[1] == tokens@[1]@);
            let share = if tokens.len() > 1 && reads_as_number(tokens[1].as_str()) {
                Some(tokens[1].clone())
            } else {
                None
            };
            Some((kb_to_bytes(kb), share))
        },
        None => None,
    }
}

} // verus!
