//! Command lines: splitting them into words, quoting words, comparing commands.
use vstd::prelude::*;

use crate::models::{ApiError, ApiErrorView, ProcessDefinition, ProcessDefinitionView};
use crate::paths::{file_name, file_name_of};
use crate::platform::Platform;
use crate::text::{
    chars_of, concat3, is_alphanumeric, is_ascii_alphanumeric, is_space, is_whitespace, join,
    joined, push_text, replace_char, replaced, same_text, trim, trimmed, trimmed_end, trimmed_start,
};

verus! {

// ---------------------------------------------------------------------------
// Dashes
// ---------------------------------------------------------------------------

/// The em dash.
pub const EM_DASH: char = '\u{2014}';

/// The en dash.
pub const EN_DASH: char = '\u{2013}';

/// The minus sign.
pub const MINUS_SIGN: char = '\u{2212}';

pub open spec fn is_dash_variant(c: char) -> bool {
    c == EM_DASH || c == EN_DASH || c == MINUS_SIGN
}

/// What stands for a character on a command line: hyphens for the typographic dashes.
pub open spec fn plain_dash(c: char) -> Seq<char> {
    if c == EM_DASH {
        seq!['-', '-']
    } else if c == EN_DASH || c == MINUS_SIGN {
        seq!['-']
    } else {
        seq![c]
    }
}

/// The text with every typographic dash written with hyphens.
pub open spec fn plain_dashes(s: Seq<char>) -> Seq<char>
    decreases s.len(),
{
    if s.len() == 0 {
        s
    } else {
        plain_dashes(s.drop_last()) + plain_dash(s.last())
    }
}

/// Writes typographic dashes with hyphens.
pub fn normalize_command_dashes(value: &str) -> (r: String)
    ensures
        r@ == plain_dashes(value@),
{
    let v = chars_of(value);
    let mut r = String::new();
    let mut i: usize = 0;
    while i < v.len()
        invariant
            v@ == value@,
            i <= v@.len(),
            r@ == plain_dashes(value@.take(i as int)),
        decreases v@.len() - i,
    {
        let ghost before = r@;
        assert(value@.take(i + 1).drop_last() =~= value@.take(i as int));
        let c = v[i];
        if c == EM_DASH {
            r.push('-');
            r.push('-');
        } else if c == EN_DASH || c == MINUS_SIGN {
            r.push('-');
        } else {
            r.push(c);
        }
        assert(r@ =~= before + plain_dash(c));
        i += 1;
    }
    assert(value@.take(i as int) =~= value@);
    r
}

// ---------------------------------------------------------------------------
// Splitting
// ---------------------------------------------------------------------------

/// What has been read of a command line: the complete words, the word that is open, the quote
/// that is open, and whether a backslash waits for the character that it protects.
#[verifier::ext_equal]
pub struct WordScan {
    pub words: Seq<Seq<char>>,
    pub current: Seq<char>,
    pub quote: Option<char>,
    pub escaped: bool,
}

/// Nothing has been read.
pub open spec fn scan_start() -> WordScan {
    WordScan { words: Seq::empty(), current: Seq::empty(), quote: None, escaped: false }
}

/// Reading one character. A backslash protects the next character, in quotes and out of them;
/// whitespace outside quotes ends a word; quotes group without being part of the word.
pub open spec fn scan_char(scan: WordScan, c: char) -> WordScan {
    if scan.escaped {
        WordScan { current: scan.current.push(c), escaped: false, ..scan }
    } else if scan.quote == Some(c) {
        WordScan { quote: None, ..scan }
    } else if c == '\\' {
        WordScan { escaped: true, ..scan }
    } else if scan.quote is Some {
        WordScan { current: scan.current.push(c), ..scan }
    } else if is_space(c) {
        if scan.current.len() > 0 {
            WordScan { words: scan.words.push(scan.current), current: Seq::empty(), ..scan }
        } else {
            scan
        }
    } else if c == '\'' || c == '"' {
        WordScan { quote: Some(c), ..scan }
    } else {
        WordScan { current: scan.current.push(c), ..scan }
    }
}

/// Reading a text from the left.
pub open spec fn scan_text(scan: WordScan, s: Seq<char>) -> WordScan
    decreases s.len(),
{
    if s.len() == 0 {
        scan
    } else {
        scan_char(scan_text(scan, s.drop_last()), s.last())
    }
}

/// The message for a quote that is never closed.
pub open spec fn unclosed_quote(quote: char) -> Seq<char> {
    "Unclosed "@.push(quote) + " quote in command"@
}

/// The words once everything has been read. A backslash at the very end stands for itself; a
/// quote that is still open is an error.
pub open spec fn scan_end(scan: WordScan) -> Result<Seq<Seq<char>>, Seq<char>> {
    let current = if scan.escaped {
        scan.current.push('\\')
    } else {
        scan.current
    };
    match scan.quote {
        Some(quote) => Err(unclosed_quote(quote)),
        None => Ok(
            if current.len() > 0 {
                scan.words.push(current)
            } else {
                scan.words
            },
        ),
    }
}

/// The words of a command line.
pub open spec fn command_words(input: Seq<char>) -> Result<Seq<Seq<char>>, Seq<char>> {
    scan_end(scan_text(scan_start(), plain_dashes(trimmed(input))))
}

/// Splits a command line into words.
pub fn split_command_words(input: &str) -> (r: Result<Vec<String>, String>)
    ensures
        match r {
            Ok(tokens) => command_words(input@) == Ok::<Seq<Seq<char>>, Seq<char>>(
                tokens.deep_view(),
            ),
            Err(message) => command_words(input@) == Err::<Seq<Seq<char>>, Seq<char>>(message@),
        },
{
    let trimmed_input = trim(input);
    let normalized = normalize_command_dashes(trimmed_input.as_str());
    let v = chars_of(normalized.as_str());
    let mut tokens: Vec<String> = Vec::new();
    let mut current = String::new();
    let mut quote: Option<char> = None;
    let mut escaped = false;
    let mut i: usize = 0;
    assert(tokens.deep_view() =~= Seq::<Seq<char>>::empty());
    while i < v.len()
        invariant
            v@ == normalized@,
            i <= v@.len(),
            scan_text(scan_start(), normalized@.take(i as int)) == (WordScan {
                words: tokens.deep_view(),
                current: current@,
                quote,
                escaped,
            }),
        decreases v@.len() - i,
    {
        assert(normalized@.take(i + 1).drop_last() =~= normalized@.take(i as int));
        let c = v[i];
        if escaped {
            current.push(c);
            escaped = false;
        } else {
            match quote {
                Some(active_quote) => {
                    if c == active_quote {
                        quote = None;
                    } else if c == '\\' {
                        escaped = true;
                    } else {
                        current.push(c);
                    }
                },
                None => {
                    if is_whitespace(c) {
                        if !current.as_str().is_empty() {
                            push_text(&mut tokens, current);
                            current = String::new();
                        }
                    } else if c == '\'' || c == '"' {
                        quote = Some(c);
                    } else if c == '\\' {
                        escaped = true;
                    } else {
                        current.push(c);
                    }
                },
            }
        }
        i += 1;
    }
    assert(normalized@.take(i as int) =~= normalized@);
    if escaped {
        current.push('\\');
    }
    match quote {
        Some(active_quote) => {
            let mut message = "Unclosed ".to_string();
            message.push(active_quote);
            message.append(" quote in command");
            Err(message)
        },
        None => {
            if !current.as_str().is_empty() {
                push_text(&mut tokens, current);
            }
            Ok(tokens)
        },
    }
}

// ---------------------------------------------------------------------------
// Quoting
// ---------------------------------------------------------------------------

/// A character that a shell takes as it is.
pub open spec fn is_plain(c: char) -> bool {
    ||| is_alphanumeric(c)
    ||| c == '-'
    ||| c == '_'
    ||| c == '.'
    ||| c == '/'
    ||| c == ':'
    ||| c == '@'
    ||| c == '%'
    ||| c == '='
    ||| c == '+'
}

pub open spec fn all_plain(s: Seq<char>) -> bool {
    forall|i: int| 0 <= i < s.len() ==> is_plain(#[trigger] s[i])
}

/// What a quote inside single quotes is written as: close, protected quote, open.
pub open spec fn inner_quote() -> Seq<char> {
    seq!['\'', '\\', '\'', '\'']
}

/// A word as it is written on a shell's command line.
pub open spec fn quoted(s: Seq<char>) -> Seq<char> {
    if s.len() == 0 {
        seq!['\'', '\'']
    } else if all_plain(s) {
        s
    } else {
        seq!['\''] + replaced(s, '\'', inner_quote()) + seq!['\'']
    }
}

/// Words as one command line.
pub open spec fn displayed(tokens: Seq<Seq<char>>) -> Seq<char> {
    joined(tokens.map_values(|token: Seq<char>| quoted(token)), seq![' '])
}

fn is_plain_char(c: char) -> (r: bool)
    ensures
        r == is_plain(c),
{
    is_ascii_alphanumeric(c) || c == '-' || c == '_' || c == '.' || c == '/' || c == ':' || c == '@'
        || c == '%' || c == '=' || c == '+'
}

/// Quotes a word for a shell where it needs quoting.
pub fn shell_quote(value: &str) -> (r: String)
    ensures
        r@ == quoted(value@),
{
    proof {
        reveal_strlit("'");
        reveal_strlit("''");
        reveal_strlit("'\\''");
        assert("'"@ =~= seq!['\'']);
        assert("''"@ =~= seq!['\'', '\'']);
        assert("'\\''"@ =~= inner_quote());
    }
    if value.is_empty() {
        return "''".to_string();
    }
    let v = chars_of(value);
    let mut plain = true;
    let mut i: usize = 0;
    while i < v.len()
        invariant
            v@ == value@,
            i <= v@.len(),
            plain == (forall|k: int| 0 <= k < i ==> is_plain(#[trigger] v@[k])),
        decreases v@.len() - i,
    {
        if !is_plain_char(v[i]) {
            plain = false;
        }
        i += 1;
    }
    if plain {
        return value.to_string();
    }
    let inner = replace_char(value, '\'', "'\\''");
    concat3("'", inner.as_str(), "'")
}

/// Words as one command line, each quoted where it needs quoting.
pub fn display_command(tokens: &Vec<String>) -> (r: String)
    ensures
        r@ == displayed(tokens.deep_view()),
{
    let ghost all = tokens.deep_view().map_values(|token: Seq<char>| quoted(token));
    let mut parts: Vec<String> = Vec::new();
    let mut i: usize = 0;
    while i < tokens.len()
        invariant
            i <= tokens@.len(),
            all == tokens.deep_view().map_values(|token: Seq<char>| quoted(token)),
            parts.deep_view() == all.take(i as int),
        decreases tokens@.len() - i,
    {
        push_text(&mut parts, shell_quote(tokens[i].as_str()));
        assert(all.take(i + 1) =~= all.take(i as int).push(quoted(tokens@[i as int]@)));
        i += 1;
    }
    assert(all.take(i as int) =~= all);
    proof {
        reveal_strlit(" ");
        assert(" "@ =~= seq![' ']);
    }
    join(&parts, " ")
}

// ---------------------------------------------------------------------------
// The command of a process
// ---------------------------------------------------------------------------

/// The arguments of a process as they are passed on: hyphens for dashes, no whitespace around
/// them, no empty ones.
pub open spec fn kept_args(args: Seq<Seq<char>>) -> Seq<Seq<char>>
    decreases args.len(),
{
    if args.len() == 0 {
        args
    } else {
        let arg = trimmed(plain_dashes(args.last()));
        if arg.len() > 0 {
            kept_args(args.drop_last()).push(arg)
        } else {
            kept_args(args.drop_last())
        }
    }
}

/// The words that a process is started with.
pub open spec fn command_tokens(process: ProcessDefinitionView) -> Result<
    Seq<Seq<char>>,
    ApiErrorView,
> {
    match command_words(process.command) {
        Err(message) => Err(
            ApiErrorView::with_details(
                "INVALID_PROCESS_DEFINITION"@,
                "Command could not be parsed"@,
                message,
                false,
            ),
        ),
        Ok(words) => {
            let tokens = words + kept_args(process.args);
            if tokens.len() == 0 {
                Err(
                    ApiErrorView::new(
                        "INVALID_PROCESS_DEFINITION"@,
                        "Command is required"@,
                        false,
                    ),
                )
            } else {
                Ok(tokens)
            }
        },
    }
}

/// The words that a process is started with.
pub fn process_command_tokens(process: &ProcessDefinition) -> (r: Result<Vec<String>, ApiError>)
    ensures
        match r {
            Ok(tokens) => command_tokens(process.deep_view()) == Ok::<
                Seq<Seq<char>>,
                ApiErrorView,
            >(tokens.deep_view()),
            Err(error) => command_tokens(process.deep_view()) == Err::<
                Seq<Seq<char>>,
                ApiErrorView,
            >(error.deep_view()),
        },
{
    let mut tokens = match split_command_words(process.command.as_str()) {
        Ok(words) => words,
        Err(message) => {
            return Err(
                ApiError::with_details(
                    "INVALID_PROCESS_DEFINITION",
                    "Command could not be parsed",
                    message,
                    false,
                ),
            );
        },
    };
    let ghost words = tokens.deep_view();
    let args = &process.args;
    let mut i: usize = 0;
    assert(words + kept_args(args.deep_view().take(0)) =~= words);
    while i < args.len()
        invariant
            i <= args@.len(),
            tokens.deep_view() == words + kept_args(args.deep_view().take(i as int)),
        decreases args@.len() - i,
    {
        let ghost before = args.deep_view().take(i as int);
        assert(args.deep_view().take(i + 1).drop_last() =~= before);
        assert(args.deep_view().take(i + 1).last() == args@[i as int]@);
        let normalized = normalize_command_dashes(args[i].as_str());
        let arg = trim(normalized.as_str());
        if !arg.as_str().is_empty() {
            assert(words + kept_args(before).push(arg@) =~= (words + kept_args(before)).push(arg@));
            push_text(&mut tokens, arg);
        }
        i += 1;
    }
    assert(args.deep_view().take(i as int) =~= args.deep_view());
    assert(tokens.deep_view().len() == tokens@.len());
    if tokens.len() == 0 {
        return Err(ApiError::new("INVALID_PROCESS_DEFINITION", "Command is required", false));
    }
    Ok(tokens)
}

/// A program name stands for a path that ends in it.
pub open spec fn name_matches(
    platform: Platform,
    configured: Seq<char>,
    candidate: Seq<char>,
) -> bool {
    configured == candidate || file_name_of(platform, candidate) == Some(configured)
}

/// Whether a program is the configured one, by its whole text or by its file name.
pub fn command_name_matches(platform: Platform, configured: &str, candidate: &str) -> (r: bool)
    ensures
        r == name_matches(platform, configured@, candidate@),
{
    if same_text(configured, candidate) {
        return true;
    }
    match file_name(platform, candidate) {
        Some(name) => same_text(name.as_str(), configured),
        None => false,
    }
}

/// A running command is the configured one: its words begin with the configured words, dashes
/// aside, and its program may be given by a path.
pub open spec fn tokens_match(
    platform: Platform,
    configured: Seq<Seq<char>>,
    candidate: Seq<char>,
) -> bool {
    match command_words(candidate) {
        Ok(words) => {
            &&& configured.len() > 0
            &&& configured.len() <= words.len()
            &&& name_matches(platform, plain_dashes(configured[0]), plain_dashes(words[0]))
            &&& forall|i: int|
                1 <= i < configured.len() ==> plain_dashes(#[trigger] configured[i])
                    == plain_dashes(words[i])
        },
        Err(_) => false,
    }
}

/// Whether a running command begins with the configured words.
pub fn command_tokens_match(
    platform: Platform,
    configured_tokens: &Vec<String>,
    candidate_command: &str,
) -> (r: bool)
    ensures
        r == tokens_match(platform, configured_tokens.deep_view(), candidate_command@),
{
    assert(configured_tokens.deep_view().len() == configured_tokens@.len());
    if configured_tokens.len() == 0 {
        return false;
    }
    let candidate_tokens = match split_command_words(candidate_command) {
        Ok(words) => words,
        Err(_) => {
            return false;
        },
    };
    assert(candidate_tokens.deep_view().len() == candidate_tokens@.len());
    if candidate_tokens.len() < configured_tokens.len() {
        return false;
    }
    let mut i: usize = 0;
    while i < configured_tokens.len()
        invariant
            i <= configured_tokens@.len(),
            configured_tokens@.len() <= candidate_tokens@.len(),
            command_words(candidate_command@) == Ok::<Seq<Seq<char>>, Seq<char>>(
                candidate_tokens.deep_view(),
            ),
            i > 0 ==> name_matches(
                platform,
                plain_dashes(configured_tokens.deep_view()[0]),
                plain_dashes(candidate_tokens.deep_view()[0]),
            ),
            forall|k: int|
                1 <= k < i ==> plain_dashes(#[trigger] configured_tokens.deep_view()[k])
                    == plain_dashes(candidate_tokens.deep_view()[k]),
        decreases configured_tokens@.len() - i,
    {
        let configured = normalize_command_dashes(configured_tokens[i].as_str());
        let candidate = normalize_command_dashes(candidate_tokens[i].as_str());
        assert(configured@ == plain_dashes(configured_tokens.deep_view()[i as int]));
        let matches = if i == 0 {
            command_name_matches(platform, configured.as_str(), candidate.as_str())
        } else {
            same_text(configured.as_str(), candidate.as_str())
        };
        if !matches {
            return false;
        }
        i += 1;
    }
    true
}

// ---------------------------------------------------------------------------
// Laws
// ---------------------------------------------------------------------------

/// A text without typographic dashes stays as it is.
pub proof fn law_no_dashes_unchanged(s: Seq<char>)
    requires
        forall|i: int| 0 <= i < s.len() ==> !is_dash_variant(#[trigger] s[i]),
    ensures
        plain_dashes(s) == s,
    decreases s.len(),
{
    if s.len() > 0 {
        law_no_dashes_unchanged(s.drop_last());
        assert(!is_dash_variant(s[s.len() - 1]));
        assert(s.drop_last() + seq![s.last()] =~= s);
    }
}

/// No typographic dash is left.
pub proof fn law_dashes_gone(s: Seq<char>)
    ensures
        forall|i: int|
            0 <= i < plain_dashes(s).len() ==> !is_dash_variant(#[trigger] plain_dashes(s)[i]),
    decreases s.len(),
{
    if s.len() > 0 {
        law_dashes_gone(s.drop_last());
        let front = plain_dashes(s.drop_last());
        let tail = plain_dash(s.last());
        assert forall|i: int| 0 <= i < plain_dashes(s).len() implies !is_dash_variant(
            #[trigger] plain_dashes(s)[i],
        ) by {
            if i < front.len() {
                assert(plain_dashes(s)[i] == front[i]);
            } else {
                assert(plain_dashes(s)[i] == tail[i - front.len()]);
            }
        }
    }
}

/// Writing dashes with hyphens a second time changes nothing.
pub proof fn law_dashes_idempotent(s: Seq<char>)
    ensures
        plain_dashes(plain_dashes(s)) == plain_dashes(s),
{
    law_dashes_gone(s);
    law_no_dashes_unchanged(plain_dashes(s));
}

proof fn lemma_scan_words_nonempty(scan: WordScan, s: Seq<char>)
    requires
        forall|i: int| 0 <= i < scan.words.len() ==> (#[trigger] scan.words[i]).len() > 0,
    ensures
        forall|i: int|
            0 <= i < scan_text(scan, s).words.len() ==> (#[trigger] scan_text(
                scan,
                s,
            ).words[i]).len() > 0,
    decreases s.len(),
{
    if s.len() > 0 {
        lemma_scan_words_nonempty(scan, s.drop_last());
    }
}

/// No word of a command line is empty.
pub proof fn law_words_nonempty(input: Seq<char>)
    ensures
        command_words(input) matches Ok(words) ==> forall|i: int|
            0 <= i < words.len() ==> (#[trigger] words[i]).len() > 0,
{
    lemma_scan_words_nonempty(scan_start(), plain_dashes(trimmed(input)));
}

pub proof fn lemma_scan_concat(scan: WordScan, a: Seq<char>, b: Seq<char>)
    ensures
        scan_text(scan, a + b) == scan_text(scan_text(scan, a), b),
    decreases b.len(),
{
    if b.len() == 0 {
        assert(a + b =~= a);
    } else {
        lemma_scan_concat(scan, a, b.drop_last());
        assert((a + b).drop_last() =~= a + b.drop_last());
        assert((a + b).last() == b.last());
    }
}

/// Reading one character only.
pub proof fn lemma_scan_one(scan: WordScan, c: char)
    ensures
        scan_text(scan, seq![c]) == scan_char(scan, c),
{
    assert(seq![c].drop_last() =~= Seq::<char>::empty());
    reveal_with_fuel(scan_text, 2);
}

pub proof fn lemma_scan_plain(scan: WordScan, s: Seq<char>)
    requires
        all_plain(s),
        scan.quote is None,
        !scan.escaped,
    ensures
        scan_text(scan, s) == (WordScan { current: scan.current + s, ..scan }),
    decreases s.len(),
{
    if s.len() == 0 {
        assert(scan.current + s =~= scan.current);
    } else {
        assert(all_plain(s.drop_last())) by {
            assert forall|i: int| 0 <= i < s.drop_last().len() implies is_plain(
                #[trigger] s.drop_last()[i],
            ) by {
                assert(is_plain(s[i]));
            }
        }
        lemma_scan_plain(scan, s.drop_last());
        assert(is_plain(s[s.len() - 1]));
        assert((scan.current + s.drop_last()).push(s.last()) =~= scan.current + s);
    }
}

proof fn lemma_scan_inner(scan: WordScan, s: Seq<char>)
    requires
        scan.quote == Some('\''),
        !scan.escaped,
        forall|i: int| 0 <= i < s.len() ==> #[trigger] s[i] != '\\',
    ensures
        scan_text(scan, replaced(s, '\'', inner_quote())) == (WordScan {
            current: scan.current + s,
            ..scan
        }),
    decreases s.len(),
{
    if s.len() == 0 {
        assert(scan.current + s =~= scan.current);
    } else {
        let front = s.drop_last();
        lemma_scan_inner(scan, front);
        let mid = scan_text(scan, replaced(front, '\'', inner_quote()));
        let whole = replaced(s, '\'', inner_quote());
        assert((scan.current + front).push(s.last()) =~= scan.current + s);
        if s.last() == '\'' {
            lemma_scan_concat(scan, replaced(front, '\'', inner_quote()), inner_quote());
            let one = scan_char(mid, '\'');
            let two = scan_char(one, '\\');
            let three = scan_char(two, '\'');
            let four = scan_char(three, '\'');
            let q = inner_quote();
            assert(q.drop_last() =~= seq!['\'', '\\', '\'']);
            assert(q.drop_last().drop_last() =~= seq!['\'', '\\']);
            assert(q.drop_last().drop_last().drop_last() =~= seq!['\'']);
            assert(q.drop_last().drop_last().drop_last().drop_last() =~= Seq::<char>::empty());
            reveal_with_fuel(scan_text, 5);
            assert(scan_text(mid, q) == four);
            assert(four =~= (WordScan { current: scan.current + s, ..scan }));
        } else {
            assert(whole.drop_last() =~= replaced(front, '\'', inner_quote()));
            assert(whole.last() == s.last());
            assert(s[s.len() - 1] != '\\');
        }
    }
}

/// A word that survives being written on a command line and read back: it is not empty and
/// holds neither backslashes nor typographic dashes.
pub open spec fn survives_display(s: Seq<char>) -> bool {
    &&& s.len() > 0
    &&& forall|i: int| 0 <= i < s.len() ==> #[trigger] s[i] != '\\' && !is_dash_variant(s[i])
}

proof fn lemma_scan_quoted(scan: WordScan, s: Seq<char>)
    requires
        scan.quote is None,
        !scan.escaped,
        scan.current.len() == 0,
        survives_display(s),
    ensures
        scan_text(scan, quoted(s)) == (WordScan { current: s, ..scan }),
{
    assert(scan.current + s =~= s);
    if all_plain(s) {
        lemma_scan_plain(scan, s);
    } else {
        let inner = replaced(s, '\'', inner_quote());
        let open = seq!['\''];
        lemma_scan_concat(scan, open + inner, open);
        lemma_scan_concat(scan, open, inner);
        lemma_scan_one(scan, '\'');
        let opened = scan_char(scan, '\'');
        lemma_scan_inner(opened, s);
        let read = scan_text(opened, inner);
        lemma_scan_one(read, '\'');
    }
}

/// The quoted words of a list read back with the last one still open.
proof fn lemma_scan_displayed(tokens: Seq<Seq<char>>)
    requires
        tokens.len() > 0,
        forall|i: int| 0 <= i < tokens.len() ==> survives_display(#[trigger] tokens[i]),
    ensures
        scan_text(scan_start(), displayed(tokens)) == (WordScan {
            words: tokens.drop_last(),
            current: tokens.last(),
            quote: None,
            escaped: false,
        }),
    decreases tokens.len(),
{
    let f = |token: Seq<char>| quoted(token);
    let parts = tokens.map_values(f);
    assert(survives_display(tokens[tokens.len() - 1]));
    if tokens.len() == 1 {
        assert(parts[0] == quoted(tokens[0]));
        lemma_scan_quoted(scan_start(), tokens[0]);
        assert(tokens.drop_last() =~= Seq::<Seq<char>>::empty());
    } else {
        let front = tokens.drop_last();
        assert forall|i: int| 0 <= i < front.len() implies survives_display(
            #[trigger] front[i],
        ) by {
            assert(survives_display(tokens[i]));
        }
        lemma_scan_displayed(front);
        assert(parts.drop_last() =~= front.map_values(f));
        assert(parts.last() == quoted(tokens.last()));
        let space = seq![' '];
        let text = displayed(front);
        assert(displayed(tokens) =~= text + space + quoted(tokens.last()));
        lemma_scan_concat(scan_start(), text + space, quoted(tokens.last()));
        lemma_scan_concat(scan_start(), text, space);
        let read = scan_text(scan_start(), text);
        lemma_scan_one(read, ' ');
        let spaced = scan_char(read, ' ');
        assert(survives_display(tokens[tokens.len() - 2]));
        assert(spaced.words =~= front.drop_last().push(front.last()));
        assert(front.drop_last().push(front.last()) =~= front);
        lemma_scan_quoted(spaced, tokens.last());
    }
}

spec fn no_dashes(s: Seq<char>) -> bool {
    forall|i: int| 0 <= i < s.len() ==> !is_dash_variant(#[trigger] s[i])
}

proof fn lemma_replaced_no_dashes(s: Seq<char>)
    requires
        no_dashes(s),
    ensures
        no_dashes(replaced(s, '\'', inner_quote())),
    decreases s.len(),
{
    if s.len() > 0 {
        assert(no_dashes(s.drop_last())) by {
            assert forall|i: int| 0 <= i < s.drop_last().len() implies !is_dash_variant(
                #[trigger] s.drop_last()[i],
            ) by {
                assert(!is_dash_variant(s[i]));
            }
        }
        lemma_replaced_no_dashes(s.drop_last());
        assert(!is_dash_variant(s[s.len() - 1]));
    }
}

/// A quoted word neither begins nor ends with whitespace and brings in no dashes.
proof fn lemma_quoted_shape(s: Seq<char>)
    requires
        survives_display(s),
    ensures
        quoted(s).len() > 0,
        !is_space(quoted(s)[0]),
        !is_space(quoted(s).last()),
        no_dashes(quoted(s)),
{
    assert(no_dashes(s)) by {
        assert forall|i: int| 0 <= i < s.len() implies !is_dash_variant(#[trigger] s[i]) by {
            assert(s[i] != '\\');
        }
    }
    if all_plain(s) {
        assert(is_plain(s[0]));
        assert(is_plain(s[s.len() - 1]));
    } else {
        lemma_replaced_no_dashes(s);
    }
}

proof fn lemma_displayed_shape(tokens: Seq<Seq<char>>)
    requires
        tokens.len() > 0,
        forall|i: int| 0 <= i < tokens.len() ==> survives_display(#[trigger] tokens[i]),
    ensures
        displayed(tokens).len() > 0,
        !is_space(displayed(tokens)[0]),
        !is_space(displayed(tokens).last()),
        no_dashes(displayed(tokens)),
    decreases tokens.len(),
{
    let f = |token: Seq<char>| quoted(token);
    let parts = tokens.map_values(f);
    assert(survives_display(tokens[tokens.len() - 1]));
    lemma_quoted_shape(tokens.last());
    assert(parts.last() == quoted(tokens.last()));
    if tokens.len() == 1 {
        assert(parts[0] == parts.last());
    } else {
        let front = tokens.drop_last();
        assert forall|i: int| 0 <= i < front.len() implies survives_display(
            #[trigger] front[i],
        ) by {
            assert(survives_display(tokens[i]));
        }
        lemma_displayed_shape(front);
        assert(parts.drop_last() =~= front.map_values(f));
        let text = displayed(front) + seq![' '] + quoted(tokens.last());
        assert(displayed(tokens) =~= text);
        assert forall|i: int| 0 <= i < text.len() implies !is_dash_variant(#[trigger] text[i]) by {
            if i < displayed(front).len() {
                assert(text[i] == displayed(front)[i]);
            } else if i > displayed(front).len() {
                assert(text[i] == quoted(tokens.last())[i - displayed(front).len() - 1]);
            }
        }
    }
}

/// Words that hold no backslash and no typographic dash, and are not empty, come back from the
/// command line that they are displayed as.
pub proof fn law_display_then_split(tokens: Seq<Seq<char>>)
    requires
        forall|i: int| 0 <= i < tokens.len() ==> survives_display(#[trigger] tokens[i]),
    ensures
        command_words(displayed(tokens)) == Ok::<Seq<Seq<char>>, Seq<char>>(tokens),
{
    let text = displayed(tokens);
    if tokens.len() == 0 {
        assert(text =~= Seq::<char>::empty());
        assert(trimmed(text) =~= text);
        assert(plain_dashes(text) =~= text);
        assert(tokens =~= Seq::<Seq<char>>::empty());
    } else {
        lemma_displayed_shape(tokens);
        assert(trimmed_start(text) == text);
        assert(trimmed_end(text) == text);
        assert forall|i: int| 0 <= i < text.len() implies !is_dash_variant(#[trigger] text[i]) by {
        }
        law_no_dashes_unchanged(text);
        lemma_scan_displayed(tokens);
        assert(survives_display(tokens[tokens.len() - 1]));
        assert(tokens.drop_last().push(tokens.last()) =~= tokens);
    }
}

} // verus!
