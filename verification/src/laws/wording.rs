//! How command lines are read and written.
use vstd::prelude::*;

use crate::command::{
    all_plain, command_tokens, command_words, displayed, inner_quote, is_dash_variant, is_plain,
    kept_args, law_no_dashes_unchanged, lemma_scan_concat, lemma_scan_one, lemma_scan_plain,
    plain_dashes, quoted, scan_end, scan_start, scan_text, WordScan,
};
use crate::laws::commands::is_clean;
use crate::laws::texts::{blank, law_blanks_are_trimmed};
use crate::models::ProcessDefinitionView;
use crate::text::{is_space, replaced};

verus! {

/// A text holds none of the typographic dashes.
pub open spec fn no_dash(s: Seq<char>) -> bool {
    forall|i: int|
        0 <= i < s.len() ==> #[trigger] s[i] != '\u{2014}' && s[i] != '\u{2013}' && s[i]
            != '\u{2212}'
}

/// An em dash counts as two dashes, an en dash and a minus sign as one, and every other character
/// as itself.
pub proof fn law_dashes_one_by_one(s: Seq<char>, c: char)
    ensures
        plain_dashes(Seq::empty()).len() == 0,
        plain_dashes(s.push(c)) == plain_dashes(s) + (if c == '\u{2014}' {
            seq!['-', '-']
        } else if c == '\u{2013}' || c == '\u{2212}' {
            seq!['-']
        } else {
            seq![c]
        }),
{
    assert(s.push(c).drop_last() =~= s);
}

/// The characters that need no quotes: letters, digits and some signs.
pub proof fn law_plain_characters(c: char)
    ensures
        is_plain(c) <==> ('a' <= c <= 'z') || ('A' <= c <= 'Z') || ('0' <= c <= '9') || c == '-'
            || c == '_' || c == '.' || c == '/' || c == ':' || c == '@' || c == '%' || c == '=' || c
            == '+',
{
}

proof fn lemma_as_it_is(a: Seq<char>, core: Seq<char>, b: Seq<char>)
    requires
        blank(a),
        blank(b),
        core.len() > 0,
        !is_space(core[0]),
        !is_space(core.last()),
        no_dash(core),
    ensures
        command_words(a + core + b) == scan_end(scan_text(scan_start(), core)),
{
    law_blanks_are_trimmed(a, core, b);
    assert forall|i: int| 0 <= i < core.len() implies !is_dash_variant(#[trigger] core[i]) by {
    }
    law_no_dashes_unchanged(core);
}

/// A blank line has no words.
pub proof fn law_blank_lines_have_no_words(s: Seq<char>)
    requires
        blank(s),
    ensures
        command_words(s) == Ok::<Seq<Seq<char>>, Seq<char>>(Seq::empty()),
{
    law_blanks_are_trimmed(s, Seq::empty(), Seq::empty());
    assert(s + Seq::<char>::empty() + Seq::<char>::empty() =~= s);
}

proof fn lemma_scan_blank(scan: WordScan, gap: Seq<char>)
    requires
        blank(gap),
        gap.len() > 0,
        scan.quote is None,
        !scan.escaped,
    ensures
        scan_text(scan, gap) == (if scan.current.len() > 0 {
            WordScan { words: scan.words.push(scan.current), current: Seq::empty(), ..scan }
        } else {
            scan
        }),
    decreases gap.len(),
{
    let front = gap.drop_last();
    assert(is_space(gap[gap.len() - 1]));
    if front.len() > 0 {
        assert forall|i: int| 0 <= i < front.len() implies is_space(#[trigger] front[i]) by {
            assert(front[i] == gap[i]);
        }
        lemma_scan_blank(scan, front);
    } else {
        assert(scan_text(scan, front) == scan);
    }
}

proof fn lemma_not_escaped(s: Seq<char>)
    requires
        s.len() == 0 || s.last() != '\\',
    ensures
        !scan_text(scan_start(), s).escaped,
{
}

/// One more word behind whitespace is one more word, however wide the gap.
pub proof fn law_one_more_word(
    text: Seq<char>,
    gap: Seq<char>,
    word: Seq<char>,
    end: Seq<char>,
)
    requires
        command_words(text) is Ok,
        no_dash(text),
        text.len() > 0,
        !is_space(text[0]),
        !is_space(text.last()),
        text.last() != '\\',
        blank(gap),
        gap.len() > 0,
        blank(end),
        word.len() > 0,
        all_plain(word),
    ensures
        command_words(text + gap + word + end) == Ok::<Seq<Seq<char>>, Seq<char>>(
            command_words(text)->Ok_0.push(word),
        ),
{
    let e = Seq::<char>::empty();
    lemma_as_it_is(e, text, e);
    assert(e + text + e =~= text);
    lemma_not_escaped(text);
    let core = text + gap + word;
    assert(is_plain(word[0]) && is_plain(word[word.len() - 1]));
    assert(core.last() == word[word.len() - 1]);
    assert(core[0] == text[0]);
    assert forall|i: int| 0 <= i < core.len() implies #[trigger] core[i] != '\u{2014}' && core[i]
        != '\u{2013}' && core[i] != '\u{2212}' by {
        if i < text.len() {
            assert(core[i] == text[i]);
        } else if i < text.len() + gap.len() {
            assert(core[i] == gap[i - text.len()]);
            assert(is_space(gap[i - text.len()]));
        } else {
            assert(core[i] == word[i - text.len() - gap.len()]);
            assert(is_plain(word[i - text.len() - gap.len()]));
        }
    }
    lemma_as_it_is(e, core, end);
    assert(e + core + end =~= text + gap + word + end);
    let scan = scan_text(scan_start(), text);
    lemma_scan_concat(scan_start(), text + gap, word);
    lemma_scan_concat(scan_start(), text, gap);
    lemma_scan_blank(scan, gap);
    let between = scan_text(scan, gap);
    lemma_scan_plain(between, word);
    assert(between.current + word =~= word);
}

/// A character is a quote.
pub open spec fn is_quote(c: char) -> bool {
    c == '\'' || c == '"'
}

proof fn lemma_scan_in_quotes(scan: WordScan, s: Seq<char>)
    requires
        scan.quote is Some,
        !scan.escaped,
        forall|i: int| 0 <= i < s.len() ==> #[trigger] s[i] != '\\' && s[i] != scan.quote->0,
    ensures
        scan_text(scan, s) == (WordScan { current: scan.current + s, ..scan }),
    decreases s.len(),
{
    if s.len() == 0 {
        assert(scan.current + s =~= scan.current);
    } else {
        let front = s.drop_last();
        assert forall|i: int| 0 <= i < front.len() implies #[trigger] front[i] != '\\' && front[i]
            != scan.quote->0 by {
            assert(front[i] == s[i]);
        }
        lemma_scan_in_quotes(scan, front);
        assert(s[s.len() - 1] == s.last());
        assert((scan.current + front).push(s.last()) =~= scan.current + s);
    }
}

/// What stands in quotes, single or double, belongs to one word with what stands beside it,
/// blanks and the other quote included; empty quotes alone are no word.
pub proof fn law_quotes_hold_together(a: Seq<char>, quote: char, s: Seq<char>, b: Seq<char>)
    requires
        is_quote(quote),
        all_plain(a),
        all_plain(b),
        no_dash(s),
        forall|i: int| 0 <= i < s.len() ==> #[trigger] s[i] != '\\' && s[i] != quote,
    ensures
        command_words(a + seq![quote] + s + seq![quote] + b) == Ok::<Seq<Seq<char>>, Seq<char>>(
            if a.len() + s.len() + b.len() == 0 {
                Seq::empty()
            } else {
                seq![a + s + b]
            },
        ),
{
    let e = Seq::<char>::empty();
    let q = seq![quote];
    let core = a + q + s + q + b;
    lemma_quote_shape(a, quote, s, b);
    lemma_as_it_is(e, core, e);
    assert(e + core + e =~= core);
    lemma_scan_concat(scan_start(), a + q + s + q, b);
    lemma_scan_concat(scan_start(), a + q + s, q);
    lemma_scan_concat(scan_start(), a + q, s);
    lemma_scan_concat(scan_start(), a, q);
    lemma_scan_plain(scan_start(), a);
    let one = scan_text(scan_start(), a);
    lemma_scan_one(one, quote);
    let two = scan_text(one, q);
    lemma_scan_in_quotes(two, s);
    let three = scan_text(two, s);
    lemma_scan_one(three, quote);
    let four = scan_text(three, q);
    lemma_scan_plain(four, b);
    let five = scan_text(four, b);
    assert(five.current =~= a + s + b);
    if five.current.len() > 0 {
        assert(five.words.push(five.current) =~= seq![a + s + b]);
    }
}

proof fn lemma_quote_shape(a: Seq<char>, quote: char, s: Seq<char>, b: Seq<char>)
    requires
        is_quote(quote),
        all_plain(a),
        all_plain(b),
        no_dash(s),
    ensures
        ({
            let core = a + seq![quote] + s + seq![quote] + b;
            core.len() > 0 && !is_space(core[0]) && !is_space(core.last()) && no_dash(core)
        }),
{
    let core = a + seq![quote] + s + seq![quote] + b;
    if a.len() > 0 {
        assert(core[0] == a[0]);
        assert(is_plain(a[0]));
    } else {
        assert(core[0] == quote);
    }
    if b.len() > 0 {
        assert(core.last() == b[b.len() - 1]);
        assert(is_plain(b[b.len() - 1]));
    } else {
        assert(core.last() == quote);
    }
    assert forall|i: int| 0 <= i < core.len() implies #[trigger] core[i] != '\u{2014}' && core[i]
        != '\u{2013}' && core[i] != '\u{2212}' by {
        if i < a.len() {
            assert(core[i] == a[i]);
            assert(is_plain(a[i]));
        } else if i == a.len() {
            assert(core[i] == quote);
        } else if i < a.len() + 1 + s.len() {
            assert(core[i] == s[i - a.len() - 1]);
        } else if i == a.len() + 1 + s.len() {
            assert(core[i] == quote);
        } else {
            assert(core[i] == b[i - a.len() - 2 - s.len()]);
            assert(is_plain(b[i - a.len() - 2 - s.len()]));
        }
    }
}

/// A quote that is not closed is an error, which names it.
pub proof fn law_open_quotes_are_refused(a: Seq<char>, quote: char, s: Seq<char>, end: Seq<char>)
    requires
        is_quote(quote),
        all_plain(a),
        no_dash(s),
        forall|i: int| 0 <= i < s.len() ==> #[trigger] s[i] != '\\' && s[i] != quote,
        s.len() == 0 || !is_space(s.last()),
        blank(end),
    ensures
        command_words(a + seq![quote] + s + end) == Err::<Seq<Seq<char>>, Seq<char>>(
            "Unclosed "@ + seq![quote] + " quote in command"@,
        ),
{
    let e = Seq::<char>::empty();
    let q = seq![quote];
    let core = a + q + s;
    lemma_quote_shape(a, quote, s, e);
    let closed = a + q + s + q + e;
    assert(closed.drop_last() =~= core);
    assert(core[0] == closed[0]);
    assert(core.last() == closed[core.len() - 1]);
    if s.len() == 0 {
        assert(core.last() == quote);
    }
    assert forall|i: int| 0 <= i < core.len() implies #[trigger] core[i] != '\u{2014}' && core[i]
        != '\u{2013}' && core[i] != '\u{2212}' by {
        assert(core[i] == closed[i]);
    }
    lemma_as_it_is(e, core, end);
    assert(e + core + end =~= core + end);
    lemma_scan_concat(scan_start(), a + q, s);
    lemma_scan_concat(scan_start(), a, q);
    lemma_scan_plain(scan_start(), a);
    let one = scan_text(scan_start(), a);
    lemma_scan_one(one, quote);
    lemma_scan_in_quotes(scan_text(one, q), s);
    assert("Unclosed "@.push(quote) =~= "Unclosed "@ + q);
}

/// A character behind a backslash stands for itself, in quotes and outside; a backslash at the end
/// of a line does too.
pub proof fn law_backslash_escapes(a: Seq<char>, c: char, b: Seq<char>, quote: char)
    requires
        all_plain(a),
        all_plain(b),
        b.len() > 0,
        is_quote(quote),
        no_dash(seq![c]),
    ensures
        command_words(a + seq!['\\', c] + b) == Ok::<Seq<Seq<char>>, Seq<char>>(
            seq![a + seq![c] + b],
        ),
        command_words(seq![quote] + a + seq!['\\', c] + b + seq![quote]) == Ok::<
            Seq<Seq<char>>,
            Seq<char>,
        >(seq![a + seq![c] + b]),
        command_words(b + seq!['\\']) == Ok::<Seq<Seq<char>>, Seq<char>>(seq![b + seq!['\\']]),
{
    let e = Seq::<char>::empty();
    let x = seq!['\\', c];
    let q = seq![quote];
    assert(x =~= seq!['\\'] + seq![c]);
    assert(seq![c][0] == c);
    assert(is_plain(b[0]) && is_plain(b[b.len() - 1]));
    // Outside quotes.
    let core = a + x + b;
    if a.len() > 0 {
        assert(core[0] == a[0]);
        assert(is_plain(a[0]));
    }
    assert forall|i: int| 0 <= i < core.len() implies #[trigger] core[i] != '\u{2014}' && core[i]
        != '\u{2013}' && core[i] != '\u{2212}' by {
        if i < a.len() {
            assert(core[i] == a[i]);
            assert(is_plain(a[i]));
        } else if i < a.len() + 2 {
            assert(core[i] == x[i - a.len()]);
        } else {
            assert(core[i] == b[i - a.len() - 2]);
            assert(is_plain(b[i - a.len() - 2]));
        }
    }
    lemma_as_it_is(e, core, e);
    assert(e + core + e =~= core);
    lemma_scan_concat(scan_start(), a + x, b);
    lemma_scan_concat(scan_start(), a, x);
    lemma_scan_plain(scan_start(), a);
    let one = scan_text(scan_start(), a);
    lemma_scan_concat(one, seq!['\\'], seq![c]);
    lemma_scan_one(one, '\\');
    let two = scan_text(one, seq!['\\']);
    lemma_scan_one(two, c);
    let three = scan_text(one, x);
    lemma_scan_plain(three, b);
    let four = scan_text(three, b);
    assert(four.current =~= a + seq![c] + b);
    assert(four.words.push(four.current) =~= seq![a + seq![c] + b]);
    // In quotes.
    let held = q + a + x + b + q;
    assert forall|i: int| 0 <= i < held.len() implies #[trigger] held[i] != '\u{2014}' && held[i]
        != '\u{2013}' && held[i] != '\u{2212}' by {
        if 0 < i < held.len() - 1 {
            assert(held[i] == core[i - 1]);
        }
    }
    lemma_as_it_is(e, held, e);
    assert(e + held + e =~= held);
    lemma_scan_concat(scan_start(), q + a + x + b, q);
    lemma_scan_concat(scan_start(), q + a + x, b);
    lemma_scan_concat(scan_start(), q + a, x);
    lemma_scan_concat(scan_start(), q, a);
    lemma_scan_one(scan_start(), quote);
    let s1 = scan_text(scan_start(), q);
    assert forall|i: int| 0 <= i < a.len() implies #[trigger] a[i] != '\\' && a[i] != quote by {
        assert(is_plain(a[i]));
    }
    assert forall|i: int| 0 <= i < b.len() implies #[trigger] b[i] != '\\' && b[i] != quote by {
        assert(is_plain(b[i]));
    }
    lemma_scan_in_quotes(s1, a);
    let s2 = scan_text(s1, a);
    lemma_scan_concat(s2, seq!['\\'], seq![c]);
    lemma_scan_one(s2, '\\');
    lemma_scan_one(scan_text(s2, seq!['\\']), c);
    let s3 = scan_text(s2, x);
    lemma_scan_in_quotes(s3, b);
    let s4 = scan_text(s3, b);
    lemma_scan_one(s4, quote);
    let s5 = scan_text(s4, q);
    assert(s5.current =~= a + seq![c] + b);
    assert(s5.words.push(s5.current) =~= seq![a + seq![c] + b]);
    // At the end.
    let last = b + seq!['\\'];
    assert forall|i: int| 0 <= i < last.len() implies #[trigger] last[i] != '\u{2014}' && last[i]
        != '\u{2013}' && last[i] != '\u{2212}' by {
        if i < b.len() {
            assert(last[i] == b[i]);
            assert(is_plain(b[i]));
        }
    }
    assert(last[0] == b[0]);
    lemma_as_it_is(e, last, e);
    assert(e + last + e =~= last);
    lemma_scan_concat(scan_start(), b, seq!['\\']);
    lemma_scan_plain(scan_start(), b);
    lemma_scan_one(scan_text(scan_start(), b), '\\');
    let t = scan_text(scan_start(), last);
    assert(t.current.push('\\') =~= last);
    assert(t.words.push(last) =~= seq![last]);
}

/// Words are displayed with a blank between them.
pub proof fn law_displayed_one_by_one(tokens: Seq<Seq<char>>, token: Seq<char>)
    ensures
        displayed(Seq::empty()).len() == 0,
        displayed(seq![token]) == quoted(token),
        tokens.len() > 0 ==> displayed(tokens.push(token)) == displayed(tokens) + seq![' ']
            + quoted(token),
{
    let shown = |t: Seq<char>| quoted(t);
    assert(tokens.push(token).map_values(shown).drop_last() =~= tokens.map_values(shown));
    assert(seq![token].map_values(shown) =~= seq![quoted(token)]);
}

/// A word of plain characters is displayed as it is, an empty one as two quotes, and any other in
/// single quotes, in which a single quote is closed, escaped and opened again.
pub proof fn law_quoting(s: Seq<char>, c: char)
    ensures
        s.len() > 0 && (forall|i: int| 0 <= i < s.len() ==> is_plain(#[trigger] s[i])) ==> quoted(s)
            == s,
        s.len() == 0 ==> quoted(s) == seq!['\'', '\''],
        (exists|i: int| 0 <= i < s.len() && !is_plain(#[trigger] s[i])) ==> quoted(s) == seq!['\'']
            + replaced(s, '\'', seq!['\'', '\\', '\'', '\'']) + seq!['\''],
        replaced(s.push(c), '\'', seq!['\'', '\\', '\'', '\'']) == replaced(
            s,
            '\'',
            seq!['\'', '\\', '\'', '\''],
        ) + (if c == '\'' {
            seq!['\'', '\\', '\'', '\'']
        } else {
            seq![c]
        }),
{
    assert(s.push(c).drop_last() =~= s);
    let before = replaced(s, '\'', inner_quote());
    assert(before + seq![c] =~= before.push(c));
}

/// An argument loses the blanks around it and is the last word then.
pub proof fn law_arguments_one_by_one(
    process: ProcessDefinitionView,
    a: Seq<char>,
    arg: Seq<char>,
    b: Seq<char>,
)
    requires
        blank(a),
        blank(b),
        is_clean(arg),
        command_tokens(process) is Ok,
    ensures
        command_tokens(ProcessDefinitionView { args: process.args.push(a + arg + b), ..process })
            is Ok,
        command_tokens(
            ProcessDefinitionView { args: process.args.push(a + arg + b), ..process },
        )->Ok_0 == command_tokens(process)->Ok_0.push(arg),
{
    let whole = a + arg + b;
    assert(process.args.push(whole).drop_last() =~= process.args);
    assert forall|i: int| 0 <= i < whole.len() implies !is_dash_variant(#[trigger] whole[i]) by {
        if i < a.len() {
            assert(is_space(a[i]));
        } else if i < a.len() + arg.len() {
            assert(whole[i] == arg[i - a.len()]);
        } else {
            assert(is_space(b[i - a.len() - arg.len()]));
        }
    }
    law_no_dashes_unchanged(whole);
    law_blanks_are_trimmed(a, arg, b);
    let words = command_words(process.command)->Ok_0;
    assert(words + kept_args(process.args).push(arg) =~= (words + kept_args(process.args)).push(
        arg,
    ));
}

} // verus!
