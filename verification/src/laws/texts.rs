//! How texts are taken apart and put together.
use vstd::prelude::*;

use crate::paths::lemma_split_concat;
use crate::text::{
    decimal, has_prefix, is_digit, is_space, joined, lemma_decimal_digits, lemma_decimal_value,
    lemma_split_nonempty, lines, parse_uint, split, trimmed, trimmed_end, trimmed_start, word_scan,
    words,
};

verus! {

/// A text without the separator is one piece.
pub proof fn law_one_piece(s: Seq<char>, sep: char)
    requires
        forall|i: int| 0 <= i < s.len() ==> #[trigger] s[i] != sep,
    ensures
        split(s, sep) == seq![s],
    decreases s.len(),
{
    if s.len() > 0 {
        let front = s.drop_last();
        law_one_piece(front, sep);
        assert(s[s.len() - 1] != sep);
        assert(seq![front].drop_last().push(front.push(s.last())) =~= seq![front.push(s.last())]);
        assert(front.push(s.last()) =~= s);
    } else {
        assert(s =~= Seq::<char>::empty());
    }
}

/// Pieces that are joined come apart again as they were.
pub proof fn law_split_undoes_join(pieces: Seq<Seq<char>>, sep: char)
    requires
        pieces.len() > 0,
        forall|i: int, k: int|
            #![trigger pieces[i][k]]
            0 <= i < pieces.len() && 0 <= k < pieces[i].len() ==> pieces[i][k] != sep,
    ensures
        split(joined(pieces, seq![sep]), sep) == pieces,
    decreases pieces.len(),
{
    let last = pieces.last();
    assert forall|k: int| 0 <= k < last.len() implies #[trigger] last[k] != sep by {
        assert(pieces[pieces.len() - 1][k] != sep);
    }
    law_one_piece(last, sep);
    if pieces.len() == 1 {
        assert(seq![last] =~= pieces);
    } else {
        let front = pieces.drop_last();
        assert forall|i: int, k: int|
            #![trigger front[i][k]]
            0 <= i < front.len() && 0 <= k < front[i].len() implies front[i][k] != sep by {
            assert(pieces[i][k] != sep);
        }
        law_split_undoes_join(front, sep);
        lemma_split_concat(joined(front, seq![sep]), sep, last);
        assert(joined(front, seq![sep]) + seq![sep] + last =~= joined(front, seq![sep]).push(sep)
            + last);
        assert(front + seq![last] =~= pieces);
    }
}

/// The pieces of a text hold no separator, and joined they are the text.
pub proof fn law_join_undoes_split(s: Seq<char>, sep: char)
    ensures
        joined(split(s, sep), seq![sep]) == s,
        forall|i: int, k: int|
            #![trigger split(s, sep)[i][k]]
            0 <= i < split(s, sep).len() && 0 <= k < split(s, sep)[i].len() ==> split(
                s,
                sep,
            )[i][k] != sep,
    decreases s.len(),
{
    if s.len() > 0 {
        let front = s.drop_last();
        law_join_undoes_split(front, sep);
        lemma_split_nonempty(front, sep);
        let before = split(front, sep);
        let after = split(s, sep);
        if s.last() == sep {
            assert(after.drop_last() =~= before);
            assert(joined(after, seq![sep]) =~= front + seq![sep]);
            assert(joined(after, seq![sep]) =~= s);
        } else {
            assert(after.drop_last() =~= before.drop_last());
            assert(after.last() == before.last().push(s.last()));
            if before.len() == 1 {
                assert(joined(before, seq![sep]) == before.last());
            }
            assert(joined(after, seq![sep]) =~= joined(before, seq![sep]).push(s.last()));
            assert(joined(after, seq![sep]) =~= s);
        }
        assert forall|i: int, k: int|
            #![trigger after[i][k]]
            0 <= i < after.len() && 0 <= k < after[i].len() implies after[i][k] != sep by {
            if i < before.len() - 1 {
                assert(after[i] == before[i]);
                assert(before[i][k] != sep);
            } else if s.last() == sep {
                if i < before.len() {
                    assert(after[i] == before[i]);
                    assert(before[i][k] != sep);
                }
            } else if k < before.last().len() {
                assert(before[before.len() - 1][k] != sep);
            }
        }
    }
}

/// The characters that are whitespace: those that Unicode gives that property.
pub proof fn law_whitespace(c: char)
    ensures
        is_space(c) <==> c == ' ' || c == '\t' || c == '\n' || c == '\u{b}' || c == '\u{c}' || c
            == '\r' || c == '\u{85}' || c == '\u{a0}' || c == '\u{1680}' || ('\u{2000}' <= c
            <= '\u{200a}') || c == '\u{2028}' || c == '\u{2029}' || c == '\u{202f}' || c
            == '\u{205f}' || c == '\u{3000}',
{
}

/// A text begins with another exactly if it is that text and some rest.
pub proof fn law_beginnings(s: Seq<char>, start: Seq<char>)
    ensures
        has_prefix(s, start) <==> exists|rest: Seq<char>| s == #[trigger] (start + rest),
{
    if has_prefix(s, start) {
        assert(s =~= start + s.skip(start.len() as int));
    }
    if exists|rest: Seq<char>| s == #[trigger] (start + rest) {
        let rest = choose|rest: Seq<char>| s == #[trigger] (start + rest);
        assert(s.take(start.len() as int) =~= start);
    }
}

/// A text is blank.
pub open spec fn blank(s: Seq<char>) -> bool {
    forall|i: int| 0 <= i < s.len() ==> is_space(#[trigger] s[i])
}

proof fn lemma_front_trimmed(a: Seq<char>, b: Seq<char>)
    requires
        blank(a),
    ensures
        trimmed_start(a + b) == trimmed_start(b),
    decreases a.len(),
{
    if a.len() == 0 {
        assert(a + b =~= b);
    } else {
        let rest = a.skip(1);
        assert forall|i: int| 0 <= i < rest.len() implies is_space(#[trigger] rest[i]) by {
            assert(rest[i] == a[i + 1]);
        }
        lemma_front_trimmed(rest, b);
        assert((a + b)[0] == a[0]);
        assert((a + b).skip(1) =~= rest + b);
    }
}

proof fn lemma_back_trimmed(a: Seq<char>, b: Seq<char>)
    requires
        blank(b),
    ensures
        trimmed_end(a + b) == trimmed_end(a),
    decreases b.len(),
{
    if b.len() == 0 {
        assert(a + b =~= a);
    } else {
        let rest = b.drop_last();
        assert forall|i: int| 0 <= i < rest.len() implies is_space(#[trigger] rest[i]) by {
            assert(rest[i] == b[i]);
        }
        lemma_back_trimmed(a, rest);
        assert((a + b).last() == b[b.len() - 1]);
        assert((a + b).drop_last() =~= a + rest);
    }
}

/// Blanks go from both ends of a text, and nothing else does.
pub proof fn law_blanks_are_trimmed(a: Seq<char>, core: Seq<char>, b: Seq<char>)
    requires
        blank(a),
        blank(b),
        core.len() > 0 ==> !is_space(core[0]) && !is_space(core.last()),
    ensures
        trimmed(a + core + b) == core,
        core.len() > 0 ==> trimmed_start(a + core + b) == core + b,
{
    if core.len() == 0 {
        let all = a + core + b;
        assert forall|i: int| 0 <= i < all.len() implies is_space(#[trigger] all[i]) by {
            if i < a.len() {
                assert(all[i] == a[i]);
            } else {
                assert(all[i] == b[i - a.len()]);
            }
        }
        lemma_front_trimmed(all, Seq::empty());
        assert(all + Seq::<char>::empty() =~= all);
        assert(core =~= Seq::empty());
    } else {
        assert(a + core + b =~= a + (core + b));
        lemma_front_trimmed(a, core + b);
        assert((core + b)[0] == core[0]);
        assert(trimmed_start(core + b) == core + b);
        lemma_back_trimmed(core, b);
    }
}

/// A text that is a word: not empty and without whitespace.
pub open spec fn is_word(s: Seq<char>) -> bool {
    s.len() > 0 && forall|i: int| 0 <= i < s.len() ==> !is_space(#[trigger] s[i])
}

proof fn lemma_scan_word(s: Seq<char>, word: Seq<char>)
    requires
        forall|i: int| 0 <= i < word.len() ==> !is_space(#[trigger] word[i]),
        word_scan(s).1.len() == 0,
    ensures
        word_scan(s + word) == (word_scan(s).0, word),
    decreases word.len(),
{
    if word.len() == 0 {
        assert(s + word =~= s);
        assert(word_scan(s).1 =~= word);
    } else {
        let front = word.drop_last();
        assert forall|i: int| 0 <= i < front.len() implies !is_space(#[trigger] front[i]) by {
            assert(front[i] == word[i]);
        }
        lemma_scan_word(s, front);
        assert((s + word).drop_last() =~= s + front);
        assert((s + word).last() == word[word.len() - 1]);
        assert(front.push(word.last()) =~= word);
    }
}

proof fn lemma_scan_gap(s: Seq<char>, gap: Seq<char>)
    requires
        blank(gap),
        gap.len() > 0,
    ensures
        word_scan(s + gap) == (if word_scan(s).1.len() > 0 {
            (word_scan(s).0.push(word_scan(s).1), Seq::<char>::empty())
        } else {
            (word_scan(s).0, Seq::<char>::empty())
        }),
    decreases gap.len(),
{
    let front = gap.drop_last();
    assert(is_space(gap[gap.len() - 1]));
    assert((s + gap).drop_last() =~= s + front);
    assert((s + gap).last() == gap.last());
    if front.len() == 0 {
        assert(s + front =~= s);
        assert(word_scan(s).1.len() == 0 ==> word_scan(s).1 =~= Seq::empty());
    } else {
        assert forall|i: int| 0 <= i < front.len() implies is_space(#[trigger] front[i]) by {
            assert(front[i] == gap[i]);
        }
        lemma_scan_gap(s, front);
    }
}

/// One more word behind whitespace is one more word, however wide the gaps; a text without words
/// has none.
pub proof fn law_words_one_by_one(
    text: Seq<char>,
    gap: Seq<char>,
    word: Seq<char>,
    end: Seq<char>,
)
    requires
        blank(gap),
        gap.len() > 0 || text.len() == 0,
        blank(end),
        is_word(word),
    ensures
        words(text + gap + word + end) == words(text).push(word),
        words(end).len() == 0,
{
    assert(Seq::<char>::empty() + end =~= end);
    if end.len() > 0 {
        lemma_scan_gap(Seq::empty(), end);
    }
    let before = text + gap;
    if gap.len() > 0 {
        lemma_scan_gap(text, gap);
    } else {
        assert(before =~= Seq::<char>::empty());
        assert(text =~= Seq::<char>::empty());
    }
    lemma_scan_word(before, word);
    let whole = before + word;
    if end.len() > 0 {
        lemma_scan_gap(whole, end);
    } else {
        assert(whole + end =~= whole);
    }
}

/// A number that is written out reads back, as far as it is not too great.
pub proof fn law_numbers_read_back(n: nat, max: nat)
    ensures
        n <= max ==> parse_uint(decimal(n), max) == Some(n),
        n > max ==> parse_uint(decimal(n), max) is None,
{
    lemma_decimal_digits(n);
    lemma_decimal_value(n);
    assert(is_digit(decimal(n)[0]));
}

/// What reads as a number holds digits only, but for a plus sign in front; a text without digits
/// reads as none.
pub proof fn law_only_digits_read_as_numbers(s: Seq<char>, max: nat)
    requires
        parse_uint(s, max) is Some,
    ensures
        s.len() > 0,
        parse_uint(s, max)->0 <= max,
        forall|i: int|
            0 <= i < s.len() ==> '0' <= #[trigger] s[i] <= '9' || (i == 0 && s[i] == '+'),
{
    let digits = crate::text::unsigned_digits(s);
    assert forall|i: int| 0 <= i < s.len() implies '0' <= #[trigger] s[i] <= '9' || (i == 0 && s[i]
        == '+') by {
        if digits == s {
            assert(is_digit(digits[i]));
        } else if i > 0 {
            assert(is_digit(digits[i - 1]));
        }
    }
}

proof fn lemma_split_line(text: Seq<char>, line: Seq<char>)
    requires
        text.len() == 0 || text.last() == '\n',
        forall|i: int| 0 <= i < line.len() ==> #[trigger] line[i] != '\n',
    ensures
        split(text + line, '\n') == split(text, '\n').drop_last().push(line),
        split(text, '\n').last().len() == 0,
{
    law_one_piece(line, '\n');
    if text.len() == 0 {
        assert(text + line =~= line);
        assert(split(text, '\n').drop_last().push(line) =~= seq![line]);
    } else {
        let front = text.drop_last();
        assert(front.push('\n') =~= text);
        lemma_split_concat(front, '\n', line);
        assert(split(text, '\n').drop_last() =~= split(front, '\n'));
        assert(split(front, '\n') + seq![line] =~= split(front, '\n').push(line));
    }
}

/// One more line, ended by a line feed, with or without a carriage return before it, is one more
/// line; the last needs no end, but must not be empty.
pub proof fn law_lines_one_by_one(text: Seq<char>, line: Seq<char>)
    requires
        text.len() == 0 || text.last() == '\n',
        forall|i: int| 0 <= i < line.len() ==> #[trigger] line[i] != '\n',
    ensures
        line.len() == 0 || line.last() != '\r' ==> lines(text + line + seq!['\n']) == lines(
            text,
        ).push(line),
        lines(text + line + seq!['\r', '\n']) == lines(text).push(line),
        lines(text + line) == (if line.len() == 0 {
            lines(text)
        } else {
            lines(text).push(line)
        }),
        lines(Seq::empty()).len() == 0,
{
    lemma_split_line(text, line);
    let ended = |piece: Seq<char>| crate::text::without_cr(piece);
    let before = split(text, '\n').drop_last();
    assert(before.push(line).drop_last() =~= before);
    let feed = text + line + seq!['\n'];
    assert(feed.drop_last() =~= text + line);
    assert(split(feed, '\n') == before.push(line).push(Seq::empty()));
    assert(split(feed, '\n').drop_last() =~= before.push(line));
    assert(before.push(line).map_values(ended) =~= before.map_values(ended).push(ended(line)));
    let full = line.push('\r');
    assert forall|i: int| 0 <= i < full.len() implies #[trigger] full[i] != '\n' by {
        if i < line.len() {
            assert(full[i] == line[i]);
        }
    }
    lemma_split_line(text, full);
    let both = text + line + seq!['\r', '\n'];
    assert(both.drop_last() =~= text + full);
    assert(split(both, '\n') == before.push(full).push(Seq::empty()));
    assert(split(both, '\n').drop_last() =~= before.push(full));
    assert(before.push(full).map_values(ended) =~= before.map_values(ended).push(ended(full)));
    assert(full.drop_last() =~= line);
    if line.len() == 0 {
        assert(text + line =~= text);
    }
    assert(split(Seq::<char>::empty(), '\n').drop_last() =~= Seq::<Seq<char>>::empty());
}

} // verus!
