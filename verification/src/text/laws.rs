//! What the text primitives do.

use crate::text;
use crate::text::Separator;
use vstd::prelude::*;

verus! {

/// Trimming cuts a run of white space off either end, and the whole run: what is
/// left neither begins nor ends with white space. The result tells what is left.
pub proof fn law_trimming_cuts_the_ends(s: Seq<char>) -> (cut: (int, int))
    ensures
        0 <= cut.0 <= cut.1 <= s.len(),
        text::trimmed(s) == s.subrange(cut.0, cut.1),
        forall|i: int| 0 <= i < cut.0 ==> text::white_space(#[trigger] s[i]),
        forall|i: int| cut.1 <= i < s.len() ==> text::white_space(#[trigger] s[i]),
        cut.0 < cut.1 ==> !text::white_space(s[cut.0]) && !text::white_space(s[cut.1 - 1]),
{
    let from = lemma_trimmed_start(s);
    let rest = s.skip(from);
    let kept = lemma_trimmed_end(rest);
    assert(rest.take(kept) =~= s.subrange(from, from + kept));
    assert forall|i: int| from + kept <= i < s.len() implies text::white_space(
        #[trigger] s[i],
    ) by {
        assert(rest[i - from] == s[i]);
    }
    (from, from + kept)
}

proof fn lemma_trimmed_start(s: Seq<char>) -> (from: int)
    ensures
        0 <= from <= s.len(),
        text::trimmed_start(s) == s.skip(from),
        forall|i: int| 0 <= i < from ==> text::white_space(#[trigger] s[i]),
        from < s.len() ==> !text::white_space(s[from]),
    decreases s.len(),
{
    if s.len() > 0 && text::white_space(s[0]) {
        let rest = s.skip(1);
        let from = lemma_trimmed_start(rest) + 1;
        assert(rest.skip(from - 1) =~= s.skip(from));
        assert forall|i: int| 0 <= i < from implies text::white_space(#[trigger] s[i]) by {
            if i > 0 {
                assert(rest[i - 1] == s[i]);
            }
        }
        from
    } else {
        assert(s.skip(0) =~= s);
        0
    }
}

proof fn lemma_trimmed_end(s: Seq<char>) -> (kept: int)
    ensures
        0 <= kept <= s.len(),
        text::trimmed_end(s) == s.take(kept),
        forall|i: int| kept <= i < s.len() ==> text::white_space(#[trigger] s[i]),
        kept > 0 ==> !text::white_space(s[kept - 1]),
    decreases s.len(),
{
    if s.len() > 0 && text::white_space(s.last()) {
        let init = s.drop_last();
        let kept = lemma_trimmed_end(init);
        assert(init.take(kept) =~= s.take(kept));
        assert forall|i: int| kept <= i < s.len() implies text::white_space(#[trigger] s[i]) by {
            if i < init.len() {
                assert(init[i] == s[i]);
            }
        }
        kept
    } else {
        assert(s.take(s.len() as int) =~= s);
        s.len() as int
    }
}

/// White space is what Unicode lists as such.
pub proof fn law_white_space(c: char)
    ensures
        text::white_space(c) <==> {
            ||| c == '\t' || c == '\n' || c == '\u{b}' || c == '\u{c}' || c == '\r' || c == ' '
            ||| c == '\u{85}' || c == '\u{a0}' || c == '\u{1680}'
            ||| '\u{2000}' <= c <= '\u{200a}'
            ||| c == '\u{2028}' || c == '\u{2029}' || c == '\u{202f}' || c == '\u{205f}'
            ||| c == '\u{3000}'
        },
{
}

/// Lower case keeps each character but the letters from A to Z, and of these
/// makes the letter 32 places on; upper case undoes that.
pub proof fn law_case(s: Seq<char>, i: int, c: char)
    requires
        0 <= i < s.len(),
    ensures
        text::lower(s).len() == s.len(),
        'A' <= s[i] <= 'Z' ==> text::lower(s)[i] as u32 == s[i] as u32 + 32,
        !('A' <= s[i] <= 'Z') ==> text::lower(s)[i] == s[i],
        'a' <= c <= 'z' ==> text::upper_char(c) as u32 == c as u32 - 32,
        !('a' <= c <= 'z') ==> text::upper_char(c) == c,
{
}

/// `pieces` with `sep` between them.
pub open spec fn put_together(pieces: Seq<Seq<char>>, sep: char) -> Seq<char>
    decreases pieces.len(),
{
    if pieces.len() == 0 {
        Seq::empty()
    } else if pieces.len() == 1 {
        pieces[0]
    } else {
        put_together(pieces.drop_last(), sep).push(sep) + pieces.last()
    }
}

/// The pieces of a text hold no separator, and with a separator between each two
/// of them they are the text.
pub proof fn law_pieces_make_the_text(s: Seq<char>, sep: char)
    ensures
        ({
            let pieces = text::pieces(s, Separator::Exactly(sep));
            &&& pieces.len() > 0
            &&& forall|i: int| 0 <= i < pieces.len() ==> !(#[trigger] pieces[i]).contains(sep)
            &&& put_together(pieces, sep) == s
        }),
    decreases s.len(),
{
    let pieces = text::pieces(s, Separator::Exactly(sep));
    if s.len() == 0 {
        assert(put_together(pieces, sep) =~= s);
        assert(!pieces[0].contains(sep));
    } else {
        let before = text::pieces(s.drop_last(), Separator::Exactly(sep));
        law_pieces_make_the_text(s.drop_last(), sep);
        let front = before.drop_last();
        if s.last() == sep {
            assert(pieces.drop_last() =~= before);
            assert(put_together(pieces, sep) =~= s);
            assert forall|i: int| 0 <= i < pieces.len() implies !(#[trigger] pieces[i]).contains(
                sep,
            ) by {
                if i < before.len() {
                    assert(pieces[i] == before[i]);
                }
            }
        } else {
            let last = before.last().push(s.last());
            assert(pieces.drop_last() =~= front);
            assert(pieces.last() == last);
            assert(put_together(pieces, sep) =~= put_together(before, sep).push(s.last()));
            assert(put_together(before, sep).push(s.last()) =~= s);
            assert forall|i: int| 0 <= i < pieces.len() implies !(#[trigger] pieces[i]).contains(
                sep,
            ) by {
                assert(!before[before.len() - 1].contains(sep));
                if i < front.len() {
                    assert(pieces[i] == before[i]);
                } else if last.contains(sep) {
                    let k = choose|k: int| 0 <= k < last.len() && last[k] == sep;
                    assert(before.last()[k] == sep);
                }
            }
        }
    }
}

/// There are no words in nothing; white space adds none; another character
/// begins a word at the start and after white space, and else belongs to the
/// last word.
pub proof fn law_words_grow(s: Seq<char>, c: char)
    ensures
        text::words(Seq::<char>::empty()) == Seq::<Seq<char>>::empty(),
        ({
            let words = text::words(s);
            let more = text::words(s.push(c));
            if text::white_space(c) {
                more == words
            } else if s.len() == 0 || text::white_space(s.last()) {
                more == words.push(seq![c])
            } else {
                words.len() > 0 && more == words.drop_last().push(words.last().push(c))
            }
        }),
{
    let nonempty = |w: Seq<char>| w.len() > 0;
    let before = text::pieces(s, Separator::WhiteSpace);
    let after = text::pieces(s.push(c), Separator::WhiteSpace);
    let nothing = Seq::<char>::empty();
    reveal(Seq::filter);
    let first = seq![nothing];
    assert(first.drop_last() =~= Seq::<Seq<char>>::empty());
    assert(first.drop_last().filter(nonempty) =~= Seq::<Seq<char>>::empty());
    assert(text::words(nothing) =~= Seq::<Seq<char>>::empty());
    assert(s.push(c).drop_last() =~= s);
    text::lemma_pieces_nonempty(s, Separator::WhiteSpace);
    lemma_last_piece(s);
    let front = before.drop_last();
    assert(before =~= front.push(before.last()));
    if text::white_space(c) {
        assert(after.drop_last() =~= before);
        assert(text::words(s.push(c)) =~= text::words(s));
    } else {
        assert(after.drop_last() =~= front);
        assert(after.last() == before.last().push(c));
        if s.len() == 0 || text::white_space(s.last()) {
            assert(before.last().push(c) =~= seq![c]);
            assert(text::words(s.push(c)) =~= text::words(s).push(seq![c]));
        } else {
            assert(text::words(s) =~= front.filter(nonempty).push(before.last()));
            assert(text::words(s.push(c)) =~= front.filter(nonempty).push(before.last().push(c)));
            assert(text::words(s).drop_last() =~= front.filter(nonempty));
        }
    }
}

proof fn lemma_last_piece(s: Seq<char>)
    ensures
        (text::pieces(s, Separator::WhiteSpace).last().len() == 0) == (s.len() == 0
            || text::white_space(s.last())),
{
    if s.len() > 0 {
        text::lemma_pieces_nonempty(s.drop_last(), Separator::WhiteSpace);
    }
}

/// There are no lines in nothing. A text without a newline is one line. A
/// newline ends a line, with a carriage return before it if there is one, and
/// what follows are the other lines.
pub proof fn law_lines(line: Seq<char>, rest: Seq<char>)
    requires
        !line.contains('\n'),
    ensures
        line.len() == 0 ==> text::lines(line) == Seq::<Seq<char>>::empty(),
        line.len() > 0 ==> text::lines(line) == seq![line],
        ({
            let ended = if line.len() > 0 && line.last() == '\r' {
                line.drop_last()
            } else {
                line
            };
            text::lines(line.push('\n') + rest) == seq![ended] + text::lines(rest)
        }),
{
    let newline = Separator::Exactly('\n');
    let end = |p: Seq<char>| text::without_carriage_return(p);
    assert forall|i: int| 0 <= i < line.len() implies !newline.separates(#[trigger] line[i]) by {
        assert(line.contains(line[i]));
    }
    text::lemmas::lemma_pieces_of_unseparated(line, newline);
    assert(seq![line].drop_last() =~= Seq::<Seq<char>>::empty());
    assert(seq![line].drop_last().map_values(end) =~= Seq::<Seq<char>>::empty());
    if line.len() == 0 {
        assert(text::lines(line) =~= Seq::<Seq<char>>::empty());
    } else {
        assert(text::lines(line) =~= seq![line]);
    }
    text::lemmas::lemma_pieces_around_separator(line, '\n', rest, newline);
    text::lemma_pieces_nonempty(rest, newline);
    let others = text::pieces(rest, newline);
    let all = text::pieces(line.push('\n') + rest, newline);
    assert(all =~= seq![line] + others);
    assert(all.last() == others.last());
    assert(all.drop_last().map_values(end) =~= seq![text::without_carriage_return(line)]
        + others.drop_last().map_values(end));
    let ended = if line.len() > 0 && line.last() == '\r' {
        line.drop_last()
    } else {
        line
    };
    assert(text::lines(line.push('\n') + rest) =~= seq![ended] + text::lines(rest));
}

/// The number that decimal digits denote.
pub open spec fn number_of(digits: Seq<char>) -> nat
    decreases digits.len(),
{
    if digits.len() == 0 {
        0
    } else {
        number_of(digits.drop_last()) * 10 + (digits.last() as nat - 0x30) as nat
    }
}

proof fn lemma_number_of(s: Seq<char>)
    ensures
        number_of(s) == text::decimal_value(s),
    decreases s.len(),
{
    if s.len() > 0 {
        lemma_number_of(s.drop_last());
    }
}

/// A number is written in decimal digits that denote it, without a leading zero
/// but for 0 itself.
pub proof fn law_decimal(n: nat)
    ensures
        ({
            let digits = text::decimal_text(n);
            &&& digits.len() > 0
            &&& forall|i: int| 0 <= i < digits.len() ==> '0' <= #[trigger] digits[i] <= '9'
            &&& number_of(digits) == n
            &&& n > 0 ==> digits[0] != '0'
        }),
    decreases n,
{
    text::lemmas::lemma_decimal_reads_back(n);
    let digits = text::decimal_text(n);
    lemma_number_of(digits);
    assert forall|i: int| 0 <= i < digits.len() implies '0' <= #[trigger] digits[i] <= '9' by {
        assert(text::is_digit(digits[i]));
    }
    if n >= 10 {
        law_decimal(n / 10);
        assert(digits[0] == text::decimal_text(n / 10)[0]);
    }
}

/// A byte is read from one or more decimal digits, whatever zeros they begin
/// with, that denote a number below 256; and from nothing else.
pub proof fn law_bytes_are_read(s: Seq<char>, n: u8)
    ensures
        text::byte_value(s) == Some(n) <==> {
            &&& s.len() > 0
            &&& forall|i: int| 0 <= i < s.len() ==> '0' <= #[trigger] s[i] <= '9'
            &&& number_of(s) == n
        },
        text::byte_value(s) is None <==> !({
            &&& s.len() > 0
            &&& forall|i: int| 0 <= i < s.len() ==> '0' <= #[trigger] s[i] <= '9'
            &&& number_of(s) < 256
        }),
{
    lemma_number_of(s);
    if forall|i: int| 0 <= i < s.len() ==> '0' <= #[trigger] s[i] <= '9' {
        assert forall|i: int| 0 <= i < s.len() implies text::is_digit(s[i]) by {}
    }
    if forall|i: int| 0 <= i < s.len() ==> text::is_digit(s[i]) {
        assert forall|i: int| 0 <= i < s.len() implies '0' <= #[trigger] s[i] <= '9' by {
            assert(text::is_digit(s[i]));
        }
    }
}

/// Texts are ordered by their first difference: `a` comes before `b` if its
/// character there is smaller, or if it ends there.
pub proof fn law_order_is_by_first_difference(a: Seq<char>, b: Seq<char>, k: int)
    requires
        0 <= k <= a.len(),
        k <= b.len(),
        forall|i: int| 0 <= i < k ==> #[trigger] a[i] == b[i],
        k < a.len() && k < b.len() ==> a[k] != b[k],
    ensures
        text::precedes(a, b) <==> k < b.len() && (k == a.len() || a[k] < b[k]),
    decreases k,
{
    if k > 0 {
        assert(a[0] == b[0]);
        let x = a.skip(1);
        let y = b.skip(1);
        assert forall|i: int| 0 <= i < k - 1 implies #[trigger] x[i] == y[i] by {
            assert(a[i + 1] == b[i + 1]);
        }
        law_order_is_by_first_difference(x, y, k - 1);
    }
}

} // verus!
