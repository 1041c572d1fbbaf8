//! Facts about the text primitives.

use crate::text;
use crate::text::Separator;
use vstd::prelude::*;

verus! {

/// A text without separators is one piece.
pub proof fn lemma_pieces_of_unseparated(s: Seq<char>, separator: Separator)
    requires
        forall|i: int| 0 <= i < s.len() ==> !separator.separates(#[trigger] s[i]),
    ensures
        text::pieces(s, separator) == seq![s],
    decreases s.len(),
{
    if s.len() > 0 {
        let init = s.drop_last();
        assert forall|i: int| 0 <= i < init.len() implies !separator.separates(
            #[trigger] init[i],
        ) by {
            assert(init[i] == s[i]);
        }
        lemma_pieces_of_unseparated(init, separator);
        assert(init.push(s.last()) == s);
        assert(text::pieces(s, separator) =~= seq![s]);
    } else {
        assert(s =~= Seq::<char>::empty());
    }
}

/// The pieces before a separator and those after it are the pieces of the
/// whole.
pub proof fn lemma_pieces_around_separator(
    a: Seq<char>,
    c: char,
    b: Seq<char>,
    separator: Separator,
)
    requires
        separator.separates(c),
    ensures
        text::pieces(a.push(c) + b, separator) == text::pieces(a, separator) + text::pieces(
            b,
            separator,
        ),
    decreases b.len(),
{
    let whole = a.push(c) + b;
    text::lemma_pieces_nonempty(b, separator);
    if b.len() == 0 {
        assert(whole.drop_last() == a);
        assert(text::pieces(whole, separator) =~= text::pieces(a, separator) + text::pieces(
            b,
            separator,
        ));
    } else {
        let init = b.drop_last();
        lemma_pieces_around_separator(a, c, init, separator);
        text::lemma_pieces_nonempty(init, separator);
        assert(whole.drop_last() == a.push(c) + init);
        assert(whole.last() == b.last());
        assert(text::pieces(whole, separator) =~= text::pieces(a, separator) + text::pieces(
            b,
            separator,
        ));
    }
}

/// A text that has no white space at either end stays as it is.
pub proof fn lemma_trimmed_unchanged(s: Seq<char>)
    requires
        s.len() > 0 ==> !text::white_space(s[0]) && !text::white_space(s.last()),
    ensures
        text::trimmed(s) == s,
{
}

/// Decimal digits read back as the number that they were written for.
pub proof fn lemma_decimal_reads_back(n: nat)
    ensures
        text::decimal_text(n).len() > 0,
        forall|i: int|
            0 <= i < text::decimal_text(n).len() ==> text::is_digit(
                #[trigger] text::decimal_text(n)[i],
            ),
        text::decimal_value(text::decimal_text(n)) == n,
    decreases n,
{
    let s = text::decimal_text(n);
    if n < 10 {
        assert(s.drop_last() =~= Seq::<char>::empty());
        assert(text::decimal_value(s.drop_last()) == 0);
    } else {
        lemma_decimal_reads_back(n / 10);
        assert(s.drop_last() =~= text::decimal_text(n / 10));
    }
}

/// Lower case is kept by lower case, and makes no white space of other
/// characters.
proof fn lemma_lower_char(c: char)
    ensures
        text::lower_char(text::lower_char(c)) == text::lower_char(c),
        text::white_space(text::lower_char(c)) == text::white_space(c),
        text::lower_char(c) == '+' <==> c == '+',
{
}

/// Lower case is kept by lower case.
pub proof fn lemma_lower_again(s: Seq<char>)
    ensures
        text::lower(text::lower(s)) == text::lower(s),
{
    assert forall|i: int| 0 <= i < s.len() implies text::lower(text::lower(s))[i] == text::lower(
        s,
    )[i] by {
        lemma_lower_char(s[i]);
    }
    assert(text::lower(text::lower(s)) =~= text::lower(s));
}

/// It does not matter whether a text is trimmed or put in lower case first.
pub proof fn lemma_trimmed_lower(s: Seq<char>)
    ensures
        text::trimmed(text::lower(s)) == text::lower(text::trimmed(s)),
{
    lemma_trimmed_start_lower(s);
    lemma_trimmed_end_lower(text::trimmed_start(s));
}

proof fn lemma_trimmed_start_lower(s: Seq<char>)
    ensures
        text::trimmed_start(text::lower(s)) == text::lower(text::trimmed_start(s)),
    decreases s.len(),
{
    if s.len() > 0 {
        lemma_lower_char(s[0]);
        assert(text::lower(s).skip(1) =~= text::lower(s.skip(1)));
        lemma_trimmed_start_lower(s.skip(1));
    }
}

proof fn lemma_trimmed_end_lower(s: Seq<char>)
    ensures
        text::trimmed_end(text::lower(s)) == text::lower(text::trimmed_end(s)),
    decreases s.len(),
{
    if s.len() > 0 {
        lemma_lower_char(s.last());
        assert(text::lower(s).drop_last() =~= text::lower(s.drop_last()));
        lemma_trimmed_end_lower(s.drop_last());
    }
}

/// The pieces between plus signs are the same in lower case.
pub proof fn lemma_pieces_lower(s: Seq<char>)
    ensures
        text::pieces(text::lower(s), Separator::Exactly('+')) == text::pieces(
            s,
            Separator::Exactly('+'),
        ).map_values(|p: Seq<char>| text::lower(p)),
    decreases s.len(),
{
    let plus = Separator::Exactly('+');
    let lower = |p: Seq<char>| text::lower(p);
    if s.len() == 0 {
        assert(text::lower(s) =~= s);
        assert(text::lower(Seq::<char>::empty()) =~= Seq::<char>::empty());
        assert(text::pieces(s, plus).map_values(lower) =~= text::pieces(s, plus));
    } else {
        let init = s.drop_last();
        let before = text::pieces(init, plus);
        lemma_lower_char(s.last());
        lemma_pieces_lower(init);
        text::lemma_pieces_nonempty(init, plus);
        assert(text::lower(s).drop_last() =~= text::lower(init));
        assert(text::lower(Seq::<char>::empty()) =~= Seq::<char>::empty());
        if s.last() == '+' {
            assert(before.push(Seq::empty()).map_values(lower) =~= before.map_values(lower).push(
                Seq::empty(),
            ));
        } else {
            let last = before.last();
            assert(text::lower(last.push(s.last())) =~= text::lower(last).push(
                text::lower_char(s.last()),
            ));
            assert(before.drop_last().push(last.push(s.last())).map_values(lower)
                =~= before.map_values(lower).drop_last().push(
                text::lower(last).push(text::lower_char(s.last())),
            ));
        }
    }
}

} // verus!
