//! Quoting for the shell and for tmux.

use crate::text;
use vstd::prelude::*;

verus! {

/// How one character stands inside single quotes.
pub open spec fn shell_escaped_char(c: char) -> Seq<char> {
    if c == '\'' {
        seq!['\'', '\\', '\'', '\'']
    } else {
        seq![c]
    }
}

/// How a text stands inside single quotes.
pub open spec fn shell_escaped(s: Seq<char>) -> Seq<char>
    decreases s.len(),
{
    if s.len() == 0 {
        Seq::empty()
    } else {
        shell_escaped(s.drop_last()) + shell_escaped_char(s.last())
    }
}

/// A text as one word of a POSIX shell.
pub open spec fn shell_quoted(s: Seq<char>) -> Seq<char> {
    seq!['\''] + shell_escaped(s) + seq!['\'']
}

/// Quotes `s` for a POSIX shell: in single quotes, with each single quote
/// inside written as `'\''`.
pub fn shell_quote(s: &str) -> (res: String)
    ensures
        res@ == shell_quoted(s@),
{
    let chars = text::chars_of(s);
    let mut out = String::new();
    out.push('\'');
    let mut i: usize = 0;
    assert(out@ =~= seq!['\''] + shell_escaped(s@.take(0)));
    while i < chars.len()
        invariant
            i <= chars@.len(),
            chars@ == s@,
            out@ == seq!['\''] + shell_escaped(s@.take(i as int)),
        decreases chars@.len() - i,
    {
        let c = chars[i];
        let ghost before = out@;
        if c == '\'' {
            out.push('\'');
            out.push('\\');
            out.push('\'');
            out.push('\'');
        } else {
            out.push(c);
        }
        assert(out@ =~= before + shell_escaped_char(c));
        assert(s@.take(i + 1).drop_last() == s@.take(i as int));
        i += 1;
        assert(out@ =~= seq!['\''] + shell_escaped(s@.take(i as int)));
    }
    assert(s@.take(i as int) == s@);
    out.push('\'');
    assert(out@ =~= shell_quoted(s@));
    out
}

/// How one character stands inside double quotes.
pub open spec fn tmux_escaped_char(c: char) -> Seq<char> {
    if c == '\\' || c == '"' {
        seq!['\\', c]
    } else {
        seq![c]
    }
}

/// How a text stands inside double quotes.
pub open spec fn tmux_escaped(s: Seq<char>) -> Seq<char>
    decreases s.len(),
{
    if s.len() == 0 {
        Seq::empty()
    } else {
        tmux_escaped(s.drop_last()) + tmux_escaped_char(s.last())
    }
}

/// A text in double quotes.
pub open spec fn tmux_quoted(s: Seq<char>) -> Seq<char> {
    seq!['"'] + tmux_escaped(s) + seq!['"']
}

/// Wraps `s` in double quotes for tmux's own parser, with a backslash before
/// each backslash and each double quote.
pub fn tmux_quote(s: &str) -> (res: String)
    ensures
        res@ == tmux_quoted(s@),
{
    let chars = text::chars_of(s);
    let mut out = String::new();
    out.push('"');
    let mut i: usize = 0;
    assert(out@ =~= seq!['"'] + tmux_escaped(s@.take(0)));
    while i < chars.len()
        invariant
            i <= chars@.len(),
            chars@ == s@,
            out@ == seq!['"'] + tmux_escaped(s@.take(i as int)),
        decreases chars@.len() - i,
    {
        let c = chars[i];
        let ghost before = out@;
        if c == '\\' || c == '"' {
            out.push('\\');
        }
        out.push(c);
        assert(out@ =~= before + tmux_escaped_char(c));
        assert(s@.take(i + 1).drop_last() == s@.take(i as int));
        i += 1;
        assert(out@ =~= seq!['"'] + tmux_escaped(s@.take(i as int)));
    }
    assert(s@.take(i as int) == s@);
    out.push('"');
    assert(out@ =~= tmux_quoted(s@));
    out
}

/// `s` before what was read, if anything was.
pub open spec fn after(s: Seq<char>, read: Option<Seq<char>>) -> Option<Seq<char>> {
    match read {
        Some(rest) => Some(s + rest),
        None => None,
    }
}

/// How a POSIX shell reads one word that is made of single-quoted parts and of
/// characters behind a backslash. There is no reading where a quote stays open
/// or anything else stands outside the quotes.
pub open spec fn shell_read(s: Seq<char>, in_quotes: bool) -> Option<Seq<char>>
    decreases s.len(),
{
    if s.len() == 0 {
        if in_quotes {
            None
        } else {
            Some(Seq::empty())
        }
    } else if s[0] == '\'' {
        shell_read(s.skip(1), !in_quotes)
    } else if in_quotes {
        after(seq![s[0]], shell_read(s.skip(1), true))
    } else if s[0] == '\\' && s.len() > 1 {
        after(seq![s[1]], shell_read(s.skip(2), false))
    } else {
        None
    }
}

proof fn lemma_shell_read_escaped(s: Seq<char>, tail: Seq<char>)
    ensures
        shell_read(shell_escaped(s) + tail, true) == after(s, shell_read(tail, true)),
    decreases s.len(),
{
    if s.len() == 0 {
        assert(shell_escaped(s) + tail =~= tail);
        if let Some(rest) = shell_read(tail, true) {
            assert(s + rest =~= rest);
        }
    } else {
        let init = s.drop_last();
        let c = s.last();
        let more = shell_escaped_char(c) + tail;
        lemma_shell_read_escaped(init, more);
        assert(shell_escaped(s) + tail =~= shell_escaped(init) + more);
        assert(shell_read(more, true) == after(seq![c], shell_read(tail, true))) by {
            if c == '\'' {
                reveal_with_fuel(shell_read, 5);
                assert(more.skip(1).skip(2).skip(1) =~= tail);
            } else {
                assert(more.skip(1) =~= tail);
            }
        }
        if let Some(rest) = shell_read(tail, true) {
            assert(init + (seq![c] + rest) =~= s + rest);
        }
    }
}

/// A shell reads a quoted text as one word, the text itself: nothing in it can
/// end the quotes.
pub proof fn law_shell_quote_reads_back(s: Seq<char>)
    ensures
        shell_read(shell_quoted(s), false) == Some(s),
{
    let tail = seq!['\''];
    lemma_shell_read_escaped(s, tail);
    assert(shell_quoted(s).skip(1) =~= shell_escaped(s) + tail);
    assert(tail.skip(1) =~= Seq::<char>::empty());
    assert(shell_read(tail, true) == Some(Seq::<char>::empty())) by {
        reveal_with_fuel(shell_read, 2);
    }
    assert(s + Seq::<char>::empty() =~= s);
}

/// What stands inside double quotes, up to the closing quote at the end of
/// `s`, where a backslash stands for the character behind it.
pub open spec fn double_quotes_read(s: Seq<char>) -> Option<Seq<char>>
    decreases s.len(),
{
    if s.len() == 0 {
        None
    } else if s[0] == '"' {
        if s.len() == 1 {
            Some(Seq::empty())
        } else {
            None
        }
    } else if s[0] == '\\' {
        if s.len() == 1 {
            None
        } else {
            after(seq![s[1]], double_quotes_read(s.skip(2)))
        }
    } else {
        after(seq![s[0]], double_quotes_read(s.skip(1)))
    }
}

proof fn lemma_double_quotes_read(s: Seq<char>, tail: Seq<char>)
    ensures
        double_quotes_read(tmux_escaped(s) + tail) == after(s, double_quotes_read(tail)),
    decreases s.len(),
{
    if s.len() == 0 {
        assert(tmux_escaped(s) + tail =~= tail);
        if let Some(rest) = double_quotes_read(tail) {
            assert(s + rest =~= rest);
        }
    } else {
        let init = s.drop_last();
        let c = s.last();
        let more = tmux_escaped_char(c) + tail;
        lemma_double_quotes_read(init, more);
        assert(tmux_escaped(s) + tail =~= tmux_escaped(init) + more);
        assert(double_quotes_read(more) == after(seq![c], double_quotes_read(tail))) by {
            if c == '\\' || c == '"' {
                assert(more.skip(2) =~= tail);
            } else {
                assert(more.skip(1) =~= tail);
            }
        }
        if let Some(rest) = double_quotes_read(tail) {
            assert(init + (seq![c] + rest) =~= s + rest);
        }
    }
}

/// A text in double quotes reads back as the text itself: the quote that
/// closes it is the last character.
pub proof fn law_tmux_quote_reads_back(s: Seq<char>)
    ensures
        tmux_quoted(s)[0] == '"',
        double_quotes_read(tmux_quoted(s).skip(1)) == Some(s),
{
    let tail = seq!['"'];
    lemma_double_quotes_read(s, tail);
    assert(tmux_quoted(s).skip(1) =~= tmux_escaped(s) + tail);
    assert(s + Seq::<char>::empty() =~= s);
}

/// Quoting goes character by character, between two quotes. Single quotes leave
/// every character as it is but the single quote, for which the quotes are
/// closed, it is written behind a backslash, and they are opened again. Double
/// quotes leave every character as it is but the backslash and the double quote,
/// which a backslash goes before.
pub proof fn law_quoting(s: Seq<char>, c: char)
    ensures
        shell_quoted(Seq::<char>::empty()) == seq!['\'', '\''],
        shell_quoted(s.push(c)) == shell_quoted(s).drop_last() + (if c == '\'' {
            seq!['\'', '\\', '\'', '\'']
        } else {
            seq![c]
        }) + seq!['\''],
        tmux_quoted(Seq::<char>::empty()) == seq!['"', '"'],
        tmux_quoted(s.push(c)) == tmux_quoted(s).drop_last() + (if c == '\\' || c == '"' {
            seq!['\\', c]
        } else {
            seq![c]
        }) + seq!['"'],
{
    assert(s.push(c).drop_last() =~= s);
    assert(shell_quoted(Seq::<char>::empty()) =~= seq!['\'', '\'']);
    assert(tmux_quoted(Seq::<char>::empty()) =~= seq!['"', '"']);
    assert(shell_quoted(s).drop_last() =~= seq!['\''] + shell_escaped(s));
    assert(tmux_quoted(s).drop_last() =~= seq!['"'] + tmux_escaped(s));
    assert(shell_quoted(s.push(c)) =~= shell_quoted(s).drop_last() + (if c == '\'' {
        seq!['\'', '\\', '\'', '\'']
    } else {
        seq![c]
    }) + seq!['\'']);
    assert(tmux_quoted(s.push(c)) =~= tmux_quoted(s).drop_last() + (if c == '\\' || c == '"' {
        seq!['\\', c]
    } else {
        seq![c]
    }) + seq!['"']);
}

} // verus!
