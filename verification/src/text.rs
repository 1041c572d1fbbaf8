//! Text primitives shared by the rest of the library: Unicode whitespace,
//! ASCII case folding, splitting, decimal numbers and code-point order.
//!
//! Every string is modelled by its sequence of `char`s.

pub mod laws;
pub mod lemmas;

use vstd::prelude::*;

verus! {

/// `String::push` appends one character at the end.
pub assume_specification[ String::push ](s: &mut String, c: char)
    ensures
        final(s)@ == old(s)@.push(c),
;

/// The character sequences of a sequence of strings.
pub open spec fn texts(strings: Seq<String>) -> Seq<Seq<char>> {
    strings.map_values(|s: String| s@)
}

/// One more string adds its characters.
pub broadcast proof fn lemma_texts_push(strings: Seq<String>, s: String)
    ensures
        #[trigger] texts(strings.push(s)) == texts(strings).push(s@),
{
    assert(texts(strings.push(s)) =~= texts(strings).push(s@));
}

/// The characters of `s`, in order.
pub fn chars_of(s: &str) -> (chars: Vec<char>)
    ensures
        chars@ == s@,
{
    let mut chars: Vec<char> = Vec::new();
    for c in it: s.chars()
        invariant
            it.seq() == s@,
            chars@ == it.seq().take(it.index()),
    {
        chars.push(c);
        assert(chars@ == it.seq().take(it.index() + 1));
    }
    chars
}

/// The string made of `chars[from..to]`.
pub fn text_of(chars: &Vec<char>, from: usize, to: usize) -> (s: String)
    requires
        from <= to <= chars@.len(),
    ensures
        s@ == chars@.subrange(from as int, to as int),
{
    let mut s = String::new();
    let mut i: usize = from;
    while i < to
        invariant
            from <= i <= to <= chars@.len(),
            s@ == chars@.subrange(from as int, i as int),
        decreases to - i,
    {
        s.push(chars[i]);
        i += 1;
        assert(s@ == chars@.subrange(from as int, i as int));
    }
    s
}

/// Whether two strings hold the same characters.
pub fn same_text(a: &str, b: &str) -> (same: bool)
    ensures
        same == (a@ == b@),
{
    let x = chars_of(a);
    let y = chars_of(b);
    if x.len() != y.len() {
        return false;
    }
    let mut i: usize = 0;
    while i < x.len()
        invariant
            i <= x@.len(),
            x@.len() == y@.len(),
            x@ == a@,
            y@ == b@,
            forall|j: int| 0 <= j < i ==> x@[j] == y@[j],
        decreases x@.len() - i,
    {
        if x[i] != y[i] {
            return false;
        }
        i += 1;
    }
    assert(a@ =~= b@);
    true
}

/// The Unicode `White_Space` property.
pub open spec fn white_space(c: char) -> bool {
    ||| 0x9 <= c as u32 <= 0xd
    ||| c as u32 == 0x20
    ||| c as u32 == 0x85
    ||| c as u32 == 0xa0
    ||| c as u32 == 0x1680
    ||| 0x2000 <= c as u32 <= 0x200a
    ||| c as u32 == 0x2028
    ||| c as u32 == 0x2029
    ||| c as u32 == 0x202f
    ||| c as u32 == 0x205f
    ||| c as u32 == 0x3000
}

/// Whether `c` is Unicode white space.
pub fn is_white_space(c: char) -> (white: bool)
    ensures
        white == white_space(c),
{
    let u: u32 = c as u32;
    (0x9 <= u && u <= 0xd) || u == 0x20 || u == 0x85 || u == 0xa0 || u == 0x1680 || (0x2000 <= u
        && u <= 0x200a) || u == 0x2028 || u == 0x2029 || u == 0x202f || u == 0x205f || u == 0x3000
}

/// `s` without its leading white space.
pub open spec fn trimmed_start(s: Seq<char>) -> Seq<char>
    decreases s.len(),
{
    if s.len() > 0 && white_space(s[0]) {
        trimmed_start(s.skip(1))
    } else {
        s
    }
}

/// `s` without its trailing white space.
pub open spec fn trimmed_end(s: Seq<char>) -> Seq<char>
    decreases s.len(),
{
    if s.len() > 0 && white_space(s.last()) {
        trimmed_end(s.drop_last())
    } else {
        s
    }
}

/// `s` without the white space at either end.
pub open spec fn trimmed(s: Seq<char>) -> Seq<char> {
    trimmed_end(trimmed_start(s))
}

/// Copies `s` without the white space at either end.
pub fn trim(s: &str) -> (res: String)
    ensures
        res@ == trimmed(s@),
{
    let chars = chars_of(s);
    let mut from: usize = 0;
    assert(s@.skip(0) == s@);
    while from < chars.len() && is_white_space(chars[from])
        invariant
            from <= chars@.len(),
            chars@ == s@,
            trimmed_start(s@) == trimmed_start(s@.skip(from as int)),
        decreases chars@.len() - from,
    {
        assert(s@.skip(from as int).skip(1) == s@.skip(from + 1));
        from += 1;
    }
    let mut to: usize = chars.len();
    assert(trimmed_start(s@) == s@.skip(from as int));
    assert(s@.subrange(from as int, to as int) == s@.skip(from as int));
    while from < to && is_white_space(chars[to - 1])
        invariant
            from <= to <= chars@.len(),
            chars@ == s@,
            trimmed(s@) == trimmed_end(s@.subrange(from as int, to as int)),
        decreases to,
    {
        assert(s@.subrange(from as int, to as int).drop_last() == s@.subrange(
            from as int,
            to - 1,
        ));
        to -= 1;
    }
    text_of(&chars, from, to)
}

/// ASCII lower case: `A` to `Z` become `a` to `z`, the rest is unchanged.
pub open spec fn lower_char(c: char) -> char {
    if 'A' <= c <= 'Z' {
        (c as u8 + 32) as char
    } else {
        c
    }
}

/// ASCII upper case: `a` to `z` become `A` to `Z`, the rest is unchanged.
pub open spec fn upper_char(c: char) -> char {
    if 'a' <= c <= 'z' {
        (c as u8 - 32) as char
    } else {
        c
    }
}

/// ASCII upper case of one character.
pub fn ascii_upper_char(c: char) -> (res: char)
    ensures
        res == upper_char(c),
{
    if 'a' <= c && c <= 'z' {
        ((c as u8) - 32) as char
    } else {
        c
    }
}

/// ASCII lower case of each character of `s`.
pub open spec fn lower(s: Seq<char>) -> Seq<char> {
    s.map_values(|c: char| lower_char(c))
}

/// ASCII lower case of one character.
pub fn ascii_lower_char(c: char) -> (res: char)
    ensures
        res == lower_char(c),
{
    if 'A' <= c && c <= 'Z' {
        ((c as u8) + 32) as char
    } else {
        c
    }
}

/// ASCII lower case of a string.
pub fn ascii_lower(s: &str) -> (res: String)
    ensures
        res@ == lower(s@),
{
    let chars = chars_of(s);
    let mut res = String::new();
    let mut i: usize = 0;
    while i < chars.len()
        invariant
            i <= chars@.len(),
            chars@ == s@,
            res@ == lower(s@.take(i as int)),
        decreases chars@.len() - i,
    {
        res.push(ascii_lower_char(chars[i]));
        i += 1;
        assert(res@ == lower(s@.take(i as int)));
    }
    assert(s@.take(i as int) == s@);
    res
}

/// What ends a piece when a string is split.
#[derive(Clone, Copy, Debug)]
pub enum Separator {
    /// Any white-space character.
    WhiteSpace,
    /// One given character.
    Exactly(char),
}

impl Separator {
    /// Whether `c` ends a piece.
    pub open spec fn separates(self, c: char) -> bool {
        match self {
            Separator::WhiteSpace => white_space(c),
            Separator::Exactly(sep) => c == sep,
        }
    }

    fn test(self, c: char) -> (res: bool)
        ensures
            res == self.separates(c),
    {
        match self {
            Separator::WhiteSpace => is_white_space(c),
            Separator::Exactly(sep) => c == sep,
        }
    }
}

/// The pieces of `s` between separators: every separator opens a new piece,
/// every other character extends the last one. There is always at least one
/// piece.
pub open spec fn pieces(s: Seq<char>, separator: Separator) -> Seq<Seq<char>>
    decreases s.len(),
{
    if s.len() == 0 {
        seq![Seq::<char>::empty()]
    } else {
        let before = pieces(s.drop_last(), separator);
        if separator.separates(s.last()) {
            before.push(Seq::<char>::empty())
        } else {
            before.drop_last().push(before.last().push(s.last()))
        }
    }
}

/// There is at least one piece.
pub proof fn lemma_pieces_nonempty(s: Seq<char>, separator: Separator)
    ensures
        pieces(s, separator).len() > 0,
    decreases s.len(),
{
    if s.len() > 0 {
        lemma_pieces_nonempty(s.drop_last(), separator);
    }
}

/// Splits `s` at every separator.
pub fn split(s: &str, separator: Separator) -> (res: Vec<String>)
    ensures
        texts(res@) == pieces(s@, separator),
        res@.len() > 0,
{
    let chars = chars_of(s);
    let mut res: Vec<String> = Vec::new();
    let mut last = String::new();
    let mut i: usize = 0;
    assert(texts(res@).push(last@) == pieces(s@.take(0), separator));
    while i < chars.len()
        invariant
            i <= chars@.len(),
            chars@ == s@,
            texts(res@).push(last@) == pieces(s@.take(i as int), separator),
        decreases chars@.len() - i,
    {
        let ghost before = texts(res@).push(last@);
        let c = chars[i];
        proof {
            assert(s@.take(i + 1).drop_last() == s@.take(i as int));
            assert(before.drop_last() == texts(res@));
        }
        if separator.test(c) {
            res.push(last);
            last = String::new();
            assert(texts(res@) == before);
        } else {
            last.push(c);
        }
        i += 1;
    }
    assert(s@.take(i as int) == s@);
    let ghost before = texts(res@).push(last@);
    res.push(last);
    assert(texts(res@) == before);
    res
}

/// The white-space separated words of `s`.
pub open spec fn words(s: Seq<char>) -> Seq<Seq<char>> {
    pieces(s, Separator::WhiteSpace).filter(|w: Seq<char>| w.len() > 0)
}

/// Splits `s` into its white-space separated words.
pub fn split_words(s: &str) -> (res: Vec<String>)
    ensures
        texts(res@) == words(s@),
{
    let parts = split(s, Separator::WhiteSpace);
    let ghost nonempty = |w: Seq<char>| w.len() > 0;
    let ghost all = texts(parts@);
    let mut res: Vec<String> = Vec::new();
    let mut i: usize = 0;
    proof {
        reveal(Seq::filter);
        assert(texts(res@) == all.take(0).filter(nonempty));
    }
    while i < parts.len()
        invariant
            i <= parts@.len(),
            all == texts(parts@),
            nonempty == (|w: Seq<char>| w.len() > 0),
            texts(res@) == all.take(i as int).filter(nonempty),
        decreases parts@.len() - i,
    {
        proof {
            reveal(Seq::filter);
            assert(all.take(i + 1).drop_last() == all.take(i as int));
            assert(all.take(i + 1).last() == parts@[i as int]@);
        }
        let ghost before = texts(res@);
        if !parts[i].as_str().is_empty() {
            res.push(parts[i].clone());
            assert(texts(res@) == before.push(parts@[i as int]@));
        }
        i += 1;
    }
    assert(all.take(i as int) == all);
    res
}

/// `s` without one carriage return at its end.
pub open spec fn without_carriage_return(s: Seq<char>) -> Seq<char> {
    if s.len() > 0 && s.last() == '\r' {
        s.drop_last()
    } else {
        s
    }
}

/// The lines of `s`. A line ends at a newline, or at a carriage return
/// followed by a newline; what follows the last newline is a line too, unless
/// it is empty.
pub open spec fn lines(s: Seq<char>) -> Seq<Seq<char>> {
    let parts = pieces(s, Separator::Exactly('\n'));
    let ended = parts.drop_last().map_values(|p: Seq<char>| without_carriage_return(p));
    if parts.last().len() == 0 {
        ended
    } else {
        ended.push(parts.last())
    }
}

/// Splits `s` into its lines.
pub fn split_lines(s: &str) -> (res: Vec<String>)
    ensures
        texts(res@) == lines(s@),
{
    let parts = split(s, Separator::Exactly('\n'));
    let ghost all = texts(parts@);
    let last: usize = parts.len() - 1;
    let mut res: Vec<String> = Vec::new();
    let mut i: usize = 0;
    while i < last
        invariant
            i <= last,
            last == parts@.len() - 1,
            all == texts(parts@),
            texts(res@) == all.take(i as int).map_values(
                |p: Seq<char>| without_carriage_return(p),
            ),
        decreases last - i,
    {
        let chars = chars_of(parts[i].as_str());
        let mut to: usize = chars.len();
        if to > 0 && chars[to - 1] == '\r' {
            to -= 1;
        }
        let line = text_of(&chars, 0, to);
        assert(line@ == without_carriage_return(all[i as int]));
        let ghost before = texts(res@);
        res.push(line);
        i += 1;
        assert(texts(res@) =~= before.push(without_carriage_return(all[i - 1])));
        assert(texts(res@) =~= all.take(i as int).map_values(
            |p: Seq<char>| without_carriage_return(p),
        ));
    }
    assert(all.take(i as int) == all.drop_last());
    let ghost ended = texts(res@);
    if !parts[last].as_str().is_empty() {
        res.push(parts[last].clone());
        assert(texts(res@) == ended.push(all.last()));
    }
    res
}

/// The decimal digit of `d`.
pub open spec fn digit(d: nat) -> char {
    ('0' as u8 + d) as char
}

/// The decimal digits of `n`, without leading zeros.
pub open spec fn decimal_text(n: nat) -> Seq<char>
    decreases n,
{
    if n < 10 {
        seq![digit(n)]
    } else {
        decimal_text(n / 10).push(digit(n % 10))
    }
}

/// Writes `n` in decimal.
pub fn decimal(n: usize) -> (res: String)
    ensures
        res@ == decimal_text(n as nat),
    decreases n,
{
    let mut res = if n < 10 {
        String::new()
    } else {
        decimal(n / 10)
    };
    res.push(('0' as u8 + (n % 10) as u8) as char);
    assert(res@ =~= decimal_text(n as nat));
    res
}

/// Whether `c` is one of `0` to `9`.
pub open spec fn is_digit(c: char) -> bool {
    '0' <= c <= '9'
}

/// The number that a sequence of decimal digits denotes.
pub open spec fn decimal_value(s: Seq<char>) -> nat
    decreases s.len(),
{
    if s.len() == 0 {
        0
    } else {
        decimal_value(s.drop_last()) * 10 + (s.last() as nat - '0' as nat) as nat
    }
}

/// The byte that `s` denotes: one or more decimal digits, of a value that
/// fits a byte.
pub open spec fn byte_value(s: Seq<char>) -> Option<u8> {
    if s.len() > 0 && (forall|i: int| 0 <= i < s.len() ==> is_digit(s[i])) && decimal_value(s)
        <= 255 {
        Some(decimal_value(s) as u8)
    } else {
        None
    }
}

/// Reads `chars[from..]` as a byte written in decimal.
pub fn parse_byte(chars: &Vec<char>, from: usize) -> (res: Option<u8>)
    requires
        from <= chars@.len(),
    ensures
        res == byte_value(chars@.skip(from as int)),
{
    let ghost s = chars@.skip(from as int);
    if from == chars.len() {
        return None;
    }
    let mut value: u32 = 0;
    let mut fits = true;
    let mut i: usize = from;
    while i < chars.len()
        invariant
            from <= i <= chars@.len(),
            s == chars@.skip(from as int),
            forall|j: int| 0 <= j < i - from ==> is_digit(s[j]),
            fits ==> value <= 255 && value == decimal_value(s.take(i - from)),
            !fits ==> decimal_value(s.take(i - from)) > 255,
        decreases chars@.len() - i,
    {
        let c = chars[i];
        assert(c == s[i - from]);
        if c < '0' || c > '9' {
            return None;
        }
        proof {
            assert(s.take(i + 1 - from).drop_last() == s.take(i - from));
            assert(s.take(i + 1 - from).last() == c);
        }
        if fits {
            value = value * 10 + (c as u32 - '0' as u32);
            fits = value <= 255;
        }
        i += 1;
    }
    assert(s.take(i - from) == s);
    if fits {
        Some(value as u8)
    } else {
        None
    }
}

/// Lexicographic order by code point.
pub open spec fn precedes(a: Seq<char>, b: Seq<char>) -> bool
    decreases a.len(),
{
    if b.len() == 0 {
        false
    } else if a.len() == 0 {
        true
    } else if a[0] == b[0] {
        precedes(a.skip(1), b.skip(1))
    } else {
        a[0] < b[0]
    }
}

/// Whether `a` comes before `b` in code-point order.
pub fn is_before(a: &str, b: &str) -> (res: bool)
    ensures
        res == precedes(a@, b@),
{
    let x = chars_of(a);
    let y = chars_of(b);
    let mut i: usize = 0;
    assert(a@.skip(0) == a@ && b@.skip(0) == b@);
    while i < x.len() && i < y.len() && x[i] == y[i]
        invariant
            i <= x@.len(),
            i <= y@.len(),
            x@ == a@,
            y@ == b@,
            precedes(a@, b@) == precedes(a@.skip(i as int), b@.skip(i as int)),
        decreases x@.len() - i,
    {
        assert(a@.skip(i as int).skip(1) == a@.skip(i + 1));
        assert(b@.skip(i as int).skip(1) == b@.skip(i + 1));
        i += 1;
    }
    if i == y.len() {
        false
    } else if i == x.len() {
        true
    } else {
        x[i] < y[i]
    }
}

/// What `Debug` formatting of a string gives: the string in double quotes,
/// with its special characters escaped.
pub uninterp spec fn debug_text(s: Seq<char>) -> Seq<char>;

/// `format!` with `{:?}` on a `str`. The text is a function of the string
/// alone, here named `debug_text`; which characters are escaped, and how, is
/// left to that name.
#[verifier::external_body]
pub(crate) fn debug_quoted(s: &str) -> (res: String)
    ensures
        res@ == debug_text(s@),
{
    format!("{:?}", s)
}

/// What lossy UTF-8 decoding gives.
pub uninterp spec fn lossy_text(bytes: Seq<u8>) -> Seq<char>;

/// `String::from_utf8_lossy`. The text is a function of the bytes alone, here
/// named `lossy_text`; valid UTF-8 is decoded exactly, and where the
/// replacement characters stand in for other bytes is left to that name.
#[verifier::external_body]
pub(crate) fn decode_lossy(bytes: &[u8]) -> (res: String)
    ensures
        res@ == lossy_text(bytes@),
        vstd::utf8::valid_utf8(bytes@) ==> res@ == vstd::utf8::decode_utf8(bytes@),
{
    String::from_utf8_lossy(bytes).into_owned()
}

} // verus!
