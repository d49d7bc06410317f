//! Character-level helpers: lines, words and two-character symbols.

use vstd::prelude::*;

verus! {

/// `String::push` appends the character to the end of the string.
pub assume_specification[ String::push ](s: &mut String, c: char)
    ensures
        final(s)@ == old(s)@.push(c),
;

/// The characters of a string slice, in order.
pub fn chars_of(s: &str) -> (v: Vec<char>)
    ensures
        v@ == s@,
{
    let mut v: Vec<char> = Vec::new();
    for c in it: s.chars()
        invariant
            v@ == it.seq().take(it.index()),
            it.seq() == s@,
    {
        v.push(c);
    }
    v
}

/// The string made of the given characters, in order.
pub fn string_of(v: &Vec<char>) -> (s: String)
    ensures
        s@ == v@,
{
    let mut s = String::new();
    let mut i: usize = 0;
    while i < v.len()
        invariant
            i <= v.len(),
            s@ == v@.take(i as int),
        decreases v.len() - i,
    {
        s.push(v[i]);
        i += 1;
    }
    s
}

/// Whether two character vectors hold the same text.
pub fn same_text(a: &Vec<char>, b: &Vec<char>) -> (r: bool)
    ensures
        r == (a@ == b@),
{
    if a.len() != b.len() {
        return false;
    }
    let mut i: usize = 0;
    while i < a.len()
        invariant
            i <= a.len(),
            a.len() == b.len(),
            a@.take(i as int) == b@.take(i as int),
        decreases a.len() - i,
    {
        if a[i] != b[i] {
            return false;
        }
        assert(a@.take(i + 1) =~= a@.take(i as int).push(a@[i as int]));
        assert(b@.take(i + 1) =~= b@.take(i as int).push(b@[i as int]));
        i += 1;
    }
    assert(a@ =~= a@.take(a.len() as int));
    assert(b@ =~= b@.take(b.len() as int));
    true
}

/// A copy of a character vector.
pub fn copy_text(a: &Vec<char>) -> (r: Vec<char>)
    ensures
        r@ == a@,
{
    let mut r: Vec<char> = Vec::new();
    let mut i: usize = 0;
    while i < a.len()
        invariant
            i <= a.len(),
            r@ == a@.take(i as int),
        decreases a.len() - i,
    {
        r.push(a[i]);
        i += 1;
    }
    r
}

/// Appends all characters of `tail` to `buf`.
pub fn append_text(buf: &mut Vec<char>, tail: &Vec<char>)
    ensures
        final(buf)@ == old(buf)@ + tail@,
{
    let mut i: usize = 0;
    while i < tail.len()
        invariant
            i <= tail.len(),
            buf@ == old(buf)@ + tail@.take(i as int),
        decreases tail.len() - i,
    {
        buf.push(tail[i]);
        assert(tail@.take(i + 1) =~= tail@.take(i as int).push(tail@[i as int]));
        i += 1;
    }
    assert(tail@ =~= tail@.take(tail.len() as int));
}

/// The characters that separate words: those with the Unicode property
/// `White_Space`.
pub open spec fn is_space(c: char) -> bool {
    let n = c as u32;
    ||| 0x09 <= n <= 0x0D
    ||| n == 0x20
    ||| n == 0x85
    ||| n == 0xA0
    ||| n == 0x1680
    ||| 0x2000 <= n <= 0x200A
    ||| n == 0x2028
    ||| n == 0x2029
    ||| n == 0x202F
    ||| n == 0x205F
    ||| n == 0x3000
}

/// Tests a character for being white space.
pub fn space(c: char) -> (r: bool)
    ensures
        r == is_space(c),
{
    let n: u32 = c as u32;
    (0x09 <= n && n <= 0x0D) || n == 0x20 || n == 0x85 || n == 0xA0 || n == 0x1680 || (0x2000 <= n
        && n <= 0x200A) || n == 0x2028 || n == 0x2029 || n == 0x202F || n == 0x205F || n == 0x3000
}

/// A line without the carriage return that may end it.
pub open spec fn strip_cr(line: Seq<char>) -> Seq<char> {
    if line.len() > 0 && line.last() == '\r' {
        line.drop_last()
    } else {
        line
    }
}

/// The lines of `text` from position `i` on, where `cur` holds the characters
/// of the line that is open at `i`.
pub open spec fn lines_from(text: Seq<char>, i: int, cur: Seq<char>) -> Seq<Seq<char>>
    decreases text.len() - i,
{
    if i < 0 || i >= text.len() {
        if cur.len() > 0 {
            seq![cur]
        } else {
            Seq::empty()
        }
    } else if text[i] == '\n' {
        seq![strip_cr(cur)] + lines_from(text, i + 1, Seq::empty())
    } else {
        lines_from(text, i + 1, cur.push(text[i]))
    }
}

/// The physical lines of a text. A line ends at a line feed, or at a carriage
/// return directly followed by one; neither belongs to the line. A line
/// ending at the end of the text opens no further line.
pub open spec fn lines_of(text: Seq<char>) -> Seq<Seq<char>> {
    lines_from(text, 0, Seq::empty())
}

/// The texts held by a sequence of character vectors.
pub open spec fn texts(v: Seq<Vec<char>>) -> Seq<Seq<char>> {
    Seq::new(v.len(), |i: int| v[i]@)
}

/// Splits a text into its physical lines.
pub fn split_lines(text: &Vec<char>) -> (r: Vec<Vec<char>>)
    ensures
        texts(r@) == lines_of(text@),
{
    let mut done: Vec<Vec<char>> = Vec::new();
    let mut cur: Vec<char> = Vec::new();
    let mut i: usize = 0;
    assert(texts(done@) =~= Seq::<Seq<char>>::empty());
    while i < text.len()
        invariant
            i <= text.len(),
            texts(done@) + lines_from(text@, i as int, cur@) == lines_of(text@),
        decreases text.len() - i,
    {
        let ghost before = texts(done@);
        let ghost open = cur@;
        let c = text[i];
        if c == '\n' {
            let n = cur.len();
            if n > 0 && cur[n - 1] == '\r' {
                cur.pop();
            }
            assert(cur@ =~= strip_cr(open));
            done.push(cur);
            cur = Vec::new();
            assert(texts(done@) =~= before.push(strip_cr(open)));
            assert(before + (seq![strip_cr(open)] + lines_from(text@, i + 1, Seq::empty()))
                =~= before.push(strip_cr(open)) + lines_from(text@, i + 1, Seq::empty()));
        } else {
            cur.push(c);
        }
        i += 1;
    }
    if cur.len() > 0 {
        let ghost before = texts(done@);
        let ghost open = cur@;
        done.push(cur);
        assert(texts(done@) =~= before + seq![open]);
    } else {
        assert(texts(done@) + Seq::<Seq<char>>::empty() =~= texts(done@));
    }
    done
}

/// The word that stands for a tab character.
pub open spec fn tab_word() -> Seq<char> {
    seq!['*', 't', 'a', 'b', '!']
}

/// A line in which every tab character has become the tab word, set off by
/// spaces.
pub open spec fn expand_tabs(line: Seq<char>) -> Seq<char>
    decreases line.len(),
{
    if line.len() == 0 {
        line
    } else if line.last() == '\t' {
        expand_tabs(line.drop_last()) + seq![' '] + tab_word() + seq![' ']
    } else {
        expand_tabs(line.drop_last()).push(line.last())
    }
}

/// Replaces every tab character of a line by the tab word between spaces.
pub fn with_tab_words(line: &Vec<char>) -> (r: Vec<char>)
    ensures
        r@ == expand_tabs(line@),
{
    let mut r: Vec<char> = Vec::new();
    let mut i: usize = 0;
    assert(line@.take(0) =~= Seq::<char>::empty());
    while i < line.len()
        invariant
            i <= line.len(),
            r@ == expand_tabs(line@.take(i as int)),
        decreases line.len() - i,
    {
        let c = line[i];
        let ghost prior = r@;
        assert(line@.take(i + 1).drop_last() =~= line@.take(i as int));
        if c == '\t' {
            r.push(' ');
            r.push('*');
            r.push('t');
            r.push('a');
            r.push('b');
            r.push('!');
            r.push(' ');
            assert(r@ =~= prior + seq![' '] + tab_word() + seq![' ']);
        } else {
            r.push(c);
        }
        i += 1;
    }
    assert(line@.take(line.len() as int) =~= line@);
    r
}

/// The words of `s` from position `i` on, where `cur` holds the characters of
/// the word that is open at `i`.
pub open spec fn words_from(s: Seq<char>, i: int, cur: Seq<char>) -> Seq<Seq<char>>
    decreases s.len() - i,
{
    if i < 0 || i >= s.len() {
        if cur.len() > 0 {
            seq![cur]
        } else {
            Seq::empty()
        }
    } else if is_space(s[i]) {
        if cur.len() > 0 {
            seq![cur] + words_from(s, i + 1, Seq::empty())
        } else {
            words_from(s, i + 1, Seq::empty())
        }
    } else {
        words_from(s, i + 1, cur.push(s[i]))
    }
}

/// The words of a text: its longest runs of characters that are not white
/// space, in order.
pub open spec fn words_of(s: Seq<char>) -> Seq<Seq<char>> {
    words_from(s, 0, Seq::empty())
}

/// The words of a line, each tab character counting as the tab word.
pub open spec fn line_words(line: Seq<char>) -> Seq<Seq<char>> {
    words_of(expand_tabs(line))
}

/// Splits a text at white space.
pub fn split_words(s: &Vec<char>) -> (r: Vec<Vec<char>>)
    ensures
        texts(r@) == words_of(s@),
{
    let mut done: Vec<Vec<char>> = Vec::new();
    let mut cur: Vec<char> = Vec::new();
    let mut i: usize = 0;
    assert(texts(done@) =~= Seq::<Seq<char>>::empty());
    while i < s.len()
        invariant
            i <= s.len(),
            texts(done@) + words_from(s@, i as int, cur@) == words_of(s@),
        decreases s.len() - i,
    {
        let ghost before = texts(done@);
        let ghost open = cur@;
        let c = s[i];
        if space(c) {
            if cur.len() > 0 {
                done.push(cur);
                cur = Vec::new();
                assert(texts(done@) =~= before.push(open));
                assert(before + (seq![open] + words_from(s@, i + 1, Seq::empty()))
                    =~= before.push(open) + words_from(s@, i + 1, Seq::empty()));
            } else {
                assert(cur@ =~= Seq::<char>::empty());
            }
        } else {
            cur.push(c);
        }
        i += 1;
    }
    if cur.len() > 0 {
        let ghost before = texts(done@);
        let ghost open = cur@;
        done.push(cur);
        assert(texts(done@) =~= before + seq![open]);
    } else {
        assert(texts(done@) + Seq::<Seq<char>>::empty() =~= texts(done@));
    }
    done
}

/// Whether the characters `a`, `b` occur next to each other in `w`.
pub open spec fn has_pair(w: Seq<char>, a: char, b: char) -> bool {
    exists|i: int| 0 <= i < w.len() - 1 && w[i] == a && #[trigger] w[i + 1] == b
}

/// Looks for the two-character symbol `a`, `b` in a word.
pub fn contains_pair(w: &Vec<char>, a: char, b: char) -> (r: bool)
    ensures
        r == has_pair(w@, a, b),
{
    if w.len() < 2 {
        return false;
    }
    let mut i: usize = 0;
    while i < w.len() - 1
        invariant
            2 <= w.len(),
            i <= w.len() - 1,
            forall|j: int| 0 <= j < i ==> !(w@[j] == a && #[trigger] w@[j + 1] == b),
        decreases w.len() - i,
    {
        if w[i] == a && w[i + 1] == b {
            return true;
        }
        i += 1;
    }
    false
}

/// The first position from `i` on at which the symbol `a`, `b` stands in
/// `w`, or the length of `w` where it stands nowhere.
pub open spec fn pair_index_from(w: Seq<char>, a: char, b: char, i: int) -> int
    decreases w.len() - i,
{
    if i < 0 || i + 1 >= w.len() {
        w.len() as int
    } else if w[i] == a && w[i + 1] == b {
        i
    } else {
        pair_index_from(w, a, b, i + 1)
    }
}

/// The first position at which the symbol `a`, `b` stands in `w`.
pub open spec fn pair_index(w: Seq<char>, a: char, b: char) -> int {
    pair_index_from(w, a, b, 0)
}

/// Finds the first position at which the symbol `a`, `b` stands in a word.
/// Where the word holds the symbol, it stands at that position and at none
/// before it.
pub fn find_pair(w: &Vec<char>, a: char, b: char) -> (r: usize)
    ensures
        r == pair_index(w@, a, b),
        r <= w.len(),
        has_pair(w@, a, b) ==> r + 1 < w.len() && w@[r as int] == a && w@[r + 1] == b,
        forall|j: int| 0 <= j < r && j + 1 < w.len() ==> !(w@[j] == a && #[trigger] w@[j + 1] == b),
{
    if w.len() < 2 {
        return w.len();
    }
    let mut i: usize = 0;
    while i < w.len() - 1
        invariant
            2 <= w.len(),
            i <= w.len() - 1,
            pair_index_from(w@, a, b, i as int) == pair_index(w@, a, b),
            forall|j: int| 0 <= j < i ==> !(w@[j] == a && #[trigger] w@[j + 1] == b),
        decreases w.len() - i,
    {
        if w[i] == a && w[i + 1] == b {
            return i;
        }
        i += 1;
    }
    w.len()
}

/// The characters of a word from position `from` up to position `to`.
pub fn slice_text(w: &Vec<char>, from: usize, to: usize) -> (r: Vec<char>)
    requires
        from <= to <= w.len(),
    ensures
        r@ == w@.subrange(from as int, to as int),
{
    let mut r: Vec<char> = Vec::new();
    let mut i: usize = from;
    while i < to
        invariant
            from <= i <= to <= w.len(),
            r@ == w@.subrange(from as int, i as int),
        decreases to - i,
    {
        r.push(w[i]);
        assert(w@.subrange(from as int, i + 1) =~= w@.subrange(from as int, i as int).push(
            w@[i as int],
        ));
        i += 1;
    }
    r
}

/// `w` from position `i` on, with every occurrence of the symbol `a`, `b`
/// replaced by `fill`, taken from left to right without overlap.
pub open spec fn replaced_from(w: Seq<char>, i: int, a: char, b: char, fill: Seq<char>) -> Seq<
    char,
>
    decreases w.len() - i,
{
    if i < 0 || i >= w.len() {
        Seq::empty()
    } else if i + 1 < w.len() && w[i] == a && w[i + 1] == b {
        fill + replaced_from(w, i + 2, a, b, fill)
    } else {
        seq![w[i]] + replaced_from(w, i + 1, a, b, fill)
    }
}

/// `w` with every occurrence of the symbol `a`, `b` replaced by `fill`.
pub open spec fn replaced(w: Seq<char>, a: char, b: char, fill: Seq<char>) -> Seq<char> {
    replaced_from(w, 0, a, b, fill)
}

/// Replaces every occurrence of the symbol `a`, `b` in a word by `fill`.
pub fn replace_pair(w: &Vec<char>, a: char, b: char, fill: &Vec<char>) -> (r: Vec<char>)
    ensures
        r@ == replaced(w@, a, b, fill@),
{
    let mut r: Vec<char> = Vec::new();
    let mut i: usize = 0;
    assert(r@ + replaced_from(w@, 0, a, b, fill@) =~= replaced(w@, a, b, fill@));
    while i < w.len()
        invariant
            i <= w.len(),
            r@ + replaced_from(w@, i as int, a, b, fill@) == replaced(w@, a, b, fill@),
        decreases w.len() - i,
    {
        let ghost prior = r@;
        if i + 1 < w.len() && w[i] == a && w[i + 1] == b {
            append_text(&mut r, fill);
            assert(prior + (fill@ + replaced_from(w@, i + 2, a, b, fill@)) =~= (prior + fill@)
                + replaced_from(w@, i + 2, a, b, fill@));
            i += 2;
        } else {
            r.push(w[i]);
            assert(prior + (seq![w@[i as int]] + replaced_from(w@, i + 1, a, b, fill@))
                =~= prior.push(w@[i as int]) + replaced_from(w@, i + 1, a, b, fill@));
            i += 1;
        }
    }
    assert(r@ + Seq::<char>::empty() =~= r@);
    r
}

/// The character of a decimal digit.
pub open spec fn digit(d: nat) -> char {
    if d == 0 {
        '0'
    } else if d == 1 {
        '1'
    } else if d == 2 {
        '2'
    } else if d == 3 {
        '3'
    } else if d == 4 {
        '4'
    } else if d == 5 {
        '5'
    } else if d == 6 {
        '6'
    } else if d == 7 {
        '7'
    } else if d == 8 {
        '8'
    } else {
        '9'
    }
}

/// A number in decimal digits, without leading zeros.
pub open spec fn decimal(n: nat) -> Seq<char>
    decreases n,
{
    if n < 10 {
        seq![digit(n)]
    } else {
        decimal(n / 10).push(digit(n % 10))
    }
}

fn digit_char(d: usize) -> (r: char)
    requires
        d < 10,
    ensures
        r == digit(d as nat),
{
    if d == 0 {
        '0'
    } else if d == 1 {
        '1'
    } else if d == 2 {
        '2'
    } else if d == 3 {
        '3'
    } else if d == 4 {
        '4'
    } else if d == 5 {
        '5'
    } else if d == 6 {
        '6'
    } else if d == 7 {
        '7'
    } else if d == 8 {
        '8'
    } else {
        '9'
    }
}

/// Writes a number in decimal digits.
pub fn decimal_text(n: usize) -> (r: Vec<char>)
    ensures
        r@ == decimal(n as nat),
    decreases n,
{
    if n < 10 {
        let mut r: Vec<char> = Vec::new();
        r.push(digit_char(n));
        assert(r@ =~= seq![digit(n as nat)]);
        r
    } else {
        let mut r = decimal_text(n / 10);
        r.push(digit_char(n % 10));
        r
    }
}

} // verus!
