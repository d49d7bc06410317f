//! The words of a text can be read back from its tokens.

use vstd::prelude::*;
use crate::lexer::{lex_lines, lex_text, lex_words, resolve, SourceModel};
use crate::reader::{
    any_word, is_separator, pair, placed_before_break, separator_in, type_word, use_word, Mode,
    ReaderModel, Sentinel, Step,
};
use crate::text::{
    expand_tabs, has_pair, is_space, line_words, lines_of, pair_index, replaced, replaced_from,
    tab_word, words_from, words_of,
};
use crate::tokens::Token;

verus! {

/// The words that a token stands for.
pub open spec fn token_words(t: Token) -> Seq<Seq<char>> {
    match t {
        Token::Tab => seq![tab_word()],
        Token::TypeKeyword => seq![type_word()],
        Token::UseKeyword => seq![use_word()],
        Token::Assignment => seq![pair('=', '>')],
        Token::Any => seq![any_word()],
        Token::TypeName(w) | Token::E(w) | Token::C(w) | Token::TypeAsDeclarationParameter(w)
        | Token::TypeInstance(w) | Token::Separator(w) | Token::Filename(w) => seq![w],
        Token::Content(c) => words_of(c),
        Token::CodeBlockOpen => seq![pair('[', '[')],
        Token::CodeBlockClose => seq![pair(']', ']')],
        Token::MathBlockOpen => seq![pair('{', '{')],
        Token::MathBlockClose => seq![pair('}', '}')],
        _ => Seq::empty(),
    }
}

/// `lines` with `words` added to the last line.
pub open spec fn extended(lines: Seq<Seq<Seq<char>>>, words: Seq<Seq<char>>) -> Seq<
    Seq<Seq<char>>,
> {
    lines.update(lines.len() - 1, lines.last() + words)
}

/// The lines of words that a stream of tokens stands for: a line break ends
/// a line, and every other token adds its words to the line.
pub open spec fn rendered(tokens: Seq<Token>) -> Seq<Seq<Seq<char>>>
    decreases tokens.len(),
{
    if tokens.len() == 0 {
        seq![Seq::empty()]
    } else if tokens.last() is Linebreak {
        rendered(tokens.drop_last()).push(Seq::empty())
    } else {
        extended(rendered(tokens.drop_last()), token_words(tokens.last()))
    }
}

/// The words of the lines of a text.
pub open spec fn text_words(text: Seq<char>) -> Seq<Seq<Seq<char>>> {
    Seq::new(lines_of(text).len(), |i: int| line_words(lines_of(text)[i]))
}

/// Whether a word is one of the four block symbols.
pub open spec fn is_block_symbol(w: Seq<char>) -> bool {
    w == pair('[', '[') || w == pair(']', ']') || w == pair('{', '{') || w == pair('}', '}')
}

/// A word is plain when it imports nothing and opens no comment.
pub open spec fn plain_word(w: Seq<char>) -> bool {
    &&& w != use_word()
    &&& !has_pair(w, '/', '/')
    &&& !has_pair(w, '/', '*')
}

/// Whether a text holds no import and no comment: all its words are plain.
pub open spec fn plain_text(text: Seq<char>) -> bool {
    forall|i: int, k: int|
        0 <= i < lines_of(text).len() && 0 <= k < line_words(lines_of(text)[i]).len()
            ==> plain_word(#[trigger] line_words(lines_of(text)[i])[k])
}

/// A word of prose is simple when it holds a separator or a block symbol
/// only where it is one.
pub open spec fn simple_prose(w: Seq<char>) -> bool {
    &&& separator_in(w) is None || is_separator(w)
    &&& is_block_symbol(w) || !(has_pair(w, '[', '[') || has_pair(w, ']', ']') || has_pair(
        w,
        '{',
        '{',
    ) || has_pair(w, '}', '}'))
}

/// Whether the reader reads a word as prose: it gathers prose already, or
/// it looks for keywords and the word is no keyword, stands neither where a
/// file name, a type name or an argument is due, opens no comment and is no
/// declared type.
pub open spec fn read_as_prose(s: ReaderModel, w: Seq<char>) -> bool {
    match s.mode {
        Mode::Contents => true,
        Mode::Comments => false,
        Mode::Keys => {
            &&& w != tab_word()
            &&& w != pair('/', '/')
            &&& w != pair('/', '*')
            &&& w != type_word()
            &&& w != use_word()
            &&& w != pair('=', '>')
            &&& !(s.last() == Some(Token::UseKeyword) && s.top() == Some(Sentinel::UseKeyword))
            &&& !(s.last() == Some(Token::TypeKeyword) && s.top() == Some(Sentinel::TypeKeyword))
            &&& !s.in_arguments()
            &&& !has_pair(w, '/', '/')
            &&& !has_pair(w, '/', '*')
            &&& !s.registry.contains(w)
        },
    }
}

/// Whether the words of a line from position `k` on that are read as prose
/// are simple.
pub open spec fn words_simple(
    s: ReaderModel,
    words: Seq<Seq<char>>,
    k: int,
    imports: Seq<SourceModel>,
) -> bool
    decreases words.len() - k,
{
    if k < 0 || k >= words.len() {
        true
    } else {
        &&& read_as_prose(s, words[k]) ==> simple_prose(words[k])
        &&& match s.step(words[k], false) {
            Step::Next(t) => words_simple(t, words, k + 1, imports),
            Step::Import(t) => match resolve(t, words[k], imports) {
                Ok(u) => words_simple(u, words, k + 1, imports),
                Err(e) => true,
            },
            Step::Fail(e) => true,
        }
    }
}

/// Whether the words of the lines from position `i` on that are read as
/// prose are simple.
pub open spec fn lines_simple(
    s: ReaderModel,
    lines: Seq<Seq<char>>,
    i: int,
    imports: Seq<SourceModel>,
) -> bool
    decreases lines.len() - i,
{
    if i < 0 || i >= lines.len() {
        true
    } else {
        &&& words_simple(s.begin_line(i == 0), line_words(lines[i]), 0, imports)
        &&& match lex_words(s.begin_line(i == 0), line_words(lines[i]), 0, imports) {
            Ok(t) => lines_simple(t, lines, i + 1, imports),
            Err(e) => true,
        }
    }
}

/// Whether the prose of a text is simple: every word that the lexer reads
/// as prose holds a separator or a block symbol only where it is one. A
/// word that the lexer reads as a type name, an argument or a type instance
/// may hold any of them.
pub open spec fn simple_text(
    text: Seq<char>,
    registry: Seq<Seq<char>>,
    imports: Seq<SourceModel>,
) -> bool {
    lines_simple(ReaderModel::start(registry), lines_of(text), 0, imports)
}

/// A word is solid when it is not empty and holds no white space.
pub open spec fn solid(w: Seq<char>) -> bool {
    &&& w.len() > 0
    &&& forall|i: int| 0 <= i < w.len() ==> !is_space(#[trigger] w[i])
}

/// A text is closed when no word is open at its end.
pub open spec fn closed(c: Seq<char>) -> bool {
    c.len() == 0 || is_space(c.last())
}

/// The words of a text are solid where the word that is open is.
proof fn lemma_words_solid(s: Seq<char>, i: int, cur: Seq<char>)
    requires
        0 <= i,
        forall|j: int| 0 <= j < cur.len() ==> !is_space(#[trigger] cur[j]),
    ensures
        forall|k: int| 0 <= k < words_from(s, i, cur).len() ==> solid(
            #[trigger] words_from(s, i, cur)[k],
        ),
    decreases s.len() - i,
{
    let r = words_from(s, i, cur);
    if i >= s.len() {
        if cur.len() > 0 {
            assert(solid(cur));
            assert(r =~= seq![cur]);
            assert forall|k: int| 0 <= k < r.len() implies solid(#[trigger] r[k]) by {
                assert(r[k] == cur);
            }
        } else {
            assert(r =~= Seq::<Seq<char>>::empty());
        }
    } else if is_space(s[i]) {
        lemma_words_solid(s, i + 1, Seq::empty());
        let rest = words_from(s, i + 1, Seq::empty());
        if cur.len() > 0 {
            assert(solid(cur));
            assert forall|k: int| 0 <= k < r.len() implies solid(#[trigger] r[k]) by {
                if k > 0 {
                    assert(r[k] == rest[k - 1]);
                }
            }
        } else {
            assert(r == rest);
        }
    } else {
        let next = cur.push(s[i]);
        assert forall|j: int| 0 <= j < next.len() implies !is_space(#[trigger] next[j]) by {
            if j < cur.len() {
                assert(next[j] == cur[j]);
            }
        }
        lemma_words_solid(s, i + 1, next);
        assert(r == words_from(s, i + 1, next));
    }
}

/// The words of a line are solid.
proof fn lemma_line_words_solid(line: Seq<char>)
    ensures
        forall|k: int| 0 <= k < line_words(line).len() ==> solid(#[trigger] line_words(line)[k]),
{
    lemma_words_solid(expand_tabs(line), 0, Seq::empty());
}

/// The words of the second of two texts are read from it as from both.
proof fn lemma_words_shift(a: Seq<char>, b: Seq<char>, j: int, cur: Seq<char>)
    requires
        0 <= j,
    ensures
        words_from(a + b, a.len() + j, cur) == words_from(b, j, cur),
    decreases b.len() - j,
{
    if j >= b.len() {
    } else {
        assert((a + b)[a.len() + j] == b[j]);
        if is_space(b[j]) {
            lemma_words_shift(a, b, j + 1, Seq::empty());
        } else {
            lemma_words_shift(a, b, j + 1, cur.push(b[j]));
        }
    }
}

/// The words after a text that white space ends are those of what follows.
proof fn lemma_words_split(a: Seq<char>, b: Seq<char>, i: int, cur: Seq<char>)
    requires
        0 <= i < a.len(),
        is_space(a.last()),
    ensures
        words_from(a + b, i, cur) == words_from(a, i, cur) + words_of(b),
    decreases a.len() - i,
{
    assert((a + b)[i] == a[i]);
    if i == a.len() - 1 {
        lemma_words_shift(a, b, 0, Seq::empty());
        assert(words_from(a, i + 1, Seq::empty()) =~= Seq::<Seq<char>>::empty());
        if cur.len() > 0 {
            assert(words_from(a + b, i, cur) =~= words_from(a, i, cur) + words_of(b));
        } else {
            assert(words_from(a + b, i, cur) =~= words_from(a, i, cur) + words_of(b));
        }
    } else if is_space(a[i]) {
        lemma_words_split(a, b, i + 1, Seq::empty());
        if cur.len() > 0 {
            assert(words_from(a + b, i, cur) =~= words_from(a, i, cur) + words_of(b));
        }
    } else {
        lemma_words_split(a, b, i + 1, cur.push(a[i]));
    }
}

/// The words of a closed text followed by another are the words of both.
proof fn lemma_words_concat(a: Seq<char>, b: Seq<char>)
    requires
        closed(a),
    ensures
        words_of(a + b) == words_of(a) + words_of(b),
{
    if a.len() == 0 {
        assert(a + b =~= b);
        assert(words_of(a) =~= Seq::<Seq<char>>::empty());
        assert(words_of(a) + words_of(b) =~= words_of(b));
    } else {
        lemma_words_split(a, b, 0, Seq::empty());
    }
}

/// A solid word is read character by character up to the space after it.
proof fn lemma_words_run(w: Seq<char>, i: int)
    requires
        solid(w),
        0 <= i <= w.len(),
    ensures
        words_from(w.push(' '), i, w.take(i)) == seq![w],
    decreases w.len() - i,
{
    let s = w.push(' ');
    if i == w.len() {
        assert(w.take(i) =~= w);
        assert(s[i] == ' ');
        assert(is_space(' '));
        assert(words_from(s, i + 1, Seq::empty()) =~= Seq::<Seq<char>>::empty());
        assert(words_from(s, i, w) =~= seq![w]);
    } else {
        assert(s[i] == w[i]);
        assert(w.take(i).push(w[i]) =~= w.take(i + 1));
        lemma_words_run(w, i + 1);
    }
}

/// A solid word followed by a space is one word.
proof fn lemma_words_of_word(w: Seq<char>)
    requires
        solid(w),
    ensures
        words_of(w.push(' ')) == seq![w],
{
    assert(w.take(0) =~= Seq::<char>::empty());
    lemma_words_run(w, 0);
}

/// A closed text followed by a solid word and a space has that word as its
/// last word, and is closed.
proof fn lemma_words_append(c: Seq<char>, w: Seq<char>)
    requires
        closed(c),
        solid(w),
    ensures
        words_of(c + w.push(' ')) == words_of(c).push(w),
        closed(c + w.push(' ')),
{
    lemma_words_concat(c, w.push(' '));
    lemma_words_of_word(w);
    assert(words_of(c) + seq![w] =~= words_of(c).push(w));
    assert((c + w.push(' ')).last() == ' ');
}

/// The lines of a stream with one more token.
proof fn lemma_rendered_push(out: Seq<Token>, t: Token)
    ensures
        rendered(out).len() > 0,
        rendered(out.push(t)) == if t is Linebreak {
            rendered(out).push(Seq::empty())
        } else {
            extended(rendered(out), token_words(t))
        },
{
    assert(out.push(t).drop_last() =~= out);
    lemma_rendered_some(out);
}

/// A stream stands for one line at least.
proof fn lemma_rendered_some(out: Seq<Token>)
    ensures
        rendered(out).len() > 0,
    decreases out.len(),
{
    if out.len() > 0 {
        lemma_rendered_some(out.drop_last());
    }
}

/// The lines that a reader stands for: those of its output, with the words
/// of the prose it holds added to the last.
pub open spec fn pictured(s: ReaderModel) -> Seq<Seq<Seq<char>>> {
    extended(rendered(s.output), words_of(s.contents))
}

/// A reader is calm when it reads no comment and holds none, has only
/// sentinels of a declaration on its scope stack, and holds closed prose,
/// and none while it looks for keywords.
pub open spec fn calm(s: ReaderModel) -> bool {
    &&& s.mode != Mode::Comments
    &&& s.comments.len() == 0
    &&& forall|j: int|
        0 <= j < s.scope.len() ==> #[trigger] s.scope[j] == Sentinel::TypeKeyword || s.scope[j]
            == Sentinel::Assignment
    &&& closed(s.contents)
    &&& s.mode == Mode::Keys ==> s.contents.len() == 0
}

/// Words added to the last line in two steps are added in one.
proof fn lemma_extended_twice(lines: Seq<Seq<Seq<char>>>, a: Seq<Seq<char>>, b: Seq<Seq<char>>)
    requires
        lines.len() > 0,
    ensures
        extended(extended(lines, a), b) == extended(lines, a + b),
        extended(lines, Seq::empty()) == lines,
{
    assert(extended(extended(lines, a), b) =~= extended(lines, a + b)) by {
        assert(extended(lines, a).last() + b =~= lines.last() + (a + b));
    }
    assert(extended(lines, Seq::empty()) =~= lines) by {
        assert(lines.last() + Seq::<Seq<char>>::empty() =~= lines.last());
    }
}

/// A symbol occurs in itself.
proof fn lemma_pair_has_pair(a: char, b: char)
    ensures
        has_pair(pair(a, b), a, b),
{
    let w = pair(a, b);
    let i = 0int;
    assert(w[i] == a && w[i + 1] == b);
}

/// Nothing is left of a symbol that is removed from itself.
proof fn lemma_pair_removed(a: char, b: char)
    ensures
        replaced(pair(a, b), a, b, Seq::empty()) == Seq::<char>::empty(),
{
    let w = pair(a, b);
    assert(replaced_from(w, 2, a, b, Seq::empty()) =~= Seq::<char>::empty());
    assert(replaced_from(w, 0, a, b, Seq::empty()) =~= Seq::<char>::empty());
}

/// A separator that stands alone is the first separator in itself, at its
/// start, and nothing stands before or after it.
proof fn lemma_separator_alone(w: Seq<char>)
    requires
        is_separator(w),
    ensures
        separator_in(w) is Some,
        ({
            let found = separator_in(w)->0;
            pair(found.0, found.1) == w && pair_index(w, found.0, found.1) == 0
        }),
        w.subrange(0, 0) == Seq::<char>::empty(),
        w.subrange(2, w.len() as int) == Seq::<char>::empty(),
        !is_block_symbol(w),
        !(has_pair(w, '[', '[') || has_pair(w, ']', ']') || has_pair(w, '{', '{') || has_pair(
            w,
            '}',
            '}',
        )),
{
    let i = 0int;
    assert(w.len() == 2);
    if w == pair(':', ':') {
        assert(w[i] == ':' && w[i + 1] == ':');
    } else if w == pair('-', '>') {
        assert(w[i] == '-' && w[i + 1] == '>');
        assert(!has_pair(w, ':', ':'));
    } else {
        assert(w[i] == ',' && w[i + 1] == ',');
        assert(!has_pair(w, ':', ':'));
        assert(!has_pair(w, '-', '>'));
    }
    assert(w.subrange(0, 0) =~= Seq::<char>::empty());
    assert(w.subrange(2, w.len() as int) =~= Seq::<char>::empty());
    assert(w[0] != '[' && w[0] != ']' && w[0] != '{' && w[0] != '}');
}

/// A space alone holds no word.
proof fn lemma_words_of_blank()
    ensures
        words_of(seq![' ']) == Seq::<Seq<char>>::empty(),
{
    let s = seq![' '];
    assert(is_space(s[0]));
    assert(words_from(s, 1, Seq::empty()) =~= Seq::<Seq<char>>::empty());
}

/// The output of a reader that emits a token other than a line break.
proof fn lemma_emit_rendered(s: ReaderModel, t: Token)
    requires
        !(t is Linebreak),
    ensures
        rendered(s.emit(t).output) == extended(rendered(s.output), token_words(t)),
        rendered(s.output).len() > 0,
{
    lemma_rendered_push(s.output, t);
}

/// A simple word read in `Keys` mode adds itself to the line.
proof fn lemma_keys_pictured(s: ReaderModel, w: Seq<char>, abridged: bool)
    requires
        calm(s),
        s.mode == Mode::Keys,
        solid(w),
        plain_word(w),
        read_as_prose(s, w) ==> simple_prose(w),
    ensures
        match s.keys_step(w, abridged) {
            Step::Next(t) => calm(t) && pictured(t) == extended(pictured(s), seq![w]),
            Step::Import(t) => false,
            Step::Fail(e) => true,
        },
{
    let out = rendered(s.output);
    lemma_rendered_some(s.output);
    lemma_extended_twice(out, seq![w], Seq::empty());
    assert(s.contents =~= Seq::<char>::empty());
    assert(words_of(s.contents) =~= Seq::<Seq<char>>::empty());
    assert(pictured(s) == out);
    lemma_pair_has_pair('/', '/');
    lemma_pair_has_pair('/', '*');
    lemma_pair_removed('[', '[');
    lemma_pair_removed('{', '{');
    if s.scope.len() > 0 {
        assert(s.scope[s.scope.len() - 1] == s.scope.last());
    }
    match s.keys_step(w, abridged) {
        Step::Next(t) => {
            assert(calm(t)) by {
                assert forall|j: int| 0 <= j < t.scope.len() implies #[trigger] t.scope[j]
                    == Sentinel::TypeKeyword || t.scope[j] == Sentinel::Assignment by {
                    if j < s.scope.len() {
                        assert(t.scope[j] == s.scope[j]);
                    }
                }
                if t.contents.len() > 0 {
                    lemma_words_append(s.contents, w);
                }
            }
            lemma_emit_rendered(s, Token::Tab);
            lemma_emit_rendered(s, Token::TypeKeyword);
            lemma_emit_rendered(s, Token::Assignment);
            lemma_emit_rendered(s, Token::Any);
            lemma_emit_rendered(s, Token::TypeName(w));
            lemma_emit_rendered(s, Token::TypeAsDeclarationParameter(w));
            lemma_emit_rendered(s, Token::E(w));
            lemma_emit_rendered(s, Token::C(w));
            lemma_emit_rendered(s, Token::TypeInstance(w));
            lemma_emit_rendered(s, Token::CodeBlockOpen);
            lemma_emit_rendered(s, Token::MathBlockOpen);
            if is_separator(w) {
                lemma_separator_alone(w);
                lemma_words_of_blank();
                let c = Token::Content(s.contents + w.subrange(0, 0).push(' '));
                assert(s.contents + w.subrange(0, 0).push(' ') =~= seq![' ']);
                lemma_rendered_push(s.output, c);
                lemma_rendered_push(s.output.push(c), Token::Separator(w));
                lemma_extended_twice(out, Seq::empty(), seq![w]);
            }
            if t.contents.len() > 0 {
                lemma_words_append(s.contents, w);
                assert(words_of(s.contents).push(w) =~= seq![w]);
                assert(t.output == s.output);
            } else {
                assert(t.contents =~= Seq::<char>::empty());
                lemma_rendered_some(t.output);
                lemma_extended_twice(rendered(t.output), Seq::empty(), Seq::empty());
            }
        },
        Step::Import(t) => {},
        Step::Fail(e) => {},
    }
}

/// A simple word read in `Contents` mode adds itself to the line.
proof fn lemma_contents_pictured(s: ReaderModel, w: Seq<char>)
    requires
        calm(s),
        s.mode == Mode::Contents,
        solid(w),
        simple_prose(w),
    ensures
        calm(s.contents_step(w)),
        pictured(s.contents_step(w)) == extended(pictured(s), seq![w]),
{
    let t = s.contents_step(w);
    let out = rendered(s.output);
    lemma_rendered_some(s.output);
    if is_separator(w) {
        lemma_separator_alone(w);
    }
    if is_block_symbol(w) || is_separator(w) {
        let c = Token::Content(s.contents);
        let sym = t.output.last();
        assert(t.output == s.output.push(c).push(sym));
        assert(token_words(sym) == seq![w]);
        lemma_rendered_push(s.output, c);
        lemma_rendered_push(s.output.push(c), sym);
        lemma_rendered_some(t.output);
        assert(t.contents =~= Seq::<char>::empty());
        assert(words_of(t.contents) =~= Seq::<Seq<char>>::empty());
        lemma_extended_twice(rendered(t.output), Seq::empty(), Seq::empty());
    } else {
        assert(t.output == s.output);
        lemma_words_append(s.contents, w);
        lemma_extended_twice(out, words_of(s.contents), seq![w]);
        assert(words_of(s.contents) + seq![w] =~= words_of(s.contents).push(w));
    }
}

/// A simple word adds itself to the line that the reader stands for.
proof fn lemma_step_pictured(s: ReaderModel, w: Seq<char>, abridged: bool)
    requires
        calm(s),
        solid(w),
        plain_word(w),
        read_as_prose(s, w) ==> simple_prose(w),
    ensures
        match s.step(w, abridged) {
            Step::Next(t) => calm(t) && pictured(t) == extended(pictured(s), seq![w]),
            Step::Import(t) => false,
            Step::Fail(e) => true,
        },
{
    let s1 = ReaderModel { word: s.word + 1, ..s };
    assert(pictured(s1) == pictured(s));
    assert(read_as_prose(s1, w) == read_as_prose(s, w));
    match s1.mode {
        Mode::Keys => lemma_keys_pictured(s1, w, abridged),
        Mode::Contents => lemma_contents_pictured(s1, w),
        Mode::Comments => {},
    }
}

/// The start of a line ends the line that the reader stands for.
proof fn lemma_begin_line_pictured(s: ReaderModel, first: bool)
    requires
        calm(s),
        first ==> s.output.len() == 0 && s.contents.len() == 0,
    ensures
        calm(s.begin_line(first)),
        pictured(s.begin_line(first)) == if first {
            seq![Seq::<Seq<char>>::empty()]
        } else {
            pictured(s).push(Seq::empty())
        },
{
    let t = s.begin_line(first);
    let out = rendered(s.output);
    lemma_rendered_some(s.output);
    if s.scope.len() > 0 {
        assert(s.scope[s.scope.len() - 1] == s.scope.last());
    }
    assert(s.top() != Some(Sentinel::CommentOpen));
    assert(t.contents =~= Seq::<char>::empty());
    assert(words_of(t.contents) =~= Seq::<Seq<char>>::empty());
    lemma_rendered_some(t.output);
    lemma_extended_twice(rendered(t.output), Seq::empty(), Seq::empty());
    if first {
        assert(t.output =~= Seq::<Token>::empty());
    } else {
        let a = s.output.push(Token::Linebreak);
        lemma_rendered_push(s.output, Token::Linebreak);
        if s.contents.len() > 0 {
            let c = Token::Content(s.contents);
            assert(a.drop_last() =~= s.output);
            assert(placed_before_break(a, c) == s.output.push(c).push(Token::Linebreak));
            lemma_rendered_push(s.output, c);
            lemma_rendered_push(s.output.push(c), Token::Linebreak);
        } else {
            assert(s.contents =~= Seq::<char>::empty());
            lemma_extended_twice(out, Seq::empty(), Seq::empty());
        }
    }
}

/// The words of the first `i` lines.
pub open spec fn words_upto(lines: Seq<Seq<char>>, i: int) -> Seq<Seq<Seq<char>>> {
    Seq::new(i as nat, |j: int| line_words(lines[j]))
}

/// The words of a line add themselves to it one by one.
proof fn lemma_lex_words_pictured(
    s: ReaderModel,
    words: Seq<Seq<char>>,
    k: int,
    imports: Seq<SourceModel>,
    base: Seq<Seq<Seq<char>>>,
)
    requires
        0 <= k <= words.len(),
        calm(s),
        forall|j: int| 0 <= j < words.len() ==> solid(#[trigger] words[j]) && plain_word(words[j]),
        words_simple(s, words, k, imports),
        pictured(s) == base.push(words.take(k)),
    ensures
        match lex_words(s, words, k, imports) {
            Ok(t) => calm(t) && pictured(t) == base.push(words),
            Err(e) => true,
        },
    decreases words.len() - k,
{
    if k >= words.len() {
        assert(words.take(k) =~= words);
    } else {
        lemma_step_pictured(s, words[k], false);
        match s.step(words[k], false) {
            Step::Next(t) => {
                assert(extended(base.push(words.take(k)), seq![words[k]]) =~= base.push(
                    words.take(k + 1),
                )) by {
                    assert(words.take(k) + seq![words[k]] =~= words.take(k + 1));
                }
                lemma_lex_words_pictured(t, words, k + 1, imports, base);
            },
            Step::Import(t) => {},
            Step::Fail(e) => {},
        }
    }
}

/// The lines of a text are added one by one.
proof fn lemma_lex_lines_pictured(
    s: ReaderModel,
    lines: Seq<Seq<char>>,
    i: int,
    imports: Seq<SourceModel>,
)
    requires
        0 <= i <= lines.len(),
        calm(s),
        forall|a: int, k: int|
            0 <= a < lines.len() && 0 <= k < line_words(lines[a]).len() ==> plain_word(
                #[trigger] line_words(lines[a])[k],
            ),
        lines_simple(s, lines, i, imports),
        i == 0 ==> s.output.len() == 0 && s.contents.len() == 0,
        i > 0 ==> pictured(s) == words_upto(lines, i),
    ensures
        match lex_lines(s, lines, i, imports) {
            Ok(t) => calm(t) && pictured(t) == if lines.len() == 0 {
                pictured(s)
            } else {
                words_upto(lines, lines.len() as int)
            },
            Err(e) => true,
        },
    decreases lines.len() - i,
{
    if i >= lines.len() {
    } else {
        let words = line_words(lines[i]);
        lemma_begin_line_pictured(s, i == 0);
        lemma_line_words_solid(lines[i]);
        let b = s.begin_line(i == 0);
        let base = words_upto(lines, i);
        assert(words.take(0) =~= Seq::<Seq<char>>::empty());
        assert(pictured(b) =~= base.push(words.take(0)));
        lemma_lex_words_pictured(b, words, 0, imports, base);
        match lex_words(b, words, 0, imports) {
            Ok(t) => {
                assert(base.push(words) =~= words_upto(lines, i + 1));
                lemma_lex_lines_pictured(t, lines, i + 1, imports);
            },
            Err(e) => {},
        }
    }
}

/// Whether every word of a text is simple as prose.
pub open spec fn simple_words(text: Seq<char>) -> bool {
    forall|i: int, k: int|
        0 <= i < lines_of(text).len() && 0 <= k < line_words(lines_of(text)[i]).len()
            ==> simple_prose(#[trigger] line_words(lines_of(text)[i])[k])
}

/// Words that are all simple are simple where they are read as prose.
proof fn lemma_words_simple(
    s: ReaderModel,
    words: Seq<Seq<char>>,
    k: int,
    imports: Seq<SourceModel>,
)
    requires
        forall|j: int| 0 <= j < words.len() ==> simple_prose(#[trigger] words[j]),
    ensures
        words_simple(s, words, k, imports),
    decreases words.len() - k,
{
    if 0 <= k < words.len() {
        match s.step(words[k], false) {
            Step::Next(t) => lemma_words_simple(t, words, k + 1, imports),
            Step::Import(t) => match resolve(t, words[k], imports) {
                Ok(u) => lemma_words_simple(u, words, k + 1, imports),
                Err(e) => {},
            },
            Step::Fail(e) => {},
        }
    }
}

/// Lines whose words are all simple are simple where they are read as
/// prose.
proof fn lemma_lines_simple(
    s: ReaderModel,
    lines: Seq<Seq<char>>,
    i: int,
    imports: Seq<SourceModel>,
)
    requires
        forall|a: int, k: int|
            0 <= a < lines.len() && 0 <= k < line_words(lines[a]).len() ==> simple_prose(
                #[trigger] line_words(lines[a])[k],
            ),
    ensures
        lines_simple(s, lines, i, imports),
    decreases lines.len() - i,
{
    if 0 <= i < lines.len() {
        let b = s.begin_line(i == 0);
        lemma_words_simple(b, line_words(lines[i]), 0, imports);
        match lex_words(b, line_words(lines[i]), 0, imports) {
            Ok(t) => lemma_lines_simple(t, lines, i + 1, imports),
            Err(e) => {},
        }
    }
}

/// A text whose words are all simple as prose has simple prose, whatever
/// names are declared and whatever files may be imported.
pub proof fn lemma_simple_words_suffice(
    text: Seq<char>,
    registry: Seq<Seq<char>>,
    imports: Seq<SourceModel>,
)
    requires
        simple_words(text),
    ensures
        simple_text(text, registry, imports),
{
    lemma_lines_simple(ReaderModel::start(registry), lines_of(text), 0, imports);
}

/// The words of a text can be read back from its tokens. Where a text
/// holds no import and no comment, the words that the lexer reads as prose
/// are simple, and the text lexes, its tokens stand for the lines of the
/// text, each with its words in their order; the tokens of the empty text
/// stand for one line without words.
pub proof fn lemma_round_trip(text: Seq<char>, registry: Seq<Seq<char>>, imports: Seq<SourceModel>)
    requires
        plain_text(text),
        simple_text(text, registry, imports),
    ensures
        match lex_text(text, registry, imports) {
            Ok((tokens, names)) => rendered(tokens) == if lines_of(text).len() == 0 {
                seq![Seq::<Seq<char>>::empty()]
            } else {
                text_words(text)
            },
            Err(e) => true,
        },
{
    let start = ReaderModel::start(registry);
    let lines = lines_of(text);
    assert(words_of(start.contents) =~= Seq::<Seq<char>>::empty());
    lemma_lex_lines_pictured(start, lines, 0, imports);
    match lex_lines(start, lines, 0, imports) {
        Ok(s) => {
            lemma_rendered_some(s.output);
            if s.scope.len() > 0 {
                assert(s.scope[s.scope.len() - 1] == s.scope.last());
            }
            assert(!s.comment_open());
            if s.contents.len() > 0 {
                lemma_rendered_push(s.output, Token::Content(s.contents));
            } else {
                assert(s.contents =~= Seq::<char>::empty());
                lemma_extended_twice(rendered(s.output), Seq::empty(), Seq::empty());
            }
            assert(words_upto(lines, lines.len() as int) =~= text_words(text));
            assert(rendered(start.output) =~= seq![Seq::<Seq<char>>::empty()]);
            lemma_extended_twice(rendered(start.output), Seq::empty(), Seq::empty());
        },
        Err(e) => {},
    }
}

} // verus!
