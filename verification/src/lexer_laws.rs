//! What holds of every text that the lexer accepts.

use vstd::prelude::*;
use crate::issue::{LexErrorKind, LexIssue};
use crate::lexer::{
    abridged_lines, abridged_text, abridged_words, clash_from, declarations_from, lex_end,
    lex_lines, lex_text, lex_words, resolve, AbridgedModel, SourceModel,
};
use crate::lexer::{is_declaration_token, source_from};
use crate::reader::{
    blank, pair, placed_before_break, separator_in, Mode, ReaderModel, Sentinel, Step,
};
use crate::text::{line_words, lines_of, pair_index, replaced};
use crate::tokens::Token;

verus! {

/// The number of `CommentOpen` tokens in a stream.
pub open spec fn opened(out: Seq<Token>) -> nat
    decreases out.len(),
{
    if out.len() == 0 {
        0
    } else {
        opened(out.drop_last()) + if out.last() is CommentOpen {
            1nat
        } else {
            0nat
        }
    }
}

/// A reader is sound when the block comments it has opened are those it has
/// closed and the one that is open, which is then on top of the scope stack
/// and read in `Comments` mode.
pub open spec fn sound(s: ReaderModel) -> bool {
    &&& opened(s.output) == s.exits + if s.comment_open() {
        1nat
    } else {
        0nat
    }
    &&& s.comment_open() ==> s.mode == Mode::Comments && s.top() == Some(Sentinel::CommentOpen)
        && !s.scope.drop_last().contains(Sentinel::CommentOpen)
}

/// The names of `after` start with the names of `before`, and are distinct
/// where those are.
pub open spec fn grown(before: Seq<Seq<char>>, after: Seq<Seq<char>>) -> bool {
    &&& before.is_prefix_of(after)
    &&& before.no_duplicates() ==> after.no_duplicates()
}

/// One more token counts as one more `CommentOpen` where it is one.
proof fn lemma_opened_push(out: Seq<Token>, t: Token)
    ensures
        opened(out.push(t)) == opened(out) + if t is CommentOpen {
            1nat
        } else {
            0nat
        },
{
    assert(out.push(t).drop_last() =~= out);
}

/// The count of two streams in a row is the sum of their counts.
proof fn lemma_opened_add(a: Seq<Token>, b: Seq<Token>)
    ensures
        opened(a + b) == opened(a) + opened(b),
    decreases b.len(),
{
    if b.len() == 0 {
    } else {
        assert((a + b).drop_last() =~= a + b.drop_last());
        lemma_opened_add(a, b.drop_last());
    }
}

/// A token placed before the last line break counts as one emitted.
proof fn lemma_opened_placed(out: Seq<Token>, t: Token)
    requires
        !(t is CommentOpen),
    ensures
        opened(placed_before_break(out, t)) == opened(out),
{
    if out.len() > 0 && out.last() == Token::Linebreak {
        lemma_opened_push(out.drop_last(), t);
        lemma_opened_push(out.drop_last().push(t), Token::Linebreak);
    } else {
        lemma_opened_push(out, t);
    }
}

/// The start of a line keeps a reader sound.
proof fn lemma_begin_line_sound(s: ReaderModel, first: bool)
    requires
        sound(s),
    ensures
        sound(s.begin_line(first)),
        s.begin_line(first).registry == s.registry,
{
    if s.top() == Some(Sentinel::CommentOpen) {
        assert(s.scope.contains(Sentinel::CommentOpen));
        if s.comments.len() > 0 {
            lemma_opened_push(s.output, Token::CommentContents(s.comments));
            lemma_opened_push(s.output.push(Token::CommentContents(s.comments)), Token::Linebreak);
        }
    } else {
        let a = if first {
            s.output
        } else {
            s.output.push(Token::Linebreak)
        };
        lemma_opened_push(s.output, Token::Linebreak);
        let b = if s.contents.len() > 0 {
            placed_before_break(a, Token::Content(s.contents))
        } else {
            a
        };
        lemma_opened_placed(a, Token::Content(s.contents));
        lemma_opened_placed(b, Token::CommentContents(s.comments));
    }
}

/// A word keeps a reader sound and lets the registry grow.
proof fn lemma_step_sound(s: ReaderModel, w: Seq<char>, abridged: bool)
    requires
        sound(s),
    ensures
        match s.step(w, abridged) {
            Step::Next(t) | Step::Import(t) => sound(t) && grown(s.registry, t.registry),
            Step::Fail(e) => true,
        },
{
    let s1 = ReaderModel { word: s.word + 1, ..s };
    match s1.mode {
        Mode::Keys => lemma_keys_sound(s1, w, abridged),
        Mode::Contents => lemma_contents_sound(s1, w),
        Mode::Comments => lemma_comments_sound(s1, w),
    }
}

/// A word read in `Keys` mode keeps a reader sound.
proof fn lemma_keys_sound(s: ReaderModel, w: Seq<char>, abridged: bool)
    requires
        sound(s),
        s.mode == Mode::Keys,
    ensures
        match s.keys_step(w, abridged) {
            Step::Next(t) | Step::Import(t) => sound(t) && grown(s.registry, t.registry),
            Step::Fail(e) => true,
        },
{
    match s.keys_step(w, abridged) {
        Step::Next(t) | Step::Import(t) => {
            lemma_opened_push(s.output, Token::Tab);
            lemma_opened_push(s.output, Token::CommentLine);
            lemma_opened_push(s.output, Token::CommentOpen);
            lemma_opened_push(s.output, Token::TypeKeyword);
            lemma_opened_push(s.output, Token::UseKeyword);
            lemma_opened_push(s.output, Token::Assignment);
            lemma_opened_push(s.output, Token::Any);
            lemma_opened_push(s.output, Token::CodeBlockOpen);
            lemma_opened_push(s.output, Token::MathBlockOpen);
            lemma_opened_push(s.output, Token::Filename(w));
            lemma_opened_push(s.output.push(Token::Filename(w)), Token::Linebreak);
            lemma_opened_push(s.output, Token::TypeName(w));
            lemma_opened_push(s.output, Token::TypeAsDeclarationParameter(w));
            lemma_opened_push(s.output, Token::E(w));
            lemma_opened_push(s.output, Token::C(w));
            lemma_opened_push(s.output, Token::TypeInstance(w));
            match separator_in(w) {
                Some((a, b)) => {
                    let c = Token::Content(
                        s.contents + w.subrange(0, pair_index(w, a, b)).push(' '),
                    );
                    lemma_opened_push(s.output, c);
                    lemma_opened_push(s.output.push(c), Token::Separator(pair(a, b)));
                },
                None => {},
            }
        },
        Step::Fail(e) => {},
    }
}

/// A word read in `Contents` mode keeps a reader sound.
proof fn lemma_contents_sound(s: ReaderModel, w: Seq<char>)
    requires
        sound(s),
        s.mode == Mode::Contents,
    ensures
        sound(s.contents_step(w)),
        s.contents_step(w).registry == s.registry,
{
    lemma_contents_opened(s, w);
}

/// Prose followed by a block symbol opens no comment.
proof fn lemma_symbol_opened(s: ReaderModel, text: Seq<char>, t: Token)
    requires
        !(t is CommentOpen),
    ensures
        opened(s.emit(Token::Content(text)).emit(t).output) == opened(s.output),
{
    lemma_opened_push(s.output, Token::Content(text));
    lemma_opened_push(s.output.push(Token::Content(text)), t);
}

/// A word with a closing block symbol opens no comment.
proof fn lemma_closing_opened(s: ReaderModel, w: Seq<char>, a: char, b: char, t: Token)
    requires
        !(t is CommentOpen),
    ensures
        opened(s.contents_closing(w, a, b, t).output) == opened(s.output),
{
    match separator_in(w) {
        Some((x, y)) => {
            let text = s.contents + replaced(
                replaced(w, a, b, Seq::empty()),
                x,
                y,
                blank(),
            );
            lemma_symbol_opened(s, text, t);
            lemma_opened_push(
                s.output.push(Token::Content(text)).push(t),
                Token::Separator(pair(x, y)),
            );
        },
        None => {
            lemma_symbol_opened(
                s,
                s.contents + replaced(w, a, b, blank()),
                t,
            );
        },
    }
}

/// A word read in `Contents` mode opens no comment.
proof fn lemma_contents_opened(s: ReaderModel, w: Seq<char>)
    ensures
        opened(s.contents_step(w).output) == opened(s.output),
{
    lemma_symbol_opened(s, s.contents, Token::CodeBlockOpen);
    lemma_symbol_opened(s, s.contents, Token::CodeBlockClose);
    lemma_symbol_opened(s, s.contents, Token::MathBlockOpen);
    lemma_symbol_opened(s, s.contents, Token::MathBlockClose);
    lemma_closing_opened(s, w, ']', ']', Token::CodeBlockClose);
    lemma_closing_opened(s, w, '}', '}', Token::MathBlockClose);
    lemma_symbol_opened(s, s.contents, Token::Separator(w));
}

/// A word read in `Comments` mode keeps a reader sound.
proof fn lemma_comments_sound(s: ReaderModel, w: Seq<char>)
    requires
        sound(s),
        s.mode == Mode::Comments,
    ensures
        match s.comments_step(w) {
            Step::Next(t) | Step::Import(t) => sound(t) && t.registry == s.registry,
            Step::Fail(e) => true,
        },
{
    match s.comments_step(w) {
        Step::Next(t) | Step::Import(t) => {
            lemma_opened_push(s.output, Token::CommentContents(s.comments));
            lemma_opened_push(
                s.output,
                Token::CommentContents(
                    s.comments + replaced(w, '*', '/', blank()),
                ),
            );
        },
        Step::Fail(e) => {},
    }
}

/// The tokens of declarations hold no `CommentOpen`.
proof fn lemma_declarations_opened(out: Seq<Token>, i: int)
    ensures
        opened(declarations_from(out, i)) == 0,
    decreases out.len() - i,
{
    if i < 0 || i >= out.len() {
    } else {
        lemma_declarations_opened(out, i + 1);
        if is_declaration_token(out[i]) {
            lemma_opened_add(seq![out[i]], declarations_from(out, i + 1));
            lemma_opened_push(Seq::empty(), out[i]);
        }
    }
}

/// The words of an imported line keep the reader sound and its names distinct.
proof fn lemma_abridged_words_sound(a: AbridgedModel, words: Seq<Seq<char>>, k: int)
    requires
        sound(a.reader),
        a.reader.registry.no_duplicates(),
        opened(a.declarations) == 0,
    ensures
        match abridged_words(a, words, k) {
            Ok(b) => sound(b.reader) && b.reader.registry.no_duplicates() && opened(
                b.declarations,
            ) == 0,
            Err(e) => true,
        },
    decreases words.len() - k,
{
    if k < 0 || k >= words.len() {
    } else {
        lemma_step_sound(a.reader, words[k], true);
        match a.reader.step(words[k], true) {
            Step::Next(s) | Step::Import(s) => {
                lemma_declarations_opened(s.output, a.reader.output.len() as int);
                lemma_opened_add(
                    a.declarations,
                    declarations_from(s.output, a.reader.output.len() as int),
                );
                lemma_abridged_words_sound(a.after_word(s), words, k + 1);
            },
            Step::Fail(e) => {},
        }
    }
}

/// The lines of an imported text keep the reader sound and its names distinct.
proof fn lemma_abridged_lines_sound(a: AbridgedModel, lines: Seq<Seq<char>>, i: int)
    requires
        sound(a.reader),
        a.reader.registry.no_duplicates(),
        opened(a.declarations) == 0,
    ensures
        match abridged_lines(a, lines, i) {
            Ok(b) => sound(b.reader) && b.reader.registry.no_duplicates() && opened(
                b.declarations,
            ) == 0,
            Err(e) => true,
        },
    decreases lines.len() - i,
{
    if i < 0 || i >= lines.len() {
    } else {
        lemma_begin_line_sound(a.reader, i == 0);
        lemma_opened_push(a.declarations, Token::Linebreak);
        lemma_abridged_words_sound(a.begin_line(i == 0), line_words(lines[i]), 0);
        match abridged_words(a.begin_line(i == 0), line_words(lines[i]), 0) {
            Ok(b) => lemma_abridged_lines_sound(b, lines, i + 1),
            Err(e) => {},
        }
    }
}

/// The declarations of an imported text hold no `CommentOpen`, and its names
/// are distinct.
proof fn lemma_abridged_text_sound(text: Seq<char>)
    ensures
        match abridged_text(text) {
            Ok((tokens, names)) => opened(tokens) == 0 && names.no_duplicates(),
            Err(e) => true,
        },
{
    lemma_abridged_lines_sound(AbridgedModel::start(), lines_of(text), 0);
}

/// Where no name clashes, none of the names is registered.
proof fn lemma_no_clash(registry: Seq<Seq<char>>, names: Seq<Seq<char>>, i: int)
    requires
        0 <= i,
        clash_from(registry, names, i) is None,
    ensures
        forall|j: int| i <= j < names.len() ==> !registry.contains(#[trigger] names[j]),
    decreases names.len() - i,
{
    if i < names.len() {
        lemma_no_clash(registry, names, i + 1);
    }
}

/// An import keeps a reader sound and lets the registry grow.
proof fn lemma_resolve_sound(s: ReaderModel, w: Seq<char>, imports: Seq<SourceModel>)
    requires
        sound(s),
    ensures
        match resolve(s, w, imports) {
            Ok(t) => sound(t) && grown(s.registry, t.registry),
            Err(e) => true,
        },
{
    match resolve(s, w, imports) {
        Ok(t) => {
            let text = source_from(imports, w, 0)->0.contents->0;
            lemma_abridged_text_sound(text);
            let (tokens, names) = abridged_text(text)->Ok_0;
            lemma_opened_add(s.output, tokens);
            lemma_no_clash(s.registry, names, 0);
            assert forall|i: int, j: int|
                0 <= i < s.registry.len() && 0 <= j < names.len() implies s.registry[i]
                != names[j] by {
            }
        },
        Err(e) => {},
    }
}

/// Growth of the registry goes on from step to step.
proof fn lemma_prefix_chain(a: Seq<Seq<char>>, b: Seq<Seq<char>>, c: Seq<Seq<char>>)
    requires
        grown(a, b),
        grown(b, c),
    ensures
        grown(a, c),
{
}

/// The words of a line keep a reader sound and let the registry grow.
proof fn lemma_lex_words_sound(
    s: ReaderModel,
    words: Seq<Seq<char>>,
    k: int,
    imports: Seq<SourceModel>,
)
    requires
        sound(s),
    ensures
        match lex_words(s, words, k, imports) {
            Ok(t) => sound(t) && grown(s.registry, t.registry),
            Err(e) => true,
        },
    decreases words.len() - k,
{
    if k < 0 || k >= words.len() {
    } else {
        lemma_step_sound(s, words[k], false);
        match s.step(words[k], false) {
            Step::Next(t) => {
                lemma_lex_words_sound(t, words, k + 1, imports);
                match lex_words(t, words, k + 1, imports) {
                    Ok(u) => lemma_prefix_chain(s.registry, t.registry, u.registry),
                    Err(e) => {},
                }
            },
            Step::Import(t) => {
                lemma_resolve_sound(t, words[k], imports);
                match resolve(t, words[k], imports) {
                    Ok(u) => lemma_lex_words_sound(u, words, k + 1, imports),
                    Err(e) => {},
                }
            },
            Step::Fail(e) => {},
        }
    }
}

/// The lines of a text keep a reader sound and let the registry grow.
proof fn lemma_lex_lines_sound(
    s: ReaderModel,
    lines: Seq<Seq<char>>,
    i: int,
    imports: Seq<SourceModel>,
)
    requires
        sound(s),
    ensures
        match lex_lines(s, lines, i, imports) {
            Ok(t) => sound(t) && grown(s.registry, t.registry),
            Err(e) => true,
        },
    decreases lines.len() - i,
{
    if i < 0 || i >= lines.len() {
    } else {
        lemma_begin_line_sound(s, i == 0);
        lemma_lex_words_sound(s.begin_line(i == 0), line_words(lines[i]), 0, imports);
        match lex_words(s.begin_line(i == 0), line_words(lines[i]), 0, imports) {
            Ok(t) => {
                lemma_lex_lines_sound(t, lines, i + 1, imports);
                match lex_lines(t, lines, i + 1, imports) {
                    Ok(u) => lemma_prefix_chain(s.registry, t.registry, u.registry),
                    Err(e) => {},
                }
            },
            Err(e) => {},
        }
    }
}

/// The reader that ends a text is sound, with no block comment open.
proof fn lemma_lex_end_sound(text: Seq<char>, registry: Seq<Seq<char>>, imports: Seq<SourceModel>)
    ensures
        match lex_end(text, registry, imports) {
            Ok(s) => sound(s) && !s.comment_open() && grown(registry, s.registry),
            Err(e) => true,
        },
{
    let start = ReaderModel::start(registry);
    lemma_lex_lines_sound(start, lines_of(text), 0, imports);
    match lex_lines(start, lines_of(text), 0, imports) {
        Ok(s) => {
            lemma_opened_push(s.output, Token::Content(s.contents));
            lemma_opened_push(s.output, Token::CommentContents(s.comments));
            lemma_opened_push(
                s.output.push(Token::Content(s.contents)),
                Token::CommentContents(s.comments),
            );
        },
        Err(e) => {},
    }
}

/// Block comments are balanced. In the tokens of a text that lexes, the
/// `CommentOpen` tokens are as many as the block comments that a `*/` has
/// closed, and no `CommentOpen` is left on the scope stack at the end.
pub proof fn lemma_comments_balanced(
    text: Seq<char>,
    registry: Seq<Seq<char>>,
    imports: Seq<SourceModel>,
)
    ensures
        match lex_end(text, registry, imports) {
            Ok(s) => {
                &&& lex_text(text, registry, imports) == Ok::<
                    (Seq<Token>, Seq<Seq<char>>),
                    LexIssue,
                >((s.output, s.registry))
                &&& opened(s.output) == s.exits
                &&& !s.scope.contains(Sentinel::CommentOpen)
            },
            Err(e) => lex_text(text, registry, imports) is Err,
        },
{
    lemma_lex_end_sound(text, registry, imports);
}

/// Whether the reader itself has found the issue: it is not handed on from
/// an imported file, and is no failure to read one.
pub open spec fn found_here(e: LexIssue) -> bool {
    !e.handed_on && e.kind != LexErrorKind::ImportMissing && e.kind
        != LexErrorKind::ImportUnreadable
}

/// The issue of a word is one that the reader itself has found.
proof fn lemma_step_found_here(s: ReaderModel, w: Seq<char>, abridged: bool)
    ensures
        match s.step(w, abridged) {
            Step::Fail(e) => found_here(e),
            _ => true,
        },
{
}

/// The issue of an imported line is one that the reader itself has found.
proof fn lemma_abridged_words_found_here(a: AbridgedModel, words: Seq<Seq<char>>, k: int)
    ensures
        match abridged_words(a, words, k) {
            Ok(b) => true,
            Err(e) => found_here(e),
        },
    decreases words.len() - k,
{
    if 0 <= k < words.len() {
        lemma_step_found_here(a.reader, words[k], true);
        match a.reader.step(words[k], true) {
            Step::Next(s) | Step::Import(s) => lemma_abridged_words_found_here(
                a.after_word(s),
                words,
                k + 1,
            ),
            Step::Fail(e) => {},
        }
    }
}

/// The issue of an imported text is one that the reader itself has found.
proof fn lemma_abridged_lines_found_here(a: AbridgedModel, lines: Seq<Seq<char>>, i: int)
    ensures
        match abridged_lines(a, lines, i) {
            Ok(b) => true,
            Err(e) => found_here(e),
        },
    decreases lines.len() - i,
{
    if 0 <= i < lines.len() {
        lemma_abridged_words_found_here(a.begin_line(i == 0), line_words(lines[i]), 0);
        match abridged_words(a.begin_line(i == 0), line_words(lines[i]), 0) {
            Ok(b) => lemma_abridged_lines_found_here(b, lines, i + 1),
            Err(e) => {},
        }
    }
}

/// The abridged lexer gives the reason of what it finds. An error of the
/// abridged lexer is not handed on, and its reason is the sentence of its
/// kind, whatever file it is said to be found in.
pub proof fn lemma_abridged_reason(text: Seq<char>, file: Option<Seq<char>>)
    ensures
        match abridged_text(text) {
            Ok(found) => true,
            Err(e) => found_here(e) && (LexIssue { file, ..e }).reason() == e.kind.sentence(),
        },
{
    lemma_abridged_lines_found_here(AbridgedModel::start(), lines_of(text), 0);
}

/// A failed import has one reason. Where the import of a file fails because
/// the file is not supplied, cannot be read or holds an error, the reason of
/// the error that the lexer hands on is the same sentence; where it fails
/// because the file declares a registered name, the reason is that of a
/// duplicate.
pub proof fn lemma_import_reason(s: ReaderModel, w: Seq<char>, imports: Seq<SourceModel>)
    ensures
        match resolve(s, w, imports) {
            Ok(t) => true,
            Err(e) => if e.kind == LexErrorKind::DuplicateType && !e.handed_on {
                e.reason() == LexErrorKind::DuplicateType.sentence()
            } else {
                e.reason() == "Error, see above. ^^"@
            },
        },
{
}

/// Block comments are balanced in imported texts too. Where the abridged
/// lexer accepts a text, the `CommentOpen` tokens that its reader has
/// emitted are as many as the block comments that a `*/` has closed, and no
/// `CommentOpen` is left on its scope stack at the end.
pub proof fn lemma_imported_comments_balanced(text: Seq<char>)
    ensures
        abridged_text(text) is Ok ==> {
            let end = abridged_lines(AbridgedModel::start(), lines_of(text), 0);
            &&& end is Ok
            &&& opened(end->Ok_0.reader.output) == end->Ok_0.reader.exits
            &&& !end->Ok_0.reader.scope.contains(Sentinel::CommentOpen)
        },
{
    lemma_abridged_lines_sound(AbridgedModel::start(), lines_of(text), 0);
}

/// The registry only grows, and holds no name twice. Where a text lexes
/// from a registry of distinct names, the names registered at the end are
/// distinct, and start with the names registered before, in their order: a
/// name declared twice, in the text or in a file it imports, is an error.
pub proof fn lemma_registry_grows(
    text: Seq<char>,
    registry: Seq<Seq<char>>,
    imports: Seq<SourceModel>,
)
    requires
        registry.no_duplicates(),
    ensures
        match lex_text(text, registry, imports) {
            Ok((tokens, names)) => names.no_duplicates() && registry.is_prefix_of(names),
            Err(e) => true,
        },
{
    lemma_lex_end_sound(text, registry, imports);
}

/// Lexing a text twice gives the same tokens and the same registry.
pub proof fn lemma_lexing_repeats(
    text: Seq<char>,
    registry: Seq<Seq<char>>,
    imports: Seq<SourceModel>,
    first: (Seq<Token>, Seq<Seq<char>>),
    second: (Seq<Token>, Seq<Seq<char>>),
)
    requires
        lex_text(text, registry, imports) == Ok::<(Seq<Token>, Seq<Seq<char>>), LexIssue>(first),
        lex_text(text, registry, imports) == Ok::<(Seq<Token>, Seq<Seq<char>>), LexIssue>(second),
    ensures
        first == second,
{
}

} // verus!
