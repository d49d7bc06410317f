//! The reader: the state of the lexer and what one word does to it.
//!
//! The reader works in one of three modes. In `Keys` mode it looks for
//! keywords, in `Contents` mode it gathers prose, in `Comments` mode it
//! gathers a comment. A stack of sentinels records the keywords that are
//! still open on the line.

use vstd::prelude::*;
use crate::issue::{LexError, LexErrorKind, LexIssue};
use crate::text::{
    append_text, contains_pair, copy_text, find_pair, has_pair, pair_index, replace_pair, replaced,
    same_text, slice_text, string_of, tab_word, texts,
};
use crate::tokens::{views, Token, Tokens};

verus! {

/// What the reader is looking for.
#[derive(Clone, Copy, Debug, PartialEq, Eq, Structural)]
pub enum Mode {
    Keys,
    Contents,
    Comments,
}

/// A keyword that is still open.
#[derive(Clone, Copy, Debug, PartialEq, Eq, Structural)]
pub enum Sentinel {
    CommentOpen,
    UseKeyword,
    TypeKeyword,
    Assignment,
}

/// What a word asks of the lexer that feeds the reader.
#[derive(Clone, Copy, Debug, PartialEq, Eq, Structural)]
pub enum Progress {
    /// Go on with the next word.
    Continue,
    /// The word named a file to import; go on once it is resolved.
    Import,
}

/// The mathematical value of the reader's state.
pub ghost struct ReaderModel {
    /// What the reader looks for.
    pub mode: Mode,
    /// The keywords that are still open, the last one on top.
    pub scope: Seq<Sentinel>,
    /// The prose gathered and not yet emitted.
    pub contents: Seq<char>,
    /// The comment gathered and not yet emitted.
    pub comments: Seq<char>,
    /// The names of the types declared so far.
    pub registry: Seq<Seq<char>>,
    /// The tokens emitted so far.
    pub output: Seq<Token>,
    /// The number of the line, from 1.
    pub line: nat,
    /// The number of the word in its line, from 1.
    pub word: nat,
    /// The number of tabs at the start of the line.
    pub indent: nat,
    /// The number of block comments closed so far.
    pub exits: nat,
}

/// The outcome of one word.
pub ghost enum Step {
    /// The reader goes on in the given state.
    Next(ReaderModel),
    /// The word named a file to import; the state is that in which the
    /// import starts.
    Import(ReaderModel),
    /// The word is an error.
    Fail(LexIssue),
}

/// The keyword that opens a type declaration.
pub open spec fn type_word() -> Seq<char> {
    seq!['*', 't', 'y', 'p', 'e']
}

/// The keyword that imports a file.
pub open spec fn use_word() -> Seq<char> {
    seq!['*', 'u', 's', 'e']
}

/// The wildcard argument.
pub open spec fn any_word() -> Seq<char> {
    seq!['a', 'n', 'y']
}

/// The word made of two characters.
pub open spec fn pair(a: char, b: char) -> Seq<char> {
    seq![a, b]
}

/// A single space.
pub open spec fn blank() -> Seq<char> {
    seq![' ']
}

/// The first separator, in the order `::`, `->`, `,,`, that occurs in a word.
pub open spec fn separator_in(w: Seq<char>) -> Option<(char, char)> {
    if has_pair(w, ':', ':') {
        Some((':', ':'))
    } else if has_pair(w, '-', '>') {
        Some(('-', '>'))
    } else if has_pair(w, ',', ',') {
        Some((',', ','))
    } else {
        None
    }
}

/// Whether a word is exactly one of the separators.
pub open spec fn is_separator(w: Seq<char>) -> bool {
    w == pair(':', ':') || w == pair('-', '>') || w == pair(',', ',')
}

/// Whether the first character of an argument is followed by `..`.
pub open spec fn dotted(w: Seq<char>) -> bool {
    w.len() >= 3 && w[1] == '.' && w[2] == '.'
}

/// `out` with `t` added at its end, or before the line break that ends it.
pub open spec fn placed_before_break(out: Seq<Token>, t: Token) -> Seq<Token> {
    if out.len() > 0 && out.last() == Token::Linebreak {
        out.drop_last().push(t).push(Token::Linebreak)
    } else {
        out.push(t)
    }
}

impl ReaderModel {
    /// The state in which lexing starts.
    pub open spec fn start(registry: Seq<Seq<char>>) -> ReaderModel {
        ReaderModel {
            mode: Mode::Keys,
            scope: Seq::empty(),
            contents: Seq::empty(),
            comments: Seq::empty(),
            registry,
            output: Seq::empty(),
            line: 0,
            word: 0,
            indent: 0,
            exits: 0,
        }
    }

    /// The sentinel on top of the scope stack.
    pub open spec fn top(self) -> Option<Sentinel> {
        if self.scope.len() > 0 {
            Some(self.scope.last())
        } else {
            None
        }
    }

    /// The token emitted last.
    pub open spec fn last(self) -> Option<Token> {
        if self.output.len() > 0 {
            Some(self.output.last())
        } else {
            None
        }
    }

    /// The state with `t` as the last token of the output.
    pub open spec fn emit(self, t: Token) -> ReaderModel {
        ReaderModel { output: self.output.push(t), ..self }
    }

    /// The state in the given mode.
    pub open spec fn enter(self, mode: Mode) -> ReaderModel {
        ReaderModel { mode, ..self }
    }

    /// The state with `s` on top of the scope stack.
    pub open spec fn open_scope(self, s: Sentinel) -> ReaderModel {
        ReaderModel { scope: self.scope.push(s), ..self }
    }

    /// The state without the sentinel on top of the scope stack.
    pub open spec fn close_scope(self) -> ReaderModel {
        ReaderModel { scope: self.scope.drop_last(), ..self }
    }

    /// The state after a block comment has been closed.
    pub open spec fn close_comment(self) -> ReaderModel {
        ReaderModel { exits: self.exits + 1, ..self.close_scope() }
    }

    /// The state that holds the given prose.
    pub open spec fn with_contents(self, contents: Seq<char>) -> ReaderModel {
        ReaderModel { contents, ..self }
    }

    /// The state that holds the given comment.
    pub open spec fn with_comments(self, comments: Seq<char>) -> ReaderModel {
        ReaderModel { comments, ..self }
    }

    /// The issue of the given kind at the reader's position.
    pub open spec fn issue(self, kind: LexErrorKind, w: Seq<char>) -> LexIssue {
        LexIssue { kind, line: self.line, word: self.word, lexeme: w, file: None, handed_on: false }
    }

    /// Whether the reader stands in the argument list of a declaration.
    pub open spec fn in_arguments(self) -> bool {
        self.scope.len() >= 2 && self.scope[self.scope.len() - 2] == Sentinel::TypeKeyword
            && self.scope.last() == Sentinel::Assignment
    }

    /// The state at the start of a line. With a block comment open the reader
    /// stays in it and emits what the comment held on the line before.
    /// Otherwise the line before ends with a line break, ahead of which the
    /// gathered prose and comment are emitted, and the reader looks for
    /// keywords again.
    pub open spec fn begin_line(self, first: bool) -> ReaderModel {
        let s = if self.top() == Some(Sentinel::CommentOpen) {
            if self.comments.len() > 0 {
                self.emit(Token::CommentContents(self.comments)).emit(
                    Token::Linebreak,
                ).with_comments(Seq::empty()).enter(Mode::Comments)
            } else {
                self.enter(Mode::Comments)
            }
        } else {
            let a = if first {
                self.output
            } else {
                self.output.push(Token::Linebreak)
            };
            let b = if self.contents.len() > 0 {
                placed_before_break(a, Token::Content(self.contents))
            } else {
                a
            };
            let c = if self.comments.len() > 0 {
                placed_before_break(b, Token::CommentContents(self.comments))
            } else {
                b
            };
            ReaderModel {
                output: c,
                scope: Seq::empty(),
                contents: Seq::empty(),
                comments: Seq::empty(),
                mode: Mode::Keys,
                ..self
            }
        };
        ReaderModel { line: self.line + 1, word: 0, indent: 0, ..s }
    }

    /// A tab: counted as indentation at the start of the line or after
    /// another tab.
    pub open spec fn keys_tab(self) -> ReaderModel {
        let counted = self.word == 1 || self.last() == Some(Token::Tab);
        ReaderModel {
            indent: if counted {
                self.indent + 1
            } else {
                self.indent
            },
            ..self
        }.emit(Token::Tab)
    }

    /// `*type`: refused after leading tabs.
    pub open spec fn keys_type(self, w: Seq<char>) -> Step {
        if self.indent != 0 {
            Step::Fail(self.issue(LexErrorKind::TypeInScope, w))
        } else {
            Step::Next(self.open_scope(Sentinel::TypeKeyword).emit(Token::TypeKeyword))
        }
    }

    /// `*use`: refused in an imported file, right after another `*use`, after
    /// leading tabs and inside a declaration.
    pub open spec fn keys_use(self, w: Seq<char>, abridged: bool) -> Step {
        if abridged {
            Step::Fail(self.issue(LexErrorKind::UseInImport, w))
        } else if self.top() == Some(Sentinel::UseKeyword) {
            Step::Fail(self.issue(LexErrorKind::UseRepeated, w))
        } else if self.indent != 0 {
            Step::Fail(self.issue(LexErrorKind::UseInScope, w))
        } else if self.top() == Some(Sentinel::Assignment) || self.top() == Some(
            Sentinel::TypeKeyword,
        ) {
            Step::Fail(self.issue(LexErrorKind::UseInDeclaration, w))
        } else {
            Step::Next(self.open_scope(Sentinel::UseKeyword).emit(Token::UseKeyword))
        }
    }

    /// `=>`: accepted directly after the name of an open declaration.
    pub open spec fn keys_assign(self, w: Seq<char>) -> Step {
        if self.top() != Some(Sentinel::TypeKeyword) {
            Step::Fail(self.issue(LexErrorKind::AssignmentOutsideDeclaration, w))
        } else if !(self.last() is Some && self.last()->0 is TypeName) {
            Step::Fail(
                LexIssue {
                    word: if self.word >= 2 {
                        (self.word - 2) as nat
                    } else {
                        0
                    },
                    ..self.issue(LexErrorKind::TypeNameNotOneWord, w)
                },
            )
        } else {
            Step::Next(self.open_scope(Sentinel::Assignment).emit(Token::Assignment))
        }
    }

    /// The name of a declaration: registered unless it is taken.
    pub open spec fn keys_name(self, w: Seq<char>) -> Step {
        if self.registry.contains(w) {
            Step::Fail(self.issue(LexErrorKind::DuplicateType, w))
        } else {
            Step::Next(
                ReaderModel { registry: self.registry.push(w), ..self }.emit(Token::TypeName(w)),
            )
        }
    }

    /// An argument of a declaration.
    pub open spec fn keys_argument(self, w: Seq<char>) -> Step {
        if w == any_word() {
            Step::Next(self.emit(Token::Any))
        } else if self.registry.contains(w) {
            Step::Next(self.emit(Token::TypeAsDeclarationParameter(w)))
        } else if w.len() > 0 && w[0] == 'e' {
            if dotted(w) {
                Step::Next(self.emit(Token::E(w)))
            } else {
                Step::Fail(self.issue(LexErrorKind::MalformedElementArgument, w))
            }
        } else if w.len() > 0 && w[0] == 'c' {
            if dotted(w) {
                Step::Next(self.emit(Token::C(w)))
            } else {
                Step::Fail(self.issue(LexErrorKind::MalformedContentArgument, w))
            }
        } else {
            Step::Fail(self.issue(LexErrorKind::UnknownArgument, w))
        }
    }

    /// A word with `//` in it: the rest of the word opens the comment.
    pub open spec fn keys_line_comment(self, w: Seq<char>) -> ReaderModel {
        self.emit(Token::CommentLine).with_comments(
            self.comments + replaced(w, '/', '/', Seq::empty()),
        ).enter(Mode::Comments)
    }

    /// A word with `/*` in it: the rest of the word opens the comment.
    pub open spec fn keys_block_comment(self, w: Seq<char>) -> ReaderModel {
        self.emit(Token::CommentOpen).with_comments(
            self.comments + replaced(w, '/', '*', Seq::empty()),
        ).enter(Mode::Comments).open_scope(Sentinel::CommentOpen)
    }

    /// A word that holds the separator `a`, `b` is split at the first place
    /// where it stands. The part before it ends the prose gathered so far,
    /// which is emitted, then the separator; the part after it, if there is
    /// one, starts new prose.
    pub open spec fn keys_separator(self, w: Seq<char>, a: char, b: char) -> ReaderModel {
        let at = pair_index(w, a, b);
        let before = w.subrange(0, at);
        let after = w.subrange(at + 2, w.len() as int);
        let s = self.emit(Token::Content(self.contents + before.push(' '))).emit(
            Token::Separator(pair(a, b)),
        );
        if after.len() == 0 {
            s.with_contents(Seq::empty())
        } else {
            s.with_contents(after.push(' ')).enter(Mode::Contents)
        }
    }

    /// A word that is neither keyword, name, argument, comment nor declared
    /// type: prose. A separator in it ends the prose gathered so far; an
    /// opening block symbol in it is emitted, and the rest of the word starts
    /// the prose.
    pub open spec fn keys_text(self, w: Seq<char>) -> ReaderModel {
        match separator_in(w) {
            Some((a, b)) => self.keys_separator(w, a, b),
            None => if has_pair(w, '[', '[') {
                self.emit(Token::CodeBlockOpen).with_contents(
                    self.contents + replaced(w, '[', '[', Seq::empty()),
                ).enter(Mode::Contents)
            } else if has_pair(w, '{', '{') {
                self.emit(Token::MathBlockOpen).with_contents(
                    self.contents + replaced(w, '{', '{', Seq::empty()),
                ).enter(Mode::Contents)
            } else {
                self.with_contents(self.contents + w.push(' ')).enter(Mode::Contents)
            },
        }
    }

    /// A word that is none of the keywords.
    pub open spec fn keys_other(self, w: Seq<char>, abridged: bool) -> Step {
        if !abridged && self.last() == Some(Token::UseKeyword) && self.top() == Some(
            Sentinel::UseKeyword,
        ) {
            Step::Import(self.close_scope().emit(Token::Filename(w)).emit(Token::Linebreak))
        } else if self.last() == Some(Token::TypeKeyword) && self.top() == Some(
            Sentinel::TypeKeyword,
        ) {
            self.keys_name(w)
        } else if self.in_arguments() {
            self.keys_argument(w)
        } else if has_pair(w, '/', '/') {
            Step::Next(self.keys_line_comment(w))
        } else if has_pair(w, '/', '*') {
            Step::Next(self.keys_block_comment(w))
        } else if self.registry.contains(w) {
            Step::Next(self.emit(Token::TypeInstance(w)).enter(Mode::Contents))
        } else {
            Step::Next(self.keys_text(w))
        }
    }

    /// A word read in `Keys` mode.
    pub open spec fn keys_step(self, w: Seq<char>, abridged: bool) -> Step {
        if w == tab_word() {
            Step::Next(self.keys_tab())
        } else if w == pair('/', '/') {
            Step::Next(self.emit(Token::CommentLine).enter(Mode::Comments))
        } else if w == pair('/', '*') {
            Step::Next(
                self.emit(Token::CommentOpen).enter(Mode::Comments).open_scope(
                    Sentinel::CommentOpen,
                ),
            )
        } else if w == type_word() {
            self.keys_type(w)
        } else if w == use_word() {
            self.keys_use(w, abridged)
        } else if w == pair('=', '>') {
            self.keys_assign(w)
        } else {
            self.keys_other(w, abridged)
        }
    }

    /// A block symbol or a separator that stands alone: the prose gathered
    /// so far is emitted, then the symbol.
    pub open spec fn contents_symbol(self, t: Token) -> ReaderModel {
        self.emit(Token::Content(self.contents)).emit(t).with_contents(Seq::empty())
    }

    /// A word with an opening block symbol in it: the prose gathered so far
    /// is emitted, then the symbol; the rest of the word starts new prose.
    pub open spec fn contents_opening(self, w: Seq<char>, a: char, b: char, t: Token)
        -> ReaderModel {
        self.emit(Token::Content(self.contents)).emit(t).with_contents(
            replaced(w, a, b, Seq::empty()),
        )
    }

    /// A word with a closing block symbol in it: the rest of the word ends
    /// the prose, which is emitted, then the symbol, then the separator that
    /// the word holds, if any.
    pub open spec fn contents_closing(self, w: Seq<char>, a: char, b: char, t: Token)
        -> ReaderModel {
        match separator_in(w) {
            Some((x, y)) => self.emit(
                Token::Content(
                    self.contents + replaced(replaced(w, a, b, Seq::empty()), x, y, blank()),
                ),
            ).emit(t).emit(Token::Separator(pair(x, y))).with_contents(Seq::empty()),
            None => self.emit(Token::Content(self.contents + replaced(w, a, b, blank()))).emit(
                t,
            ).with_contents(Seq::empty()),
        }
    }

    /// A word read in `Contents` mode.
    pub open spec fn contents_step(self, w: Seq<char>) -> ReaderModel {
        if w == pair('[', '[') {
            self.contents_symbol(Token::CodeBlockOpen)
        } else if w == pair(']', ']') {
            self.contents_symbol(Token::CodeBlockClose)
        } else if w == pair('{', '{') {
            self.contents_symbol(Token::MathBlockOpen)
        } else if w == pair('}', '}') {
            self.contents_symbol(Token::MathBlockClose)
        } else if has_pair(w, '[', '[') {
            self.contents_opening(w, '[', '[', Token::CodeBlockOpen)
        } else if has_pair(w, ']', ']') {
            self.contents_closing(w, ']', ']', Token::CodeBlockClose)
        } else if has_pair(w, '{', '{') {
            self.contents_opening(w, '{', '{', Token::MathBlockOpen)
        } else if has_pair(w, '}', '}') {
            self.contents_closing(w, '}', '}', Token::MathBlockClose)
        } else if is_separator(w) {
            self.contents_symbol(Token::Separator(w))
        } else {
            self.with_contents(self.contents + w.push(' '))
        }
    }

    /// A word read in `Comments` mode.
    pub open spec fn comments_step(self, w: Seq<char>) -> Step {
        if w == pair('*', '/') {
            if self.top() == Some(Sentinel::CommentOpen) {
                Step::Next(
                    self.close_comment().emit(Token::CommentContents(self.comments)).with_comments(
                        Seq::empty(),
                    ).enter(Mode::Keys),
                )
            } else {
                Step::Fail(self.issue(LexErrorKind::CommentCloseWithoutOpen, w))
            }
        } else if has_pair(w, '*', '/') {
            if self.top() == Some(Sentinel::CommentOpen) {
                Step::Next(
                    self.close_comment().emit(
                        Token::CommentContents(self.comments + replaced(w, '*', '/', blank())),
                    ).with_comments(Seq::empty()).enter(Mode::Keys),
                )
            } else {
                Step::Fail(self.issue(LexErrorKind::CommentCloseWithoutOpen, w))
            }
        } else {
            Step::Next(self.with_comments(self.comments + w.push(' ')))
        }
    }

    /// The next word of the line, read in the reader's mode. `abridged` says
    /// that the text is an imported file.
    pub open spec fn step(self, w: Seq<char>, abridged: bool) -> Step {
        let s = ReaderModel { word: self.word + 1, ..self };
        match s.mode {
            Mode::Keys => s.keys_step(w, abridged),
            Mode::Contents => Step::Next(s.contents_step(w)),
            Mode::Comments => s.comments_step(w),
        }
    }

    /// Whether a block comment is open.
    pub open spec fn comment_open(self) -> bool {
        self.scope.contains(Sentinel::CommentOpen)
    }

    /// The end of the text: an open block comment is an error; otherwise the
    /// prose and the comment gathered last are emitted.
    pub open spec fn finish(self) -> Result<ReaderModel, LexIssue> {
        if self.comment_open() {
            Err(self.issue(LexErrorKind::UnclosedComment, pair('/', '*')))
        } else {
            let a = if self.contents.len() > 0 {
                self.emit(Token::Content(self.contents))
            } else {
                self
            };
            let b = if self.comments.len() > 0 {
                a.emit(Token::CommentContents(self.comments))
            } else {
                a
            };
            Ok(b.with_contents(Seq::empty()).with_comments(Seq::empty()))
        }
    }
}

/// A word leaves the line number alone, raises the word number by one,
/// keeps the indentation within it, and only adds to the output.
pub proof fn lemma_step_position(s: ReaderModel, w: Seq<char>, abridged: bool)
    ensures
        match s.step(w, abridged) {
            Step::Next(t) | Step::Import(t) => {
                &&& t.line == s.line
                &&& t.word == s.word + 1
                &&& s.indent <= s.word ==> t.indent <= t.word
                &&& s.output.len() <= t.output.len()
                &&& t.output.take(s.output.len() as int) == s.output
            },
            Step::Fail(e) => true,
        },
{
    match s.step(w, abridged) {
        Step::Next(t) | Step::Import(t) => {
            assert(t.output.take(s.output.len() as int) =~= s.output);
        },
        Step::Fail(e) => {},
    }
}

/// Whether the result of a step and the state it left agree with an outcome.
pub open spec fn agrees(r: Result<Progress, LexError>, after: ReaderModel, want: Step) -> bool {
    match want {
        Step::Next(s) => r == Ok::<Progress, LexError>(Progress::Continue) && after == s,
        Step::Import(s) => r == Ok::<Progress, LexError>(Progress::Import) && after == s,
        Step::Fail(e) => r is Err && r->Err_0@ == e,
    }
}

/// The reader's state: the fields are those of its mathematical value.
pub struct Reader {
    pub mode: Mode,
    pub scope: Vec<Sentinel>,
    pub contents: Vec<char>,
    pub comments: Vec<char>,
    pub registry: Vec<Vec<char>>,
    pub output: Vec<Tokens>,
    pub line: usize,
    pub word: usize,
    pub indent: usize,
    pub exits: Ghost<nat>,
}

impl View for Reader {
    type V = ReaderModel;

    open spec fn view(&self) -> ReaderModel {
        ReaderModel {
            mode: self.mode,
            scope: self.scope@,
            contents: self.contents@,
            comments: self.comments@,
            registry: texts(self.registry@),
            output: views(self.output@),
            line: self.line as nat,
            word: self.word as nat,
            indent: self.indent as nat,
            exits: self.exits@,
        }
    }
}

/// Whether a word is the given two characters.
pub fn is_pair(w: &Vec<char>, a: char, b: char) -> (r: bool)
    ensures
        r == (w@ == pair(a, b)),
{
    let r = w.len() == 2 && w[0] == a && w[1] == b;
    assert(r == (w@ =~= pair(a, b)));
    r
}

/// The string of two characters.
pub fn pair_string(a: char, b: char) -> (r: String)
    ensures
        r@ == pair(a, b),
{
    let mut v: Vec<char> = Vec::new();
    v.push(a);
    v.push(b);
    assert(v@ =~= pair(a, b));
    string_of(&v)
}

fn is_tab_word(w: &Vec<char>) -> (r: bool)
    ensures
        r == (w@ == tab_word()),
{
    let r = w.len() == 5 && w[0] == '*' && w[1] == 't' && w[2] == 'a' && w[3] == 'b' && w[4]
        == '!';
    assert(r == (w@ =~= tab_word()));
    r
}

fn is_type_word(w: &Vec<char>) -> (r: bool)
    ensures
        r == (w@ == type_word()),
{
    let r = w.len() == 5 && w[0] == '*' && w[1] == 't' && w[2] == 'y' && w[3] == 'p' && w[4]
        == 'e';
    assert(r == (w@ =~= type_word()));
    r
}

fn is_use_word(w: &Vec<char>) -> (r: bool)
    ensures
        r == (w@ == use_word()),
{
    let r = w.len() == 4 && w[0] == '*' && w[1] == 'u' && w[2] == 's' && w[3] == 'e';
    assert(r == (w@ =~= use_word()));
    r
}

fn is_any_word(w: &Vec<char>) -> (r: bool)
    ensures
        r == (w@ == any_word()),
{
    let r = w.len() == 3 && w[0] == 'a' && w[1] == 'n' && w[2] == 'y';
    assert(r == (w@ =~= any_word()));
    r
}

/// Finds the first separator that occurs in a word.
pub fn find_separator(w: &Vec<char>) -> (r: Option<(char, char)>)
    ensures
        r == separator_in(w@),
{
    if contains_pair(w, ':', ':') {
        Some((':', ':'))
    } else if contains_pair(w, '-', '>') {
        Some(('-', '>'))
    } else if contains_pair(w, ',', ',') {
        Some((',', ','))
    } else {
        None
    }
}

/// Whether a name occurs in a list of names.
pub fn listed(names: &Vec<Vec<char>>, w: &Vec<char>) -> (r: bool)
    ensures
        r == texts(names@).contains(w@),
{
    let mut i: usize = 0;
    while i < names.len()
        invariant
            i <= names.len(),
            forall|j: int| 0 <= j < i ==> texts(names@)[j] != w@,
        decreases names.len() - i,
    {
        if same_text(&names[i], w) {
            assert(texts(names@)[i as int] == w@);
            return true;
        }
        i += 1;
    }
    false
}

impl Reader {
    /// A reader at the start of a text, with the given declared names.
    pub fn new(registry: Vec<Vec<char>>) -> (r: Reader)
        ensures
            r@ == ReaderModel::start(texts(registry@)),
    {
        let r = Reader {
            mode: Mode::Keys,
            scope: Vec::new(),
            contents: Vec::new(),
            comments: Vec::new(),
            registry,
            output: Vec::new(),
            line: 0,
            word: 0,
            indent: 0,
            exits: Ghost(0),
        };
        assert(views(r.output@) =~= Seq::<Token>::empty());
        r
    }

    fn emit(&mut self, t: Tokens)
        ensures
            final(self)@ == old(self)@.emit(t@),
    {
        self.output.push(t);
        assert(views(self.output@) =~= views(old(self).output@).push(t@));
    }

    /// Whether a sentinel is anywhere on the scope stack.
    pub fn scope_holds(&self, s: Sentinel) -> (r: bool)
        ensures
            r == self@.scope.contains(s),
    {
        let mut i: usize = 0;
        while i < self.scope.len()
            invariant
                i <= self.scope.len(),
                forall|j: int| 0 <= j < i ==> self.scope@[j] != s,
            decreases self.scope.len() - i,
        {
            if self.scope[i] == s {
                return true;
            }
            i += 1;
        }
        false
    }

    /// Whether a sentinel is on top of the scope stack.
    pub fn top_is(&self, s: Sentinel) -> (r: bool)
        ensures
            r == (self@.top() == Some(s)),
    {
        let n = self.scope.len();
        n > 0 && self.scope[n - 1] == s
    }

    fn close_scope(&mut self)
        requires
            old(self).scope.len() > 0,
        ensures
            final(self)@ == old(self)@.close_scope(),
    {
        self.scope.pop();
    }

    fn close_comment(&mut self)
        requires
            old(self).scope.len() > 0,
        ensures
            final(self)@ == old(self)@.close_comment(),
    {
        self.scope.pop();
        self.exits = Ghost(self.exits@ + 1);
    }

    fn take_contents(&mut self) -> (r: Vec<char>)
        ensures
            r@ == old(self)@.contents,
            final(self)@ == old(self)@.with_contents(Seq::empty()),
    {
        let mut r: Vec<char> = Vec::new();
        std::mem::swap(&mut r, &mut self.contents);
        r
    }

    fn take_comments(&mut self) -> (r: Vec<char>)
        ensures
            r@ == old(self)@.comments,
            final(self)@ == old(self)@.with_comments(Seq::empty()),
    {
        let mut r: Vec<char> = Vec::new();
        std::mem::swap(&mut r, &mut self.comments);
        r
    }

    /// The error of the given kind at the reader's position.
    pub fn fail(&self, kind: LexErrorKind, w: &Vec<char>) -> (r: LexError)
        ensures
            r@ == self@.issue(kind, w@),
    {
        LexError {
            kind,
            line: self.line,
            word: self.word,
            lexeme: string_of(w),
            file: None,
            handed_on: false,
        }
    }

    /// Whether a name is registered.
    pub fn knows(&self, w: &Vec<char>) -> (r: bool)
        ensures
            r == self@.registry.contains(w@),
    {
        listed(&self.registry, w)
    }

    fn last_is_break(&self) -> (r: bool)
        ensures
            r == (self@.output.len() > 0 && self@.output.last() == Token::Linebreak),
    {
        let n = self.output.len();
        n > 0 && matches!(self.output[n - 1], Tokens::Linebreak)
    }

    fn place_before_break(&mut self, t: Tokens)
        ensures
            final(self)@ == (ReaderModel {
                output: placed_before_break(old(self)@.output, t@),
                ..old(self)@
            }),
    {
        if self.last_is_break() {
            self.output.pop();
            self.output.push(t);
            self.output.push(Tokens::Linebreak);
            assert(views(self.output@) =~= placed_before_break(views(old(self).output@), t@));
        } else {
            self.output.push(t);
            assert(views(self.output@) =~= placed_before_break(views(old(self).output@), t@));
        }
    }

    /// Starts a line; `first` says that it is the first of the text.
    pub fn begin_line(&mut self, first: bool)
        requires
            old(self).line < usize::MAX,
        ensures
            final(self)@ == old(self)@.begin_line(first),
    {
        if self.top_is(Sentinel::CommentOpen) {
            if self.comments.len() > 0 {
                let c = self.take_comments();
                self.emit(Tokens::CommentContents(string_of(&c)));
                self.emit(Tokens::Linebreak);
            }
            self.mode = Mode::Comments;
        } else {
            if !first {
                self.emit(Tokens::Linebreak);
            }
            self.scope.clear();
            if self.contents.len() > 0 {
                let c = self.take_contents();
                self.place_before_break(Tokens::Content(string_of(&c)));
            }
            if self.comments.len() > 0 {
                let c = self.take_comments();
                self.place_before_break(Tokens::CommentContents(string_of(&c)));
            }
            self.mode = Mode::Keys;
            assert(self.contents@ =~= Seq::<char>::empty());
            assert(self.comments@ =~= Seq::<char>::empty());
        }
        self.line = self.line + 1;
        self.word = 0;
        self.indent = 0;
    }

    fn keys_tab(&mut self)
        requires
            old(self).indent < usize::MAX,
        ensures
            final(self)@ == old(self)@.keys_tab(),
    {
        let n = self.output.len();
        if self.word == 1 || (n > 0 && matches!(self.output[n - 1], Tokens::Tab)) {
            self.indent = self.indent + 1;
        }
        self.emit(Tokens::Tab);
    }

    fn keys_type(&mut self, w: &Vec<char>) -> (r: Result<Progress, LexError>)
        ensures
            agrees(r, final(self)@, old(self)@.keys_type(w@)),
    {
        if self.indent != 0 {
            return Err(self.fail(LexErrorKind::TypeInScope, w));
        }
        self.scope.push(Sentinel::TypeKeyword);
        self.emit(Tokens::TypeKeyword);
        Ok(Progress::Continue)
    }

    fn keys_use(&mut self, w: &Vec<char>, abridged: bool) -> (r: Result<Progress, LexError>)
        ensures
            agrees(r, final(self)@, old(self)@.keys_use(w@, abridged)),
    {
        if abridged {
            return Err(self.fail(LexErrorKind::UseInImport, w));
        }
        if self.top_is(Sentinel::UseKeyword) {
            return Err(self.fail(LexErrorKind::UseRepeated, w));
        }
        if self.indent != 0 {
            return Err(self.fail(LexErrorKind::UseInScope, w));
        }
        if self.top_is(Sentinel::Assignment) || self.top_is(Sentinel::TypeKeyword) {
            return Err(self.fail(LexErrorKind::UseInDeclaration, w));
        }
        self.scope.push(Sentinel::UseKeyword);
        self.emit(Tokens::UseKeyword);
        Ok(Progress::Continue)
    }

    fn keys_assign(&mut self, w: &Vec<char>) -> (r: Result<Progress, LexError>)
        ensures
            agrees(r, final(self)@, old(self)@.keys_assign(w@)),
    {
        if !self.top_is(Sentinel::TypeKeyword) {
            return Err(self.fail(LexErrorKind::AssignmentOutsideDeclaration, w));
        }
        let n = self.output.len();
        if !(n > 0 && matches!(self.output[n - 1], Tokens::TypeName(_))) {
            let mut e = self.fail(LexErrorKind::TypeNameNotOneWord, w);
            e.word = if self.word >= 2 {
                self.word - 2
            } else {
                0
            };
            return Err(e);
        }
        self.scope.push(Sentinel::Assignment);
        self.emit(Tokens::Assignment);
        Ok(Progress::Continue)
    }

    fn keys_name(&mut self, w: &Vec<char>) -> (r: Result<Progress, LexError>)
        ensures
            agrees(r, final(self)@, old(self)@.keys_name(w@)),
    {
        if self.knows(w) {
            return Err(self.fail(LexErrorKind::DuplicateType, w));
        }
        self.registry.push(copy_text(w));
        assert(texts(self.registry@) =~= texts(old(self).registry@).push(w@));
        self.emit(Tokens::TypeName(string_of(w)));
        Ok(Progress::Continue)
    }

    fn keys_argument(&mut self, w: &Vec<char>) -> (r: Result<Progress, LexError>)
        ensures
            agrees(r, final(self)@, old(self)@.keys_argument(w@)),
    {
        if is_any_word(w) {
            self.emit(Tokens::Any);
            return Ok(Progress::Continue);
        }
        if self.knows(w) {
            self.emit(Tokens::TypeAsDeclarationParameter(string_of(w)));
            return Ok(Progress::Continue);
        }
        let dots = w.len() >= 3 && w[1] == '.' && w[2] == '.';
        if w.len() > 0 && w[0] == 'e' {
            if dots {
                self.emit(Tokens::E(string_of(w)));
                Ok(Progress::Continue)
            } else {
                Err(self.fail(LexErrorKind::MalformedElementArgument, w))
            }
        } else if w.len() > 0 && w[0] == 'c' {
            if dots {
                self.emit(Tokens::C(string_of(w)));
                Ok(Progress::Continue)
            } else {
                Err(self.fail(LexErrorKind::MalformedContentArgument, w))
            }
        } else {
            Err(self.fail(LexErrorKind::UnknownArgument, w))
        }
    }

    fn keys_line_comment(&mut self, w: &Vec<char>)
        ensures
            final(self)@ == old(self)@.keys_line_comment(w@),
    {
        self.emit(Tokens::CommentLine);
        let none: Vec<char> = Vec::new();
        let rest = replace_pair(w, '/', '/', &none);
        append_text(&mut self.comments, &rest);
        self.mode = Mode::Comments;
    }

    fn keys_block_comment(&mut self, w: &Vec<char>)
        ensures
            final(self)@ == old(self)@.keys_block_comment(w@),
    {
        self.emit(Tokens::CommentOpen);
        let none: Vec<char> = Vec::new();
        let rest = replace_pair(w, '/', '*', &none);
        append_text(&mut self.comments, &rest);
        self.mode = Mode::Comments;
        self.scope.push(Sentinel::CommentOpen);
    }

    fn keys_separator(&mut self, w: &Vec<char>, a: char, b: char)
        requires
            has_pair(w@, a, b),
        ensures
            final(self)@ == old(self)@.keys_separator(w@, a, b),
    {
        let at = find_pair(w, a, b);
        let mut before = slice_text(w, 0, at);
        before.push(' ');
        let mut after = slice_text(w, at + 2, w.len());
        let mut c = self.take_contents();
        append_text(&mut c, &before);
        self.emit(Tokens::Content(string_of(&c)));
        self.emit(Tokens::Separator(pair_string(a, b)));
        if after.len() > 0 {
            after.push(' ');
            self.contents = after;
            self.mode = Mode::Contents;
        } else {
            assert(self.contents@ =~= Seq::<char>::empty());
        }
    }

    fn keys_text(&mut self, w: &Vec<char>)
        ensures
            final(self)@ == old(self)@.keys_text(w@),
    {
        match find_separator(w) {
            Some((a, b)) => {
                self.keys_separator(w, a, b);
            },
            None => {
                if contains_pair(w, '[', '[') {
                    self.emit(Tokens::CodeBlockOpen);
                    let none: Vec<char> = Vec::new();
                    let rest = replace_pair(w, '[', '[', &none);
                    append_text(&mut self.contents, &rest);
                    self.mode = Mode::Contents;
                } else if contains_pair(w, '{', '{') {
                    self.emit(Tokens::MathBlockOpen);
                    let none: Vec<char> = Vec::new();
                    let rest = replace_pair(w, '{', '{', &none);
                    append_text(&mut self.contents, &rest);
                    self.mode = Mode::Contents;
                } else {
                    append_text(&mut self.contents, w);
                    self.contents.push(' ');
                    self.mode = Mode::Contents;
                    assert(self.contents@ =~= old(self).contents@ + w@.push(' '));
                }
            },
        }
    }

    fn keys_other(&mut self, w: &Vec<char>, abridged: bool) -> (r: Result<Progress, LexError>)
        ensures
            agrees(r, final(self)@, old(self)@.keys_other(w@, abridged)),
    {
        let n = self.output.len();
        let after_use = n > 0 && matches!(self.output[n - 1], Tokens::UseKeyword);
        let after_type = n > 0 && matches!(self.output[n - 1], Tokens::TypeKeyword);
        let m = self.scope.len();
        if !abridged && after_use && self.top_is(Sentinel::UseKeyword) {
            self.close_scope();
            self.emit(Tokens::Filename(string_of(w)));
            self.emit(Tokens::Linebreak);
            Ok(Progress::Import)
        } else if after_type && self.top_is(Sentinel::TypeKeyword) {
            self.keys_name(w)
        } else if m >= 2 && self.scope[m - 2] == Sentinel::TypeKeyword && self.scope[m - 1]
            == Sentinel::Assignment {
            self.keys_argument(w)
        } else if contains_pair(w, '/', '/') {
            self.keys_line_comment(w);
            Ok(Progress::Continue)
        } else if contains_pair(w, '/', '*') {
            self.keys_block_comment(w);
            Ok(Progress::Continue)
        } else if self.knows(w) {
            self.emit(Tokens::TypeInstance(string_of(w)));
            self.mode = Mode::Contents;
            Ok(Progress::Continue)
        } else {
            self.keys_text(w);
            Ok(Progress::Continue)
        }
    }

    fn keys_step(&mut self, w: &Vec<char>, abridged: bool) -> (r: Result<Progress, LexError>)
        requires
            old(self).indent < usize::MAX,
        ensures
            agrees(r, final(self)@, old(self)@.keys_step(w@, abridged)),
    {
        if is_tab_word(w) {
            self.keys_tab();
            Ok(Progress::Continue)
        } else if is_pair(w, '/', '/') {
            self.emit(Tokens::CommentLine);
            self.mode = Mode::Comments;
            Ok(Progress::Continue)
        } else if is_pair(w, '/', '*') {
            self.emit(Tokens::CommentOpen);
            self.mode = Mode::Comments;
            self.scope.push(Sentinel::CommentOpen);
            Ok(Progress::Continue)
        } else if is_type_word(w) {
            self.keys_type(w)
        } else if is_use_word(w) {
            self.keys_use(w, abridged)
        } else if is_pair(w, '=', '>') {
            self.keys_assign(w)
        } else {
            self.keys_other(w, abridged)
        }
    }

    fn contents_symbol(&mut self, t: Tokens)
        ensures
            final(self)@ == old(self)@.contents_symbol(t@),
    {
        let c = self.take_contents();
        self.emit(Tokens::Content(string_of(&c)));
        self.emit(t);
    }

    fn contents_opening(&mut self, w: &Vec<char>, a: char, b: char, t: Tokens)
        ensures
            final(self)@ == old(self)@.contents_opening(w@, a, b, t@),
    {
        let c = self.take_contents();
        self.emit(Tokens::Content(string_of(&c)));
        self.emit(t);
        let none: Vec<char> = Vec::new();
        self.contents = replace_pair(w, a, b, &none);
    }

    fn contents_closing(&mut self, w: &Vec<char>, a: char, b: char, t: Tokens)
        ensures
            final(self)@ == old(self)@.contents_closing(w@, a, b, t@),
    {
        let mut space: Vec<char> = Vec::new();
        space.push(' ');
        assert(space@ =~= blank());
        let mut c = self.take_contents();
        match find_separator(w) {
            Some((x, y)) => {
                let none: Vec<char> = Vec::new();
                let bare = replace_pair(w, a, b, &none);
                let rest = replace_pair(&bare, x, y, &space);
                append_text(&mut c, &rest);
                self.emit(Tokens::Content(string_of(&c)));
                self.emit(t);
                self.emit(Tokens::Separator(pair_string(x, y)));
            },
            None => {
                let rest = replace_pair(w, a, b, &space);
                append_text(&mut c, &rest);
                self.emit(Tokens::Content(string_of(&c)));
                self.emit(t);
            },
        }
    }

    fn contents_step(&mut self, w: &Vec<char>)
        ensures
            final(self)@ == old(self)@.contents_step(w@),
    {
        if is_pair(w, '[', '[') {
            self.contents_symbol(Tokens::CodeBlockOpen);
        } else if is_pair(w, ']', ']') {
            self.contents_symbol(Tokens::CodeBlockClose);
        } else if is_pair(w, '{', '{') {
            self.contents_symbol(Tokens::MathBlockOpen);
        } else if is_pair(w, '}', '}') {
            self.contents_symbol(Tokens::MathBlockClose);
        } else if contains_pair(w, '[', '[') {
            self.contents_opening(w, '[', '[', Tokens::CodeBlockOpen);
        } else if contains_pair(w, ']', ']') {
            self.contents_closing(w, ']', ']', Tokens::CodeBlockClose);
        } else if contains_pair(w, '{', '{') {
            self.contents_opening(w, '{', '{', Tokens::MathBlockOpen);
        } else if contains_pair(w, '}', '}') {
            self.contents_closing(w, '}', '}', Tokens::MathBlockClose);
        } else if is_pair(w, ':', ':') || is_pair(w, '-', '>') || is_pair(w, ',', ',') {
            self.contents_symbol(Tokens::Separator(string_of(w)));
        } else {
            append_text(&mut self.contents, w);
            self.contents.push(' ');
            assert(self.contents@ =~= old(self).contents@ + w@.push(' '));
        }
    }

    fn comments_step(&mut self, w: &Vec<char>) -> (r: Result<Progress, LexError>)
        ensures
            agrees(r, final(self)@, old(self)@.comments_step(w@)),
    {
        if is_pair(w, '*', '/') {
            if self.top_is(Sentinel::CommentOpen) {
                self.close_comment();
                let c = self.take_comments();
                self.emit(Tokens::CommentContents(string_of(&c)));
                self.mode = Mode::Keys;
                Ok(Progress::Continue)
            } else {
                Err(self.fail(LexErrorKind::CommentCloseWithoutOpen, w))
            }
        } else if contains_pair(w, '*', '/') {
            if self.top_is(Sentinel::CommentOpen) {
                let mut space: Vec<char> = Vec::new();
                space.push(' ');
                assert(space@ =~= blank());
                let rest = replace_pair(w, '*', '/', &space);
                self.close_comment();
                let mut c = self.take_comments();
                append_text(&mut c, &rest);
                self.emit(Tokens::CommentContents(string_of(&c)));
                self.mode = Mode::Keys;
                Ok(Progress::Continue)
            } else {
                Err(self.fail(LexErrorKind::CommentCloseWithoutOpen, w))
            }
        } else {
            append_text(&mut self.comments, w);
            self.comments.push(' ');
            assert(self.comments@ =~= old(self).comments@ + w@.push(' '));
            Ok(Progress::Continue)
        }
    }

    /// Reads the next word of the line. `abridged` says that the text is an
    /// imported file.
    pub fn step(&mut self, w: &Vec<char>, abridged: bool) -> (r: Result<Progress, LexError>)
        requires
            old(self).word < usize::MAX,
            old(self).indent <= old(self).word,
        ensures
            agrees(r, final(self)@, old(self)@.step(w@, abridged)),
    {
        self.word = self.word + 1;
        match self.mode {
            Mode::Keys => self.keys_step(w, abridged),
            Mode::Contents => {
                self.contents_step(w);
                Ok(Progress::Continue)
            },
            Mode::Comments => self.comments_step(w),
        }
    }

    /// Ends the text.
    pub fn finish(&mut self) -> (r: Result<(), LexError>)
        ensures
            match old(self)@.finish() {
                Ok(s) => r is Ok && final(self)@ == s,
                Err(e) => r is Err && r->Err_0@ == e,
            },
    {
        if self.scope_holds(Sentinel::CommentOpen) {
            let mut sym: Vec<char> = Vec::new();
            sym.push('/');
            sym.push('*');
            assert(sym@ =~= pair('/', '*'));
            return Err(self.fail(LexErrorKind::UnclosedComment, &sym));
        }
        if self.contents.len() > 0 {
            let c = self.take_contents();
            self.emit(Tokens::Content(string_of(&c)));
        }
        if self.comments.len() > 0 {
            let c = self.take_comments();
            self.emit(Tokens::CommentContents(string_of(&c)));
        }
        assert(self.contents@ =~= Seq::<char>::empty());
        assert(self.comments@ =~= Seq::<char>::empty());
        Ok(())
    }
}

} // verus!
