//! The lexer: from a text to its tokens.
//!
//! A text is read line by line and word by word. `*use` followed by a file
//! name imports that file: the file is read by the abridged lexer, which
//! checks all of it and hands back its type declarations alone. The files
//! that may be imported are supplied by the caller.

use vstd::prelude::*;
use crate::issue::{LexError, LexErrorKind, LexIssue};
use crate::lexer_laws::{lemma_abridged_reason, lemma_registry_grows};
use crate::reader::{lemma_step_position, listed, Progress, Reader, ReaderModel, Sentinel, Step};
use crate::text::{
    chars_of, line_words, lines_of, same_text, split_lines, split_words, string_of,
    texts, with_tab_words,
};
use crate::registry::TypeRegistry;
use crate::tokens::{views, Token, Tokens};
use crate::tree::strings;

verus! {

/// A file that a text may import: its name and what it holds, or nothing
/// where it could not be read.
#[derive(Debug, PartialEq, Eq)]
pub struct SourceFile {
    pub name: String,
    pub contents: Option<String>,
}

/// The mathematical value of a file that may be imported.
pub ghost struct SourceModel {
    pub name: Seq<char>,
    pub contents: Option<Seq<char>>,
}

impl View for SourceFile {
    type V = SourceModel;

    open spec fn view(&self) -> SourceModel {
        SourceModel {
            name: self.name@,
            contents: match self.contents {
                Some(c) => Some(c@),
                None => None,
            },
        }
    }
}

/// The values of a sequence of files.
pub open spec fn sources(s: Seq<SourceFile>) -> Seq<SourceModel> {
    Seq::new(s.len(), |i: int| s[i]@)
}

/// The first file from position `i` on that has the given name.
pub open spec fn source_from(imports: Seq<SourceModel>, name: Seq<char>, i: int) -> Option<
    SourceModel,
>
    decreases imports.len() - i,
{
    if i < 0 || i >= imports.len() {
        None
    } else if imports[i].name == name {
        Some(imports[i])
    } else {
        source_from(imports, name, i + 1)
    }
}

/// The first name from position `i` on that is registered already.
pub open spec fn clash_from(registry: Seq<Seq<char>>, names: Seq<Seq<char>>, i: int) -> Option<
    Seq<char>,
>
    decreases names.len() - i,
{
    if i < 0 || i >= names.len() {
        None
    } else if registry.contains(names[i]) {
        Some(names[i])
    } else {
        clash_from(registry, names, i + 1)
    }
}

/// Whether a token belongs to a type declaration.
pub open spec fn is_declaration_token(t: Token) -> bool {
    t is TypeKeyword || t is TypeName || t is Assignment || t is E || t is C || t is Any
        || t is TypeAsDeclarationParameter
}

/// The tokens of `s` from position `i` on that belong to type declarations.
pub open spec fn declarations_from(s: Seq<Token>, i: int) -> Seq<Token>
    decreases s.len() - i,
{
    if i < 0 || i >= s.len() {
        Seq::empty()
    } else if is_declaration_token(s[i]) {
        seq![s[i]] + declarations_from(s, i + 1)
    } else {
        declarations_from(s, i + 1)
    }
}

/// The state of the abridged lexer: a reader, and the declarations found.
pub ghost struct AbridgedModel {
    pub reader: ReaderModel,
    pub declarations: Seq<Token>,
}

impl AbridgedModel {
    /// The state in which an imported text starts: no name is declared.
    pub open spec fn start() -> AbridgedModel {
        AbridgedModel {
            reader: ReaderModel::start(Seq::empty()),
            declarations: Seq::empty(),
        }
    }

    /// The start of a line: a line break parts the declaration of the line
    /// before from what follows.
    pub open spec fn begin_line(self, first: bool) -> AbridgedModel {
        AbridgedModel {
            reader: self.reader.begin_line(first),
            declarations: if self.reader.top() != Some(Sentinel::CommentOpen)
                && self.reader.scope.contains(Sentinel::TypeKeyword) {
                self.declarations.push(Token::Linebreak)
            } else {
                self.declarations
            },
        }
    }

    /// The state after a word that took the reader to `next`: the declaration
    /// tokens that the word emitted are kept.
    pub open spec fn after_word(self, next: ReaderModel) -> AbridgedModel {
        AbridgedModel {
            reader: next,
            declarations: self.declarations + declarations_from(
                next.output,
                self.reader.output.len() as int,
            ),
        }
    }
}

/// The words of an imported line from position `k` on.
pub open spec fn abridged_words(a: AbridgedModel, words: Seq<Seq<char>>, k: int) -> Result<
    AbridgedModel,
    LexIssue,
>
    decreases words.len() - k,
{
    if k < 0 || k >= words.len() {
        Ok(a)
    } else {
        match a.reader.step(words[k], true) {
            Step::Next(s) | Step::Import(s) => abridged_words(a.after_word(s), words, k + 1),
            Step::Fail(e) => Err(e),
        }
    }
}

/// The lines of an imported text from position `i` on.
pub open spec fn abridged_lines(a: AbridgedModel, lines: Seq<Seq<char>>, i: int) -> Result<
    AbridgedModel,
    LexIssue,
>
    decreases lines.len() - i,
{
    if i < 0 || i >= lines.len() {
        Ok(a)
    } else {
        match abridged_words(a.begin_line(i == 0), line_words(lines[i]), 0) {
            Ok(b) => abridged_lines(b, lines, i + 1),
            Err(e) => Err(e),
        }
    }
}

/// What the abridged lexer makes of an imported text: the tokens of its type
/// declarations and the names they declare, or the first error in it.
pub open spec fn abridged_text(text: Seq<char>) -> Result<(Seq<Token>, Seq<Seq<char>>), LexIssue> {
    match abridged_lines(AbridgedModel::start(), lines_of(text), 0) {
        Ok(a) => match a.reader.finish() {
            Ok(s) => Ok((a.declarations, a.reader.registry)),
            Err(e) => Err(e),
        },
        Err(e) => Err(e),
    }
}

/// The import of the file named `w`, in the state `s` that the name left.
/// The file must be supplied, readable and free of errors, and may declare
/// no name that is registered already; its declarations are added to the
/// output and its names to the registry.
pub open spec fn resolve(s: ReaderModel, w: Seq<char>, imports: Seq<SourceModel>) -> Result<
    ReaderModel,
    LexIssue,
> {
    match source_from(imports, w, 0) {
        None => Err(s.issue(LexErrorKind::ImportMissing, w)),
        Some(file) => match file.contents {
            None => Err(s.issue(LexErrorKind::ImportUnreadable, w)),
            Some(text) => match abridged_text(text) {
                Err(e) => Err(LexIssue { file: Some(w), handed_on: true, ..e }),
                Ok((tokens, names)) => match clash_from(s.registry, names, 0) {
                    Some(name) => Err(s.issue(LexErrorKind::DuplicateType, name)),
                    None => Ok(
                        ReaderModel {
                            output: s.output + tokens,
                            registry: s.registry + names,
                            ..s
                        },
                    ),
                },
            },
        },
    }
}

/// The words of a line from position `k` on.
pub open spec fn lex_words(
    s: ReaderModel,
    words: Seq<Seq<char>>,
    k: int,
    imports: Seq<SourceModel>,
) -> Result<ReaderModel, LexIssue>
    decreases words.len() - k,
{
    if k < 0 || k >= words.len() {
        Ok(s)
    } else {
        match s.step(words[k], false) {
            Step::Next(t) => lex_words(t, words, k + 1, imports),
            Step::Import(t) => match resolve(t, words[k], imports) {
                Ok(u) => lex_words(u, words, k + 1, imports),
                Err(e) => Err(e),
            },
            Step::Fail(e) => Err(e),
        }
    }
}

/// The lines of a text from position `i` on.
pub open spec fn lex_lines(
    s: ReaderModel,
    lines: Seq<Seq<char>>,
    i: int,
    imports: Seq<SourceModel>,
) -> Result<ReaderModel, LexIssue>
    decreases lines.len() - i,
{
    if i < 0 || i >= lines.len() {
        Ok(s)
    } else {
        match lex_words(s.begin_line(i == 0), line_words(lines[i]), 0, imports) {
            Ok(t) => lex_lines(t, lines, i + 1, imports),
            Err(e) => Err(e),
        }
    }
}

/// The state in which the reader ends a text.
pub open spec fn lex_end(
    text: Seq<char>,
    registry: Seq<Seq<char>>,
    imports: Seq<SourceModel>,
) -> Result<ReaderModel, LexIssue> {
    match lex_lines(ReaderModel::start(registry), lines_of(text), 0, imports) {
        Ok(s) => s.finish(),
        Err(e) => Err(e),
    }
}

/// What the lexer makes of a text, given the names declared before it and
/// the files it may import: its tokens and the names declared after it, or
/// the first error in it.
pub open spec fn lex_text(
    text: Seq<char>,
    registry: Seq<Seq<char>>,
    imports: Seq<SourceModel>,
) -> Result<(Seq<Token>, Seq<Seq<char>>), LexIssue> {
    match lex_end(text, registry, imports) {
        Ok(s) => Ok((s.output, s.registry)),
        Err(e) => Err(e),
    }
}

/// Finds the first file of the given name.
fn find_source(imports: &Vec<SourceFile>, w: &Vec<char>) -> (r: Option<usize>)
    ensures
        match source_from(sources(imports@), w@, 0) {
            None => r is None,
            Some(f) => r is Some && r->0 < imports.len() && imports@[r->0 as int]@ == f,
        },
{
    let mut i: usize = 0;
    while i < imports.len()
        invariant
            i <= imports.len(),
            source_from(sources(imports@), w@, i as int) == source_from(sources(imports@), w@, 0),
        decreases imports.len() - i,
    {
        let name = chars_of(imports[i].name.as_str());
        if same_text(&name, w) {
            return Some(i);
        }
        i += 1;
    }
    None
}

/// Finds the first of `names` that is registered already.
fn find_clash(registry: &Vec<Vec<char>>, names: &Vec<Vec<char>>) -> (r: Option<usize>)
    ensures
        match clash_from(texts(registry@), texts(names@), 0) {
            None => r is None,
            Some(n) => r is Some && r->0 < names.len() && names@[r->0 as int]@ == n,
        },
{
    let mut i: usize = 0;
    while i < names.len()
        invariant
            i <= names.len(),
            clash_from(texts(registry@), texts(names@), i as int) == clash_from(
                texts(registry@),
                texts(names@),
                0,
            ),
        decreases names.len() - i,
    {
        if listed(registry, &names[i]) {
            return Some(i);
        }
        i += 1;
    }
    None
}

/// Whether a token belongs to a type declaration.
fn declares(t: &Tokens) -> (r: bool)
    ensures
        r == is_declaration_token(t@),
{
    matches!(
        t,
        Tokens::TypeKeyword | Tokens::TypeName(_) | Tokens::Assignment | Tokens::E(_) | Tokens::C(
            _
        ) | Tokens::Any | Tokens::TypeAsDeclarationParameter(_)
    )
}

/// Copies the declaration tokens of `out` from position `from` on to the end
/// of `into`.
fn keep_declarations(out: &Vec<Tokens>, from: usize, into: &mut Vec<Tokens>)
    requires
        from <= out.len(),
    ensures
        views(final(into)@) == views(old(into)@) + declarations_from(views(out@), from as int),
{
    let mut i: usize = from;
    assert(views(into@) + declarations_from(views(out@), from as int) == views(old(into)@)
        + declarations_from(views(out@), from as int));
    while i < out.len()
        invariant
            from <= i <= out.len(),
            views(into@) + declarations_from(views(out@), i as int) == views(old(into)@)
                + declarations_from(views(out@), from as int),
        decreases out.len() - i,
    {
        let ghost before = views(into@);
        if declares(&out[i]) {
            let t = out[i].clone();
            into.push(t);
            assert(views(into@) =~= before.push(out@[i as int]@));
            assert(before + (seq![out@[i as int]@] + declarations_from(views(out@), i + 1))
                =~= before.push(out@[i as int]@) + declarations_from(views(out@), i + 1));
        }
        i += 1;
    }
    assert(views(into@) + Seq::<Token>::empty() =~= views(into@));
}

/// The abridged lexer on the characters of an imported text.
fn abridged_chars(text: &Vec<char>) -> (r: Result<(Vec<Tokens>, Vec<Vec<char>>), LexError>)
    ensures
        match abridged_text(text@) {
            Ok((tokens, names)) => r is Ok && views(r->Ok_0.0@) == tokens && texts(r->Ok_0.1@)
                == names,
            Err(e) => r is Err && r->Err_0@ == e,
        },
{
    let lines = split_lines(text);
    let mut reader = Reader::new(Vec::new());
    let mut declarations: Vec<Tokens> = Vec::new();
    let ghost all = lines_of(text@);
    let ghost goal = abridged_lines(AbridgedModel::start(), all, 0);
    assert(texts(Seq::<Vec<char>>::empty()) =~= Seq::<Seq<char>>::empty());
    assert(views(declarations@) =~= Seq::<Token>::empty());
    let mut i: usize = 0;
    while i < lines.len()
        invariant
            i <= lines.len(),
            texts(lines@) == all,
            all == lines_of(text@),
            goal == abridged_lines(AbridgedModel::start(), all, 0),
            reader.line == i,
            abridged_lines(
                AbridgedModel { reader: reader@, declarations: views(declarations@) },
                all,
                i as int,
            ) == goal,
        decreases lines.len() - i,
    {
        let ghost at_line = AbridgedModel { reader: reader@, declarations: views(declarations@) };
        if !reader.top_is(Sentinel::CommentOpen) && reader.scope_holds(Sentinel::TypeKeyword) {
            declarations.push(Tokens::Linebreak);
            assert(views(declarations@) =~= at_line.declarations.push(Token::Linebreak));
        }
        reader.begin_line(i == 0);
        let expanded = with_tab_words(&lines[i]);
        let words = split_words(&expanded);
        let ghost ws = line_words(all[i as int]);
        let ghost line_goal = abridged_words(at_line.begin_line(i == 0), ws, 0);
        let mut k: usize = 0;
        while k < words.len()
            invariant
                k <= words.len(),
                texts(words@) == ws,
                all == lines_of(text@),
                goal == abridged_lines(AbridgedModel::start(), all, 0),
                reader.word == k,
                reader.indent <= k,
                reader.line == i + 1,
                i < lines.len(),
                abridged_words(
                    AbridgedModel { reader: reader@, declarations: views(declarations@) },
                    ws,
                    k as int,
                ) == line_goal,
                match line_goal {
                    Ok(b) => abridged_lines(b, all, i + 1) == goal,
                    Err(e) => goal == Err::<AbridgedModel, LexIssue>(e),
                },
            decreases words.len() - k,
        {
            let ghost before = AbridgedModel {
                reader: reader@,
                declarations: views(declarations@),
            };
            let from = reader.output.len();
            proof {
                lemma_step_position(reader@, ws[k as int], true);
            }
            match reader.step(&words[k], true) {
                Ok(_) => {
                    keep_declarations(&reader.output, from, &mut declarations);
                },
                Err(e) => {
                    assert(words@[k as int]@ == ws[k as int]);
                    assert(abridged_words(before, ws, k as int) == Err::<AbridgedModel, LexIssue>(
                        e@,
                    ));
                    return Err(e);
                },
            }
            k += 1;
        }
        i += 1;
    }
    match reader.finish() {
        Ok(()) => Ok((declarations, reader.registry)),
        Err(e) => Err(e),
    }
}

/// Marks an error as found in the file of the given name, and as handed on
/// or not.
fn found_in(e: LexError, file: &Vec<char>, handed_on: bool) -> (r: LexError)
    ensures
        r@ == (LexIssue { file: Some(file@), handed_on, ..e@ }),
{
    LexError {
        kind: e.kind,
        line: e.line,
        word: e.word,
        lexeme: e.lexeme,
        file: Some(string_of(file)),
        handed_on,
    }
}

/// Imports the file named `w` into the reader.
fn import(reader: &mut Reader, w: &Vec<char>, imports: &Vec<SourceFile>) -> (r: Result<
    (),
    LexError,
>)
    ensures
        match resolve(old(reader)@, w@, sources(imports@)) {
            Ok(s) => r is Ok && final(reader)@ == s,
            Err(e) => r is Err && r->Err_0@ == e,
        },
{
    let at = match find_source(imports, w) {
        None => {
            return Err(reader.fail(LexErrorKind::ImportMissing, w));
        },
        Some(at) => at,
    };
    let text = match &imports[at].contents {
        None => {
            return Err(reader.fail(LexErrorKind::ImportUnreadable, w));
        },
        Some(c) => chars_of(c.as_str()),
    };
    let (tokens, names) = match abridged_chars(&text) {
        Err(e) => {
            return Err(found_in(e, w, true));
        },
        Ok(found) => found,
    };
    match find_clash(&reader.registry, &names) {
        Some(n) => {
            return Err(reader.fail(LexErrorKind::DuplicateType, &names[n]));
        },
        None => {},
    }
    let mut tokens = tokens;
    let mut names = names;
    let ghost out = views(reader.output@);
    let ghost reg = texts(reader.registry@);
    let ghost more = views(tokens@);
    let ghost new = texts(names@);
    reader.output.append(&mut tokens);
    reader.registry.append(&mut names);
    assert(views(reader.output@) =~= out + more);
    assert(texts(reader.registry@) =~= reg + new);
    Ok(())
}

/// The lexer on the characters of a text.
fn lex_chars(text: &Vec<char>, registry: Vec<Vec<char>>, imports: &Vec<SourceFile>) -> (r: Result<
    (Vec<Tokens>, Vec<Vec<char>>),
    LexError,
>)
    ensures
        match lex_text(text@, texts(registry@), sources(imports@)) {
            Ok((tokens, names)) => r is Ok && views(r->Ok_0.0@) == tokens && texts(r->Ok_0.1@)
                == names,
            Err(e) => r is Err && r->Err_0@ == e,
        },
{
    let lines = split_lines(text);
    let ghost all = lines_of(text@);
    let ghost files = sources(imports@);
    let ghost goal = lex_lines(ReaderModel::start(texts(registry@)), all, 0, files);
    let mut reader = Reader::new(registry);
    let mut i: usize = 0;
    while i < lines.len()
        invariant
            i <= lines.len(),
            texts(lines@) == all,
            all == lines_of(text@),
            files == sources(imports@),
            goal == lex_lines(ReaderModel::start(texts(registry@)), all, 0, files),
            reader.line == i,
            lex_lines(reader@, all, i as int, files) == goal,
        decreases lines.len() - i,
    {
        let ghost at_line = reader@;
        reader.begin_line(i == 0);
        let expanded = with_tab_words(&lines[i]);
        let words = split_words(&expanded);
        let ghost ws = line_words(all[i as int]);
        let ghost line_goal = lex_words(at_line.begin_line(i == 0), ws, 0, files);
        let mut k: usize = 0;
        while k < words.len()
            invariant
                k <= words.len(),
                texts(words@) == ws,
                all == lines_of(text@),
                files == sources(imports@),
                goal == lex_lines(ReaderModel::start(texts(registry@)), all, 0, files),
                reader.word == k,
                reader.indent <= k,
                reader.line == i + 1,
                i < lines.len(),
                lex_words(reader@, ws, k as int, files) == line_goal,
                match line_goal {
                    Ok(b) => lex_lines(b, all, i + 1, files) == goal,
                    Err(e) => goal == Err::<ReaderModel, LexIssue>(e),
                },
            decreases words.len() - k,
        {
            let ghost before = reader@;
            proof {
                lemma_step_position(before, ws[k as int], false);
            }
            assert(words@[k as int]@ == ws[k as int]);
            match reader.step(&words[k], false) {
                Ok(Progress::Continue) => {},
                Ok(Progress::Import) => {
                    match import(&mut reader, &words[k], imports) {
                        Ok(()) => {},
                        Err(e) => {
                            assert(lex_words(before, ws, k as int, files) == Err::<
                                ReaderModel,
                                LexIssue,
                            >(e@));
                            return Err(e);
                        },
                    }
                },
                Err(e) => {
                    assert(lex_words(before, ws, k as int, files) == Err::<ReaderModel, LexIssue>(
                        e@,
                    ));
                    return Err(e);
                },
            }
            k += 1;
        }
        i += 1;
    }
    match reader.finish() {
        Ok(()) => Ok((reader.output, reader.registry)),
        Err(e) => Err(e),
    }
}

/// Turns a text into its tokens. `imports` holds the files that the text may
/// import with `*use`; no type name is declared before the text.
pub fn lexer(input: String, imports: &Vec<SourceFile>) -> (r: Result<Vec<Tokens>, LexError>)
    ensures
        match lex_text(input@, Seq::empty(), sources(imports@)) {
            Ok((tokens, names)) => r is Ok && views(r->Ok_0@) == tokens,
            Err(e) => r is Err && r->Err_0@ == e,
        },
{
    let text = chars_of(input.as_str());
    let none: Vec<Vec<char>> = Vec::new();
    assert(texts(none@) =~= Seq::<Seq<char>>::empty());
    match lex_chars(&text, none, imports) {
        Ok((tokens, _names)) => Ok(tokens),
        Err(e) => Err(e),
    }
}

/// Turns a text into its tokens, given the type names declared before it.
/// `imports` holds the files that the text may import with `*use`. The
/// registry that comes back holds the names declared before and in the text.
pub fn lex_with_registry(input: String, registry: TypeRegistry, imports: &Vec<SourceFile>) -> (r:
    Result<(Vec<Tokens>, TypeRegistry), LexError>)
    ensures
        match lex_text(input@, registry@, sources(imports@)) {
            Ok((tokens, names)) => r is Ok && views(r->Ok_0.0@) == tokens && r->Ok_0.1@ == names,
            Err(e) => r is Err && r->Err_0@ == e,
        },
{
    let text = chars_of(input.as_str());
    let before = registry.into_names();
    proof {
        lemma_registry_grows(input@, texts(before@), sources(imports@));
    }
    match lex_chars(&text, before, imports) {
        Ok((tokens, names)) => Ok((tokens, TypeRegistry::from_names(names))),
        Err(e) => Err(e),
    }
}

/// Turns an imported text into the tokens of its type declarations and the
/// names they declare. All of the text is checked as the lexer checks it, and
/// `*use` is refused. An error names `filename` as the file it was found in,
/// and has the reason of its kind.
pub fn abridged_lexer(input: String, filename: &String) -> (r: Result<
    (Vec<Tokens>, Vec<String>),
    LexError,
>)
    ensures
        match abridged_text(input@) {
            Ok((tokens, names)) => r is Ok && views(r->Ok_0.0@) == tokens && strings(r->Ok_0.1@)
                == names,
            Err(e) => r is Err && r->Err_0@ == (LexIssue { file: Some(filename@), ..e })
                && !r->Err_0@.handed_on && r->Err_0@.reason() == e.kind.sentence(),
        },
{
    proof {
        lemma_abridged_reason(input@, Some(filename@));
    }
    let text = chars_of(input.as_str());
    match abridged_chars(&text) {
        Ok((tokens, names)) => {
            let mut out: Vec<String> = Vec::new();
            let mut i: usize = 0;
            while i < names.len()
                invariant
                    i <= names.len(),
                    out.len() == i,
                    forall|j: int| 0 <= j < i ==> out@[j]@ == names@[j]@,
                decreases names.len() - i,
            {
                out.push(string_of(&names[i]));
                i += 1;
            }
            assert(strings(out@) =~= texts(names@));
            Ok((tokens, out))
        },
        Err(e) => {
            let file = chars_of(filename.as_str());
            let handed_on = e.handed_on;
            Err(found_in(e, &file, handed_on))
        },
    }
}

} // verus!
