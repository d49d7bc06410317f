use diazo::issue::{ErrorFamily, LexError, LexErrorKind};
use diazo::lexer::{abridged_lexer, lex_with_registry, lexer, SourceFile};
use diazo::registry::TypeRegistry;
use diazo::tokens::Tokens;

fn s(t: &str) -> String {
    t.to_string()
}

fn lex(text: &str) -> Result<Vec<Tokens>, LexError> {
    lexer(s(text), &Vec::new())
}

fn file(name: &str, contents: &str) -> SourceFile {
    SourceFile { name: s(name), contents: Some(s(contents)) }
}

fn fails(text: &str, kind: LexErrorKind, line: usize, word: usize, lexeme: &str) {
    let err = lex(text).unwrap_err();
    assert_eq!(err.kind, kind);
    assert_eq!(err.line, line);
    assert_eq!(err.word, word);
    assert_eq!(err.lexeme, lexeme);
    assert_eq!(err.file, None);
    assert_eq!(err.family(), ErrorFamily::Lexical);
}

#[test]
fn declaration_tokens() {
    assert_eq!(
        lex("*type  Foo  =>  any").unwrap(),
        vec![Tokens::TypeKeyword, Tokens::TypeName(s("Foo")), Tokens::Assignment, Tokens::Any]
    );
}

#[test]
fn collection_declaration_tokens() {
    assert_eq!(
        lex("*type  List  =>  e..n  c..1").unwrap(),
        vec![
            Tokens::TypeKeyword,
            Tokens::TypeName(s("List")),
            Tokens::Assignment,
            Tokens::E(s("e..n")),
            Tokens::C(s("c..1")),
        ]
    );
}

#[test]
fn empty_text_has_no_tokens() {
    assert_eq!(lex("").unwrap(), vec![]);
    assert_eq!(lex("\n").unwrap(), vec![]);
    assert_eq!(lex("   ").unwrap(), vec![]);
}

#[test]
fn duplicate_type() {
    let err = lex("*type Foo => any\n*type Foo => any").unwrap_err();
    assert_eq!(err.kind, LexErrorKind::DuplicateType);
    assert_eq!(err.line, 2);
    assert_eq!(err.word, 2);
    assert_eq!(err.lexeme, "Foo");
    assert_eq!(err.family(), ErrorFamily::Lexical);
    assert!(err.reason().contains("namespace is already occupied"));
}

#[test]
fn line_break_before_every_line_but_the_first() {
    assert_eq!(
        lex("a\nb\nc").unwrap(),
        vec![
            Tokens::Content(s("a ")),
            Tokens::Linebreak,
            Tokens::Content(s("b ")),
            Tokens::Linebreak,
            Tokens::Content(s("c ")),
        ]
    );
    assert_eq!(
        lex("a\n\nb\n").unwrap(),
        vec![
            Tokens::Content(s("a ")),
            Tokens::Linebreak,
            Tokens::Linebreak,
            Tokens::Content(s("b ")),
        ]
    );
}

#[test]
fn carriage_return_ends_a_line_with_the_line_feed() {
    assert_eq!(
        lex("a\r\nb").unwrap(),
        vec![Tokens::Content(s("a ")), Tokens::Linebreak, Tokens::Content(s("b "))]
    );
}

#[test]
fn words_are_split_at_any_white_space() {
    assert_eq!(lex("a\u{a0}b\u{3000}c  d").unwrap(), vec![Tokens::Content(s("a b c d "))]);
}

#[test]
fn tabs_become_tokens() {
    assert_eq!(
        lex("\t\tfoo\tbar").unwrap(),
        vec![Tokens::Tab, Tokens::Tab, Tokens::Content(s("foo *tab! bar "))]
    );
    assert_eq!(lex("*tab! x").unwrap(), vec![Tokens::Tab, Tokens::Content(s("x "))]);
}

#[test]
fn line_comment() {
    assert_eq!(
        lex("// hello world\nnext").unwrap(),
        vec![
            Tokens::CommentLine,
            Tokens::CommentContents(s("hello world ")),
            Tokens::Linebreak,
            Tokens::Content(s("next ")),
        ]
    );
    assert_eq!(
        lex("//hello world").unwrap(),
        vec![Tokens::CommentLine, Tokens::CommentContents(s("helloworld "))]
    );
}

#[test]
fn prose_and_comment_are_placed_before_the_line_break() {
    assert_eq!(
        lex("note // why\nmore").unwrap(),
        vec![
            Tokens::Content(s("note // why ")),
            Tokens::Linebreak,
            Tokens::Content(s("more ")),
        ]
    );
    assert_eq!(
        lex("*type A => any // why\nA").unwrap(),
        vec![
            Tokens::TypeKeyword,
            Tokens::TypeName(s("A")),
            Tokens::Assignment,
            Tokens::Any,
            Tokens::CommentLine,
            Tokens::CommentContents(s("why ")),
            Tokens::Linebreak,
            Tokens::TypeInstance(s("A")),
        ]
    );
}

#[test]
fn block_comment_over_lines() {
    assert_eq!(
        lex("/* a\nb */ c").unwrap(),
        vec![
            Tokens::CommentOpen,
            Tokens::CommentContents(s("a ")),
            Tokens::Linebreak,
            Tokens::CommentContents(s("b ")),
            Tokens::Content(s("c ")),
        ]
    );
}

#[test]
fn block_comment_with_attached_symbols() {
    assert_eq!(
        lex("/* a b*/").unwrap(),
        vec![Tokens::CommentOpen, Tokens::CommentContents(s("a b "))]
    );
    assert_eq!(
        lex("/*a b */").unwrap(),
        vec![Tokens::CommentOpen, Tokens::CommentContents(s("ab "))]
    );
    assert_eq!(lex("/* */").unwrap(), vec![Tokens::CommentOpen, Tokens::CommentContents(s(""))]);
}

#[test]
fn block_comments_are_balanced() {
    let out = lex("/* one */ /* two\nstill two */ x").unwrap();
    let opened = out.iter().filter(|t| **t == Tokens::CommentOpen).count();
    assert_eq!(opened, 2);
    fails("/* one */ /* two\nstill two", LexErrorKind::UnclosedComment, 2, 2, "/*");
}

#[test]
fn unclosed_comment() {
    fails("/* never", LexErrorKind::UnclosedComment, 1, 2, "/*");
    fails("x\n/*never\n\n", LexErrorKind::UnclosedComment, 3, 0, "/*");
}

#[test]
fn comment_close_without_open() {
    fails("// x */", LexErrorKind::CommentCloseWithoutOpen, 1, 3, "*/");
    fails("// x y*/", LexErrorKind::CommentCloseWithoutOpen, 1, 3, "y*/");
}

#[test]
fn type_keyword_after_a_tab() {
    fails("\t*type Foo => any", LexErrorKind::TypeInScope, 1, 2, "*type");
}

#[test]
fn use_keyword_errors() {
    fails("*use *use", LexErrorKind::UseRepeated, 1, 2, "*use");
    fails("\t*use a.dz", LexErrorKind::UseInScope, 1, 2, "*use");
    fails("*type *use", LexErrorKind::UseInDeclaration, 1, 2, "*use");
    fails("*type A => *use", LexErrorKind::UseInDeclaration, 1, 4, "*use");
}

#[test]
fn assignment_errors() {
    fails("=> x", LexErrorKind::AssignmentOutsideDeclaration, 1, 1, "=>");
    fails("*type =>", LexErrorKind::TypeNameNotOneWord, 1, 0, "=>");
    fails("*type Foo \t => any", LexErrorKind::TypeNameNotOneWord, 1, 2, "=>");
}

#[test]
fn second_word_after_a_type_name_is_prose() {
    assert_eq!(
        lex("*type a b => any").unwrap(),
        vec![Tokens::TypeKeyword, Tokens::TypeName(s("a")), Tokens::Content(s("b => any "))]
    );
}

#[test]
fn arguments() {
    assert_eq!(
        lex("*type A => any\n*type B => A e..n c..1 e..").unwrap(),
        vec![
            Tokens::TypeKeyword,
            Tokens::TypeName(s("A")),
            Tokens::Assignment,
            Tokens::Any,
            Tokens::Linebreak,
            Tokens::TypeKeyword,
            Tokens::TypeName(s("B")),
            Tokens::Assignment,
            Tokens::TypeAsDeclarationParameter(s("A")),
            Tokens::E(s("e..n")),
            Tokens::C(s("c..1")),
            Tokens::E(s("e..")),
        ]
    );
}

#[test]
fn malformed_arguments() {
    fails("*type A => e", LexErrorKind::MalformedElementArgument, 1, 4, "e");
    fails("*type A => e.", LexErrorKind::MalformedElementArgument, 1, 4, "e.");
    fails("*type A => ex..", LexErrorKind::MalformedElementArgument, 1, 4, "ex..");
    fails("*type A => c.x", LexErrorKind::MalformedContentArgument, 1, 4, "c.x");
    fails("*type A => any foo", LexErrorKind::UnknownArgument, 1, 5, "foo");
}

#[test]
fn a_type_may_take_itself_as_argument() {
    assert_eq!(
        lex("*type A => A").unwrap(),
        vec![
            Tokens::TypeKeyword,
            Tokens::TypeName(s("A")),
            Tokens::Assignment,
            Tokens::TypeAsDeclarationParameter(s("A")),
        ]
    );
}

#[test]
fn type_instance_opens_prose() {
    assert_eq!(
        lex("*type A => any\nA hello A").unwrap(),
        vec![
            Tokens::TypeKeyword,
            Tokens::TypeName(s("A")),
            Tokens::Assignment,
            Tokens::Any,
            Tokens::Linebreak,
            Tokens::TypeInstance(s("A")),
            Tokens::Content(s("hello A ")),
        ]
    );
}

#[test]
fn separators_at_the_start_of_prose() {
    assert_eq!(
        lex("a::b c").unwrap(),
        vec![Tokens::Content(s("a ")), Tokens::Separator(s("::")), Tokens::Content(s("b c "))]
    );
    assert_eq!(
        lex("x->y,,z w").unwrap(),
        vec![Tokens::Content(s("x ")), Tokens::Separator(s("->")), Tokens::Content(s("y,,z w "))]
    );
    assert_eq!(
        lex("a::b::c").unwrap(),
        vec![Tokens::Content(s("a ")), Tokens::Separator(s("::")), Tokens::Content(s("b::c "))]
    );
    assert_eq!(
        lex("::b").unwrap(),
        vec![Tokens::Content(s(" ")), Tokens::Separator(s("::")), Tokens::Content(s("b "))]
    );
    assert_eq!(lex(",,").unwrap(), vec![Tokens::Content(s(" ")), Tokens::Separator(s(",,"))]);
    assert_eq!(
        lex("-> x").unwrap(),
        vec![Tokens::Content(s(" ")), Tokens::Separator(s("->")), Tokens::Content(s("x "))]
    );
}

#[test]
fn keywords_are_looked_for_again_after_a_word_that_ends_in_a_separator() {
    assert_eq!(
        lex("*type Foo => any\nname:: Foo x").unwrap(),
        vec![
            Tokens::TypeKeyword,
            Tokens::TypeName(s("Foo")),
            Tokens::Assignment,
            Tokens::Any,
            Tokens::Linebreak,
            Tokens::Content(s("name ")),
            Tokens::Separator(s("::")),
            Tokens::TypeInstance(s("Foo")),
            Tokens::Content(s("x ")),
        ]
    );
    assert_eq!(
        lex("*type Foo => any\nname::n Foo x").unwrap(),
        vec![
            Tokens::TypeKeyword,
            Tokens::TypeName(s("Foo")),
            Tokens::Assignment,
            Tokens::Any,
            Tokens::Linebreak,
            Tokens::Content(s("name ")),
            Tokens::Separator(s("::")),
            Tokens::Content(s("n Foo x ")),
        ]
    );
}

#[test]
fn separators_inside_prose() {
    assert_eq!(
        lex("a -> b").unwrap(),
        vec![Tokens::Content(s("a ")), Tokens::Separator(s("->")), Tokens::Content(s("b "))]
    );
    assert_eq!(
        lex("x :: y").unwrap(),
        vec![Tokens::Content(s("x ")), Tokens::Separator(s("::")), Tokens::Content(s("y "))]
    );
    assert_eq!(
        lex("x y ,, z :: w").unwrap(),
        vec![
            Tokens::Content(s("x y ")),
            Tokens::Separator(s(",,")),
            Tokens::Content(s("z ")),
            Tokens::Separator(s("::")),
            Tokens::Content(s("w ")),
        ]
    );
    assert_eq!(
        lex("*type Foo => any\nFoo :: x").unwrap(),
        vec![
            Tokens::TypeKeyword,
            Tokens::TypeName(s("Foo")),
            Tokens::Assignment,
            Tokens::Any,
            Tokens::Linebreak,
            Tokens::TypeInstance(s("Foo")),
            Tokens::Content(s("")),
            Tokens::Separator(s("::")),
            Tokens::Content(s("x ")),
        ]
    );
    assert_eq!(lex("a b::c").unwrap(), vec![Tokens::Content(s("a b::c "))]);
}

#[test]
fn block_symbols_alone() {
    assert_eq!(
        lex("[[ x ]]").unwrap(),
        vec![Tokens::CodeBlockOpen, Tokens::Content(s("x ")), Tokens::CodeBlockClose]
    );
    assert_eq!(
        lex("a {{ x }} b").unwrap(),
        vec![
            Tokens::Content(s("a ")),
            Tokens::MathBlockOpen,
            Tokens::Content(s("x ")),
            Tokens::MathBlockClose,
            Tokens::Content(s("b ")),
        ]
    );
}

#[test]
fn opening_symbol_attached_to_the_first_word_of_prose() {
    assert_eq!(
        lex("[[x y ]]").unwrap(),
        vec![Tokens::CodeBlockOpen, Tokens::Content(s("xy ")), Tokens::CodeBlockClose]
    );
    assert_eq!(
        lex("{{m}} n").unwrap(),
        vec![Tokens::MathBlockOpen, Tokens::Content(s("m}}n "))]
    );
    assert_eq!(lex("]] x").unwrap(), vec![Tokens::Content(s("]] x "))]);
}

#[test]
fn block_symbols_attached() {
    assert_eq!(
        lex("a bar]]:: z").unwrap(),
        vec![
            Tokens::Content(s("a bar ")),
            Tokens::CodeBlockClose,
            Tokens::Separator(s("::")),
            Tokens::Content(s("z ")),
        ]
    );
    assert_eq!(
        lex("a {{x y}} b").unwrap(),
        vec![
            Tokens::Content(s("a ")),
            Tokens::MathBlockOpen,
            Tokens::Content(s("xy ")),
            Tokens::MathBlockClose,
            Tokens::Content(s("b ")),
        ]
    );
    assert_eq!(
        lex("a [[x y]] b").unwrap(),
        vec![
            Tokens::Content(s("a ")),
            Tokens::CodeBlockOpen,
            Tokens::Content(s("xy ")),
            Tokens::CodeBlockClose,
            Tokens::Content(s("b ")),
        ]
    );
}

#[test]
fn word_with_both_code_symbols() {
    assert_eq!(
        lex("hello [[code]] world").unwrap(),
        vec![
            Tokens::Content(s("hello ")),
            Tokens::CodeBlockOpen,
            Tokens::Content(s("code]]world ")),
        ]
    );
}

#[test]
fn import_splices_declarations() {
    let files = vec![file("a.dz", "*type Bar => any")];
    let out = lexer(s("*use a.dz\nBar"), &files).unwrap();
    assert_eq!(
        out,
        vec![
            Tokens::UseKeyword,
            Tokens::Filename(s("a.dz")),
            Tokens::Linebreak,
            Tokens::TypeKeyword,
            Tokens::TypeName(s("Bar")),
            Tokens::Assignment,
            Tokens::Any,
            Tokens::Linebreak,
            Tokens::TypeInstance(s("Bar")),
        ]
    );
}

#[test]
fn import_takes_the_first_file_of_the_name() {
    let files = vec![file("b.dz", "*type B => any"), file("a.dz", "*type A => any"), file("a.dz", "x")];
    let (_, registry) = lex_with_registry(s("*use a.dz"), TypeRegistry::new(), &files).unwrap();
    assert_eq!(registry.names(), vec![s("A")]);
}

#[test]
fn import_errors() {
    let err = lex("*use a.dz").unwrap_err();
    assert_eq!(err.kind, LexErrorKind::ImportMissing);
    assert_eq!((err.line, err.word), (1, 2));
    assert_eq!(err.lexeme, "a.dz");
    assert_eq!(err.file, None);
    assert_eq!(err.family(), ErrorFamily::Import);
    assert_eq!(err.reason(), "Error, see above. ^^");

    let files = vec![SourceFile { name: s("a.dz"), contents: None }];
    let err = lexer(s("x\n*use a.dz"), &files).unwrap_err();
    assert_eq!(err.kind, LexErrorKind::ImportUnreadable);
    assert_eq!((err.line, err.word), (2, 2));
    assert_eq!(err.family(), ErrorFamily::Import);
    assert_eq!(err.reason(), "Error, see above. ^^");

    let files = vec![file("a.dz", "ok\n\t*type X => any")];
    let err = lexer(s("*use a.dz"), &files).unwrap_err();
    assert_eq!(err.kind, LexErrorKind::TypeInScope);
    assert_eq!((err.line, err.word), (2, 2));
    assert_eq!(err.lexeme, "*type");
    assert_eq!(err.file, Some(s("a.dz")));
    assert!(err.handed_on);
    assert_eq!(err.family(), ErrorFamily::Import);
    assert_eq!(err.reason(), "Error, see above. ^^");
    assert!(err.kind.reason().starts_with("Invalid syntax: *type has been placed in a scope"));
}

#[test]
fn error_in_an_imported_file_is_handed_on_with_one_reason() {
    let files = vec![file("a.dz", "// x */")];
    let err = lexer(s("*use a.dz"), &files).unwrap_err();
    assert_eq!(err.reason(), "Error, see above. ^^");
    assert_eq!(err.kind, LexErrorKind::CommentCloseWithoutOpen);
    assert_eq!((err.line, err.word), (1, 3));
    assert_eq!(err.lexeme, "*/");
    assert_eq!(err.file, Some(s("a.dz")));
    assert!(err.handed_on);
    assert_eq!(
        err.diagnostic(),
        "Issue in imported file: a.dz. Issue found at line 1, word 3, token:*/"
    );
    assert_eq!(
        err.kind.reason(),
        "Invalid syntax: You've tried to close a block comment but this isn't a block comment!"
    );

    let err = abridged_lexer(s("// x */"), &s("a.dz")).unwrap_err();
    assert_eq!(
        err.reason(),
        "Invalid syntax: You've tried to close a block comment but this isn't a block comment!"
    );
    assert_eq!(err.kind, LexErrorKind::CommentCloseWithoutOpen);
    assert_eq!(err.file, Some(s("a.dz")));
    assert!(!err.handed_on);
    assert_eq!(err.family(), ErrorFamily::Lexical);
    assert_eq!(
        err.diagnostic(),
        "Issue in imported file: a.dz. Issue found at line 1, word 3, token:*/"
    );
}

#[test]
fn import_inside_an_imported_file_is_refused() {
    let files = vec![file("a.dz", "*use b.dz"), file("b.dz", "*type B => any")];
    let err = lexer(s("*use a.dz"), &files).unwrap_err();
    assert_eq!(err.kind, LexErrorKind::UseInImport);
    assert_eq!((err.line, err.word), (1, 1));
    assert_eq!(err.file, Some(s("a.dz")));
    assert_eq!(err.reason(), "Error, see above. ^^");
}

#[test]
fn import_of_a_declared_name_is_refused() {
    let files = vec![file("a.dz", "*type Foo => any\n*type Bar => any")];
    let err = lexer(s("*type Bar => any\n*use a.dz"), &files).unwrap_err();
    assert_eq!(err.kind, LexErrorKind::DuplicateType);
    assert_eq!((err.line, err.word), (2, 2));
    assert_eq!(err.lexeme, "Bar");
    assert_eq!(err.file, None);
    assert_eq!(err.family(), ErrorFamily::Lexical);
    assert!(err.reason().contains("namespace is already occupied"));

    let err = lexer(s("*use a.dz\n*use a.dz"), &files).unwrap_err();
    assert_eq!(err.kind, LexErrorKind::DuplicateType);
    assert_eq!(err.lexeme, "Foo");
}

#[test]
fn abridged_lexer_keeps_declarations() {
    let (tokens, names) = abridged_lexer(
        s("*type A => any // first\nsome [[ prose ]]\n/* c */\n*type B => A e..n"),
        &s("a.dz"),
    )
    .unwrap();
    assert_eq!(
        tokens,
        vec![
            Tokens::TypeKeyword,
            Tokens::TypeName(s("A")),
            Tokens::Assignment,
            Tokens::Any,
            Tokens::Linebreak,
            Tokens::TypeKeyword,
            Tokens::TypeName(s("B")),
            Tokens::Assignment,
            Tokens::TypeAsDeclarationParameter(s("A")),
            Tokens::E(s("e..n")),
        ]
    );
    assert_eq!(names, vec![s("A"), s("B")]);
}

#[test]
fn abridged_lexer_checks_all_of_the_text() {
    let err = abridged_lexer(s("*type A => any\n/* open"), &s("a.dz")).unwrap_err();
    assert_eq!(err.kind, LexErrorKind::UnclosedComment);
    assert_eq!(err.file, Some(s("a.dz")));
    let err = abridged_lexer(s("*type A => any\n*type A => any"), &s("a.dz")).unwrap_err();
    assert_eq!(err.kind, LexErrorKind::DuplicateType);
    assert_eq!(err.line, 2);
    let err = abridged_lexer(s("*use b.dz"), &s("a.dz")).unwrap_err();
    assert_eq!(err.kind, LexErrorKind::UseInImport);
}

#[test]
fn registry_is_taken_and_extended() {
    let registry = TypeRegistry::new().declare("List").declare("List").declare("Item");
    assert_eq!(registry.len(), 2);
    assert!(registry.contains("Item"));
    assert!(!registry.contains("Other"));
    let (tokens, registry) =
        lex_with_registry(s("List x\n*type Pair => Item Item"), registry, &Vec::new()).unwrap();
    assert_eq!(
        tokens,
        vec![
            Tokens::TypeInstance(s("List")),
            Tokens::Content(s("x ")),
            Tokens::Linebreak,
            Tokens::TypeKeyword,
            Tokens::TypeName(s("Pair")),
            Tokens::Assignment,
            Tokens::TypeAsDeclarationParameter(s("Item")),
            Tokens::TypeAsDeclarationParameter(s("Item")),
        ]
    );
    assert_eq!(registry.names(), vec![s("List"), s("Item"), s("Pair")]);
    let err = lex_with_registry(s("*type Item => any"), registry, &Vec::new()).unwrap_err();
    assert_eq!(err.kind, LexErrorKind::DuplicateType);
}

#[test]
fn lexing_twice_gives_the_same_registry() {
    let files = vec![file("a.dz", "*type A => any\n*type B => A")];
    let text = "*type C => any\n*use a.dz\n*type D => B C";
    let (t1, r1) = lex_with_registry(s(text), TypeRegistry::new(), &files).unwrap();
    let (t2, r2) = lex_with_registry(s(text), TypeRegistry::new(), &files).unwrap();
    assert_eq!(t1, t2);
    assert_eq!(r1.names(), r2.names());
    assert_eq!(r1.names(), vec![s("C"), s("A"), s("B"), s("D")]);
}

fn render(tokens: &Vec<Tokens>) -> Vec<Vec<String>> {
    let mut lines: Vec<Vec<String>> = vec![Vec::new()];
    for t in tokens {
        let words: Vec<String> = match t {
            Tokens::Linebreak => {
                lines.push(Vec::new());
                continue;
            }
            Tokens::Tab => vec![s("*tab!")],
            Tokens::TypeKeyword => vec![s("*type")],
            Tokens::Assignment => vec![s("=>")],
            Tokens::Any => vec![s("any")],
            Tokens::TypeName(w)
            | Tokens::E(w)
            | Tokens::C(w)
            | Tokens::TypeAsDeclarationParameter(w)
            | Tokens::TypeInstance(w)
            | Tokens::Separator(w) => vec![w.clone()],
            Tokens::Content(c) => c.split_whitespace().map(|w| w.to_string()).collect(),
            Tokens::CodeBlockOpen => vec![s("[[")],
            Tokens::CodeBlockClose => vec![s("]]")],
            Tokens::MathBlockOpen => vec![s("{{")],
            Tokens::MathBlockClose => vec![s("}}")],
            _ => Vec::new(),
        };
        lines.last_mut().unwrap().extend(words);
    }
    lines
}

#[test]
fn tokens_give_the_words_of_the_text_back() {
    let text = "*type List => e..n c..1\n*type Item  =>   any List\n\nList  of things\n\t\tItem one [[ x + y ]] two\n\tplain => words {{ m }}\n:: starts -> a line ,, and\nItem :: x :: y ->\n*type a::b => e..[[ c..}}x Item a::b\na::b is a type\n\ta::b -> too";
    let words: Vec<Vec<String>> = text
        .lines()
        .map(|l| l.replace("\t", " *tab! ").split_whitespace().map(|w| w.to_string()).collect())
        .collect();
    assert_eq!(render(&lex(text).unwrap()), words);
}

#[test]
fn reasons() {
    assert_eq!(
        LexErrorKind::UseRepeated.reason(),
        "Invalid syntax: *use has already been called, you cannot have multiple on the same line."
    );
    assert_eq!(
        LexErrorKind::AssignmentOutsideDeclaration.reason(),
        "Invalid syntax: Assignment operator used somewhere other than a type assignment."
    );
    assert_eq!(
        LexErrorKind::CommentCloseWithoutOpen.reason(),
        "Invalid syntax: You've tried to close a block comment but this isn't a block comment!"
    );
    for kind in [
        LexErrorKind::TypeInScope,
        LexErrorKind::UseInScope,
        LexErrorKind::UseInDeclaration,
        LexErrorKind::UseInImport,
        LexErrorKind::TypeNameNotOneWord,
        LexErrorKind::DuplicateType,
        LexErrorKind::MalformedElementArgument,
        LexErrorKind::MalformedContentArgument,
        LexErrorKind::UnknownArgument,
        LexErrorKind::UnclosedComment,
    ] {
        assert!(kind.reason().starts_with("Invalid syntax"));
    }
    assert_eq!(LexErrorKind::ImportMissing.reason(), "Error, see above. ^^");
    assert_eq!(LexErrorKind::ImportUnreadable.reason(), "Error, see above. ^^");
}

#[test]
fn long_text() {
    let mut text = String::new();
    for i in 0..400 {
        text.push_str(&format!("*type T{} => any e..n\n", i));
    }
    for i in 0..4000 {
        text.push_str(&format!("T{} some words and [[ a block ]] :: more /* and a comment */\n", i % 400));
        text.push_str("\tindented prose here\n\n");
    }
    let tokens = lex(&text).unwrap();
    assert!(tokens.len() > 40000);
    let breaks = tokens.iter().filter(|t| **t == Tokens::Linebreak).count();
    assert_eq!(breaks, 400 + 12000 - 1);
    let items = diazo::parser::parser(tokens).unwrap();
    assert_eq!(items.len(), 400 + 4000);
}
