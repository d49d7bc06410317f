use diazo::interpreter::interpreter;
use diazo::parser::{parser, ParseErrorKind};
use diazo::lexer::{lexer, SourceFile};
use diazo::text::{
    chars_of, contains_pair, decimal_text, replace_pair, same_text, space, split_lines,
    split_words, string_of, with_tab_words,
};
use diazo::tokens::{separator_list, Tokens};
use diazo::tree::IrElements;

fn s(t: &str) -> String {
    t.to_string()
}

fn c(t: &str) -> Vec<char> {
    t.chars().collect()
}

#[test]
fn separators() {
    assert_eq!(separator_list(), vec!["::", "->", ",,"]);
}

#[test]
fn tokens_describe_themselves() {
    let cases = vec![
        (Tokens::Separator(s("::")), "Separator Token of form ::"),
        (Tokens::Tab, "Tab Token"),
        (Tokens::Linebreak, "Linebreak Token"),
        (Tokens::UseKeyword, "Use Keyword Token"),
        (Tokens::Filename(s("a.dz")), "Filename Token containing filename: a.dz"),
        (Tokens::CommentLine, "Comment Symbol Token"),
        (Tokens::CommentOpen, "Open Comment Block Symbol Token"),
        (Tokens::CommentContents(s("c ")), "Comment Token containing the text: c "),
        (Tokens::TypeKeyword, "Type Keyword Token"),
        (Tokens::TypeName(s("Foo")), "Type Name Token holding name: Foo"),
        (Tokens::Assignment, "Assignment Symbol Token"),
        (Tokens::E(s("e..n")), "Element Formatter Token for declarations containing: e..n"),
        (Tokens::C(s("c..1")), "Content Formatter Token for declarations containing: c..1"),
        (Tokens::Any, "\"Any\" Keyword Token"),
        (
            Tokens::TypeAsDeclarationParameter(s("Foo")),
            "Type Used as Declaration Parameter, type: Foo",
        ),
        (Tokens::TypeInstance(s("Foo")), "Type Instance Token, type: Foo"),
        (Tokens::Content(s("x ")), "Content Token containing the text: x "),
        (Tokens::CodeBlockOpen, "Open Code Block Symbol Token"),
        (Tokens::CodeBlockClose, "Close Code Block Symbol Token"),
        (Tokens::MathBlockOpen, "Open Math Block Symbol Token"),
        (Tokens::MathBlockClose, "Close Math Block Symbol Token"),
        (Tokens::Element, "Element Node Token"),
        (
            Tokens::ContentWithFormatting(vec![Tokens::Content(s("x "))]),
            "Content and Formatting Container",
        ),
        (Tokens::MathBlock(s("m")), "Math block containing the text: m"),
        (Tokens::CodeBlock(s("k")), "Code block containing the text: k"),
        (Tokens::Null, "Null Token"),
    ];
    for (token, text) in cases {
        assert_eq!(token.print(), text);
    }
}

#[test]
fn tokens_are_cloned_in_depth() {
    let t = Tokens::ContentWithFormatting(vec![
        Tokens::Content(s("a ")),
        Tokens::ContentWithFormatting(vec![Tokens::MathBlock(s("m")), Tokens::Tab]),
        Tokens::CodeBlock(s("k")),
    ]);
    assert_eq!(t.clone(), t);
    assert_eq!(Tokens::TypeName(s("Foo")).clone(), Tokens::TypeName(s("Foo")));
    assert_ne!(Tokens::TypeName(s("Foo")).clone(), Tokens::TypeName(s("Bar")));
}

#[test]
fn characters_and_strings() {
    assert_eq!(chars_of("a\u{e9}\u{1F600}b"), vec!['a', '\u{e9}', '\u{1F600}', 'b']);
    assert_eq!(string_of(&vec!['a', '\u{e9}', '\u{1F600}', 'b']), "a\u{e9}\u{1F600}b");
    assert_eq!(string_of(&Vec::new()), "");
    assert!(same_text(&c("abc"), &c("abc")));
    assert!(!same_text(&c("abc"), &c("abd")));
    assert!(!same_text(&c("abc"), &c("ab")));
}

#[test]
fn white_space() {
    for ch in " \t\n\r\u{0B}\u{0C}\u{85}\u{A0}\u{1680}\u{2000}\u{200A}\u{2028}\u{2029}\u{202F}\u{205F}\u{3000}"
        .chars()
    {
        assert!(space(ch));
    }
    for ch in "a_\u{200B}\u{1F}\u{0E}\u{2060}\u{FEFF}\u{180E}".chars() {
        assert!(!space(ch));
    }
    for n in 0..0x3100u32 {
        if let Some(ch) = char::from_u32(n) {
            assert_eq!(space(ch), ch.is_whitespace());
        }
    }
}

#[test]
fn lines() {
    let split = |t: &str| -> Vec<String> {
        split_lines(&c(t)).iter().map(|l| l.iter().collect()).collect()
    };
    for text in ["", "\n", "a", "a\n", "a\nb", "a\r\nb\r\n", "a\n\nb", "\r\n\r", "a\rb\n", "x\r"] {
        let expected: Vec<String> = text.lines().map(|l| l.to_string()).collect();
        assert_eq!(split(text), expected);
    }
    assert_eq!(split("a\r\nb\n\nc\r"), vec![s("a"), s("b"), s(""), s("c\r")]);
}

#[test]
fn words() {
    let split = |t: &str| -> Vec<String> {
        split_words(&with_tab_words(&c(t))).iter().map(|w| w.iter().collect()).collect()
    };
    for text in ["", "  ", "a", " a  b ", "a\tb", "\t\tx y\t", "a\u{3000}b\u{a0}"] {
        let expected: Vec<String> =
            text.replace("\t", " *tab! ").split_whitespace().map(|w| w.to_string()).collect();
        assert_eq!(split(text), expected);
    }
    assert_eq!(split("\tx  y"), vec![s("*tab!"), s("x"), s("y")]);
}

#[test]
fn symbols_in_words() {
    assert!(contains_pair(&c("a::b"), ':', ':'));
    assert!(contains_pair(&c("::"), ':', ':'));
    assert!(!contains_pair(&c("a:b:"), ':', ':'));
    assert!(!contains_pair(&c(":"), ':', ':'));
    assert!(!contains_pair(&c(""), ':', ':'));
    let replace = |w: &str, a: char, b: char, fill: &str| -> String {
        replace_pair(&c(w), a, b, &c(fill)).iter().collect()
    };
    assert_eq!(replace("a::b::c", ':', ':', " "), "a b c");
    assert_eq!(replace(":::", ':', ':', "-"), "-:");
    assert_eq!(replace("::::", ':', ':', "-"), "--");
    assert_eq!(replace("a]]", ']', ']', ""), "a");
    assert_eq!(replace("abc", ':', ':', " "), "abc");
    assert_eq!(replace("->", '-', '>', "xyz"), "xyz");
    for (w, a, b) in [("a//b///c", '/', '/'), ("**/*/", '*', '/'), ("x", 'x', 'x')] {
        let pattern: String = vec![a, b].into_iter().collect();
        assert_eq!(replace(w, a, b, " "), w.replace(&pattern, " "));
        assert_eq!(contains_pair(&c(w), a, b), w.contains(&pattern));
    }
}

#[test]
fn interpreter_makes_no_objects_yet() {
    let items = parser(vec![
        Tokens::TypeKeyword,
        Tokens::TypeName(s("A")),
        Tokens::Assignment,
        Tokens::Any,
        Tokens::Linebreak,
        Tokens::TypeInstance(s("A")),
    ])
    .unwrap();
    assert_eq!(items.len(), 2);
    assert_eq!(interpreter(items).len(), 0);
    assert_eq!(interpreter(Vec::new()).len(), 0);
}

#[test]
fn items_describe_their_trees() {
    let items = parser(vec![
        Tokens::TypeKeyword,
        Tokens::TypeName(s("A")),
        Tokens::Assignment,
        Tokens::E(s("e..n")),
        Tokens::Any,
    ])
    .unwrap();
    assert_eq!(items.len(), 1);
    assert_eq!(
        items[0].print(),
        "AST Node Containing: \n\tToken: Type Keyword Token\n\tChildren: \n\tType Name Token holding name: A\n\t\tAssignment Symbol Token\n\t\t\n\tParent: No parent."
    );
    assert_eq!(
        items[0].print_kin(),
        vec![
            s("AST Node Containing: \n\tToken: Type Name Token holding name: A\n\tChildren: \n\t\tNo children.\n\tParent: Type Keyword Token"),
            s("AST Node Containing: \n\tToken: Assignment Symbol Token\n\tChildren: \n\tElement Formatter Token for declarations containing: e..n\n\t\t\n\tParent: Type Keyword Token"),
            s("AST Node Containing: \n\tToken: Element Formatter Token for declarations containing: e..n\n\tChildren: \n\t\"Any\" Keyword Token\n\t\t\n\tParent: Assignment Symbol Token"),
        ]
    );
    let item = items.into_iter().next().unwrap();
    assert!(matches!(item, IrElements::TypeDeclaration(_)));
    let tree = item.unwrap().unwrap();
    assert_eq!(tree.value(), &Tokens::TypeKeyword);
    assert_eq!(tree.children_len(), 2);
}

#[test]
fn parser_reasons() {
    assert_eq!(
        ParseErrorKind::IllegalToken.reason(),
        "Parser error: Parser found tokens which cannot be created by the lexer."
    );
    assert_eq!(
        ParseErrorKind::InstanceUnderDeclaration.reason(),
        "Invalid Syntax (Parser): Type expressions cannot be nested under type declarations."
    );
    let err = parser(vec![Tokens::Any]).unwrap_err();
    assert_eq!(
        err.reason(),
        "Invalid Syntax (Parser): \"Any\" argument placed outside of a type declaration."
    );
}

#[test]
fn numbers_in_decimal() {
    for n in [0usize, 1, 9, 10, 11, 99, 100, 101, 12345, 1000000, usize::MAX] {
        let text: String = decimal_text(n).iter().collect();
        assert_eq!(text, n.to_string());
    }
}

#[test]
fn diagnostics() {
    let err = lexer(s("ok\n\t*type Foo => any"), &Vec::new()).unwrap_err();
    assert_eq!(err.diagnostic(), "Issue found at line 2, word 2, token:*type");
    let files = vec![SourceFile { name: s("a.dz"), contents: Some(s("x\ny\n*type A => e")) }];
    let err = lexer(s("*use a.dz"), &files).unwrap_err();
    assert_eq!(
        err.diagnostic(),
        "Issue in imported file: a.dz. Issue found at line 3, word 4, token:e"
    );
    let err = parser(vec![Tokens::Linebreak, Tokens::TypeName(s("Foo"))]).unwrap_err();
    assert_eq!(
        err.diagnostic(),
        "Issue found at line 2, token:Type Name Token holding name: Foo"
    );
}
