use diazo::lexer::{lexer, SourceFile};
use diazo::parser::{parser, ParseErrorKind};
use diazo::tokens::Tokens;
use diazo::tree::{IrElements, ReaderTuple, TreeNode};

fn s(t: &str) -> String {
    t.to_string()
}

fn compile(text: &str, files: &Vec<SourceFile>) -> Vec<IrElements> {
    parser(lexer(s(text), files).unwrap()).unwrap()
}

fn reading(ir: &IrElements) -> Vec<ReaderTuple> {
    ir.tree().preorder_read()
}

fn refused(tokens: Vec<Tokens>, kind: ParseErrorKind, line: usize, token: Tokens) {
    let err = parser(tokens).unwrap_err();
    assert_eq!(err.kind, kind);
    assert_eq!(err.line, line);
    assert_eq!(err.token, token);
}

fn declaration(name: &str) -> Vec<Tokens> {
    vec![Tokens::TypeKeyword, Tokens::TypeName(s(name)), Tokens::Assignment, Tokens::Any]
}

#[test]
fn empty_declaration() {
    let ir = compile("*type  Foo  =>  any", &Vec::new());
    assert_eq!(ir.len(), 1);
    assert!(matches!(ir[0], IrElements::TypeDeclaration(_)));
    assert_eq!(
        reading(&ir[0]),
        vec![
            ReaderTuple(0, None, Tokens::TypeKeyword),
            ReaderTuple(1, Some(0), Tokens::TypeName(s("Foo"))),
            ReaderTuple(2, Some(0), Tokens::Assignment),
            ReaderTuple(3, Some(2), Tokens::Any),
        ]
    );
}

#[test]
fn collection_declaration() {
    let ir = compile("*type  List  =>  e..n  c..1", &Vec::new());
    assert_eq!(ir.len(), 1);
    assert!(matches!(ir[0], IrElements::TypeDeclaration(_)));
    assert_eq!(
        reading(&ir[0]),
        vec![
            ReaderTuple(0, None, Tokens::TypeKeyword),
            ReaderTuple(1, Some(0), Tokens::TypeName(s("List"))),
            ReaderTuple(2, Some(0), Tokens::Assignment),
            ReaderTuple(3, Some(2), Tokens::E(s("e..n"))),
            ReaderTuple(4, Some(3), Tokens::C(s("c..1"))),
        ]
    );
}

#[test]
fn instantiation_with_indented_elements() {
    let text = "*type List => e..n\n*type ItemA => any\n*type ItemB => any\nList\n\tItemA\n\tItemB";
    let ir = compile(text, &Vec::new());
    assert_eq!(ir.len(), 4);
    assert!(matches!(ir[0], IrElements::TypeDeclaration(_)));
    assert!(matches!(ir[1], IrElements::TypeDeclaration(_)));
    assert!(matches!(ir[2], IrElements::TypeDeclaration(_)));
    assert!(matches!(ir[3], IrElements::TypeExpression(_)));
    assert_eq!(
        reading(&ir[3]),
        vec![
            ReaderTuple(0, None, Tokens::TypeInstance(s("List"))),
            ReaderTuple(1, Some(0), Tokens::Element),
            ReaderTuple(2, Some(1), Tokens::TypeInstance(s("ItemA"))),
            ReaderTuple(3, Some(2), Tokens::Element),
            ReaderTuple(4, Some(3), Tokens::TypeInstance(s("ItemB"))),
        ]
    );
}

#[test]
fn indented_prose_hangs_under_an_element() {
    let ir = compile("*type List => e..n\nList\n\tfirst\n\tsecond", &Vec::new());
    assert_eq!(ir.len(), 2);
    assert!(matches!(ir[1], IrElements::TypeExpression(_)));
    assert_eq!(
        reading(&ir[1]),
        vec![
            ReaderTuple(0, None, Tokens::TypeInstance(s("List"))),
            ReaderTuple(1, Some(0), Tokens::Element),
            ReaderTuple(
                2,
                Some(1),
                Tokens::ContentWithFormatting(vec![Tokens::Content(s("first "))])
            ),
            ReaderTuple(3, Some(0), Tokens::Element),
            ReaderTuple(
                4,
                Some(3),
                Tokens::ContentWithFormatting(vec![Tokens::Content(s("second "))])
            ),
        ]
    );
}

#[test]
fn instance_after_an_indented_line_needs_an_empty_line() {
    let text = "*type L => any\nL\n\tmember\nL";
    let err = parser(lexer(s(text), &Vec::new()).unwrap()).unwrap_err();
    assert_eq!(err.kind, ParseErrorKind::InstanceUnderInstance);
    assert_eq!(err.line, 4);
    let ir = compile("*type L => any\nL\n\tmember\n\nL", &Vec::new());
    assert_eq!(ir.len(), 3);
    assert!(matches!(ir[1], IrElements::TypeExpression(_)));
    assert!(matches!(ir[2], IrElements::TypeExpression(_)));
    assert_eq!(reading(&ir[1]).len(), 3);
    assert_eq!(reading(&ir[2]).len(), 1);
}

#[test]
fn what_an_indented_line_adds_hangs_under_its_element() {
    let ir = compile("*type L => any\nL head\n\tL one :: two [[ k ]]\n\nafter", &Vec::new());
    assert_eq!(ir.len(), 3);
    assert!(matches!(ir[1], IrElements::TypeExpression(_)));
    let nodes = reading(&ir[1]);
    assert_eq!(
        nodes,
        vec![
            ReaderTuple(0, None, Tokens::TypeInstance(s("L"))),
            ReaderTuple(
                1,
                Some(0),
                Tokens::ContentWithFormatting(vec![Tokens::Content(s("head "))])
            ),
            ReaderTuple(2, Some(0), Tokens::Element),
            ReaderTuple(3, Some(2), Tokens::TypeInstance(s("L"))),
            ReaderTuple(
                4,
                Some(3),
                Tokens::ContentWithFormatting(vec![Tokens::Content(s("one "))])
            ),
            ReaderTuple(
                5,
                Some(3),
                Tokens::ContentWithFormatting(vec![
                    Tokens::Content(s("two ")),
                    Tokens::CodeBlock(s("k ")),
                ])
            ),
        ]
    );
    for node in &nodes[3..] {
        let mut up = node.1.unwrap();
        while up != 2 {
            assert!(up > 2);
            up = nodes[up].1.unwrap();
        }
    }
    assert_eq!(
        reading(&ir[2]),
        vec![ReaderTuple(
            0,
            None,
            Tokens::ContentWithFormatting(vec![Tokens::Content(s("after "))])
        )]
    );
}

#[test]
fn inline_formatting() {
    let ir = compile("hello [[ code ]] world", &Vec::new());
    assert_eq!(ir.len(), 1);
    assert!(matches!(ir[0], IrElements::RawText(_)));
    assert_eq!(
        reading(&ir[0]),
        vec![ReaderTuple(
            0,
            None,
            Tokens::ContentWithFormatting(vec![
                Tokens::Content(s("hello ")),
                Tokens::CodeBlock(s("code ")),
                Tokens::Content(s("world ")),
            ])
        )]
    );
}

#[test]
fn inline_formatting_in_one_word() {
    let ir = compile("hello [[code]] world", &Vec::new());
    assert_eq!(ir.len(), 1);
    assert!(matches!(ir[0], IrElements::RawText(_)));
    assert_eq!(
        reading(&ir[0]),
        vec![ReaderTuple(
            0,
            None,
            Tokens::ContentWithFormatting(vec![
                Tokens::Content(s("hello ")),
                Tokens::Content(s("code]]world ")),
            ])
        )]
    );
}

#[test]
fn math_block_and_separator() {
    let ir = compile("sum {{ a + b }} :: done", &Vec::new());
    assert_eq!(ir.len(), 1);
    assert_eq!(
        reading(&ir[0]),
        vec![
            ReaderTuple(
                0,
                None,
                Tokens::ContentWithFormatting(vec![
                    Tokens::Content(s("sum ")),
                    Tokens::MathBlock(s("a + b ")),
                    Tokens::Content(s("")),
                ])
            ),
            ReaderTuple(
                1,
                Some(0),
                Tokens::ContentWithFormatting(vec![Tokens::Content(s("done "))])
            ),
        ]
    );
}

#[test]
fn import_then_instance() {
    let files = vec![SourceFile { name: s("a.dz"), contents: Some(s("*type Bar => any")) }];
    let ir = compile("*use a.dz\nBar", &files);
    assert_eq!(ir.len(), 2);
    assert!(matches!(ir[0], IrElements::TypeDeclaration(_)));
    assert!(matches!(ir[1], IrElements::TypeExpression(_)));
    assert_eq!(
        reading(&ir[0]),
        vec![
            ReaderTuple(0, None, Tokens::TypeKeyword),
            ReaderTuple(1, Some(0), Tokens::TypeName(s("Bar"))),
            ReaderTuple(2, Some(0), Tokens::Assignment),
            ReaderTuple(3, Some(2), Tokens::Any),
        ]
    );
    assert_eq!(reading(&ir[1]), vec![ReaderTuple(0, None, Tokens::TypeInstance(s("Bar")))]);
}

#[test]
fn no_tokens_no_items() {
    assert_eq!(parser(Vec::new()).unwrap(), vec![]);
    assert_eq!(parser(vec![Tokens::Linebreak, Tokens::Tab, Tokens::Null]).unwrap(), vec![]);
    assert_eq!(
        parser(vec![
            Tokens::UseKeyword,
            Tokens::Filename(s("a.dz")),
            Tokens::Separator(s("::")),
            Tokens::CommentLine,
            Tokens::CommentOpen,
            Tokens::CommentContents(s("c ")),
            Tokens::CodeBlockOpen,
            Tokens::MathBlockOpen,
        ])
        .unwrap(),
        vec![]
    );
}

#[test]
fn every_type_keyword_gives_a_complete_declaration() {
    let mut tokens = declaration("A");
    tokens.push(Tokens::Linebreak);
    tokens.extend(vec![
        Tokens::TypeKeyword,
        Tokens::TypeName(s("B")),
        Tokens::Assignment,
        Tokens::E(s("e..2")),
        Tokens::TypeAsDeclarationParameter(s("A")),
        Tokens::C(s("c..n")),
    ]);
    tokens.push(Tokens::Linebreak);
    tokens.push(Tokens::Content(s("prose ")));
    let ir = parser(tokens).unwrap();
    assert_eq!(ir.len(), 3);
    for item in &ir[0..2] {
        assert!(matches!(item, IrElements::TypeDeclaration(_)));
        let root = item.tree().clone();
        assert_eq!(root.value(), &Tokens::TypeKeyword);
        assert!(!root.has_parent());
        assert_eq!(root.children_len(), 2);
        let name = TreeNode::descend(root.clone(), 0).unwrap();
        assert!(matches!(name.value(), Tokens::TypeName(_)));
        let assignment = TreeNode::descend(root, 1).unwrap();
        assert_eq!(assignment.value(), &Tokens::Assignment);
        assert!(assignment.children_len() >= 1);
    }
    assert!(matches!(ir[2], IrElements::RawText(_)));
}

#[test]
fn declaration_without_name_or_arguments() {
    let ir = parser(vec![Tokens::TypeKeyword, Tokens::Assignment, Tokens::Linebreak]).unwrap();
    assert_eq!(ir.len(), 1);
    assert_eq!(
        reading(&ir[0]),
        vec![ReaderTuple(0, None, Tokens::TypeKeyword), ReaderTuple(1, Some(0), Tokens::Assignment)]
    );
    let ir = compile("*type Foo =>", &Vec::new());
    assert_eq!(
        reading(&ir[0]),
        vec![
            ReaderTuple(0, None, Tokens::TypeKeyword),
            ReaderTuple(1, Some(0), Tokens::TypeName(s("Foo"))),
            ReaderTuple(2, Some(0), Tokens::Assignment),
        ]
    );
}

#[test]
fn declaration_closed_by_a_line_break() {
    let mut tokens = declaration("A");
    tokens.push(Tokens::Linebreak);
    let ir = parser(tokens).unwrap();
    assert_eq!(ir.len(), 1);
    assert!(matches!(ir[0], IrElements::TypeDeclaration(_)));
}

#[test]
fn prose_after_arguments_joins_the_declaration() {
    let mut tokens = declaration("A");
    tokens.push(Tokens::Content(s("x ")));
    let ir = parser(tokens).unwrap();
    assert_eq!(
        reading(&ir[0]),
        vec![
            ReaderTuple(0, None, Tokens::TypeKeyword),
            ReaderTuple(1, Some(0), Tokens::TypeName(s("A"))),
            ReaderTuple(2, Some(0), Tokens::Assignment),
            ReaderTuple(3, Some(2), Tokens::Any),
            ReaderTuple(4, Some(2), Tokens::ContentWithFormatting(vec![Tokens::Content(s("x "))])),
        ]
    );
}

#[test]
fn instance_under_prose() {
    let ir = parser(vec![
        Tokens::Content(s("see ")),
        Tokens::Separator(s("::")),
        Tokens::TypeInstance(s("A")),
        Tokens::Content(s("x ")),
        Tokens::Linebreak,
        Tokens::Content(s("y ")),
    ])
    .unwrap();
    assert_eq!(ir.len(), 2);
    assert!(matches!(ir[0], IrElements::RawText(_)));
    assert_eq!(
        reading(&ir[0]),
        vec![
            ReaderTuple(0, None, Tokens::ContentWithFormatting(vec![Tokens::Content(s("see "))])),
            ReaderTuple(1, Some(0), Tokens::TypeInstance(s("A"))),
            ReaderTuple(2, Some(1), Tokens::ContentWithFormatting(vec![Tokens::Content(s("x "))])),
        ]
    );
    assert_eq!(
        reading(&ir[1]),
        vec![ReaderTuple(0, None, Tokens::ContentWithFormatting(vec![Tokens::Content(s("y "))]))]
    );
}

#[test]
fn tab_under_declaration() {
    let mut tokens = declaration("A");
    tokens.extend(vec![Tokens::Linebreak, Tokens::Tab, Tokens::Content(s("x "))]);
    refused(tokens, ParseErrorKind::TabUnderDeclaration, 2, Tokens::Tab);
    let tokens = vec![
        Tokens::Linebreak,
        Tokens::TypeKeyword,
        Tokens::TypeName(s("A")),
        Tokens::Assignment,
        Tokens::E(s("e..n")),
        Tokens::Linebreak,
        Tokens::Tab,
    ];
    refused(tokens, ParseErrorKind::TabUnderDeclaration, 3, Tokens::Tab);
}

#[test]
fn line_ends_on_a_token_that_cannot_end_one() {
    refused(
        vec![Tokens::TypeKeyword, Tokens::Linebreak, Tokens::Content(s("x "))],
        ParseErrorKind::OutOfPlace,
        1,
        Tokens::TypeKeyword,
    );
    refused(
        vec![Tokens::TypeKeyword, Tokens::TypeName(s("A"))],
        ParseErrorKind::OutOfPlace,
        1,
        Tokens::TypeKeyword,
    );
}

#[test]
fn type_keyword_inside_expression_is_refused() {
    refused(
        vec![Tokens::TypeInstance(s("A")), Tokens::TypeKeyword, Tokens::Linebreak],
        ParseErrorKind::TypeKeywordInExpression,
        1,
        Tokens::TypeKeyword,
    );
}

#[test]
fn parts_of_a_declaration_out_of_place() {
    let name = Tokens::TypeName(s("X"));
    let mut tokens = declaration("A");
    tokens.push(name.clone());
    refused(tokens, ParseErrorKind::TypeNameMisplaced, 1, name.clone());
    refused(vec![Tokens::Linebreak, name.clone()], ParseErrorKind::TypeNameOutside, 2, name);

    refused(
        vec![Tokens::TypeInstance(s("A")), Tokens::Assignment],
        ParseErrorKind::AssignmentMisplaced,
        1,
        Tokens::Assignment,
    );
    refused(vec![Tokens::Assignment], ParseErrorKind::AssignmentOutside, 1, Tokens::Assignment);

    let c = Tokens::C(s("c..1"));
    refused(
        vec![Tokens::TypeKeyword, c.clone()],
        ParseErrorKind::ContentArgumentMisplaced,
        1,
        c.clone(),
    );
    refused(vec![c.clone()], ParseErrorKind::ContentArgumentOutside, 1, c);

    let e = Tokens::E(s("e..n"));
    refused(
        vec![
            Tokens::TypeKeyword,
            Tokens::TypeName(s("A")),
            Tokens::Assignment,
            e.clone(),
            e.clone(),
        ],
        ParseErrorKind::ElementArgumentMisplaced,
        1,
        e.clone(),
    );
    refused(vec![e.clone()], ParseErrorKind::ElementArgumentOutside, 1, e);

    refused(vec![Tokens::TypeKeyword, Tokens::Any], ParseErrorKind::AnyMisplaced, 1, Tokens::Any);
    refused(vec![Tokens::Any], ParseErrorKind::AnyOutside, 1, Tokens::Any);

    let p = Tokens::TypeAsDeclarationParameter(s("A"));
    refused(
        vec![Tokens::TypeInstance(s("A")), p.clone()],
        ParseErrorKind::TypeParameterMisplaced,
        1,
        p.clone(),
    );
    refused(vec![p.clone()], ParseErrorKind::TypeParameterOutside, 1, p);
}

#[test]
fn instances_out_of_place() {
    let i = Tokens::TypeInstance(s("B"));
    refused(
        vec![Tokens::TypeInstance(s("A")), i.clone()],
        ParseErrorKind::InstanceUnderInstance,
        1,
        i.clone(),
    );
    refused(
        vec![Tokens::TypeKeyword, i.clone()],
        ParseErrorKind::InstanceUnderDeclaration,
        1,
        i.clone(),
    );
    let mut tokens = declaration("A");
    tokens.push(i.clone());
    refused(tokens, ParseErrorKind::InstanceUnderDeclaration, 1, i);
}

#[test]
fn tokens_that_only_the_parser_makes() {
    for t in [
        Tokens::Element,
        Tokens::ContentWithFormatting(Vec::new()),
        Tokens::CodeBlock(s("x")),
        Tokens::MathBlock(s("x")),
    ] {
        refused(
            vec![Tokens::Linebreak, Tokens::Linebreak, t.clone()],
            ParseErrorKind::IllegalToken,
            3,
            t,
        );
    }
}

#[test]
fn parents_lead_to_the_root() {
    let ir = compile("*type L => any\nL\n\tL\n\tL\n\tL x", &Vec::new());
    let mut node = ir[1].tree().clone();
    assert!(!node.has_parent());
    let mut depth = 0;
    while node.children_len() > 0 {
        let last = node.children_len() - 1;
        node = TreeNode::descend(node, last).unwrap();
        depth += 1;
    }
    assert_eq!(depth, 7);
    let mut steps = 0;
    while node.has_parent() {
        node = TreeNode::back_to_parent(node);
        steps += 1;
    }
    assert_eq!(steps, depth);
    assert_eq!(node.value(), &Tokens::TypeInstance(s("L")));
    assert_eq!(&node, ir[1].tree());
}
