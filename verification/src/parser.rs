//! The parser: from tokens to the items of the intermediate representation.
//!
//! The tokens are read once, from left to right. The token that is
//! dispatched is the one read before the current one, so that each token is
//! handled with the token after it in view; a `Null` token after the last
//! one closes the stream. One tree is open at a time. A line break closes it
//! or keeps it open, and the end of the stream closes it.

use vstd::prelude::*;
use vstd::string::StringExecFns;
use crate::parser_laws::{lemma_items_rooted, rooted};
use crate::text::{decimal, decimal_text, string_of};
use crate::tokens::{views, Token, Tokens};
use crate::tree::{items, IrElements, IrModel, TreeModel, TreeNode};

verus! {

/// Why the parser stopped.
#[derive(Clone, Copy, Debug, PartialEq, Eq, Structural)]
pub enum ParseErrorKind {
    /// A tab opens the line after a declaration.
    TabUnderDeclaration,
    /// A tree to be closed as prose or type expression has another root.
    InvalidRoot,
    /// An assignment symbol that is not the child of a type keyword.
    AssignmentNotUnderType,
    /// An element argument without a type keyword two nodes above it.
    ElementNotUnderType,
    /// A line ends while the tree points at a token that cannot end one.
    OutOfPlace,
    /// A type keyword while a tree is open.
    TypeKeywordInExpression,
    /// A type name under another token than a type keyword.
    TypeNameMisplaced,
    /// A type name without a tree.
    TypeNameOutside,
    /// An assignment symbol under another token than a type keyword.
    AssignmentMisplaced,
    /// An assignment symbol without a tree.
    AssignmentOutside,
    /// A content argument under a token that takes no arguments.
    ContentArgumentMisplaced,
    /// A content argument without a tree.
    ContentArgumentOutside,
    /// An element argument under another token than an assignment symbol.
    ElementArgumentMisplaced,
    /// An element argument without a tree.
    ElementArgumentOutside,
    /// `any` under a token that takes no arguments.
    AnyMisplaced,
    /// `any` without a tree.
    AnyOutside,
    /// A type used as argument under a token that takes no arguments.
    TypeParameterMisplaced,
    /// A type used as argument without a tree.
    TypeParameterOutside,
    /// A type instance directly under another.
    InstanceUnderInstance,
    /// A type instance under a declaration.
    InstanceUnderDeclaration,
    /// A type instance where none can stand.
    InstanceMisplaced,
    /// A token that only the parser makes.
    IllegalToken,
}

/// The mathematical value of a parser error.
pub ghost struct ParseIssue {
    pub kind: ParseErrorKind,
    pub line: nat,
    pub token: Token,
}

/// A parser error: its kind, the line it was found on and the token it
/// concerns.
#[derive(Debug, PartialEq)]
pub struct ParseError {
    pub kind: ParseErrorKind,
    pub line: usize,
    pub token: Tokens,
}

impl View for ParseError {
    type V = ParseIssue;

    open spec fn view(&self) -> ParseIssue {
        ParseIssue { kind: self.kind, line: self.line as nat, token: self.token@ }
    }
}

impl ParseErrorKind {
    /// The sentence that explains an error of this kind.
    pub open spec fn sentence(self) -> Seq<char> {
        match self {
            ParseErrorKind::TabUnderDeclaration =>
                "Invalid syntax (Parser): Try removing this tab. Whitespace is functional and this tab is saying that what follows it is nested under the type declaration from the previous line."@,
            ParseErrorKind::InvalidRoot =>
                "Invalid Syntax (Parser): Invalid tree structure... root node is neither formatting nor a type expression."@,
            ParseErrorKind::AssignmentNotUnderType =>
                "Invalid syntax (Parser): Found assignment symbol nested under a token other than the type keyword."@,
            ParseErrorKind::ElementNotUnderType =>
                "Invalid syntax (Parser): Found element argument nested under a token other than the type keyword. (Type keyword not two parents away)"@,
            ParseErrorKind::OutOfPlace =>
                "Invalid syntax (Parser): The above token appears to have been used out of place. The parser is attempting to place it as the root of an expression's tree."@,
            ParseErrorKind::TypeKeywordInExpression =>
                "Invalid Syntax (Parser): Type keyword was found in another expression or statement. It cannot be here."@,
            ParseErrorKind::TypeNameMisplaced =>
                "Invalid Syntax (Parser): Type name was not nested directly under a type keyword."@,
            ParseErrorKind::TypeNameOutside =>
                "Invalid Syntax (Parser): Type name was not found in a type declaration."@,
            ParseErrorKind::AssignmentMisplaced =>
                "Invalid Syntax (Parser): Assignment symbol was not nested directly under a type keyword."@,
            ParseErrorKind::AssignmentOutside =>
                "Invalid Syntax (Parser): Assignment symbol was placed outside of a type declaration."@,
            ParseErrorKind::ContentArgumentMisplaced =>
                "Invalid Syntax (Parser): Content argument nested under wrong token. (Nested on something other than assignment symbol or element argument."@,
            ParseErrorKind::ContentArgumentOutside =>
                "Invalid Syntax (Parser): Content argument placed outside of a type declaration."@,
            ParseErrorKind::ElementArgumentMisplaced =>
                "Invalid Syntax (Parser): Element argument nested under wrong token. Can only be placed under an assignment symbol."@,
            ParseErrorKind::ElementArgumentOutside =>
                "Invalid Syntax (Parser): Element argument placed outside of a type declaration."@,
            ParseErrorKind::AnyMisplaced =>
                "Invalid Syntax (Parser): \"Any\" argument nested under wrong token. Can only be under either the assignment symbol or element argument."@,
            ParseErrorKind::AnyOutside =>
                "Invalid Syntax (Parser): \"Any\" argument placed outside of a type declaration."@,
            ParseErrorKind::TypeParameterMisplaced =>
                "Invalid Syntax (Parser): Nested type argument nested under wrong token. Can only be under either the assignment symbol or element argument."@,
            ParseErrorKind::TypeParameterOutside =>
                "Invalid Syntax (Parser): Nested type argument placed outside of a type declaration."@,
            ParseErrorKind::InstanceUnderInstance =>
                "Invalid Syntax (Parser): The name of the type does not need to be included in the same line as the parent type expression. The parser will automatically pattern match nested type expressions in line (e.g. anything before the elements of the colleciton)."@,
            ParseErrorKind::InstanceUnderDeclaration =>
                "Invalid Syntax (Parser): Type expressions cannot be nested under type declarations."@,
            ParseErrorKind::InstanceMisplaced =>
                "Invalid Syntax (Parser): Attempted to generate a type expression somewhere that one can't be placed."@,
            ParseErrorKind::IllegalToken =>
                "Parser error: Parser found tokens which cannot be created by the lexer."@,
        }
    }

    /// Explains an error of this kind in a sentence.
    pub fn reason(&self) -> (r: String)
        ensures
            r@ == self.sentence(),
    {
        match self {
            ParseErrorKind::TabUnderDeclaration => String::from_str(
                "Invalid syntax (Parser): Try removing this tab. Whitespace is functional and this tab is saying that what follows it is nested under the type declaration from the previous line.",
            ),
            ParseErrorKind::InvalidRoot => String::from_str(
                "Invalid Syntax (Parser): Invalid tree structure... root node is neither formatting nor a type expression.",
            ),
            ParseErrorKind::AssignmentNotUnderType => String::from_str(
                "Invalid syntax (Parser): Found assignment symbol nested under a token other than the type keyword.",
            ),
            ParseErrorKind::ElementNotUnderType => String::from_str(
                "Invalid syntax (Parser): Found element argument nested under a token other than the type keyword. (Type keyword not two parents away)",
            ),
            ParseErrorKind::OutOfPlace => String::from_str(
                "Invalid syntax (Parser): The above token appears to have been used out of place. The parser is attempting to place it as the root of an expression's tree.",
            ),
            ParseErrorKind::TypeKeywordInExpression => String::from_str(
                "Invalid Syntax (Parser): Type keyword was found in another expression or statement. It cannot be here.",
            ),
            ParseErrorKind::TypeNameMisplaced => String::from_str(
                "Invalid Syntax (Parser): Type name was not nested directly under a type keyword.",
            ),
            ParseErrorKind::TypeNameOutside => String::from_str(
                "Invalid Syntax (Parser): Type name was not found in a type declaration.",
            ),
            ParseErrorKind::AssignmentMisplaced => String::from_str(
                "Invalid Syntax (Parser): Assignment symbol was not nested directly under a type keyword.",
            ),
            ParseErrorKind::AssignmentOutside => String::from_str(
                "Invalid Syntax (Parser): Assignment symbol was placed outside of a type declaration.",
            ),
            ParseErrorKind::ContentArgumentMisplaced => String::from_str(
                "Invalid Syntax (Parser): Content argument nested under wrong token. (Nested on something other than assignment symbol or element argument.",
            ),
            ParseErrorKind::ContentArgumentOutside => String::from_str(
                "Invalid Syntax (Parser): Content argument placed outside of a type declaration.",
            ),
            ParseErrorKind::ElementArgumentMisplaced => String::from_str(
                "Invalid Syntax (Parser): Element argument nested under wrong token. Can only be placed under an assignment symbol.",
            ),
            ParseErrorKind::ElementArgumentOutside => String::from_str(
                "Invalid Syntax (Parser): Element argument placed outside of a type declaration.",
            ),
            ParseErrorKind::AnyMisplaced => String::from_str(
                "Invalid Syntax (Parser): \"Any\" argument nested under wrong token. Can only be under either the assignment symbol or element argument.",
            ),
            ParseErrorKind::AnyOutside => String::from_str(
                "Invalid Syntax (Parser): \"Any\" argument placed outside of a type declaration.",
            ),
            ParseErrorKind::TypeParameterMisplaced => String::from_str(
                "Invalid Syntax (Parser): Nested type argument nested under wrong token. Can only be under either the assignment symbol or element argument.",
            ),
            ParseErrorKind::TypeParameterOutside => String::from_str(
                "Invalid Syntax (Parser): Nested type argument placed outside of a type declaration.",
            ),
            ParseErrorKind::InstanceUnderInstance => String::from_str(
                "Invalid Syntax (Parser): The name of the type does not need to be included in the same line as the parent type expression. The parser will automatically pattern match nested type expressions in line (e.g. anything before the elements of the colleciton).",
            ),
            ParseErrorKind::InstanceUnderDeclaration => String::from_str(
                "Invalid Syntax (Parser): Type expressions cannot be nested under type declarations.",
            ),
            ParseErrorKind::InstanceMisplaced => String::from_str(
                "Invalid Syntax (Parser): Attempted to generate a type expression somewhere that one can't be placed.",
            ),
            ParseErrorKind::IllegalToken => String::from_str(
                "Parser error: Parser found tokens which cannot be created by the lexer.",
            ),
        }
    }
}

impl ParseIssue {
    /// The line that reports the issue: its line and its token.
    pub open spec fn report(self) -> Seq<char> {
        "Issue found at line "@ + decimal(self.line) + ", token:"@ + self.token.describe()
    }
}

impl ParseError {
    /// The line that reports the error.
    pub fn diagnostic(&self) -> (r: String)
        ensures
            r@ == self@.report(),
    {
        let mut r = String::from_str("Issue found at line ");
        r.append(string_of(&decimal_text(self.line)).as_str());
        r.append(", token:");
        r.append(self.token.print().as_str());
        r
    }

    /// Explains the error in a sentence.
    pub fn reason(&self) -> (r: String)
        ensures
            r@ == self@.kind.sentence(),
    {
        self.kind.reason()
    }
}

/// Whether a part of a declaration may become a child of a node that holds
/// `head`.
pub open spec fn takes(head: Token, part: Token) -> bool {
    match part {
        Token::TypeName(_) | Token::Assignment => head is TypeKeyword,
        Token::E(_) => head is Assignment,
        Token::C(_) | Token::Any | Token::TypeAsDeclarationParameter(_) => head is Assignment
            || head is E,
        _ => false,
    }
}

/// Whether the tree points at a part of a declaration once it is added.
pub open spec fn descends(part: Token) -> bool {
    part is Assignment || part is E
}

/// The error for a part of a declaration under a node that does not take it.
pub open spec fn misplaced(part: Token) -> ParseErrorKind {
    match part {
        Token::TypeName(_) => ParseErrorKind::TypeNameMisplaced,
        Token::Assignment => ParseErrorKind::AssignmentMisplaced,
        Token::E(_) => ParseErrorKind::ElementArgumentMisplaced,
        Token::C(_) => ParseErrorKind::ContentArgumentMisplaced,
        Token::Any => ParseErrorKind::AnyMisplaced,
        _ => ParseErrorKind::TypeParameterMisplaced,
    }
}

/// The error for a part of a declaration while no tree is open.
pub open spec fn outside(part: Token) -> ParseErrorKind {
    match part {
        Token::TypeName(_) => ParseErrorKind::TypeNameOutside,
        Token::Assignment => ParseErrorKind::AssignmentOutside,
        Token::E(_) => ParseErrorKind::ElementArgumentOutside,
        Token::C(_) => ParseErrorKind::ContentArgumentOutside,
        Token::Any => ParseErrorKind::AnyOutside,
        _ => ParseErrorKind::TypeParameterOutside,
    }
}

/// The mathematical value of the parser's state.
pub ghost struct ParserModel {
    /// The open tree, pointing at the node that takes the next child.
    pub tree: Option<TreeModel>,
    /// The pieces of prose and formatted blocks that wait to become one
    /// token.
    pub formatting: Seq<Token>,
    /// The token read last, which is dispatched next.
    pub previous: Token,
    pub line: nat,
    pub line_scope: nat,
    pub last_line_scope: nat,
    pub output: Seq<IrModel>,
}

impl ParserModel {
    /// The state in which parsing starts.
    pub open spec fn start() -> ParserModel {
        ParserModel {
            tree: None,
            formatting: Seq::empty(),
            previous: Token::Null,
            line: 1,
            line_scope: 0,
            last_line_scope: 0,
            output: Seq::empty(),
        }
    }

    /// The issue of the given kind on the given line.
    pub open spec fn issue(self, kind: ParseErrorKind, line: nat, token: Token) -> ParseIssue {
        ParseIssue { kind, line, token }
    }

    /// The state after the open tree has left as the item `e`.
    pub open spec fn emit(self, e: IrModel) -> ParserModel {
        ParserModel { output: self.output.push(e), tree: None, ..self }
    }

    /// The state with `t` as the open tree.
    pub open spec fn with_tree(self, t: TreeModel) -> ParserModel {
        ParserModel { tree: Some(t), ..self }
    }

    /// Closes the tree `t` as prose or as a type expression, by its root.
    pub open spec fn close_expression(self, t: TreeModel, line: nat, culprit: Token) -> Result<
        ParserModel,
        ParseIssue,
    > {
        let r = t.at_root();
        match r.value() {
            Token::ContentWithFormatting(_) => Ok(self.emit(IrModel::RawText(r))),
            Token::TypeInstance(_) => Ok(self.emit(IrModel::TypeExpression(r))),
            _ => Err(self.issue(ParseErrorKind::InvalidRoot, line, culprit)),
        }
    }

    /// Closes the tree `t`, which points at an assignment symbol, as a type
    /// declaration: the parent must be a type keyword.
    pub open spec fn close_assignment(self, t: TreeModel, line: nat, culprit: Token) -> Result<
        ParserModel,
        ParseIssue,
    > {
        if t.has_parent() && t.back_to_parent().value() is TypeKeyword {
            Ok(self.emit(IrModel::TypeDeclaration(t.back_to_parent())))
        } else {
            Err(self.issue(ParseErrorKind::AssignmentNotUnderType, line, culprit))
        }
    }

    /// Closes the tree `t`, which points at an element argument, as a type
    /// declaration: the parent of its parent must be a type keyword.
    pub open spec fn close_element(self, t: TreeModel, line: nat, culprit: Token) -> Result<
        ParserModel,
        ParseIssue,
    > {
        if t.has_parent() && t.back_to_parent().has_parent()
            && t.back_to_parent().back_to_parent().value() is TypeKeyword {
            Ok(self.emit(IrModel::TypeDeclaration(t.back_to_parent().back_to_parent())))
        } else {
            Err(self.issue(ParseErrorKind::ElementNotUnderType, line, culprit))
        }
    }

    /// The tree `t`, pointing one node higher where there is one.
    pub open spec fn step_up(t: TreeModel) -> TreeModel {
        if t.has_parent() {
            t.back_to_parent()
        } else {
            t
        }
    }

    /// A line break before a tab: the tree stays open.
    pub open spec fn break_before_tab(self, i: Token) -> Result<ParserModel, ParseIssue> {
        match self.tree {
            None => Ok(self),
            Some(t) => match t.value() {
                Token::Assignment | Token::E(_) => Err(
                    self.issue(ParseErrorKind::TabUnderDeclaration, self.line + 1, i),
                ),
                Token::ContentWithFormatting(_) | Token::TypeInstance(_) => if self.line_scope
                    >= self.last_line_scope {
                    Ok(self)
                } else {
                    self.close_expression(t, self.line, i)
                },
                Token::Element => Ok(self.with_tree(Self::step_up(t))),
                _ => Ok(self),
            },
        }
    }

    /// A line break before another token than a tab: the tree is closed by
    /// the token it points at.
    pub open spec fn break_before_other(self, i: Token) -> Result<ParserModel, ParseIssue> {
        match self.tree {
            None => Ok(self),
            Some(t) => match t.value() {
                Token::Assignment => self.close_assignment(t, self.line + 1, i),
                Token::E(_) => self.close_element(t, self.line + 1, i),
                Token::ContentWithFormatting(_) | Token::TypeInstance(_) => if self.line_scope
                    > self.last_line_scope {
                    Ok(self)
                } else {
                    self.close_expression(t, self.line, i)
                },
                Token::Element => Ok(self.with_tree(Self::step_up(t))),
                other => Err(self.issue(ParseErrorKind::OutOfPlace, self.line, other)),
            },
        }
    }

    /// A line break: the indentation of the line is noted, the tree is
    /// closed or kept, and the next line is counted.
    pub open spec fn on_linebreak(self, i: Token) -> Result<ParserModel, ParseIssue> {
        let s = ParserModel { last_line_scope: self.line_scope, ..self };
        let r = if i is Tab {
            s.break_before_tab(i)
        } else {
            s.break_before_other(i)
        };
        match r {
            Ok(t) => Ok(ParserModel { line: t.line + 1, ..t }),
            Err(e) => Err(e),
        }
    }

    /// A tab: it counts as indentation; the last tab before the words of a
    /// line opens an element under a type instance.
    pub open spec fn on_tab(self, i: Token) -> ParserModel {
        let s = if i is Tab {
            self
        } else {
            match self.tree {
                Some(t) => if t.value() is TypeInstance {
                    self.with_tree(t.add_and_set(Token::Element))
                } else {
                    self
                },
                None => self,
            }
        };
        ParserModel { line_scope: s.line_scope + 1, ..s }
    }

    /// A type keyword: it opens a tree.
    pub open spec fn on_type_keyword(self) -> Result<ParserModel, ParseIssue> {
        match self.tree {
            Some(t) => Err(
                self.issue(ParseErrorKind::TypeKeywordInExpression, self.line, self.previous),
            ),
            None => Ok(self.with_tree(TreeModel::single(Token::TypeKeyword))),
        }
    }

    /// A part of a declaration: it becomes a child of the node pointed at,
    /// where that node takes it.
    pub open spec fn on_part(self) -> Result<ParserModel, ParseIssue> {
        let part = self.previous;
        match self.tree {
            None => Err(self.issue(outside(part), self.line, part)),
            Some(t) => if !takes(t.value(), part) {
                Err(self.issue(misplaced(part), self.line, part))
            } else if descends(part) {
                Ok(self.with_tree(t.add_and_set(part)))
            } else {
                Ok(self.with_tree(t.add(part)))
            },
        }
    }

    /// A type instance: it opens a tree, or becomes a child of an element or
    /// of prose.
    pub open spec fn on_instance(self) -> Result<ParserModel, ParseIssue> {
        let part = self.previous;
        match self.tree {
            None => Ok(self.with_tree(TreeModel::single(part))),
            Some(t) => match t.value() {
                Token::Element | Token::ContentWithFormatting(_) => Ok(
                    self.with_tree(t.add_and_set(part)),
                ),
                Token::TypeInstance(_) => Err(
                    self.issue(ParseErrorKind::InstanceUnderInstance, self.line, part),
                ),
                Token::TypeKeyword | Token::Assignment | Token::E(_) => Err(
                    self.issue(ParseErrorKind::InstanceUnderDeclaration, self.line, part),
                ),
                _ => Err(self.issue(ParseErrorKind::InstanceMisplaced, self.line, part)),
            },
        }
    }

    /// The pieces that wait become one token, which is added to the open
    /// tree or opens one.
    pub open spec fn wrap(self) -> ParserModel {
        let token = Token::ContentWithFormatting(self.formatting);
        ParserModel {
            tree: match self.tree {
                Some(t) => Some(t.add(token)),
                None => Some(TreeModel::single(token)),
            },
            formatting: Seq::empty(),
            ..self
        }
    }

    /// The state with `t` as the last of the pieces that wait.
    pub open spec fn stage(self, t: Token) -> ParserModel {
        ParserModel { formatting: self.formatting.push(t), ..self }
    }

    /// Prose: before a block symbol it waits, as prose or as the block that
    /// the symbol closes; before another token it ends the pieces that wait.
    pub open spec fn on_content(self, text: Seq<char>, i: Token) -> ParserModel {
        match i {
            Token::CodeBlockOpen | Token::MathBlockOpen => self.stage(self.previous),
            Token::CodeBlockClose => self.stage(Token::CodeBlock(text)),
            Token::MathBlockClose => self.stage(Token::MathBlock(text)),
            _ => self.stage(self.previous).wrap(),
        }
    }

    /// The end of a block: before prose or another block the pieces go on
    /// waiting; before another token they end.
    pub open spec fn on_block_close(self, i: Token) -> ParserModel {
        match i {
            Token::Content(_) | Token::CodeBlockOpen | Token::MathBlockOpen => self,
            _ => self.wrap(),
        }
    }

    /// Dispatches the token read last, with the token `i` after it in view,
    /// and takes `i` as the token read last.
    pub open spec fn step(self, i: Token) -> Result<ParserModel, ParseIssue> {
        let r = match self.previous {
            Token::Null => Ok(self),
            Token::Linebreak => self.on_linebreak(i),
            Token::Tab => Ok(self.on_tab(i)),
            Token::TypeKeyword => self.on_type_keyword(),
            Token::TypeName(_) | Token::Assignment | Token::C(_) | Token::E(_) | Token::Any
            | Token::TypeAsDeclarationParameter(_) => self.on_part(),
            Token::TypeInstance(_) => self.on_instance(),
            Token::Content(text) => Ok(self.on_content(text, i)),
            Token::CodeBlockClose | Token::MathBlockClose => Ok(self.on_block_close(i)),
            Token::Separator(_) | Token::UseKeyword | Token::Filename(_) | Token::CommentLine
            | Token::CommentOpen | Token::CommentContents(_) | Token::CodeBlockOpen
            | Token::MathBlockOpen => Ok(self),
            Token::Element | Token::ContentWithFormatting(_) | Token::CodeBlock(_)
            | Token::MathBlock(_) => Err(
                self.issue(ParseErrorKind::IllegalToken, self.line, self.previous),
            ),
        };
        match r {
            Ok(s) => Ok(ParserModel { previous: i, ..s }),
            Err(e) => Err(e),
        }
    }

    /// The end of the stream: the open tree is closed by the token it points
    /// at.
    pub open spec fn finish(self) -> Result<Seq<IrModel>, ParseIssue> {
        let r = match self.tree {
            None => Ok(self),
            Some(t) => match t.value() {
                Token::Assignment => self.close_assignment(t, self.line, Token::Null),
                Token::E(_) => self.close_element(t, self.line, Token::Null),
                Token::ContentWithFormatting(_) | Token::TypeInstance(_) | Token::Element =>
                    self.close_expression(t, self.line, Token::Null),
                other => Err(self.issue(ParseErrorKind::OutOfPlace, self.line, other)),
            },
        };
        match r {
            Ok(s) => Ok(s.output),
            Err(e) => Err(e),
        }
    }
}

/// The state after the tokens from position `k` on.
pub open spec fn parse_from(s: ParserModel, tokens: Seq<Token>, k: int) -> Result<
    ParserModel,
    ParseIssue,
>
    decreases tokens.len() - k,
{
    if k < 0 || k >= tokens.len() {
        Ok(s)
    } else {
        match s.step(tokens[k]) {
            Ok(t) => parse_from(t, tokens, k + 1),
            Err(e) => Err(e),
        }
    }
}

/// What the parser makes of a stream of tokens: the items of the
/// intermediate representation in the order of the stream, or the first
/// error.
pub open spec fn parse(tokens: Seq<Token>) -> Result<Seq<IrModel>, ParseIssue> {
    match parse_from(ParserModel::start(), tokens.push(Token::Null), 0) {
        Ok(s) => s.finish(),
        Err(e) => Err(e),
    }
}

/// A step moves each counter by one at most, and by nothing while no token
/// has been read.
pub proof fn lemma_step_counters(s: ParserModel, i: Token)
    ensures
        match s.step(i) {
            Ok(t) => {
                &&& s.line <= t.line <= s.line + 1
                &&& s.line_scope <= t.line_scope <= s.line_scope + 1
                &&& s.previous is Null ==> t.line == s.line && t.line_scope == s.line_scope
                &&& t.previous == i
            },
            Err(e) => true,
        },
{
}

/// The parser's state.
pub struct Parser {
    pub tree: Option<TreeNode>,
    pub formatting: Vec<Tokens>,
    pub previous: Tokens,
    pub line: usize,
    pub line_scope: usize,
    pub last_line_scope: usize,
    pub output: Vec<IrElements>,
}

impl View for Parser {
    type V = ParserModel;

    open spec fn view(&self) -> ParserModel {
        ParserModel {
            tree: match self.tree {
                Some(t) => Some(t@),
                None => None,
            },
            formatting: views(self.formatting@),
            previous: self.previous@,
            line: self.line as nat,
            line_scope: self.line_scope as nat,
            last_line_scope: self.last_line_scope as nat,
            output: items(self.output@),
        }
    }
}

/// How a token is dispatched.
#[derive(Clone, Copy, Debug, PartialEq, Eq, Structural)]
pub enum Route {
    Skip,
    Linebreak,
    Tab,
    TypeKeyword,
    Part,
    Instance,
    Content,
    BlockClose,
    Illegal,
}

/// The route of a token.
pub open spec fn route_of(t: Token) -> Route {
    match t {
        Token::Linebreak => Route::Linebreak,
        Token::Tab => Route::Tab,
        Token::TypeKeyword => Route::TypeKeyword,
        Token::TypeName(_) | Token::Assignment | Token::C(_) | Token::E(_) | Token::Any
        | Token::TypeAsDeclarationParameter(_) => Route::Part,
        Token::TypeInstance(_) => Route::Instance,
        Token::Content(_) => Route::Content,
        Token::CodeBlockClose | Token::MathBlockClose => Route::BlockClose,
        Token::Element | Token::ContentWithFormatting(_) | Token::CodeBlock(_) | Token::MathBlock(
            _,
        ) => Route::Illegal,
        _ => Route::Skip,
    }
}

fn route(t: &Tokens) -> (r: Route)
    ensures
        r == route_of(t@),
{
    match t {
        Tokens::Linebreak => Route::Linebreak,
        Tokens::Tab => Route::Tab,
        Tokens::TypeKeyword => Route::TypeKeyword,
        Tokens::TypeName(_) | Tokens::Assignment | Tokens::C(_) | Tokens::E(_) | Tokens::Any
        | Tokens::TypeAsDeclarationParameter(_) => Route::Part,
        Tokens::TypeInstance(_) => Route::Instance,
        Tokens::Content(_) => Route::Content,
        Tokens::CodeBlockClose | Tokens::MathBlockClose => Route::BlockClose,
        Tokens::Element | Tokens::ContentWithFormatting(_) | Tokens::CodeBlock(_)
        | Tokens::MathBlock(_) => Route::Illegal,
        _ => Route::Skip,
    }
}

fn takes_part(head: &Tokens, part: &Tokens) -> (r: bool)
    ensures
        r == takes(head@, part@),
{
    match part {
        Tokens::TypeName(_) | Tokens::Assignment => matches!(head, Tokens::TypeKeyword),
        Tokens::E(_) => matches!(head, Tokens::Assignment),
        Tokens::C(_) | Tokens::Any | Tokens::TypeAsDeclarationParameter(_) => matches!(
            head,
            Tokens::Assignment | Tokens::E(_)
        ),
        _ => false,
    }
}

fn misplaced_kind(part: &Tokens) -> (r: ParseErrorKind)
    ensures
        r == misplaced(part@),
{
    match part {
        Tokens::TypeName(_) => ParseErrorKind::TypeNameMisplaced,
        Tokens::Assignment => ParseErrorKind::AssignmentMisplaced,
        Tokens::E(_) => ParseErrorKind::ElementArgumentMisplaced,
        Tokens::C(_) => ParseErrorKind::ContentArgumentMisplaced,
        Tokens::Any => ParseErrorKind::AnyMisplaced,
        _ => ParseErrorKind::TypeParameterMisplaced,
    }
}

fn outside_kind(part: &Tokens) -> (r: ParseErrorKind)
    ensures
        r == outside(part@),
{
    match part {
        Tokens::TypeName(_) => ParseErrorKind::TypeNameOutside,
        Tokens::Assignment => ParseErrorKind::AssignmentOutside,
        Tokens::E(_) => ParseErrorKind::ElementArgumentOutside,
        Tokens::C(_) => ParseErrorKind::ContentArgumentOutside,
        Tokens::Any => ParseErrorKind::AnyOutside,
        _ => ParseErrorKind::TypeParameterOutside,
    }
}

/// Whether the result of a step agrees with what the step should give.
pub open spec fn stepped(r: Result<Parser, ParseError>, want: Result<ParserModel, ParseIssue>)
    -> bool {
    match want {
        Ok(s) => r is Ok && r->Ok_0@ == s,
        Err(e) => r is Err && r->Err_0@ == e,
    }
}

impl Parser {
    /// A parser at the start of a stream.
    pub fn new() -> (r: Parser)
        ensures
            r@ == ParserModel::start(),
    {
        let r = Parser {
            tree: None,
            formatting: Vec::new(),
            previous: Tokens::Null,
            line: 1,
            line_scope: 0,
            last_line_scope: 0,
            output: Vec::new(),
        };
        assert(views(r.formatting@) =~= Seq::<Token>::empty());
        assert(items(r.output@) =~= Seq::<IrModel>::empty());
        r
    }

    fn close_expression(self, line: usize, culprit: &Tokens) -> (r: Result<Parser, ParseError>)
        requires
            self.tree is Some,
        ensures
            stepped(r, self@.close_expression(self@.tree->0, line as nat, culprit@)),
    {
        let Parser { tree, formatting, previous, line: at, line_scope, last_line_scope, output } =
            self;
        let mut output = output;
        let root = TreeNode::to_root(tree.unwrap());
        let prose = matches!(root.value(), Tokens::ContentWithFormatting(_));
        let instance = matches!(root.value(), Tokens::TypeInstance(_));
        let ghost before = items(output@);
        if prose {
            output.push(IrElements::RawText(root));
            assert(items(output@) =~= before.push(IrModel::RawText(root@)));
        } else if instance {
            output.push(IrElements::TypeExpression(root));
            assert(items(output@) =~= before.push(IrModel::TypeExpression(root@)));
        } else {
            return Err(
                ParseError { kind: ParseErrorKind::InvalidRoot, line, token: culprit.clone() },
            );
        }
        Ok(Parser { tree: None, formatting, previous, line: at, line_scope, last_line_scope, output })
    }

    fn close_declaration(self, root: TreeNode) -> (r: Parser)
        ensures
            r@ == self@.emit(IrModel::TypeDeclaration(root@)),
    {
        let Parser { tree, formatting, previous, line, line_scope, last_line_scope, output } = self;
        let mut output = output;
        let ghost before = items(output@);
        output.push(IrElements::TypeDeclaration(root));
        assert(items(output@) =~= before.push(IrModel::TypeDeclaration(root@)));
        Parser { tree: None, formatting, previous, line, line_scope, last_line_scope, output }
    }

    fn fail(kind: ParseErrorKind, line: usize, token: Tokens) -> (r: Result<Parser, ParseError>)
        ensures
            r is Err,
            r->Err_0@ == (ParseIssue { kind, line: line as nat, token: token@ }),
    {
        Err(ParseError { kind, line, token })
    }

    fn close_assignment(self, line: usize, culprit: &Tokens) -> (r: Result<Parser, ParseError>)
        requires
            self.tree is Some,
        ensures
            stepped(r, self@.close_assignment(self@.tree->0, line as nat, culprit@)),
    {
        let Parser { tree, formatting, previous, line: at, line_scope, last_line_scope, output } =
            self;
        let t = tree.unwrap();
        if !t.has_parent() {
            return Self::fail(ParseErrorKind::AssignmentNotUnderType, line, culprit.clone());
        }
        let up = TreeNode::back_to_parent(t);
        if !matches!(up.value(), Tokens::TypeKeyword) {
            return Self::fail(ParseErrorKind::AssignmentNotUnderType, line, culprit.clone());
        }
        let rest = Parser {
            tree: None,
            formatting,
            previous,
            line: at,
            line_scope,
            last_line_scope,
            output,
        };
        Ok(rest.close_declaration(up))
    }

    fn close_element(self, line: usize, culprit: &Tokens) -> (r: Result<Parser, ParseError>)
        requires
            self.tree is Some,
        ensures
            stepped(r, self@.close_element(self@.tree->0, line as nat, culprit@)),
    {
        let Parser { tree, formatting, previous, line: at, line_scope, last_line_scope, output } =
            self;
        let t = tree.unwrap();
        if !t.has_parent() {
            return Self::fail(ParseErrorKind::ElementNotUnderType, line, culprit.clone());
        }
        let up = TreeNode::back_to_parent(t);
        if !up.has_parent() {
            return Self::fail(ParseErrorKind::ElementNotUnderType, line, culprit.clone());
        }
        let top = TreeNode::back_to_parent(up);
        if !matches!(top.value(), Tokens::TypeKeyword) {
            return Self::fail(ParseErrorKind::ElementNotUnderType, line, culprit.clone());
        }
        let rest = Parser {
            tree: None,
            formatting,
            previous,
            line: at,
            line_scope,
            last_line_scope,
            output,
        };
        Ok(rest.close_declaration(top))
    }

    fn step_up(self) -> (r: Parser)
        requires
            self.tree is Some,
        ensures
            r@ == self@.with_tree(ParserModel::step_up(self@.tree->0)),
    {
        let Parser { tree, formatting, previous, line, line_scope, last_line_scope, output } = self;
        let t = tree.unwrap();
        let up = if t.has_parent() {
            TreeNode::back_to_parent(t)
        } else {
            t
        };
        Parser { tree: Some(up), formatting, previous, line, line_scope, last_line_scope, output }
    }

    fn head_is_assignment(&self) -> (r: bool)
        ensures
            r == (self@.tree is Some && self@.tree->0.value() is Assignment),
    {
        match &self.tree {
            Some(t) => matches!(t.value(), Tokens::Assignment),
            None => false,
        }
    }

    fn head_is_element_argument(&self) -> (r: bool)
        ensures
            r == (self@.tree is Some && self@.tree->0.value() is E),
    {
        match &self.tree {
            Some(t) => matches!(t.value(), Tokens::E(_)),
            None => false,
        }
    }

    fn head_is_expression(&self) -> (r: bool)
        ensures
            r == (self@.tree is Some && (self@.tree->0.value() is ContentWithFormatting
                || self@.tree->0.value() is TypeInstance)),
    {
        match &self.tree {
            Some(t) => matches!(t.value(), Tokens::ContentWithFormatting(_) | Tokens::TypeInstance(_)),
            None => false,
        }
    }

    fn head_is_element(&self) -> (r: bool)
        ensures
            r == (self@.tree is Some && self@.tree->0.value() is Element),
    {
        match &self.tree {
            Some(t) => matches!(t.value(), Tokens::Element),
            None => false,
        }
    }

    fn break_before_tab(self, i: &Tokens) -> (r: Result<Parser, ParseError>)
        requires
            self.line < usize::MAX,
        ensures
            stepped(r, self@.break_before_tab(i@)),
    {
        if self.head_is_assignment() || self.head_is_element_argument() {
            Self::fail(ParseErrorKind::TabUnderDeclaration, self.line + 1, i.clone())
        } else if self.head_is_expression() {
            if self.line_scope >= self.last_line_scope {
                Ok(self)
            } else {
                let line = self.line;
                self.close_expression(line, i)
            }
        } else if self.head_is_element() {
            Ok(self.step_up())
        } else {
            Ok(self)
        }
    }

    fn break_before_other(self, i: &Tokens) -> (r: Result<Parser, ParseError>)
        requires
            self.line < usize::MAX,
        ensures
            stepped(r, self@.break_before_other(i@)),
    {
        let line = self.line;
        if self.tree.is_none() {
            Ok(self)
        } else if self.head_is_assignment() {
            self.close_assignment(line + 1, i)
        } else if self.head_is_element_argument() {
            self.close_element(line + 1, i)
        } else if self.head_is_expression() {
            if self.line_scope > self.last_line_scope {
                Ok(self)
            } else {
                self.close_expression(line, i)
            }
        } else if self.head_is_element() {
            Ok(self.step_up())
        } else {
            let token = match &self.tree {
                Some(t) => t.value().clone(),
                None => Tokens::Null,
            };
            Self::fail(ParseErrorKind::OutOfPlace, line, token)
        }
    }

    fn on_linebreak(self, i: &Tokens) -> (r: Result<Parser, ParseError>)
        requires
            self.line < usize::MAX,
        ensures
            stepped(r, self@.on_linebreak(i@)),
    {
        let mut s = self;
        s.last_line_scope = s.line_scope;
        let r = if matches!(i, Tokens::Tab) {
            s.break_before_tab(i)
        } else {
            s.break_before_other(i)
        };
        match r {
            Ok(t) => {
                let mut t = t;
                t.line = t.line + 1;
                Ok(t)
            },
            Err(e) => Err(e),
        }
    }

    fn on_tab(self, i: &Tokens) -> (r: Parser)
        requires
            self.line_scope < usize::MAX,
        ensures
            r@ == self@.on_tab(i@),
    {
        let open = match &self.tree {
            Some(t) => matches!(t.value(), Tokens::TypeInstance(_)),
            None => false,
        };
        let Parser { tree, formatting, previous, line, line_scope, last_line_scope, output } = self;
        let tree = if !matches!(i, Tokens::Tab) && open {
            Some(TreeNode::add_and_set(Tokens::Element, tree.unwrap()))
        } else {
            tree
        };
        Parser {
            tree,
            formatting,
            previous,
            line,
            line_scope: line_scope + 1,
            last_line_scope,
            output,
        }
    }

    fn on_type_keyword(self) -> (r: Result<Parser, ParseError>)
        ensures
            stepped(r, self@.on_type_keyword()),
    {
        let Parser { tree, formatting, previous, line, line_scope, last_line_scope, output } = self;
        if tree.is_some() {
            return Self::fail(ParseErrorKind::TypeKeywordInExpression, line, previous);
        }
        Ok(
            Parser {
                tree: Some(TreeNode::new(Tokens::TypeKeyword)),
                formatting,
                previous,
                line,
                line_scope,
                last_line_scope,
                output,
            },
        )
    }

    fn on_part(self) -> (r: Result<Parser, ParseError>)
        ensures
            stepped(r, self@.on_part()),
    {
        let Parser { tree, formatting, previous, line, line_scope, last_line_scope, output } = self;
        let t = match tree {
            None => {
                return Self::fail(outside_kind(&previous), line, previous);
            },
            Some(t) => t,
        };
        if !takes_part(t.value(), &previous) {
            return Self::fail(misplaced_kind(&previous), line, previous);
        }
        let part = previous.clone();
        let t = if matches!(previous, Tokens::Assignment | Tokens::E(_)) {
            TreeNode::add_and_set(part, t)
        } else {
            TreeNode::add(part, t)
        };
        Ok(Parser { tree: Some(t), formatting, previous, line, line_scope, last_line_scope, output })
    }

    fn on_instance(self) -> (r: Result<Parser, ParseError>)
        ensures
            stepped(r, self@.on_instance()),
    {
        let Parser { tree, formatting, previous, line, line_scope, last_line_scope, output } = self;
        let t = match tree {
            None => TreeNode::new(previous.clone()),
            Some(t) => {
                let kind = match t.value() {
                    Tokens::Element | Tokens::ContentWithFormatting(_) => None,
                    Tokens::TypeInstance(_) => Some(ParseErrorKind::InstanceUnderInstance),
                    Tokens::TypeKeyword | Tokens::Assignment | Tokens::E(_) => Some(
                        ParseErrorKind::InstanceUnderDeclaration,
                    ),
                    _ => Some(ParseErrorKind::InstanceMisplaced),
                };
                match kind {
                    Some(k) => {
                        return Self::fail(k, line, previous);
                    },
                    None => TreeNode::add_and_set(previous.clone(), t),
                }
            },
        };
        Ok(Parser { tree: Some(t), formatting, previous, line, line_scope, last_line_scope, output })
    }

    fn wrap(self) -> (r: Parser)
        ensures
            r@ == self@.wrap(),
    {
        let Parser { tree, formatting, previous, line, line_scope, last_line_scope, output } = self;
        let ghost pieces = views(formatting@);
        let token = Tokens::ContentWithFormatting(formatting);
        assert(token@ == Token::ContentWithFormatting(pieces)) by {
            assert(token@->ContentWithFormatting_0 =~= pieces);
        }
        let tree = match tree {
            Some(t) => TreeNode::add(token, t),
            None => TreeNode::new(token),
        };
        let r = Parser {
            tree: Some(tree),
            formatting: Vec::new(),
            previous,
            line,
            line_scope,
            last_line_scope,
            output,
        };
        assert(views(r.formatting@) =~= Seq::<Token>::empty());
        r
    }

    fn stage(self, t: Tokens) -> (r: Parser)
        ensures
            r@ == self@.stage(t@),
    {
        let mut s = self;
        let ghost before = views(s.formatting@);
        s.formatting.push(t);
        assert(views(s.formatting@) =~= before.push(t@));
        s
    }

    fn on_content(self, i: &Tokens) -> (r: Parser)
        requires
            self.previous is Content,
        ensures
            r@ == self@.on_content(self@.previous->Content_0, i@),
    {
        let piece = match (&self.previous, i) {
            (previous, Tokens::CodeBlockOpen) => previous.clone(),
            (previous, Tokens::MathBlockOpen) => previous.clone(),
            (Tokens::Content(text), Tokens::CodeBlockClose) => Tokens::CodeBlock(text.clone()),
            (Tokens::Content(text), Tokens::MathBlockClose) => Tokens::MathBlock(text.clone()),
            (previous, _) => previous.clone(),
        };
        let ends = !matches!(
            i,
            Tokens::CodeBlockOpen | Tokens::MathBlockOpen | Tokens::CodeBlockClose
                | Tokens::MathBlockClose
        );
        let s = self.stage(piece);
        if ends {
            s.wrap()
        } else {
            s
        }
    }

    fn on_block_close(self, i: &Tokens) -> (r: Parser)
        ensures
            r@ == self@.on_block_close(i@),
    {
        if matches!(i, Tokens::Content(_) | Tokens::CodeBlockOpen | Tokens::MathBlockOpen) {
            self
        } else {
            self.wrap()
        }
    }

    /// Dispatches the token read last, with `i` in view, and takes `i` as the
    /// token read last.
    pub fn step(self, i: Tokens) -> (r: Result<Parser, ParseError>)
        requires
            self.line < usize::MAX,
            self.line_scope < usize::MAX,
        ensures
            stepped(r, self@.step(i@)),
    {
        let r = match route(&self.previous) {
            Route::Skip => Ok(self),
            Route::Linebreak => self.on_linebreak(&i),
            Route::Tab => Ok(self.on_tab(&i)),
            Route::TypeKeyword => self.on_type_keyword(),
            Route::Part => self.on_part(),
            Route::Instance => self.on_instance(),
            Route::Content => Ok(self.on_content(&i)),
            Route::BlockClose => Ok(self.on_block_close(&i)),
            Route::Illegal => {
                let Parser {
                    tree,
                    formatting,
                    previous,
                    line,
                    line_scope,
                    last_line_scope,
                    output,
                } = self;
                Self::fail(ParseErrorKind::IllegalToken, line, previous)
            },
        };
        match r {
            Ok(s) => {
                let mut s = s;
                s.previous = i;
                Ok(s)
            },
            Err(e) => Err(e),
        }
    }

    /// Ends the stream.
    pub fn finish(self) -> (r: Result<Vec<IrElements>, ParseError>)
        ensures
            match self@.finish() {
                Ok(irs) => r is Ok && items(r->Ok_0@) == irs,
                Err(e) => r is Err && r->Err_0@ == e,
            },
    {
        let line = self.line;
        let end = Tokens::Null;
        let r = if self.tree.is_none() {
            Ok(self)
        } else if self.head_is_assignment() {
            self.close_assignment(line, &end)
        } else if self.head_is_element_argument() {
            self.close_element(line, &end)
        } else if self.head_is_expression() || self.head_is_element() {
            self.close_expression(line, &end)
        } else {
            let token = match &self.tree {
                Some(t) => t.value().clone(),
                None => Tokens::Null,
            };
            Self::fail(ParseErrorKind::OutOfPlace, line, token)
        };
        match r {
            Ok(s) => Ok(s.output),
            Err(e) => Err(e),
        }
    }
}

/// Builds the items of the intermediate representation from a stream of
/// tokens. Each item is a well formed tree that points at its root, which
/// holds the token of the item's kind.
pub fn parser(input: Vec<Tokens>) -> (r: Result<Vec<IrElements>, ParseError>)
    ensures
        match parse(views(input@)) {
            Ok(irs) => r is Ok && items(r->Ok_0@) == irs,
            Err(e) => r is Err && r->Err_0@ == e,
        },
        r is Ok ==> forall|j: int| 0 <= j < r->Ok_0.len() ==> rooted(#[trigger] r->Ok_0@[j]@),
{
    let mut tokens = input;
    tokens.push(Tokens::Null);
    let ghost all = views(input@).push(Token::Null);
    assert(views(tokens@) =~= all);
    let mut state = Parser::new();
    let ghost goal = parse_from(ParserModel::start(), all, 0);
    let mut k: usize = 0;
    while k < tokens.len()
        invariant
            k <= tokens.len(),
            views(tokens@) == all,
            all == views(input@).push(Token::Null),
            goal == parse_from(ParserModel::start(), all, 0),
            parse_from(state@, all, k as int) == goal,
            k == 0 ==> state.line == 1 && state.line_scope == 0 && state.previous@ is Null,
            k > 0 ==> state.line <= k && state.line_scope < k,
        decreases tokens.len() - k,
    {
        let i = tokens[k].clone();
        proof {
            lemma_step_counters(state@, i@);
        }
        let ghost before = state@;
        match state.step(i) {
            Ok(s) => {
                state = s;
            },
            Err(e) => {
                assert(parse_from(before, all, k as int) == Err::<ParserModel, ParseIssue>(e@));
                return Err(e);
            },
        }
        k += 1;
    }
    let r = state.finish();
    proof {
        lemma_items_rooted(views(input@));
        if r is Ok {
            assert forall|j: int| 0 <= j < r->Ok_0.len() implies rooted(
                #[trigger] r->Ok_0@[j]@,
            ) by {
                assert(items(r->Ok_0@)[j] == r->Ok_0@[j]@);
            }
        }
    }
    r
}

} // verus!
