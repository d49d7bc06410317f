//! The token vocabulary shared by the lexer and the parser.

use vstd::prelude::*;
use vstd::string::StringExecFns;

verus! {

/// A token of the language. The lexer emits all but the last five kinds before
/// `Null`; the parser builds those.
#[derive(Debug, PartialEq)]
pub enum Tokens {
    Separator(String),
    Tab,
    Linebreak,
    UseKeyword,
    Filename(String),
    CommentLine,
    CommentOpen,
    CommentContents(String),
    TypeKeyword,
    TypeName(String),
    Assignment,
    E(String),
    C(String),
    Any,
    TypeAsDeclarationParameter(String),
    TypeInstance(String),
    Content(String),
    CodeBlockOpen,
    CodeBlockClose,
    MathBlockOpen,
    MathBlockClose,
    Element,
    ContentWithFormatting(Vec<Tokens>),
    MathBlock(String),
    CodeBlock(String),
    Null,
}

/// The mathematical value of a token: the same variants over sequences of
/// characters.
pub ghost enum Token {
    Separator(Seq<char>),
    Tab,
    Linebreak,
    UseKeyword,
    Filename(Seq<char>),
    CommentLine,
    CommentOpen,
    CommentContents(Seq<char>),
    TypeKeyword,
    TypeName(Seq<char>),
    Assignment,
    E(Seq<char>),
    C(Seq<char>),
    Any,
    TypeAsDeclarationParameter(Seq<char>),
    TypeInstance(Seq<char>),
    Content(Seq<char>),
    CodeBlockOpen,
    CodeBlockClose,
    MathBlockOpen,
    MathBlockClose,
    Element,
    ContentWithFormatting(Seq<Token>),
    MathBlock(Seq<char>),
    CodeBlock(Seq<char>),
    Null,
}

impl View for Tokens {
    type V = Token;

    open spec fn view(&self) -> Token
        decreases self,
    {
        match self {
            Tokens::Separator(s) => Token::Separator(s@),
            Tokens::Tab => Token::Tab,
            Tokens::Linebreak => Token::Linebreak,
            Tokens::UseKeyword => Token::UseKeyword,
            Tokens::Filename(s) => Token::Filename(s@),
            Tokens::CommentLine => Token::CommentLine,
            Tokens::CommentOpen => Token::CommentOpen,
            Tokens::CommentContents(s) => Token::CommentContents(s@),
            Tokens::TypeKeyword => Token::TypeKeyword,
            Tokens::TypeName(s) => Token::TypeName(s@),
            Tokens::Assignment => Token::Assignment,
            Tokens::E(s) => Token::E(s@),
            Tokens::C(s) => Token::C(s@),
            Tokens::Any => Token::Any,
            Tokens::TypeAsDeclarationParameter(s) => Token::TypeAsDeclarationParameter(s@),
            Tokens::TypeInstance(s) => Token::TypeInstance(s@),
            Tokens::Content(s) => Token::Content(s@),
            Tokens::CodeBlockOpen => Token::CodeBlockOpen,
            Tokens::CodeBlockClose => Token::CodeBlockClose,
            Tokens::MathBlockOpen => Token::MathBlockOpen,
            Tokens::MathBlockClose => Token::MathBlockClose,
            Tokens::Element => Token::Element,
            Tokens::ContentWithFormatting(v) => Token::ContentWithFormatting(
                Seq::new(
                    v.len() as nat,
                    |i: int|
                        if 0 <= i < v.len() {
                            v[i].view()
                        } else {
                            Token::Null
                        },
                ),
            ),
            Tokens::MathBlock(s) => Token::MathBlock(s@),
            Tokens::CodeBlock(s) => Token::CodeBlock(s@),
            Tokens::Null => Token::Null,
        }
    }
}

impl Token {
    /// The text that describes a token: a fixed label, followed by the payload
    /// for the kinds that carry text.
    pub open spec fn describe(self) -> Seq<char> {
        match self {
            Token::Separator(s) => "Separator Token of form "@ + s,
            Token::Tab => "Tab Token"@,
            Token::Linebreak => "Linebreak Token"@,
            Token::UseKeyword => "Use Keyword Token"@,
            Token::Filename(s) => "Filename Token containing filename: "@ + s,
            Token::CommentLine => "Comment Symbol Token"@,
            Token::CommentOpen => "Open Comment Block Symbol Token"@,
            Token::CommentContents(s) => "Comment Token containing the text: "@ + s,
            Token::TypeKeyword => "Type Keyword Token"@,
            Token::TypeName(s) => "Type Name Token holding name: "@ + s,
            Token::Assignment => "Assignment Symbol Token"@,
            Token::E(s) => "Element Formatter Token for declarations containing: "@ + s,
            Token::C(s) => "Content Formatter Token for declarations containing: "@ + s,
            Token::Any => "\"Any\" Keyword Token"@,
            Token::TypeAsDeclarationParameter(s) => "Type Used as Declaration Parameter, type: "@
                + s,
            Token::TypeInstance(s) => "Type Instance Token, type: "@ + s,
            Token::Content(s) => "Content Token containing the text: "@ + s,
            Token::CodeBlockOpen => "Open Code Block Symbol Token"@,
            Token::CodeBlockClose => "Close Code Block Symbol Token"@,
            Token::MathBlockOpen => "Open Math Block Symbol Token"@,
            Token::MathBlockClose => "Close Math Block Symbol Token"@,
            Token::Element => "Element Node Token"@,
            Token::ContentWithFormatting(_v) => "Content and Formatting Container"@,
            Token::MathBlock(s) => "Math block containing the text: "@ + s,
            Token::CodeBlock(s) => "Code block containing the text: "@ + s,
            Token::Null => "Null Token"@,
        }
    }
}

/// A label followed by a payload.
fn labelled(label: &str, payload: &String) -> (r: String)
    ensures
        r@ == label@ + payload@,
{
    let mut r = String::from_str(label);
    r.append(payload.as_str());
    r
}

impl Tokens {
    /// Describes the token in words.
    pub fn print(&self) -> (r: String)
        ensures
            r@ == self@.describe(),
    {
        match self {
            Tokens::Separator(s) => labelled("Separator Token of form ", s),
            Tokens::Tab => String::from_str("Tab Token"),
            Tokens::Linebreak => String::from_str("Linebreak Token"),
            Tokens::UseKeyword => String::from_str("Use Keyword Token"),
            Tokens::Filename(s) => labelled("Filename Token containing filename: ", s),
            Tokens::CommentLine => String::from_str("Comment Symbol Token"),
            Tokens::CommentOpen => String::from_str("Open Comment Block Symbol Token"),
            Tokens::CommentContents(s) => labelled("Comment Token containing the text: ", s),
            Tokens::TypeKeyword => String::from_str("Type Keyword Token"),
            Tokens::TypeName(s) => labelled("Type Name Token holding name: ", s),
            Tokens::Assignment => String::from_str("Assignment Symbol Token"),
            Tokens::E(s) => labelled("Element Formatter Token for declarations containing: ", s),
            Tokens::C(s) => labelled("Content Formatter Token for declarations containing: ", s),
            Tokens::Any => String::from_str("\"Any\" Keyword Token"),
            Tokens::TypeAsDeclarationParameter(s) => labelled(
                "Type Used as Declaration Parameter, type: ",
                s,
            ),
            Tokens::TypeInstance(s) => labelled("Type Instance Token, type: ", s),
            Tokens::Content(s) => labelled("Content Token containing the text: ", s),
            Tokens::CodeBlockOpen => String::from_str("Open Code Block Symbol Token"),
            Tokens::CodeBlockClose => String::from_str("Close Code Block Symbol Token"),
            Tokens::MathBlockOpen => String::from_str("Open Math Block Symbol Token"),
            Tokens::MathBlockClose => String::from_str("Close Math Block Symbol Token"),
            Tokens::Element => String::from_str("Element Node Token"),
            Tokens::ContentWithFormatting(_v) => String::from_str(
                "Content and Formatting Container",
            ),
            Tokens::MathBlock(s) => labelled("Math block containing the text: ", s),
            Tokens::CodeBlock(s) => labelled("Code block containing the text: ", s),
            Tokens::Null => String::from_str("Null Token"),
        }
    }
}

/// The accepted separators, in the order in which a word is tested for them.
pub open spec fn separators() -> Seq<Seq<char>> {
    seq![seq![':', ':'], seq!['-', '>'], seq![',', ',']]
}

/// The accepted separator symbols.
pub fn separator_list() -> (r: Vec<&'static str>)
    ensures
        r@.len() == 3,
        forall|i: int| 0 <= i < 3 ==> (#[trigger] r@[i])@ == separators()[i],
{
    proof {
        reveal_strlit("::");
        reveal_strlit("->");
        reveal_strlit(",,");
        assert("::"@ =~= seq![':', ':']);
        assert("->"@ =~= seq!['-', '>']);
        assert(",,"@ =~= seq![',', ',']);
    }
    vec!["::", "->", ",,"]
}

/// The values of a sequence of tokens, position by position.
pub open spec fn views(s: Seq<Tokens>) -> Seq<Token> {
    Seq::new(s.len(), |i: int| s[i]@)
}

impl Clone for Tokens {
    #[verifier::loop_isolation(false)]
    fn clone(&self) -> (res: Self)
        ensures
            res@ == self@,
        decreases self,
    {
        match self {
            Tokens::Separator(s) => Tokens::Separator(s.clone()),
            Tokens::Tab => Tokens::Tab,
            Tokens::Linebreak => Tokens::Linebreak,
            Tokens::UseKeyword => Tokens::UseKeyword,
            Tokens::Filename(s) => Tokens::Filename(s.clone()),
            Tokens::CommentLine => Tokens::CommentLine,
            Tokens::CommentOpen => Tokens::CommentOpen,
            Tokens::CommentContents(s) => Tokens::CommentContents(s.clone()),
            Tokens::TypeKeyword => Tokens::TypeKeyword,
            Tokens::TypeName(s) => Tokens::TypeName(s.clone()),
            Tokens::Assignment => Tokens::Assignment,
            Tokens::E(s) => Tokens::E(s.clone()),
            Tokens::C(s) => Tokens::C(s.clone()),
            Tokens::Any => Tokens::Any,
            Tokens::TypeAsDeclarationParameter(s) => Tokens::TypeAsDeclarationParameter(s.clone()),
            Tokens::TypeInstance(s) => Tokens::TypeInstance(s.clone()),
            Tokens::Content(s) => Tokens::Content(s.clone()),
            Tokens::CodeBlockOpen => Tokens::CodeBlockOpen,
            Tokens::CodeBlockClose => Tokens::CodeBlockClose,
            Tokens::MathBlockOpen => Tokens::MathBlockOpen,
            Tokens::MathBlockClose => Tokens::MathBlockClose,
            Tokens::Element => Tokens::Element,
            Tokens::ContentWithFormatting(v) => {
                let mut out: Vec<Tokens> = Vec::new();
                let mut i: usize = 0;
                while i < v.len()
                    invariant
                        i <= v.len(),
                        out.len() == i,
                        forall|j: int| 0 <= j < i ==> out@[j]@ == v@[j]@,
                    decreases v.len() - i,
                {
                    let t = v[i].clone();
                    out.push(t);
                    i += 1;
                }
                let res = Tokens::ContentWithFormatting(out);
                assert(res@ == self@) by {
                    assert(res@->ContentWithFormatting_0 =~= self@->ContentWithFormatting_0);
                }
                res
            },
            Tokens::MathBlock(s) => Tokens::MathBlock(s.clone()),
            Tokens::CodeBlock(s) => Tokens::CodeBlock(s.clone()),
            Tokens::Null => Tokens::Null,
        }
    }
}

} // verus!
