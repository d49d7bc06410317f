//! What the lexer reports when it stops.

use vstd::prelude::*;
use vstd::string::StringExecFns;
use crate::text::{decimal, decimal_text, string_of};

verus! {

/// Why the lexer stopped.
#[derive(Clone, Copy, Debug, PartialEq, Eq, Structural)]
pub enum LexErrorKind {
    /// `*type` after one or more leading tabs.
    TypeInScope,
    /// A second `*use` right after the first.
    UseRepeated,
    /// `*use` after one or more leading tabs.
    UseInScope,
    /// `*use` inside a type declaration.
    UseInDeclaration,
    /// `*use` inside an imported file.
    UseInImport,
    /// `=>` where no type declaration is open.
    AssignmentOutsideDeclaration,
    /// `=>` that does not directly follow the declared name.
    TypeNameNotOneWord,
    /// A type name that is declared already.
    DuplicateType,
    /// An argument that begins with `e` without `..` after it.
    MalformedElementArgument,
    /// An argument that begins with `c` without `..` after it.
    MalformedContentArgument,
    /// An argument that is no formatter, no `any` and no declared type.
    UnknownArgument,
    /// `*/` where no block comment is open.
    CommentCloseWithoutOpen,
    /// A block comment still open at the end of the text.
    UnclosedComment,
    /// An import of a file that was not supplied.
    ImportMissing,
    /// An import of a file that could not be read.
    ImportUnreadable,
}

/// The two families of lexer errors.
#[derive(Clone, Copy, Debug, PartialEq, Eq, Structural)]
pub enum ErrorFamily {
    Lexical,
    Import,
}

/// The mathematical value of a lexer error.
pub ghost struct LexIssue {
    pub kind: LexErrorKind,
    pub line: nat,
    pub word: nat,
    pub lexeme: Seq<char>,
    pub file: Option<Seq<char>>,
    pub handed_on: bool,
}

/// A lexer error: its kind, the line and word at which it was found, the
/// word itself, and the imported file it was found in, if any. An error that
/// the abridged lexer found in a file and that the lexer hands on to its own
/// caller is marked as handed on.
#[derive(Debug, PartialEq, Eq)]
pub struct LexError {
    pub kind: LexErrorKind,
    pub line: usize,
    pub word: usize,
    pub lexeme: String,
    pub file: Option<String>,
    pub handed_on: bool,
}

impl View for LexError {
    type V = LexIssue;

    open spec fn view(&self) -> LexIssue {
        LexIssue {
            kind: self.kind,
            line: self.line as nat,
            word: self.word as nat,
            lexeme: self.lexeme@,
            file: match self.file {
                Some(f) => Some(f@),
                None => None,
            },
            handed_on: self.handed_on,
        }
    }
}

impl LexErrorKind {
    /// The sentence that explains an error of this kind.
    pub open spec fn sentence(self) -> Seq<char> {
        match self {
            LexErrorKind::TypeInScope =>
                "Invalid syntax: *type has been placed in a scope somewhere, it should not have been. There is no place for a type declaration in a scope. (Remove any tabs before this *type)"@,
            LexErrorKind::UseRepeated =>
                "Invalid syntax: *use has already been called, you cannot have multiple on the same line."@,
            LexErrorKind::UseInScope =>
                "Invalid syntax: *use has been placed in a scope somewhere, it should not have been. There is no place for an import in a scope. (Remove any tabs before this *use)"@,
            LexErrorKind::UseInDeclaration =>
                "Invalid syntax: *use has been called in a type declaration. You can't do this."@,
            LexErrorKind::UseInImport =>
                "Invalid syntax: *use has been called in an imported file. Imports cannot be nested."@,
            LexErrorKind::AssignmentOutsideDeclaration =>
                "Invalid syntax: Assignment operator used somewhere other than a type assignment."@,
            LexErrorKind::TypeNameNotOneWord =>
                "Invalid syntax: Type names should only be one word. Try using underscores, or check the declaration."@,
            LexErrorKind::DuplicateType =>
                "Invalid syntax: It appears this type has been declared before, the namespace is already occupied!"@,
            LexErrorKind::MalformedElementArgument =>
                "Invalid syntax: Something besides \"..\" is separating the e from the number/letter here. Alternatively there's something else entirely following the e"@,
            LexErrorKind::MalformedContentArgument =>
                "Invalid syntax: Something besides \"..\" is separating the c from the number/letter here. Alternatively there's something else entirely following the c"@,
            LexErrorKind::UnknownArgument =>
                "Invalid syntax: Something other than a type name, \"e\", \"c\", or \"any\". If it is a type name, it hasn't been declared yet and so cannot be recognized."@,
            LexErrorKind::CommentCloseWithoutOpen =>
                "Invalid syntax: You've tried to close a block comment but this isn't a block comment!"@,
            LexErrorKind::UnclosedComment =>
                "Invalid syntax: A block comment is still open at the end of the text."@,
            LexErrorKind::ImportMissing =>
                "Error, see above. ^^"@,
            LexErrorKind::ImportUnreadable =>
                "Error, see above. ^^"@,
        }
    }

    /// Explains an error of this kind in a sentence.
    pub fn reason(&self) -> (r: String)
        ensures
            r@ == self.sentence(),
    {
        match self {
            LexErrorKind::TypeInScope => String::from_str(
                "Invalid syntax: *type has been placed in a scope somewhere, it should not have been. There is no place for a type declaration in a scope. (Remove any tabs before this *type)",
            ),
            LexErrorKind::UseRepeated => String::from_str(
                "Invalid syntax: *use has already been called, you cannot have multiple on the same line.",
            ),
            LexErrorKind::UseInScope => String::from_str(
                "Invalid syntax: *use has been placed in a scope somewhere, it should not have been. There is no place for an import in a scope. (Remove any tabs before this *use)",
            ),
            LexErrorKind::UseInDeclaration => String::from_str(
                "Invalid syntax: *use has been called in a type declaration. You can't do this.",
            ),
            LexErrorKind::UseInImport => String::from_str(
                "Invalid syntax: *use has been called in an imported file. Imports cannot be nested.",
            ),
            LexErrorKind::AssignmentOutsideDeclaration => String::from_str(
                "Invalid syntax: Assignment operator used somewhere other than a type assignment.",
            ),
            LexErrorKind::TypeNameNotOneWord => String::from_str(
                "Invalid syntax: Type names should only be one word. Try using underscores, or check the declaration.",
            ),
            LexErrorKind::DuplicateType => String::from_str(
                "Invalid syntax: It appears this type has been declared before, the namespace is already occupied!",
            ),
            LexErrorKind::MalformedElementArgument => String::from_str(
                "Invalid syntax: Something besides \"..\" is separating the e from the number/letter here. Alternatively there's something else entirely following the e",
            ),
            LexErrorKind::MalformedContentArgument => String::from_str(
                "Invalid syntax: Something besides \"..\" is separating the c from the number/letter here. Alternatively there's something else entirely following the c",
            ),
            LexErrorKind::UnknownArgument => String::from_str(
                "Invalid syntax: Something other than a type name, \"e\", \"c\", or \"any\". If it is a type name, it hasn't been declared yet and so cannot be recognized.",
            ),
            LexErrorKind::CommentCloseWithoutOpen => String::from_str(
                "Invalid syntax: You've tried to close a block comment but this isn't a block comment!",
            ),
            LexErrorKind::UnclosedComment => String::from_str(
                "Invalid syntax: A block comment is still open at the end of the text.",
            ),
            LexErrorKind::ImportMissing => String::from_str(
                "Error, see above. ^^",
            ),
            LexErrorKind::ImportUnreadable => String::from_str(
                "Error, see above. ^^",
            ),
        }
    }
}

impl LexIssue {
    /// An issue belongs to the import family when it concerns the reading of
    /// an imported file, or was found inside one and handed on.
    pub open spec fn family(self) -> ErrorFamily {
        if self.handed_on || self.kind == LexErrorKind::ImportMissing || self.kind
            == LexErrorKind::ImportUnreadable {
            ErrorFamily::Import
        } else {
            ErrorFamily::Lexical
        }
    }

    /// The reason of the issue. A failed import has one reason, whether the
    /// file could not be read or held an error, which the report tells; any
    /// other issue has the sentence of its kind.
    pub open spec fn reason(self) -> Seq<char> {
        if self.family() == ErrorFamily::Import {
            "Error, see above. ^^"@
        } else {
            self.kind.sentence()
        }
    }
}

impl LexIssue {
    /// The line that reports the issue: the imported file it was found in,
    /// if any, then the line, the word and the word itself.
    pub open spec fn report(self) -> Seq<char> {
        (match self.file {
            Some(f) => "Issue in imported file: "@ + f + ". "@,
            None => Seq::empty(),
        }) + "Issue found at line "@ + decimal(self.line) + ", word "@ + decimal(self.word)
            + ", token:"@ + self.lexeme
    }
}

impl LexError {
    /// The line that reports the error.
    pub fn diagnostic(&self) -> (r: String)
        ensures
            r@ == self@.report(),
    {
        let mut r = String::new();
        match &self.file {
            Some(f) => {
                r.append("Issue in imported file: ");
                r.append(f.as_str());
                r.append(". ");
            },
            None => {},
        }
        assert(r@ =~= (match self@.file {
            Some(f) => "Issue in imported file: "@ + f + ". "@,
            None => Seq::empty(),
        }));
        r.append("Issue found at line ");
        r.append(string_of(&decimal_text(self.line)).as_str());
        r.append(", word ");
        r.append(string_of(&decimal_text(self.word)).as_str());
        r.append(", token:");
        r.append(self.lexeme.as_str());
        r
    }

    /// The family of the error.
    pub fn family(&self) -> (r: ErrorFamily)
        ensures
            r == self@.family(),
    {
        if self.handed_on {
            ErrorFamily::Import
        } else {
            match self.kind {
                LexErrorKind::ImportMissing => ErrorFamily::Import,
                LexErrorKind::ImportUnreadable => ErrorFamily::Import,
                _ => ErrorFamily::Lexical,
            }
        }
    }

    /// The reason of the error, in a sentence.
    pub fn reason(&self) -> (r: String)
        ensures
            r@ == self@.reason(),
    {
        match self.family() {
            ErrorFamily::Import => String::from_str("Error, see above. ^^"),
            ErrorFamily::Lexical => self.kind.reason(),
        }
    }
}

} // verus!
