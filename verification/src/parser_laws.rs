//! What holds of every stream of tokens that the parser accepts.

use vstd::prelude::*;
use crate::parser::{
    lemma_step_counters, parse, parse_from, takes, ParseErrorKind, ParseIssue, ParserModel,
};
use crate::tokens::Token;
use crate::tree::{child_ok, lemma_add_wf, parent_ok, IrModel, NodeModel, TreeModel};

verus! {

/// A type keyword stands at the root of a tree or nowhere in it.
pub open spec fn keyword_at_root(t: TreeModel) -> bool {
    forall|i: int| 0 <= i < t.nodes.len() && (#[trigger] t.nodes[i]).value is TypeKeyword ==> i == 0
}

/// An item is rooted when its tree is well formed and points at its root,
/// and the root holds the token of the item's kind: a type keyword for a
/// declaration, a type instance for a type expression, prose for raw text.
pub open spec fn rooted(e: IrModel) -> bool {
    let t = e.tree();
    &&& t.wf()
    &&& t.at == 0
    &&& keyword_at_root(t)
    &&& match e {
        IrModel::TypeDeclaration(_) => t.value() is TypeKeyword,
        IrModel::TypeExpression(_) => t.value() is TypeInstance,
        IrModel::RawText(_) => t.value() is ContentWithFormatting,
    }
}

/// A state is tidy when its open tree is well formed with a type keyword at
/// the root at most, and its items are rooted.
pub open spec fn tidy(s: ParserModel) -> bool {
    &&& s.tree is Some ==> s.tree->0.wf() && keyword_at_root(s.tree->0)
    &&& forall|j: int| 0 <= j < s.output.len() ==> rooted(#[trigger] s.output[j])
}

/// A tree of one node is well formed, with no type keyword below the root.
proof fn lemma_single_tidy(t: Token)
    ensures
        TreeModel::single(t).wf(),
        keyword_at_root(TreeModel::single(t)),
{
}

/// A node that holds no type keyword keeps a tree tidy.
proof fn lemma_add_tidy(m: TreeModel, t: Token)
    requires
        m.wf(),
        keyword_at_root(m),
        !(t is TypeKeyword),
    ensures
        m.add(t).wf(),
        keyword_at_root(m.add(t)),
        m.add_and_set(t).wf(),
        keyword_at_root(m.add_and_set(t)),
{
    lemma_add_wf(m, t);
    let r = m.add(t);
    assert forall|i: int| 0 <= i < r.nodes.len() && (#[trigger] r.nodes[i]).value
        is TypeKeyword implies i == 0 by {
    }
}

/// A step to the parent keeps a tree tidy.
proof fn lemma_up_tidy(m: TreeModel)
    requires
        m.wf(),
        keyword_at_root(m),
        m.has_parent(),
    ensures
        m.back_to_parent().wf(),
        keyword_at_root(m.back_to_parent()),
{
    assert(parent_ok(m.nodes, m.at));
}

/// Closing a declaration at its assignment symbol keeps a state tidy.
proof fn lemma_close_assignment_tidy(s: ParserModel, t: TreeModel, line: nat, culprit: Token)
    requires
        tidy(s),
        t.wf(),
        keyword_at_root(t),
    ensures
        match s.close_assignment(t, line, culprit) {
            Ok(r) => tidy(r),
            Err(e) => true,
        },
{
    if t.has_parent() && t.back_to_parent().value() is TypeKeyword {
        lemma_up_tidy(t);
    }
}

/// Closing a declaration at an element argument keeps a state tidy.
proof fn lemma_close_element_tidy(s: ParserModel, t: TreeModel, line: nat, culprit: Token)
    requires
        tidy(s),
        t.wf(),
        keyword_at_root(t),
    ensures
        match s.close_element(t, line, culprit) {
            Ok(r) => tidy(r),
            Err(e) => true,
        },
{
    if t.has_parent() && t.back_to_parent().has_parent()
        && t.back_to_parent().back_to_parent().value() is TypeKeyword {
        lemma_up_tidy(t);
        lemma_up_tidy(t.back_to_parent());
    }
}

/// A step keeps a state tidy.
pub proof fn lemma_step_tidy(s: ParserModel, i: Token)
    requires
        tidy(s),
    ensures
        match s.step(i) {
            Ok(r) => tidy(r),
            Err(e) => true,
        },
{
    if s.step(i) is Ok {
        match s.previous {
            Token::Linebreak => {
                let b = ParserModel { last_line_scope: s.line_scope, ..s };
                match b.tree {
                    Some(t) => {
                        lemma_close_element_tidy(b, t, b.line + 1, i);
                        if t.has_parent() {
                            lemma_up_tidy(t);
                        }
                    },
                    None => {},
                }
            },
            Token::Tab => {
                match s.tree {
                    Some(t) => lemma_add_tidy(t, Token::Element),
                    None => {},
                }
            },
            Token::TypeName(_) | Token::Assignment | Token::C(_) | Token::E(_) | Token::Any
            | Token::TypeAsDeclarationParameter(_) => {
                match s.tree {
                    Some(t) => lemma_add_tidy(t, s.previous),
                    None => {},
                }
            },
            Token::TypeInstance(_) => {
                match s.tree {
                    Some(t) => lemma_add_tidy(t, s.previous),
                    None => lemma_single_tidy(s.previous),
                }
            },
            Token::Content(text) => {
                lemma_wrap_tidy(s.stage(s.previous));
            },
            Token::CodeBlockClose | Token::MathBlockClose => {
                lemma_wrap_tidy(s);
            },
            _ => {},
        }
    }
}

/// Wrapping the pieces that wait keeps a state tidy.
proof fn lemma_wrap_tidy(s: ParserModel)
    requires
        tidy(s),
    ensures
        tidy(s.wrap()),
{
    let token = Token::ContentWithFormatting(s.formatting);
    match s.tree {
        Some(t) => lemma_add_tidy(t, token),
        None => lemma_single_tidy(token),
    }
}

/// The steps from a tidy state lead to a tidy state.
proof fn lemma_parse_from_tidy(s: ParserModel, tokens: Seq<Token>, k: int)
    requires
        tidy(s),
    ensures
        match parse_from(s, tokens, k) {
            Ok(r) => tidy(r),
            Err(e) => true,
        },
    decreases tokens.len() - k,
{
    if k < 0 || k >= tokens.len() {
    } else {
        lemma_step_tidy(s, tokens[k]);
        match s.step(tokens[k]) {
            Ok(t) => lemma_parse_from_tidy(t, tokens, k + 1),
            Err(e) => {},
        }
    }
}

/// The items at the end of a tidy state are rooted.
proof fn lemma_finish_tidy(s: ParserModel)
    requires
        tidy(s),
    ensures
        match s.finish() {
            Ok(irs) => forall|j: int| 0 <= j < irs.len() ==> rooted(#[trigger] irs[j]),
            Err(e) => true,
        },
{
    match s.tree {
        Some(t) => {
            lemma_close_assignment_tidy(s, t, s.line, Token::Null);
            lemma_close_element_tidy(s, t, s.line, Token::Null);
        },
        None => {},
    }
}

/// Every item that the parser makes is rooted: its tree is well formed, and
/// its root holds a type keyword, a type instance or prose, as the item is a
/// declaration, a type expression or raw text.
pub proof fn lemma_items_rooted(tokens: Seq<Token>)
    ensures
        match parse(tokens) {
            Ok(irs) => forall|j: int| 0 <= j < irs.len() ==> rooted(#[trigger] irs[j]),
            Err(e) => true,
        },
{
    lemma_parse_from_tidy(ParserModel::start(), tokens.push(Token::Null), 0);
    match parse_from(ParserModel::start(), tokens.push(Token::Null), 0) {
        Ok(s) => lemma_finish_tidy(s),
        Err(e) => {},
    }
}

/// Whether a token is an argument of a declaration.
pub open spec fn is_argument(t: Token) -> bool {
    t is E || t is C || t is Any || t is TypeAsDeclarationParameter
}

/// Every type keyword of the stream is directly followed by a type name, an
/// assignment symbol and an argument.
pub open spec fn declarations_complete(tokens: Seq<Token>) -> bool {
    forall|k: int|
        0 <= k < tokens.len() && (#[trigger] tokens[k]) is TypeKeyword ==> k + 3 < tokens.len()
            && tokens[k + 1] is TypeName && tokens[k + 2] is Assignment && is_argument(
            tokens[k + 3],
        )
}

/// The number of type keywords in a stream.
pub open spec fn keywords(tokens: Seq<Token>) -> nat
    decreases tokens.len(),
{
    if tokens.len() == 0 {
        0
    } else {
        keywords(tokens.drop_last()) + if tokens.last() is TypeKeyword {
            1nat
        } else {
            0nat
        }
    }
}

/// The number of type declarations among items.
pub open spec fn declarations(irs: Seq<IrModel>) -> nat
    decreases irs.len(),
{
    if irs.len() == 0 {
        0
    } else {
        declarations(irs.drop_last()) + if irs.last() is TypeDeclaration {
            1nat
        } else {
            0nat
        }
    }
}

/// The tree of a complete declaration: the root holds the type keyword and
/// has two children, of which the first holds the type name and the second
/// the assignment symbol, whose first child holds an argument.
pub open spec fn complete(t: TreeModel) -> bool {
    &&& t.nodes.len() >= 4
    &&& t.nodes[0].value is TypeKeyword
    &&& t.nodes[0].children == seq![1int, 2int]
    &&& t.nodes[1].value is TypeName
    &&& t.nodes[2].value is Assignment
    &&& t.nodes[2].children.len() >= 1
    &&& t.nodes[2].children[0] == 3
    &&& is_argument(t.nodes[3].value)
}

/// How far the declaration of an open tree has come when `k` tokens have
/// been read: the keyword alone, the keyword and the name, those and the
/// assignment symbol, or all of it.
pub open spec fn declaring(t: TreeModel, tokens: Seq<Token>, k: int) -> bool {
    ||| t.nodes.len() == 1 && t.at == 0 && k >= 2 && tokens[k - 2] is TypeKeyword
    ||| t.nodes.len() == 2 && t.at == 0 && t.nodes[1].value is TypeName && t.nodes[0].children
        == seq![1int] && k >= 3 && tokens[k - 3] is TypeKeyword
    ||| t.nodes.len() == 3 && t.at == 2 && t.nodes[1].value is TypeName && t.nodes[2].value
        is Assignment && t.nodes[0].children == seq![1int, 2int] && t.nodes[2].children.len() == 0
        && k >= 4 && tokens[k - 4] is TypeKeyword
    ||| complete(t) && (t.value() is Assignment || t.value() is E)
}

/// One for a tree that a type keyword opened, none for another tree or none.
pub open spec fn pending(s: ParserModel) -> nat {
    match s.tree {
        Some(t) => if t.nodes[0].value is TypeKeyword {
            1
        } else {
            0
        },
        None => 0,
    }
}

/// The tokens that have been dispatched when `k` tokens have been read.
pub open spec fn dispatched(tokens: Seq<Token>, k: int) -> Seq<Token> {
    if k > 0 {
        tokens.take(k - 1)
    } else {
        Seq::empty()
    }
}

/// What holds of the state in which `k` tokens of a stream with complete
/// declarations have been read.
pub open spec fn on_track(s: ParserModel, tokens: Seq<Token>, k: int) -> bool {
    &&& tidy(s)
    &&& 0 <= k <= tokens.len()
    &&& s.previous == if k > 0 {
        tokens[k - 1]
    } else {
        Token::Null
    }
    &&& forall|j: int|
        0 <= j < s.output.len() && (#[trigger] s.output[j]) is TypeDeclaration ==> complete(
            s.output[j].tree(),
        )
    &&& keywords(dispatched(tokens, k)) == declarations(s.output) + pending(s)
    &&& match s.tree {
        Some(t) => t.nodes[0].value is TypeKeyword ==> declaring(t, tokens, k),
        None => true,
    }
}

/// One more token counts as one more type keyword where it is one.
proof fn lemma_keywords_push(tokens: Seq<Token>, t: Token)
    ensures
        keywords(tokens.push(t)) == keywords(tokens) + if t is TypeKeyword {
            1nat
        } else {
            0nat
        },
{
    assert(tokens.push(t).drop_last() =~= tokens);
}

/// One more item counts as one more declaration where it is one.
proof fn lemma_declarations_push(irs: Seq<IrModel>, e: IrModel)
    ensures
        declarations(irs.push(e)) == declarations(irs) + if e is TypeDeclaration {
            1nat
        } else {
            0nat
        },
{
    assert(irs.push(e).drop_last() =~= irs);
}

/// Reading a token dispatches the token read before it.
proof fn lemma_dispatched_next(tokens: Seq<Token>, k: int)
    requires
        0 <= k < tokens.len(),
    ensures
        keywords(dispatched(tokens, k + 1)) == keywords(dispatched(tokens, k)) + if k > 0
            && tokens[k - 1] is TypeKeyword {
            1nat
        } else {
            0nat
        },
{
    if k > 0 {
        assert(tokens.take(k) =~= tokens.take(k - 1).push(tokens[k - 1]));
        lemma_keywords_push(tokens.take(k - 1), tokens[k - 1]);
    }
}

/// A tree with one node has no children at its root.
proof fn lemma_lone_root(m: TreeModel)
    requires
        m.wf(),
        m.nodes.len() == 1,
    ensures
        m.nodes[0].children == Seq::<int>::empty(),
{
    if m.nodes[0].children.len() > 0 {
        assert(child_ok(m.nodes, 0, 0));
    }
}

/// The items of a state that emits `e`, counted and complete.
proof fn lemma_emit_on_track(s: ParserModel, e: IrModel)
    requires
        forall|j: int|
            0 <= j < s.output.len() && (#[trigger] s.output[j]) is TypeDeclaration ==> complete(
                s.output[j].tree(),
            ),
        e is TypeDeclaration ==> complete(e.tree()),
    ensures
        declarations(s.emit(e).output) == declarations(s.output) + if e is TypeDeclaration {
            1nat
        } else {
            0nat
        },
        forall|j: int|
            0 <= j < s.emit(e).output.len() && (#[trigger] s.emit(e).output[j])
                is TypeDeclaration ==> complete(s.emit(e).output[j].tree()),
{
    lemma_declarations_push(s.output, e);
    let r = s.emit(e);
    assert forall|j: int|
        0 <= j < r.output.len() && (#[trigger] r.output[j]) is TypeDeclaration implies complete(
        r.output[j].tree(),
    ) by {
    }
}

/// A step from a state without an open tree.
proof fn lemma_step_idle(s: ParserModel, tokens: Seq<Token>, k: int)
    requires
        declarations_complete(tokens),
        on_track(s, tokens, k),
        k < tokens.len(),
        s.tree is None,
    ensures
        match s.step(tokens[k]) {
            Ok(r) => on_track(r, tokens, k + 1),
            Err(e) => true,
        },
{
    lemma_dispatched_next(tokens, k);
}

/// A step from a state whose open tree holds no type keyword.
proof fn lemma_step_expressing(s: ParserModel, tokens: Seq<Token>, k: int)
    requires
        declarations_complete(tokens),
        on_track(s, tokens, k),
        k < tokens.len(),
        s.tree is Some,
        !(s.tree->0.nodes[0].value is TypeKeyword),
    ensures
        match s.step(tokens[k]) {
            Ok(r) => on_track(r, tokens, k + 1),
            Err(e) => true,
        },
{
    let i = tokens[k];
    let t = s.tree->0;
    lemma_step_tidy(s, i);
    lemma_dispatched_next(tokens, k);
    if s.previous is Linebreak {
        let b = ParserModel { last_line_scope: s.line_scope, ..s };
        lemma_emit_on_track(b, IrModel::RawText(t.at_root()));
        lemma_emit_on_track(b, IrModel::TypeExpression(t.at_root()));
    }
}

/// A step from a state whose open tree is a declaration.
proof fn lemma_step_declaring(s: ParserModel, tokens: Seq<Token>, k: int)
    requires
        declarations_complete(tokens),
        on_track(s, tokens, k),
        k < tokens.len(),
        s.tree is Some,
        s.tree->0.nodes[0].value is TypeKeyword,
    ensures
        match s.step(tokens[k]) {
            Ok(r) => on_track(r, tokens, k + 1),
            Err(e) => true,
        },
{
    let i = tokens[k];
    let t = s.tree->0;
    lemma_step_tidy(s, i);
    lemma_dispatched_next(tokens, k);
    match s.step(i) {
        Ok(r) => {
            if t.nodes.len() == 1 {
                lemma_lone_root(t);
            } else if t.nodes.len() == 2 {
                assert(r.tree->0.nodes[0].children =~= seq![1int, 2int]);
            } else if t.nodes.len() > 3 && s.previous is Linebreak && t.has_parent() {
                let b = ParserModel { last_line_scope: s.line_scope, ..s };
                let u = t.back_to_parent();
                lemma_emit_on_track(b, IrModel::TypeDeclaration(u));
                if u.has_parent() {
                    lemma_emit_on_track(b, IrModel::TypeDeclaration(u.back_to_parent()));
                }
            }
        },
        Err(e) => {},
    }
}

/// A step keeps the state of a stream with complete declarations on track.
proof fn lemma_step_on_track(s: ParserModel, tokens: Seq<Token>, k: int)
    requires
        declarations_complete(tokens),
        on_track(s, tokens, k),
        k < tokens.len(),
    ensures
        match s.step(tokens[k]) {
            Ok(r) => on_track(r, tokens, k + 1),
            Err(e) => true,
        },
{
    match s.tree {
        None => lemma_step_idle(s, tokens, k),
        Some(t) => if t.nodes[0].value is TypeKeyword {
            lemma_step_declaring(s, tokens, k)
        } else {
            lemma_step_expressing(s, tokens, k)
        },
    }
}

/// The steps from a state on track lead to a state on track.
proof fn lemma_parse_from_on_track(s: ParserModel, tokens: Seq<Token>, k: int)
    requires
        declarations_complete(tokens),
        on_track(s, tokens, k),
    ensures
        match parse_from(s, tokens, k) {
            Ok(r) => on_track(r, tokens, tokens.len() as int),
            Err(e) => true,
        },
    decreases tokens.len() - k,
{
    if k < tokens.len() {
        lemma_step_on_track(s, tokens, k);
        match s.step(tokens[k]) {
            Ok(t) => lemma_parse_from_on_track(t, tokens, k + 1),
            Err(e) => {},
        }
    }
}

/// Declarations are complete. Where every type keyword of a stream is
/// directly followed by a type name, an assignment symbol and an argument,
/// and the stream parses, the type declarations among the items are as many
/// as the type keywords of the stream, and each of them is a tree whose root
/// holds the type keyword and has two children: the type name, and the
/// assignment symbol with the argument as its first child.
pub proof fn lemma_declarations_complete(tokens: Seq<Token>)
    requires
        declarations_complete(tokens),
    ensures
        match parse(tokens) {
            Ok(irs) => {
                &&& declarations(irs) == keywords(tokens)
                &&& forall|j: int|
                    0 <= j < irs.len() && (#[trigger] irs[j]) is TypeDeclaration ==> rooted(irs[j])
                        && complete(irs[j].tree())
            },
            Err(e) => true,
        },
{
    let all = tokens.push(Token::Null);
    assert(declarations_complete(all)) by {
        assert forall|k: int| 0 <= k < all.len() && (#[trigger] all[k]) is TypeKeyword implies k + 3
            < all.len() && all[k + 1] is TypeName && all[k + 2] is Assignment && is_argument(
            all[k + 3],
        ) by {
        }
    }
    let start = ParserModel::start();
    lemma_parse_from_on_track(start, all, 0);
    lemma_items_rooted(tokens);
    match parse_from(start, all, 0) {
        Ok(s) => {
            assert(all.take(all.len() - 1) =~= tokens);
            match s.tree {
                Some(t) => if !(t.nodes[0].value is TypeKeyword) {
                    lemma_emit_on_track(s, IrModel::RawText(t.at_root()));
                    lemma_emit_on_track(s, IrModel::TypeExpression(t.at_root()));
                } else if t.has_parent() {
                    let u = t.back_to_parent();
                    lemma_emit_on_track(s, IrModel::TypeDeclaration(u));
                    if u.has_parent() {
                        lemma_emit_on_track(s, IrModel::TypeDeclaration(u.back_to_parent()));
                    }
                },
                None => {},
            }
        },
        Err(e) => {},
    }
}

/// An indented line hangs under an element. The tab that ends the
/// indentation of a line, read while the tree points at a type instance,
/// adds an element as the last child of the instance and points the tree at
/// it, away from the root; a type instance or prose read while the tree
/// points at an element becomes a child of that element.
pub proof fn lemma_indented_line_attaches(s: ParserModel, i: Token)
    requires
        s.tree is Some,
        s.tree->0.wf(),
    ensures
        s.previous is Tab && !(i is Tab) && s.tree->0.value() is TypeInstance ==> {
            let r = s.step(i);
            &&& r is Ok
            &&& r->Ok_0.tree == Some(s.tree->0.add_and_set(Token::Element))
            &&& r->Ok_0.tree->0.value() is Element
            &&& r->Ok_0.tree->0.here().parent == Some(s.tree->0.at)
            &&& r->Ok_0.tree->0.at != 0
        },
        s.previous is TypeInstance && s.tree->0.value() is Element ==> {
            let r = s.step(i);
            &&& r is Ok
            &&& r->Ok_0.tree == Some(s.tree->0.add_and_set(s.previous))
            &&& r->Ok_0.tree->0.here().parent == Some(s.tree->0.at)
        },
        s.previous is Content && !(i is CodeBlockOpen || i is MathBlockOpen || i is CodeBlockClose
            || i is MathBlockClose) && s.tree->0.value() is Element ==> {
            let r = s.step(i);
            let prose = Token::ContentWithFormatting(s.formatting.push(s.previous));
            &&& r is Ok
            &&& r->Ok_0.tree == Some(s.tree->0.add(prose))
            &&& r->Ok_0.tree->0.nodes.last().value == prose
            &&& r->Ok_0.tree->0.nodes.last().parent == Some(s.tree->0.at)
        },
{
}

/// Whether the tree may point at a node that holds the token.
pub open spec fn is_head(t: Token) -> bool {
    t is TypeKeyword || t is Assignment || t is E || t is TypeInstance || t is Element
        || t is ContentWithFormatting
}

/// Node `i`, which is not the root, fits its parent: an assignment symbol
/// stands under a type keyword, an element argument under an assignment
/// symbol, an element under a type instance, and a type keyword nowhere.
pub open spec fn node_fits(t: TreeModel, i: int) -> bool {
    let v = t.nodes[i].value;
    let p = t.nodes[t.nodes[i].parent->0].value;
    &&& v is Assignment ==> p is TypeKeyword
    &&& v is E ==> p is Assignment
    &&& v is Element ==> p is TypeInstance
    &&& !(v is TypeKeyword)
}

/// The shape of every open tree: the root holds a type keyword, a type
/// instance or prose; the tree points at a node that may take children, at
/// prose only where it is the root, and within a declaration only at the
/// keyword, the assignment symbol or an element argument; and every node
/// fits its parent.
pub open spec fn shaped(t: TreeModel) -> bool {
    &&& t.wf()
    &&& is_head(t.value())
    &&& t.value() is ContentWithFormatting ==> t.at == 0
    &&& t.nodes[0].value is TypeKeyword || t.nodes[0].value is TypeInstance
        || t.nodes[0].value is ContentWithFormatting
    &&& t.nodes[0].value is TypeKeyword ==> t.value() is TypeKeyword || t.value() is Assignment
        || t.value() is E
    &&& forall|i: int| 0 < i < t.nodes.len() ==> #[trigger] node_fits(t, i)
}

/// The errors that no stream of tokens brings about.
pub open spec fn never_comes(kind: ParseErrorKind) -> bool {
    kind == ParseErrorKind::InvalidRoot || kind == ParseErrorKind::AssignmentNotUnderType || kind
        == ParseErrorKind::ElementNotUnderType || kind == ParseErrorKind::InstanceMisplaced
}

/// Whether a step went well: it left a shaped tree, or failed with an error
/// that does come.
pub open spec fn well(r: Result<ParserModel, ParseIssue>) -> bool {
    match r {
        Ok(s) => s.tree is Some ==> shaped(s.tree->0),
        Err(e) => !never_comes(e.kind),
    }
}

/// What adding a node does to the nodes of a tree.
proof fn lemma_add_nodes(m: TreeModel, t: Token)
    requires
        m.wf(),
    ensures
        m.add(t).nodes.len() == m.nodes.len() + 1,
        m.add(t).nodes[m.nodes.len() as int] == (NodeModel {
            value: t,
            children: Seq::empty(),
            parent: Some(m.at),
        }),
        forall|i: int|
            0 <= i < m.nodes.len() ==> (#[trigger] m.add(t).nodes[i]).value == m.nodes[i].value
                && m.add(t).nodes[i].parent == m.nodes[i].parent,
{
}

/// A node added under a node that takes it keeps the tree shaped, whether
/// the tree then points at the new node or not.
proof fn lemma_add_shaped(m: TreeModel, t: Token, descend: bool)
    requires
        shaped(m),
        !(t is TypeKeyword),
        t is Assignment ==> m.value() is TypeKeyword,
        t is E ==> m.value() is Assignment,
        t is Element ==> m.value() is TypeInstance,
        descend ==> is_head(t) && !(t is ContentWithFormatting),
        descend && m.nodes[0].value is TypeKeyword ==> t is Assignment || t is E,
    ensures
        shaped(
            if descend {
                m.add_and_set(t)
            } else {
                m.add(t)
            },
        ),
{
    lemma_add_wf(m, t);
    lemma_add_nodes(m, t);
    let r = if descend {
        m.add_and_set(t)
    } else {
        m.add(t)
    };
    assert(r.nodes == m.add(t).nodes);
    assert forall|i: int| 0 < i < r.nodes.len() implies #[trigger] node_fits(r, i) by {
        if i < m.nodes.len() {
            assert(node_fits(m, i));
            assert(parent_ok(m.nodes, i));
        }
    }
}

/// Stepping up from an element keeps the tree shaped.
proof fn lemma_up_shaped(m: TreeModel)
    requires
        shaped(m),
        m.value() is Element,
    ensures
        shaped(ParserModel::step_up(m)),
{
    if m.has_parent() {
        assert(parent_ok(m.nodes, m.at));
        assert(node_fits(m, m.at));
        let r = m.back_to_parent();
        assert forall|i: int| 0 < i < r.nodes.len() implies #[trigger] node_fits(r, i) by {
            assert(node_fits(m, i));
        }
    }
}

/// A tree of one node that holds a type keyword, a type instance or prose
/// is shaped.
proof fn lemma_single_shaped(t: Token)
    requires
        t is TypeKeyword || t is TypeInstance || t is ContentWithFormatting,
    ensures
        shaped(TreeModel::single(t)),
{
    assert(parent_ok(TreeModel::single(t).nodes, 0));
}

/// Closing a shaped tree fails with no error that never comes.
proof fn lemma_close_well(s: ParserModel, t: TreeModel, line: nat, culprit: Token)
    requires
        shaped(t),
    ensures
        t.value() is ContentWithFormatting || t.value() is TypeInstance || t.value() is Element
            ==> s.close_expression(t, line, culprit) is Ok,
        t.value() is Assignment ==> s.close_assignment(t, line, culprit) is Ok,
        t.value() is E ==> s.close_element(t, line, culprit) is Ok,
{
    assert(parent_ok(t.nodes, t.at));
    if t.value() is Assignment {
        assert(node_fits(t, t.at));
    }
    if t.value() is E {
        assert(node_fits(t, t.at));
        let p = t.nodes[t.at].parent->0;
        assert(parent_ok(t.nodes, p));
        assert(node_fits(t, p));
    }
}

/// A step from a state with a shaped tree goes well.
proof fn lemma_step_well(s: ParserModel, i: Token)
    requires
        s.tree is Some ==> shaped(s.tree->0),
    ensures
        well(s.step(i)),
{
    match s.tree {
        Some(t) => {
            let b = ParserModel { last_line_scope: s.line_scope, ..s };
            lemma_close_well(b, t, b.line, i);
            lemma_close_well(b, t, b.line + 1, i);
            if t.value() is Element {
                lemma_up_shaped(t);
            }
            if s.previous is Tab && !(i is Tab) && t.value() is TypeInstance {
                lemma_add_shaped(t, Token::Element, true);
            }
            if takes(t.value(), s.previous) {
                lemma_add_shaped(t, s.previous, s.previous is Assignment || s.previous is E);
            }
            if s.previous is TypeInstance && (t.value() is Element || t.value()
                is ContentWithFormatting) {
                lemma_add_shaped(t, s.previous, true);
            }
            lemma_add_shaped(
                t,
                Token::ContentWithFormatting(s.stage(s.previous).formatting),
                false,
            );
            lemma_add_shaped(t, Token::ContentWithFormatting(s.formatting), false);
        },
        None => {
            lemma_single_shaped(Token::TypeKeyword);
            if s.previous is TypeInstance {
                lemma_single_shaped(s.previous);
            }
            lemma_single_shaped(Token::ContentWithFormatting(s.stage(s.previous).formatting));
            lemma_single_shaped(Token::ContentWithFormatting(s.formatting));
        },
    }
}

/// The steps from a state with a shaped tree go well.
proof fn lemma_parse_from_well(s: ParserModel, tokens: Seq<Token>, k: int)
    requires
        s.tree is Some ==> shaped(s.tree->0),
    ensures
        well(parse_from(s, tokens, k)),
    decreases tokens.len() - k,
{
    if 0 <= k < tokens.len() {
        lemma_step_well(s, tokens[k]);
        match s.step(tokens[k]) {
            Ok(t) => lemma_parse_from_well(t, tokens, k + 1),
            Err(e) => {},
        }
    }
}

/// Four errors never come. Whatever the stream, the parser does not find a
/// tree to close with a root that is neither prose nor a type instance, an
/// assignment symbol that is not the child of a type keyword, an element
/// argument without a type keyword two nodes above it, or a type instance
/// under a node that cannot be pointed at.
pub proof fn lemma_errors_that_never_come(tokens: Seq<Token>)
    ensures
        match parse(tokens) {
            Ok(irs) => true,
            Err(e) => !never_comes(e.kind),
        },
{
    let start = ParserModel::start();
    lemma_parse_from_well(start, tokens.push(Token::Null), 0);
    match parse_from(start, tokens.push(Token::Null), 0) {
        Ok(s) => {
            match s.tree {
                Some(t) => lemma_close_well(s, t, s.line, Token::Null),
                None => {},
            }
        },
        Err(e) => {},
    }
}

/// The state in which `k` tokens of a stream have been read, the `Null`
/// token after the last one counted.
pub open spec fn state_after(tokens: Seq<Token>, k: int) -> Result<ParserModel, ParseIssue> {
    parse_from(ParserModel::start(), tokens.push(Token::Null).take(k), 0)
}

/// The tree `v` holds the nodes of `u`, each with its token and its parent.
pub open spec fn kept(u: TreeModel, v: TreeModel) -> bool {
    &&& u.nodes.len() <= v.nodes.len()
    &&& forall|i: int|
        0 <= i < u.nodes.len() ==> (#[trigger] v.nodes[i]).value == u.nodes[i].value
            && v.nodes[i].parent == u.nodes[i].parent
}

/// The parent of node `i` is node `n` or was made after it.
pub open spec fn above(nodes: Seq<NodeModel>, i: int, n: int) -> bool {
    match nodes[i].parent {
        Some(p) => n <= p < i,
        None => false,
    }
}

/// Node `i` hangs under node `n`: its parent is `n`, or hangs under `n`.
pub open spec fn hangs_under(nodes: Seq<NodeModel>, i: int, n: int) -> bool
    decreases i,
{
    match nodes[i].parent {
        Some(p) => 0 <= n <= p < i && (p == n || hangs_under(nodes, p, n)),
        None => false,
    }
}

/// The tree `u` has grown from `t` by an element under the node that `t`
/// points at, and by nodes under that element alone; it points at the
/// element or below it.
pub open spec fn hanging(u: TreeModel, t: TreeModel) -> bool {
    let n = t.nodes.len() as int;
    &&& u.wf()
    &&& kept(t, u)
    &&& u.nodes.len() > n
    &&& u.nodes[n].value is Element
    &&& u.nodes[n].parent == Some(t.at)
    &&& u.at >= n
    &&& forall|i: int| n < i < u.nodes.len() ==> #[trigger] above(u.nodes, i, n)
}

/// The state `q` follows `s` within a line: no item has left, and the open
/// tree hangs its new nodes under an element.
pub open spec fn in_line(q: ParserModel, s: ParserModel) -> bool {
    &&& q.output == s.output
    &&& q.tree is Some
    &&& hanging(q.tree->0, s.tree->0)
}

/// The tree `u` is carried on: it is open and has only grown, or it has left
/// as the item at place `c`.
pub open spec fn carried(q: ParserModel, u: TreeModel, c: int) -> bool {
    if q.output.len() == c {
        q.tree is Some && q.tree->0.wf() && kept(u, q.tree->0)
    } else {
        0 <= c < q.output.len() && kept(u, q.output[c].tree())
    }
}

/// Reading a stream up to a place and then from it is reading it.
proof fn lemma_parse_split(s: ParserModel, tokens: Seq<Token>, j: int, k: int)
    requires
        0 <= j <= k <= tokens.len(),
    ensures
        parse_from(s, tokens, j) == match parse_from(s, tokens.take(k), j) {
            Ok(q) => parse_from(q, tokens, k),
            Err(e) => Err(e),
        },
    decreases k - j,
{
    if j < k {
        assert(tokens.take(k)[j] == tokens[j]);
        match s.step(tokens[j]) {
            Ok(t) => lemma_parse_split(t, tokens, j + 1, k),
            Err(e) => {},
        }
    }
}

/// The token read last is the last token of what was read.
proof fn lemma_previous(s: ParserModel, tokens: Seq<Token>, j: int)
    requires
        0 <= j < tokens.len(),
    ensures
        match parse_from(s, tokens, j) {
            Ok(q) => q.previous == tokens.last(),
            Err(e) => true,
        },
    decreases tokens.len() - j,
{
    match s.step(tokens[j]) {
        Ok(t) => if j + 1 < tokens.len() {
            lemma_previous(t, tokens, j + 1);
        },
        Err(e) => {},
    }
}

/// A node whose ancestors up to node `n` were all made after `n` hangs
/// under `n`.
proof fn lemma_hangs(nodes: Seq<NodeModel>, i: int, n: int)
    requires
        0 <= n < i < nodes.len(),
        forall|j: int| n < j <= i ==> #[trigger] above(nodes, j, n),
    ensures
        hangs_under(nodes, i, n),
    decreases i,
{
    assert(above(nodes, i, n));
    let p = nodes[i].parent->0;
    if p != n {
        lemma_hangs(nodes, p, n);
    }
}

/// A node added where the tree points keeps it hanging.
proof fn lemma_add_hanging(u: TreeModel, t: TreeModel, token: Token)
    requires
        hanging(u, t),
    ensures
        hanging(u.add(token), t),
        hanging(u.add_and_set(token), t),
{
    lemma_add_wf(u, token);
    lemma_add_nodes(u, token);
    let r = u.add(token);
    let n = t.nodes.len() as int;
    assert(u.add_and_set(token).nodes == r.nodes);
    assert forall|i: int| n < i < r.nodes.len() implies #[trigger] above(r.nodes, i, n) by {
        if i < u.nodes.len() {
            assert(above(u.nodes, i, n));
        }
    }
    assert(kept(t, r)) by {
        assert forall|i: int| 0 <= i < t.nodes.len() implies (#[trigger] r.nodes[i]).value
            == t.nodes[i].value && r.nodes[i].parent == t.nodes[i].parent by {
            assert(u.nodes[i].value == t.nodes[i].value);
        }
    }
}

/// A step that dispatches no line break keeps the state within the line.
proof fn lemma_step_in_line(q: ParserModel, s: ParserModel, i: Token)
    requires
        in_line(q, s),
        !(q.previous is Linebreak),
    ensures
        match q.step(i) {
            Ok(r) => in_line(r, s),
            Err(e) => true,
        },
{
    let u = q.tree->0;
    let t = s.tree->0;
    lemma_add_hanging(u, t, Token::Element);
    lemma_add_hanging(u, t, q.previous);
    lemma_add_hanging(u, t, Token::ContentWithFormatting(q.stage(q.previous).formatting));
    lemma_add_hanging(u, t, Token::ContentWithFormatting(q.formatting));
}

/// The steps of a line keep the state within the line.
proof fn lemma_parse_in_line(q: ParserModel, s: ParserModel, tokens: Seq<Token>, j: int)
    requires
        0 <= j <= tokens.len(),
        in_line(q, s),
        j < tokens.len() ==> !(q.previous is Linebreak),
        forall|i: int| j <= i < tokens.len() - 1 ==> !((#[trigger] tokens[i]) is Linebreak),
    ensures
        match parse_from(q, tokens, j) {
            Ok(r) => in_line(r, s),
            Err(e) => true,
        },
    decreases tokens.len() - j,
{
    if j < tokens.len() {
        lemma_step_in_line(q, s, tokens[j]);
        lemma_step_counters(q, tokens[j]);
        match q.step(tokens[j]) {
            Ok(r) => if j + 1 < tokens.len() {
                assert(!(tokens[j] is Linebreak));
                lemma_parse_in_line(r, s, tokens, j + 1);
            },
            Err(e) => {},
        }
    }
}

/// A step carries the tree on.
proof fn lemma_step_carried(q: ParserModel, u: TreeModel, c: int, i: Token)
    requires
        carried(q, u, c),
        tidy(q),
    ensures
        match q.step(i) {
            Ok(r) => carried(r, u, c),
            Err(e) => true,
        },
{
    match q.step(i) {
        Ok(r) => {
            if q.output.len() == c {
                let v = q.tree->0;
                lemma_add_nodes(v, Token::Element);
                lemma_add_nodes(v, q.previous);
                lemma_add_nodes(v, Token::ContentWithFormatting(q.stage(q.previous).formatting));
                lemma_add_nodes(v, Token::ContentWithFormatting(q.formatting));
                lemma_add_wf(v, Token::Element);
                lemma_add_wf(v, q.previous);
                lemma_add_wf(v, Token::ContentWithFormatting(q.stage(q.previous).formatting));
                lemma_add_wf(v, Token::ContentWithFormatting(q.formatting));
                lemma_step_tidy(q, i);
                if r.output.len() != c {
                    assert(r.output.len() == c + 1);
                    assert(r.output[c].tree().nodes == v.nodes);
                }
            } else {
                assert(r.output.len() >= q.output.len());
                assert(r.output[c] == q.output[c]);
            }
        },
        Err(e) => {},
    }
}

/// The steps to the end of a stream carry the tree on.
proof fn lemma_parse_carried(q: ParserModel, u: TreeModel, c: int, tokens: Seq<Token>, j: int)
    requires
        carried(q, u, c),
        tidy(q),
    ensures
        match parse_from(q, tokens, j) {
            Ok(r) => carried(r, u, c) && tidy(r),
            Err(e) => true,
        },
    decreases tokens.len() - j,
{
    if 0 <= j < tokens.len() {
        lemma_step_carried(q, u, c, tokens[j]);
        lemma_step_tidy(q, tokens[j]);
        match q.step(tokens[j]) {
            Ok(r) => lemma_parse_carried(r, u, c, tokens, j + 1),
            Err(e) => {},
        }
    }
}

/// An indented line hangs under an element, in the items of the whole
/// stream. Let the tab read last when `k` tokens have been read end the
/// indentation of a line, with the open tree pointing at a type instance,
/// and let no line break stand among the tokens from there up to the last
/// but one of the first `m`. Where the stream parses, the tree that is open
/// when `m` tokens have been read is part of the item that leaves next; in
/// that item an element is a child of the instance, and every node that the
/// line has added hangs under that element: none is a child of the instance
/// or stands in another item.
pub proof fn lemma_indented_line_hangs(tokens: Seq<Token>, k: int, m: int)
    requires
        0 < k < m <= tokens.len() + 1,
        tokens.push(Token::Null)[k - 1] is Tab,
        !(tokens.push(Token::Null)[k] is Tab),
        forall|j: int| k <= j < m - 1 ==> !((#[trigger] tokens.push(Token::Null)[j]) is Linebreak),
        state_after(tokens, k) is Ok,
        state_after(tokens, k)->Ok_0.tree is Some,
        state_after(tokens, k)->Ok_0.tree->0.value() is TypeInstance,
        parse(tokens) is Ok,
    ensures
        state_after(tokens, m) is Ok,
        state_after(tokens, m)->Ok_0.tree is Some,
        ({
            let s = state_after(tokens, k)->Ok_0;
            let t = s.tree->0;
            let u = state_after(tokens, m)->Ok_0.tree->0;
            let n = t.nodes.len() as int;
            let c = s.output.len() as int;
            let items = parse(tokens)->Ok_0;
            &&& n < u.nodes.len()
            &&& c < items.len()
            &&& kept(u, items[c].tree())
            &&& items[c].tree().nodes[t.at].value == t.value()
            &&& items[c].tree().nodes[n].value is Element
            &&& items[c].tree().nodes[n].parent == Some(t.at)
            &&& forall|i: int|
                n < i < u.nodes.len() ==> #[trigger] hangs_under(items[c].tree().nodes, i, n)
        }),
{
    let all = tokens.push(Token::Null);
    let start = ParserModel::start();
    let s = state_after(tokens, k)->Ok_0;
    let t = s.tree->0;
    let n = t.nodes.len() as int;
    let c = s.output.len() as int;
    let line = all.take(m);
    assert(line.take(k) =~= all.take(k));
    lemma_parse_split(start, all, 0, k);
    lemma_parse_split(s, all, k, m);
    lemma_parse_split(start, line, 0, k);
    assert(state_after(tokens, m) == parse_from(s, line, k));
    // The state after `k` tokens is tidy and has read the tab last.
    lemma_parse_from_tidy(start, all.take(k), 0);
    lemma_previous(start, all.take(k), 0);
    assert(s.previous is Tab);
    // The tab opens the element; the rest of the line stays under it.
    assert(line[k] == all[k]);
    lemma_add_wf(t, Token::Element);
    lemma_add_nodes(t, Token::Element);
    lemma_step_counters(s, line[k]);
    let q = s.step(line[k])->Ok_0;
    assert(q.tree == Some(t.add_and_set(Token::Element)));
    assert(in_line(q, s));
    assert forall|i: int| k + 1 <= i < line.len() - 1 implies !((#[trigger] line[i])
        is Linebreak) by {
        assert(line[i] == all[i]);
    }
    if k + 1 < m {
        assert(!(all[k] is Linebreak));
    }
    lemma_parse_in_line(q, s, line, k + 1);
    let r = state_after(tokens, m)->Ok_0;
    let u = r.tree->0;
    // The tree is carried on to the items.
    lemma_step_tidy(s, line[k]);
    lemma_parse_from_tidy(q, line, k + 1);
    lemma_parse_carried(r, u, c, all, m);
    let end = parse_from(r, all, m)->Ok_0;
    lemma_step_tidy(end, Token::Null);
    let items = parse(tokens)->Ok_0;
    if end.output.len() == c {
        let v = end.tree->0;
        assert(items.len() == c + 1);
        assert(items[c].tree().nodes == v.nodes);
    } else {
        assert(items.len() >= end.output.len());
        assert(items[c] == end.output[c]);
    }
    let w = items[c].tree();
    assert forall|i: int| n < i < u.nodes.len() implies #[trigger] hangs_under(w.nodes, i, n) by {
        assert forall|j: int| n < j <= i implies #[trigger] above(w.nodes, j, n) by {
            assert(above(u.nodes, j, n));
            assert(w.nodes[j].parent == u.nodes[j].parent);
        }
        lemma_hangs(w.nodes, i, n);
    }
    assert(w.nodes[t.at].value == u.nodes[t.at].value);
    assert(w.nodes[n].value == u.nodes[n].value);
}

} // verus!
