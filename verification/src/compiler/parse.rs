//! Parsing tokens into a syntax tree.

use std::collections::VecDeque;

use vstd::prelude::*;

use crate::compiler::location::{BranchIndex, FragmentIndexInBranchBody};
use crate::compiler::syntax::{
    branch_tokens, branches_tokens, branches_wf, function_tokens, function_wf,
    lemma_branches_tokens_at, lemma_branches_wf_at, lemma_members_tokens_at, lemma_members_wf_at,
    lemma_named_functions_tokens_at, member_tokens, members_tokens, members_wf,
    named_functions_tokens, parses, pattern_token, patterns_tokens, same_branch, same_branches,
    same_function, same_functions, same_member, same_members, tree_of, tree_tokens, tree_wf, Branch,
    Expression, Function, Pattern, SyntaxTree,
};
use vstd::pervasive::arbitrary;
use crate::compiler::tokens::{token_view, tokens_view, Token, TokenView};

verus! {

/// What kind of token comes next
#[derive(Clone, Copy, PartialEq, Eq, Structural)]
enum Next {
    Nothing,
    Comment,
    Identifier,
    FunctionName,
    IntegerLiteral,
    KeywordFn,
    KeywordEnd,
    BranchStart,
    BranchBodyStart,
}

/// The kind of the first of the tokens
spec fn next_of(tokens: Seq<TokenView>) -> Next {
    if tokens.len() == 0 {
        Next::Nothing
    } else {
        match tokens[0] {
            TokenView::Comment { .. } => Next::Comment,
            TokenView::Identifier { .. } => Next::Identifier,
            TokenView::FunctionName { .. } => Next::FunctionName,
            TokenView::IntegerLiteral { .. } => Next::IntegerLiteral,
            TokenView::KeywordFn => Next::KeywordFn,
            TokenView::KeywordEnd => Next::KeywordEnd,
            TokenView::BranchStart => Next::BranchStart,
            TokenView::BranchBodyStart => Next::BranchBodyStart,
        }
    }
}

/// The tokens that are left to parse
struct Parser {
    tokens: VecDeque<Token>,
}

impl Parser {
    spec fn remaining(&self) -> Seq<TokenView> {
        tokens_view(self.tokens@)
    }

    fn peek(&self) -> (result: Next)
        ensures
            result == next_of(self.remaining()),
    {
        if self.tokens.len() == 0 {
            return Next::Nothing;
        }
        match &self.tokens[0] {
            Token::Comment { .. } => Next::Comment,
            Token::Identifier { .. } => Next::Identifier,
            Token::FunctionName { .. } => Next::FunctionName,
            Token::IntegerLiteral { .. } => Next::IntegerLiteral,
            Token::KeywordFn => Next::KeywordFn,
            Token::KeywordEnd => Next::KeywordEnd,
            Token::BranchStart => Next::BranchStart,
            Token::BranchBodyStart => Next::BranchBodyStart,
        }
    }

    fn take(&mut self) -> (result: Token)
        requires
            old(self).remaining().len() > 0,
        ensures
            token_view(result) == old(self).remaining()[0],
            final(self).remaining() == old(self).remaining().drop_first(),
    {
        let ghost before = self.tokens@;
        match self.tokens.pop_front() {
            Some(token) => {
                assert(self.remaining() =~= tokens_view(before).drop_first());
                token
            },
            None => {
                assert(false);
                Token::KeywordEnd
            },
        }
    }

    /// Parse a function: `fn`, its branches, and `end`
    ///
    /// Where the tokens begin with those of a well-formed function `expected`,
    /// followed by `rest`, this succeeds and leaves `rest`.
    fn parse_function(
        &mut self,
        name: Option<String>,
        Ghost(expected): Ghost<Function>,
        Ghost(rest): Ghost<Seq<TokenView>>,
    ) -> (result: Option<Function>)
        ensures
            match result {
                Some(function) => {
                    &&& old(self).remaining() == function_tokens(function) + final(self).remaining()
                    &&& function_wf(function, name is Some)
                    &&& function.name == name
                },
                None => true,
            },
            function_wf(expected, name is Some) && (name is Some ==> name->0@
                == expected.name->0@) && old(self).remaining() == function_tokens(expected) + rest
                ==> result is Some && final(self).remaining() == rest && same_function(
                result->0,
                expected,
            ),
        decreases old(self).remaining().len(), 1int,
    {
        let ghost ok = function_wf(expected, name is Some) && (name is Some ==> name->0@
            == expected.name->0@) && old(self).remaining() == function_tokens(expected) + rest;
        let ghost wanted = expected.branches@;
        proof {
            if ok {
                assert(wanted.skip(0) =~= wanted);
            }
            assert(wanted.take(0) =~= Seq::<(BranchIndex, Branch)>::empty());
        }
        if self.peek() != Next::KeywordFn {
            return None;
        }
        let _ = self.take();
        let ghost start = old(self).remaining();
        let mut function = Function { name, branches: Vec::new() };
        assert(branches_tokens(function.branches@) =~= Seq::<TokenView>::empty());
        loop
            invariant
                start == old(self).remaining(),
                start == seq![TokenView::KeywordFn] + branches_tokens(function.branches@)
                    + self.remaining(),
                branches_wf(function.branches@),
                function.name == name,
                self.remaining().len() < start.len(),
                ok == (function_wf(expected, name is Some) && (name is Some ==> name->0@
                    == expected.name->0@) && start == function_tokens(expected) + rest),
                wanted == expected.branches@,
                ok ==> function.branches@.len() <= wanted.len() && self.remaining()
                    == branches_tokens(wanted.skip(function.branches@.len() as int)) + seq![
                    TokenView::KeywordEnd,
                ] + rest,
                ok ==> same_branches(
                    function.branches@,
                    wanted.take(function.branches@.len() as int),
                ),
            decreases self.remaining().len(),
        {
            let ghost k = function.branches@.len() as int;
            proof {
                if ok && k == wanted.len() {
                    assert(wanted.skip(k) =~= Seq::<(BranchIndex, Branch)>::empty());
                    assert(self.remaining() =~= seq![TokenView::KeywordEnd] + rest);
                }
                if ok && k < wanted.len() {
                    lemma_branches_tokens_at(wanted, k);
                    lemma_branches_wf_at(wanted, k);
                    assert(self.remaining() =~= branch_tokens(wanted[k].1) + (branches_tokens(
                        wanted.skip(k + 1),
                    ) + seq![TokenView::KeywordEnd] + rest));
                }
            }
            match self.peek() {
                Next::BranchStart => {
                    if function.branches.len() >= 4294967295 {
                        return None;
                    }
                    let ghost before = function.branches@;
                    let ghost at = self.remaining();
                    let ghost next_rest = branches_tokens(wanted.skip(k + 1)) + seq![
                        TokenView::KeywordEnd,
                    ] + rest;
                    proof {
                        if ok {
                            if k + 1 < wanted.len() {
                                lemma_branches_tokens_at(wanted, k + 1);
                                assert(next_rest[0] == TokenView::BranchStart);
                            } else {
                                assert(wanted.skip(k + 1) =~= Seq::<(BranchIndex, Branch)>::empty());
                                assert(next_rest[0] == TokenView::KeywordEnd);
                            }
                        }
                    }
                    let branch = match self.parse_branch(
                        Ghost(wanted[k].1),
                        Ghost(next_rest),
                    ) {
                        Some(branch) => branch,
                        None => return None,
                    };
                    proof {
                        let indices = crate::compiler::syntax::branch_indices(before);
                        assert forall|i: int| 0 <= i < indices.len() implies indices[i] == i + 1 by {
                            lemma_branches_wf_at(before, i);
                        }
                        crate::compiler::syntax::lemma_largest_of_numbered(indices);
                    }
                    function.add_branch(branch);
                    proof {
                        let after = function.branches@;
                        assert(after.subrange(0, after.len() - 1) =~= before);
                        assert(branches_tokens(after) == branches_tokens(before) + branch_tokens(
                            branch,
                        ));
                        assert(start =~= seq![TokenView::KeywordFn] + branches_tokens(after)
                            + self.remaining());
                        if ok {
                            let taken = wanted.take(k + 1);
                            assert(taken.subrange(0, k) =~= wanted.take(k));
                            assert(taken.last() == wanted[k]);
                            assert(after.last().0 == taken.last().0);
                            assert(same_branches(after, taken));
                        }
                    }
                },
                Next::KeywordEnd => {
                    let _ = self.take();
                    proof {
                        assert(start =~= function_tokens(function) + self.remaining());
                        if ok {
                            assert(wanted.take(k) =~= wanted);
                        }
                    }
                    return Some(function);
                },
                _ => return None,
            }
        }
    }

    /// Parse a branch: `\`, its parameters, `->`, and its body
    ///
    /// Where the tokens begin with those of a branch `expected` with
    /// well-formed members, followed by `rest`, which starts as no member
    /// does, this succeeds and leaves `rest`.
    fn parse_branch(&mut self, Ghost(expected): Ghost<Branch>, Ghost(rest): Ghost<Seq<TokenView>>) -> (result: Option<Branch>)
        ensures
            match result {
                Some(branch) => {
                    &&& old(self).remaining() == branch_tokens(branch) + final(self).remaining()
                    &&& members_wf(branch.body@)
                },
                None => true,
            },
            members_wf(expected.body@) && old(self).remaining() == branch_tokens(expected) + rest
                && ends_body(rest) ==> result is Some && final(self).remaining() == rest
                && same_branch(result->0, expected),
        decreases old(self).remaining().len(), 0int,
    {
        let ghost ok = members_wf(expected.body@) && old(self).remaining() == branch_tokens(
            expected,
        ) + rest && ends_body(rest);
        let ghost patterns = expected.parameters@;
        let ghost members = expected.body@;
        if self.peek() != Next::BranchStart {
            return None;
        }
        let _ = self.take();
        let ghost start = old(self).remaining();
        let mut parameters: Vec<Pattern> = Vec::new();
        assert(patterns_tokens(parameters@) =~= Seq::<TokenView>::empty());
        proof {
            if ok {
                assert(patterns.skip(0) =~= patterns);
                assert(self.remaining() =~= patterns_tokens(patterns.skip(0)) + seq![
                    TokenView::BranchBodyStart,
                ] + members_tokens(members) + rest);
            }
            assert(patterns_tokens(patterns.take(0)) =~= Seq::<TokenView>::empty());
        }
        loop
            invariant_except_break
                start == seq![TokenView::BranchStart] + patterns_tokens(parameters@)
                    + self.remaining(),
                ok ==> parameters@.len() <= patterns.len() && self.remaining() == patterns_tokens(
                    patterns.skip(parameters@.len() as int),
                ) + seq![TokenView::BranchBodyStart] + members_tokens(members) + rest,
            invariant
                start == old(self).remaining(),
                self.remaining().len() < start.len(),
                ok == (members_wf(expected.body@) && start == branch_tokens(expected) + rest
                    && ends_body(rest)),
                patterns == expected.parameters@,
                members == expected.body@,
                ok ==> parameters@.len() <= patterns.len() && patterns_tokens(parameters@)
                    == patterns_tokens(patterns.take(parameters@.len() as int)),
            ensures
                start == seq![TokenView::BranchStart] + patterns_tokens(parameters@) + seq![
                    TokenView::BranchBodyStart,
                ] + self.remaining(),
                ok ==> self.remaining() == members_tokens(members) + rest,
                ok ==> patterns_tokens(parameters@) == patterns_tokens(patterns),
            decreases self.remaining().len(),
        {
            let ghost before = parameters@;
            let ghost k = before.len() as int;
            proof {
                if ok {
                    if k < patterns.len() {
                        assert(patterns_tokens(patterns.skip(k)) =~= seq![pattern_token(patterns[k])]
                            + patterns_tokens(patterns.skip(k + 1)));
                        assert(self.remaining()[0] == pattern_token(patterns[k]));
                    } else {
                        assert(patterns_tokens(patterns.skip(k)) =~= Seq::<TokenView>::empty());
                        assert(self.remaining() =~= seq![TokenView::BranchBodyStart]
                            + members_tokens(members) + rest);
                    }
                }
            }
            match self.peek() {
                Next::Identifier => {
                    let token = self.take();
                    match token {
                        Token::Identifier { name } => parameters.push(Pattern::Identifier { name }),
                        _ => {
                            assert(false);
                        },
                    }
                },
                Next::IntegerLiteral => {
                    let token = self.take();
                    match token {
                        Token::IntegerLiteral { value } => parameters.push(
                            Pattern::Literal { value },
                        ),
                        _ => {
                            assert(false);
                        },
                    }
                },
                Next::BranchBodyStart => {
                    let ghost at = self.remaining();
                    let _ = self.take();
                    assert(at =~= seq![TokenView::BranchBodyStart] + self.remaining());
                    assert(start =~= seq![TokenView::BranchStart] + patterns_tokens(parameters@)
                        + seq![TokenView::BranchBodyStart] + self.remaining());
                    proof {
                        if ok {
                            assert(self.remaining() =~= members_tokens(members) + rest);
                            assert(patterns.take(k) =~= patterns);
                        }
                    }
                    break ;
                },
                _ => return None,
            }
            assert(patterns_tokens(parameters@) =~= patterns_tokens(before).push(
                pattern_token(parameters@.last()),
            ));
            assert(start =~= seq![TokenView::BranchStart] + patterns_tokens(parameters@)
                + self.remaining());
            proof {
                if ok {
                    assert(pattern_token(parameters@.last()) == pattern_token(patterns[k]));
                    assert(patterns_tokens(patterns.take(k + 1)) =~= patterns_tokens(
                        patterns.take(k),
                    ).push(pattern_token(patterns[k])));
                }
            }
        }
        let mut branch = Branch { parameters, body: Vec::new() };
        assert(members_tokens(branch.body@) =~= Seq::<TokenView>::empty());
        assert(start =~= seq![TokenView::BranchStart] + patterns_tokens(branch.parameters@) + seq![
            TokenView::BranchBodyStart,
        ] + members_tokens(branch.body@) + self.remaining());
        proof {
            if ok {
                assert(members.skip(0) =~= members);
            }
            assert(members.take(0) =~= Seq::<(FragmentIndexInBranchBody, Expression)>::empty());
        }
        loop
            invariant
                start == old(self).remaining(),
                start == seq![TokenView::BranchStart] + patterns_tokens(branch.parameters@) + seq![
                    TokenView::BranchBodyStart,
                ] + members_tokens(branch.body@) + self.remaining(),
                members_wf(branch.body@),
                self.remaining().len() < start.len(),
                ok == (members_wf(expected.body@) && start == branch_tokens(expected) + rest
                    && ends_body(rest)),
                members == expected.body@,
                ok ==> branch.body@.len() <= members.len() && self.remaining() == members_tokens(
                    members.skip(branch.body@.len() as int),
                ) + rest,
                ok ==> patterns_tokens(branch.parameters@) == patterns_tokens(expected.parameters@),
                ok ==> same_members(branch.body@, members.take(branch.body@.len() as int)),
            decreases self.remaining().len(),
        {
            let ghost before = branch.body@;
            let ghost j = before.len() as int;
            proof {
                let indices = crate::compiler::syntax::fragment_indices(before);
                assert forall|i: int| 0 <= i < indices.len() implies indices[i] == i + 1 by {
                    lemma_members_wf_at(before, i);
                }
                crate::compiler::syntax::lemma_largest_of_numbered(indices);
                if ok && j == members.len() {
                    assert(members.skip(j) =~= Seq::<(FragmentIndexInBranchBody, Expression)>::empty());
                    assert(self.remaining() =~= rest);
                }
                if ok && j < members.len() {
                    lemma_members_tokens_at(members, j);
                    lemma_members_wf_at(members, j);
                    assert(self.remaining() =~= member_tokens(members[j].1) + (members_tokens(
                        members.skip(j + 1),
                    ) + rest));
                    match members[j].1 {
                        Expression::LocalFunction { function } => {
                            assert(function_tokens(function)[0] == TokenView::KeywordFn);
                        },
                        _ => {},
                    }
                }
            }
            let next = self.peek();
            match next {
                Next::Nothing | Next::BranchStart | Next::KeywordEnd => {
                    assert(start =~= branch_tokens(branch) + self.remaining());
                    proof {
                        if ok {
                            assert(members.take(j) =~= members);
                        }
                    }
                    return Some(branch);
                },
                _ => {},
            }
            if branch.body.len() >= 4294967295 {
                return None;
            }
            let ghost member_rest = members_tokens(members.skip(j + 1)) + rest;
            let ghost local = match members[j].1 {
                Expression::LocalFunction { function } => function,
                _ => arbitrary(),
            };
            let ghost first = self.remaining()[0];
            let member = match next {
                Next::Comment => match self.take() {
                    Token::Comment { text } => Expression::Comment { text },
                    _ => {
                        assert(false);
                        return None;
                    },
                },
                Next::Identifier => match self.take() {
                    Token::Identifier { name } => Expression::Identifier { name },
                    _ => {
                        assert(false);
                        return None;
                    },
                },
                Next::IntegerLiteral => match self.take() {
                    Token::IntegerLiteral { value } => Expression::LiteralNumber { value },
                    _ => {
                        assert(false);
                        return None;
                    },
                },
                Next::KeywordFn => match self.parse_function(None, Ghost(local), Ghost(member_rest)) {
                    Some(function) => Expression::LocalFunction { function },
                    None => return None,
                },
                _ => return None,
            };
            branch.add_fragment(member);
            proof {
                let after = branch.body@;
                assert(after.subrange(0, after.len() - 1) =~= before);
                assert(members_tokens(after) == members_tokens(before) + member_tokens(member));
                assert(start =~= seq![TokenView::BranchStart] + patterns_tokens(branch.parameters@)
                    + seq![TokenView::BranchBodyStart] + members_tokens(after) + self.remaining());
                if ok {
                    assert(self.remaining() =~= member_rest);
                    let taken = members.take(j + 1);
                    assert(taken.subrange(0, j) =~= members.take(j));
                    assert(taken.last() == members[j]);
                    assert(after.last().0 == taken.last().0);
                    assert(same_member(member, members[j].1)) by {
                        match members[j].1 {
                            Expression::Comment { text } => {
                                assert(member_tokens(members[j].1)[0] == first);
                            },
                            Expression::Identifier { name } => {
                                assert(member_tokens(members[j].1)[0] == first);
                            },
                            Expression::LiteralNumber { value } => {
                                assert(member_tokens(members[j].1)[0] == first);
                            },
                            Expression::LocalFunction { function } => {
                                assert(member_tokens(members[j].1)[0] == first);
                            },
                        }
                    }
                    assert(same_members(after, taken));
                }
            }
        }
    }
}

/// Whether the tokens start as no member of a branch body does: they are
/// used up, or a branch or the function ends
spec fn ends_body(tokens: Seq<TokenView>) -> bool {
    let next = next_of(tokens);
    next == Next::Nothing || next == Next::BranchStart || next == Next::KeywordEnd
}

/// # Parse tokens into a syntax tree
///
/// The code is a sequence of named functions: each a name followed by `:`,
/// and the function. It parses exactly where the tokens are those of a
/// well-formed syntax tree, and the tree it gives has those tokens: it is,
/// up to the identity of its strings, the tree `tree_of` picks for them.
pub fn parse(tokens: Vec<Token>) -> (result: Option<SyntaxTree>)
    ensures
        result is Some <==> parses(tokens_view(tokens@)),
        match result {
            Some(tree) => {
                &&& tree_tokens(tree) == tokens_view(tokens@)
                &&& tree_wf(tree)
                &&& same_functions(
                    tree.named_functions@,
                    tree_of(tokens_view(tokens@)).named_functions@,
                )
            },
            None => true,
        },
{
    let ghost input = tokens_view(tokens@);
    let ghost ok = parses(input);
    let ghost wanted = tree_of(input).named_functions@;
    let mut pending = tokens;
    let mut queue: VecDeque<Token> = VecDeque::new();
    assert(tokens_view(queue@) =~= Seq::<TokenView>::empty());
    assert(tokens_view(pending@) + tokens_view(queue@) =~= input);
    while pending.len() > 0
        invariant
            tokens_view(pending@) + tokens_view(queue@) == input,
        decreases pending@.len(),
    {
        let ghost before = pending@;
        let ghost queued = queue@;
        match pending.pop() {
            Some(token) => {
                queue.push_front(token);
                assert(tokens_view(before) =~= tokens_view(pending@).push(token_view(token)));
                assert(tokens_view(queue@) =~= seq![token_view(token)] + tokens_view(queued));
                assert(tokens_view(pending@) + tokens_view(queue@) =~= input);
            },
            None => {},
        }
    }
    assert(tokens_view(pending@) =~= Seq::<TokenView>::empty());
    assert(tokens_view(queue@) =~= input);
    let mut parser = Parser { tokens: queue };
    let mut named_functions: Vec<Function> = Vec::new();
    assert(input =~= named_functions_tokens(named_functions@) + parser.remaining());
    proof {
        if ok {
            assert(wanted.skip(0) =~= wanted);
        }
        assert(wanted.take(0) =~= Seq::<Function>::empty());
    }
    loop
        invariant
            input == tokens_view(tokens@),
            input == named_functions_tokens(named_functions@) + parser.remaining(),
            forall|i: int|
                0 <= i < named_functions@.len() ==> function_wf(#[trigger] named_functions@[i], true),
            ok == parses(input),
            ok ==> named_functions_tokens(wanted) == input && forall|i: int|
                0 <= i < wanted.len() ==> function_wf(#[trigger] wanted[i], true),
            ok ==> named_functions@.len() <= wanted.len() && parser.remaining()
                == named_functions_tokens(wanted.skip(named_functions@.len() as int)),
            ok ==> same_functions(named_functions@, wanted.take(named_functions@.len() as int)),
            wanted == tree_of(input).named_functions@,
        decreases parser.remaining().len(),
    {
        let ghost k = named_functions@.len() as int;
        proof {
            if ok && k == wanted.len() {
                assert(wanted.skip(k) =~= Seq::<Function>::empty());
            }
            if ok && k < wanted.len() {
                lemma_named_functions_tokens_at(wanted, k);
            }
        }
        match parser.peek() {
            Next::Nothing => {
                let tree = SyntaxTree { named_functions };
                assert(input =~= tree_tokens(tree));
                proof {
                    if ok {
                        assert(wanted.take(k) =~= wanted);
                    } else {
                        assert(tree_tokens(tree) == input && tree_wf(tree));
                    }
                }
                return Some(tree);
            },
            Next::FunctionName => {
                let ghost before = named_functions@;
                let ghost at = parser.remaining();
                let name = match parser.take() {
                    Token::FunctionName { name } => name,
                    _ => {
                        assert(false);
                        return None;
                    },
                };
                let ghost name_view = name@;
                assert(at =~= seq![TokenView::FunctionName { name: name_view }] + parser.remaining());
                let ghost after_name = parser.remaining();
                let ghost next_rest = named_functions_tokens(wanted.skip(k + 1));
                proof {
                    if ok {
                        assert(parser.remaining() =~= function_tokens(wanted[k]) + next_rest);
                    }
                }
                let function = match parser.parse_function(
                    Some(name),
                    Ghost(wanted[k]),
                    Ghost(next_rest),
                ) {
                    Some(function) => function,
                    None => return None,
                };
                named_functions.push(function);
                proof {
                    let after = named_functions@;
                    assert(after.drop_last() =~= before);
                    assert(named_functions_tokens(after) == named_functions_tokens(before) + seq![
                        TokenView::FunctionName { name: name_view },
                    ] + function_tokens(function));
                    assert(input =~= named_functions_tokens(after) + parser.remaining());
                    if ok {
                        let taken = wanted.take(k + 1);
                        assert(taken.drop_last() =~= wanted.take(k));
                        assert(taken.last() == wanted[k]);
                        assert(same_functions(after, taken));
                    }
                }
            },
            _ => return None,
        }
    }
}

} // verus!
