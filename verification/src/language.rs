//! A minimal interactive language: code that is edited character by
//! character, and an interpreter that follows the code as it changes.

use vstd::prelude::*;

use crate::text::{chars_of, parse_i32, spec_parse_i32};

verus! {

/// # Identifies an expression in the code
#[derive(Clone, Copy, Debug, PartialEq, Eq, Structural)]
pub struct ExpressionId(pub u64);

/// # A value that code evaluates to
#[derive(Clone, Copy, Debug, PartialEq, Eq, Structural)]
pub enum Value {
    Nothing,
    Integer { value: i32 },
}

/// # What a token of code refers to
#[derive(Clone, Copy, Debug, PartialEq, Eq, Structural)]
pub enum TokenKind {
    /// No code was typed yet
    Empty,
    /// An integer literal
    Integer { value: i32 },
    /// The intrinsic identity function, which returns its argument
    Identity,
    /// A function provided by the host
    HostFunction { id: usize },
    /// The token does not refer to anything known
    Unresolved,
}

/// # The host, which provides functions to the code
#[derive(Debug)]
pub struct Host {
    functions: Vec<String>,
}

/// The token of the identity function
pub open spec fn identity_token() -> Seq<char> {
    seq!['i', 'd', 'e', 'n', 't', 'i', 't', 'y']
}

/// The index of the first name in `names` that is equal to `token`
pub open spec fn first_index_of(names: Seq<Seq<char>>, token: Seq<char>) -> int {
    choose|i: int|
        0 <= i < names.len() && names[i] == token && forall|j: int|
            0 <= j < i ==> names[j] != token
}

/// What a token refers to, given the names of the host's functions
pub open spec fn token_kind(token: Seq<char>, host: Seq<Seq<char>>) -> TokenKind {
    if token.len() == 0 {
        TokenKind::Empty
    } else if spec_parse_i32(token) is Some {
        TokenKind::Integer { value: spec_parse_i32(token)->0 }
    } else if token == identity_token() {
        TokenKind::Identity
    } else if exists|i: int| 0 <= i < host.len() && host[i] == token {
        TokenKind::HostFunction { id: first_index_of(host, token) as usize }
    } else {
        TokenKind::Unresolved
    }
}

/// Whether two character sequences are equal
pub(crate) fn chars_equal(a: &Vec<char>, b: &Vec<char>) -> (result: bool)
    ensures
        result == (a@ == b@),
{
    if a.len() != b.len() {
        return false;
    }
    let mut i: usize = 0;
    while i < a.len()
        invariant
            i <= a@.len(),
            a@.len() == b@.len(),
            forall|j: int| 0 <= j < i ==> a@[j] == b@[j],
        decreases a@.len() - i,
    {
        if a[i] != b[i] {
            return false;
        }
        i = i + 1;
    }
    assert(a@ =~= b@);
    true
}

impl Host {
    /// The names of the host's functions, indexed by their ids
    pub closed spec fn names(&self) -> Seq<Seq<char>> {
        self.functions@.map_values(|f: String| f@)
    }

    /// # A host that provides no functions
    pub fn empty() -> (result: Self)
        ensures
            result.names() == Seq::<Seq<char>>::empty(),
    {
        let result = Host { functions: Vec::new() };
        assert(result.names() =~= Seq::<Seq<char>>::empty());
        result
    }

    /// # A host that provides functions with the given names
    pub fn new(functions: Vec<String>) -> (result: Self)
        ensures
            result.names() == functions@.map_values(|f: String| f@),
    {
        Host { functions }
    }

    /// # Find the id of the host function with the given name
    pub fn function_id(&self, name: &Vec<char>) -> (result: Option<usize>)
        ensures
            match result {
                Some(id) => {
                    &&& exists|i: int|
                        0 <= i < self.names().len() && self.names()[i] == name@
                    &&& id == first_index_of(self.names(), name@)
                },
                None => !exists|i: int|
                    0 <= i < self.names().len() && self.names()[i] == name@,
            },
    {
        let mut i: usize = 0;
        while i < self.functions.len()
            invariant
                i <= self.functions@.len(),
                forall|j: int| 0 <= j < i ==> self.names()[j] != name@,
            decreases self.functions@.len() - i,
        {
            let candidate = chars_of(self.functions[i].as_str());
            if chars_equal(&candidate, name) {
                let ghost names = self.names();
                assert(names[i as int] == name@);
                let ghost k = first_index_of(names, name@);
                assert(exists|m: int|
                    0 <= m < names.len() && names[m] == name@ && forall|j: int|
                        0 <= j < m ==> names[j] != name@) by {
                    assert(0 <= i < names.len() && names[i as int] == name@);
                }
                proof {
                    if k < i {
                    } else if k > i {
                        assert(names[i as int] != name@);
                    }
                }
                return Some(i);
            }
            i = i + 1;
        }
        None
    }
}

/// # Determine what a token refers to
pub fn resolve_token(token: &Vec<char>, host: &Host) -> (result: TokenKind)
    ensures
        result == token_kind(token@, host.names()),
{
    if token.len() == 0 {
        return TokenKind::Empty;
    }
    if let Some(value) = parse_i32(token) {
        return TokenKind::Integer { value };
    }
    let identity = vec!['i', 'd', 'e', 'n', 't', 'i', 't', 'y'];
    assert(identity@ =~= identity_token());
    if chars_equal(token, &identity) {
        return TokenKind::Identity;
    }
    match host.function_id(token) {
        Some(id) => TokenKind::HostFunction { id },
        None => TokenKind::Unresolved,
    }
}

/// # An expression in the code
#[derive(Clone, Debug)]
pub struct Expression {
    pub id: ExpressionId,
    pub token: Vec<char>,
    pub kind: TokenKind,
}

/// # The code: a sequence of expressions
#[derive(Debug)]
pub struct Codebase {
    expressions: Vec<Expression>,
    next_id: u64,
}

/// The index of the first expression with the given id
pub open spec fn index_of(ids: Seq<ExpressionId>, id: ExpressionId) -> int {
    choose|i: int| 0 <= i < ids.len() && ids[i] == id
}

/// Whether an expression with the given id exists
pub open spec fn contains_id(ids: Seq<ExpressionId>, id: ExpressionId) -> bool {
    exists|i: int| 0 <= i < ids.len() && ids[i] == id
}

/// No id occurs twice
pub open spec fn ids_unique(ids: Seq<ExpressionId>) -> bool {
    forall|i: int, j: int| 0 <= i < ids.len() && 0 <= j < ids.len() && i != j ==> ids[i] != ids[j]
}

/// In a sequence of unique ids, the id at `i` is found at `i`
pub proof fn lemma_index_of_unique(ids: Seq<ExpressionId>, i: int)
    requires
        ids_unique(ids),
        0 <= i < ids.len(),
    ensures
        contains_id(ids, ids[i]),
        index_of(ids, ids[i]) == i,
{
    assert(0 <= i < ids.len() && ids[i] == ids[i]);
}

impl Codebase {
    /// The ids of the expressions, in order
    pub closed spec fn ids(&self) -> Seq<ExpressionId> {
        self.expressions@.map_values(|e: Expression| e.id)
    }

    /// What the expressions refer to, in order
    pub closed spec fn kinds(&self) -> Seq<TokenKind> {
        self.expressions@.map_values(|e: Expression| e.kind)
    }

    /// The tokens of the expressions, in order
    pub closed spec fn tokens(&self) -> Seq<Seq<char>> {
        self.expressions@.map_values(|e: Expression| e.token@)
    }

    /// The number that the id of the next new expression is made from
    pub closed spec fn id_counter(&self) -> u64 {
        self.next_id
    }

    /// The id that the next new expression gets, if ids are not used up
    pub open spec fn fresh_id(&self) -> Option<ExpressionId> {
        if self.id_counter() < u64::MAX {
            Some(ExpressionId(self.id_counter()))
        } else {
            None
        }
    }

    /// The code is never empty, and its ids are unique and below the next
    /// fresh one
    #[verifier::type_invariant]
    closed spec fn wf(&self) -> bool {
        &&& self.expressions@.len() > 0
        &&& ids_unique(self.ids())
        &&& forall|i: int| 0 <= i < self.expressions@.len() ==> self.expressions@[i].id.0 < self.next_id
    }

    /// # Code that consists of a single empty expression
    pub fn new() -> (result: Self)
        ensures
            result.ids() == seq![ExpressionId(0)],
            result.tokens() == seq![Seq::<char>::empty()],
            result.kinds() == seq![TokenKind::Empty],
            result.id_counter() == 1,
    {
        let result = Codebase {
            expressions: vec![Expression { id: ExpressionId(0), token: Vec::new(), kind: TokenKind::Empty }],
            next_id: 1,
        };
        assert(result.ids() =~= seq![ExpressionId(0)]);
        assert(result.tokens() =~= seq![Seq::<char>::empty()]);
        assert(result.kinds() =~= seq![TokenKind::Empty]);
        result
    }

    /// # The ids of the expressions, in order
    pub fn root_ids(&self) -> (result: Vec<ExpressionId>)
        ensures
            result@ == self.ids(),
    {
        let mut result = Vec::new();
        let mut i: usize = 0;
        while i < self.expressions.len()
            invariant
                i <= self.expressions@.len(),
                result@ == self.ids().take(i as int),
            decreases self.expressions@.len() - i,
        {
            result.push(self.expressions[i].id);
            i = i + 1;
            assert(result@ =~= self.ids().take(i as int));
        }
        assert(self.ids().take(i as int) =~= self.ids());
        result
    }

    /// # The number of expressions
    ///
    /// Code is never empty, and no id occurs in it twice.
    pub fn len(&self) -> (result: usize)
        ensures
            result == self.ids().len(),
            result == self.kinds().len(),
            result == self.tokens().len(),
            result > 0,
            ids_unique(self.ids()),
    {
        proof {
            use_type_invariant(self);
        }
        self.expressions.len()
    }

    /// # Find the index of the expression with the given id
    pub fn find(&self, id: ExpressionId) -> (result: Option<usize>)
        ensures
            match result {
                Some(i) => contains_id(self.ids(), id) && i == index_of(self.ids(), id),
                None => !contains_id(self.ids(), id),
            },
    {
        proof {
            use_type_invariant(self);
        }
        let ghost ids = self.ids();
        let mut i: usize = 0;
        while i < self.expressions.len()
            invariant
                i <= self.expressions@.len(),
                ids == self.ids(),
                ids_unique(ids),
                forall|j: int| 0 <= j < i ==> ids[j] != id,
            decreases self.expressions@.len() - i,
        {
            if self.expressions[i].id == id {
                assert(ids[i as int] == id);
                proof {
                    lemma_index_of_unique(ids, i as int);
                }
                return Some(i);
            }
            i = i + 1;
        }
        None
    }

    /// # The id of the expression at the given index
    pub fn id_at(&self, index: usize) -> (result: ExpressionId)
        requires
            index < self.ids().len(),
        ensures
            result == self.ids()[index as int],
    {
        self.expressions[index].id
    }

    /// # What the expression at the given index refers to
    pub fn kind_at(&self, index: usize) -> (result: TokenKind)
        requires
            index < self.ids().len(),
        ensures
            result == self.kinds()[index as int],
    {
        proof {
            use_type_invariant(self);
        }
        self.expressions[index].kind
    }

    /// # Append a character to the token at `index`
    ///
    /// The expression gets a new id. Returns the old and the new id. Does
    /// nothing and returns `None`, once all ids are used up.
    pub fn append_char(&mut self, index: usize, ch: char, host: &Host) -> (result: Option<
        (ExpressionId, ExpressionId),
    >)
        requires
            index < old(self).ids().len(),
        ensures
            match old(self).fresh_id() {
                Some(new_id) => {
                    &&& result == Some((old(self).ids()[index as int], new_id))
                    &&& final(self).ids() == old(self).ids().update(index as int, new_id)
                    &&& final(self).tokens() == old(self).tokens().update(
                        index as int,
                        old(self).tokens()[index as int].push(ch),
                    )
                    &&& final(self).kinds() == old(self).kinds().update(
                        index as int,
                        token_kind(old(self).tokens()[index as int].push(ch), host.names()),
                    )
                    &&& final(self).id_counter() == old(self).id_counter() + 1
                },
                None => {
                    &&& result is None
                    &&& final(self).id_counter() == old(self).id_counter()
                    &&& final(self).ids() == old(self).ids()
                    &&& final(self).tokens() == old(self).tokens()
                    &&& final(self).kinds() == old(self).kinds()
                },
            },
    {
        proof {
            use_type_invariant(&*self);
        }
        if self.next_id == u64::MAX {
            return None;
        }
        let old_id = self.expressions[index].id;
        let new_id = ExpressionId(self.next_id);
        let mut token = self.expressions[index].token.clone();
        token.push(ch);
        let kind = resolve_token(&token, host);
        let ghost before = self.expressions@;
        let mut current = Codebase::new();
        std::mem::swap(&mut current, self);
        let Codebase { mut expressions, next_id } = current;
        expressions.set(index, Expression { id: new_id, token, kind });
        assert(expressions@.map_values(|e: Expression| e.id) =~= before.map_values(
            |e: Expression| e.id,
        ).update(index as int, new_id));
        let next_id = next_id + 1;
        *self = Codebase { expressions, next_id };
        assert(self.tokens() =~= before.map_values(|e: Expression| e.token@).update(
            index as int,
            before[index as int].token@.push(ch),
        ));
        assert(self.kinds() =~= before.map_values(|e: Expression| e.kind).update(
            index as int,
            kind,
        ));
        Some((old_id, new_id))
    }

    /// # Insert a new, empty expression after the one at `index`
    ///
    /// Returns the id of the new expression. Does nothing and returns `None`,
    /// once all ids are used up.
    pub fn insert_after(&mut self, index: usize) -> (result: Option<ExpressionId>)
        requires
            index < old(self).ids().len(),
        ensures
            result == old(self).fresh_id(),
            match result {
                Some(id) => {
                    &&& final(self).ids() == old(self).ids().insert(index + 1, id)
                    &&& final(self).tokens() == old(self).tokens().insert(
                        index + 1,
                        Seq::<char>::empty(),
                    )
                    &&& final(self).kinds() == old(self).kinds().insert(index + 1, TokenKind::Empty)
                    &&& final(self).id_counter() == old(self).id_counter() + 1
                },
                None => {
                    &&& final(self).id_counter() == old(self).id_counter()
                    &&& final(self).ids() == old(self).ids()
                    &&& final(self).tokens() == old(self).tokens()
                    &&& final(self).kinds() == old(self).kinds()
                },
            },
    {
        proof {
            use_type_invariant(&*self);
        }
        if self.next_id == u64::MAX {
            return None;
        }
        let len = self.expressions.len();
        assert(index < len);
        let id = ExpressionId(self.next_id);
        let ghost before = self.expressions@;
        let mut current = Codebase::new();
        std::mem::swap(&mut current, self);
        let Codebase { mut expressions, next_id } = current;
        expressions.insert(index + 1, Expression { id, token: Vec::new(), kind: TokenKind::Empty });
        assert(expressions@.map_values(|e: Expression| e.id) =~= before.map_values(
            |e: Expression| e.id,
        ).insert(index + 1, id));
        let next_id = next_id + 1;
        *self = Codebase { expressions, next_id };
        assert(self.tokens() =~= before.map_values(|e: Expression| e.token@).insert(
            index + 1,
            Seq::<char>::empty(),
        ));
        assert(self.kinds() =~= before.map_values(|e: Expression| e.kind).insert(
            index + 1,
            TokenKind::Empty,
        ));
        Some(id)
    }

    /// # Replace all code with a single empty expression
    ///
    /// Returns the id of that expression. Does nothing and returns `None`,
    /// once all ids are used up.
    pub fn clear(&mut self) -> (result: Option<ExpressionId>)
        ensures
            result == old(self).fresh_id(),
            match result {
                Some(id) => {
                    &&& final(self).ids() == seq![id]
                    &&& final(self).tokens() == seq![Seq::<char>::empty()]
                    &&& final(self).kinds() == seq![TokenKind::Empty]
                    &&& final(self).id_counter() == old(self).id_counter() + 1
                },
                None => {
                    &&& final(self).id_counter() == old(self).id_counter()
                    &&& final(self).ids() == old(self).ids()
                    &&& final(self).tokens() == old(self).tokens()
                    &&& final(self).kinds() == old(self).kinds()
                },
            },
    {
        if self.next_id == u64::MAX {
            return None;
        }
        let id = ExpressionId(self.next_id);
        let next_id = self.next_id + 1;
        *self = Codebase {
            expressions: vec![Expression { id, token: Vec::new(), kind: TokenKind::Empty }],
            next_id,
        };
        assert(self.ids() =~= seq![id]);
        assert(self.tokens() =~= seq![Seq::<char>::empty()]);
        assert(self.kinds() =~= seq![TokenKind::Empty]);
        Some(id)
    }
}

} // verus!

verus! {

/// # The result of a step of the interpreter
#[derive(Clone, Copy, Debug, PartialEq, Eq, Structural)]
pub enum StepResult {
    CallToHostFunction { id: usize },
    CallToIntrinsicFunction,
    Error,
    Finished { output: Value },
}

/// # The state of the interpreter
#[derive(Clone, Copy, Debug, PartialEq, Eq, Structural)]
pub enum InterpreterState {
    Running,
    Finished { output: Value },
    Error,
}

impl InterpreterState {
    pub fn is_running(&self) -> (result: bool)
        ensures
            result == (*self is Running),
    {
        matches!(self, Self::Running)
    }

    pub fn is_finished(&self) -> (result: bool)
        ensures
            result == (*self is Finished),
    {
        matches!(self, Self::Finished { .. })
    }
}

/// What a step does, given the interpreter's next expression and state, and
/// the code: the step's result, and the interpreter's new next expression and
/// state
pub open spec fn step_spec(
    next: Option<ExpressionId>,
    state: InterpreterState,
    ids: Seq<ExpressionId>,
    kinds: Seq<TokenKind>,
) -> (StepResult, Option<ExpressionId>, InterpreterState) {
    let error = (StepResult::Error, None, InterpreterState::Error);
    match state {
        InterpreterState::Finished { output } => (StepResult::Finished { output }, next, state),
        InterpreterState::Error => (StepResult::Error, next, state),
        InterpreterState::Running => match next {
            Some(id) => if contains_id(ids, id) {
                let i = index_of(ids, id);
                let is_last = i + 1 == ids.len();
                match kinds[i] {
                    TokenKind::Identity => if is_last {
                        error
                    } else {
                        (StepResult::CallToIntrinsicFunction, Some(ids[i + 1]), state)
                    },
                    TokenKind::HostFunction { id } => if is_last {
                        error
                    } else {
                        (StepResult::CallToHostFunction { id }, Some(ids[i + 1]), state)
                    },
                    TokenKind::Integer { value } => if is_last {
                        let output = Value::Integer { value };
                        (StepResult::Finished { output }, None, InterpreterState::Finished { output })
                    } else {
                        error
                    },
                    TokenKind::Empty => if is_last {
                        let output = Value::Nothing;
                        (StepResult::Finished { output }, None, InterpreterState::Finished { output })
                    } else {
                        error
                    },
                    TokenKind::Unresolved => error,
                }
            } else {
                error
            },
            None => error,
        },
    }
}

/// How many expressions are left to evaluate, for an interpreter that will
/// evaluate `next` and is in the given state
pub open spec fn remaining(
    next: Option<ExpressionId>,
    state: InterpreterState,
    ids: Seq<ExpressionId>,
) -> int {
    match (state, next) {
        (InterpreterState::Running, Some(id)) => if contains_id(ids, id) {
            ids.len() - index_of(ids, id)
        } else {
            0
        },
        _ => 0,
    }
}

/// What running does: stepping until a step does something other than call
/// an intrinsic function. Gives the last step's result, and the interpreter's
/// new next expression and state.
pub open spec fn run_spec(
    next: Option<ExpressionId>,
    state: InterpreterState,
    ids: Seq<ExpressionId>,
    kinds: Seq<TokenKind>,
) -> (StepResult, Option<ExpressionId>, InterpreterState)
    decreases remaining(next, state, ids),
    when ids_unique(ids)
{
    let (result, new_next, new_state) = step_spec(next, state, ids, kinds);
    if result is CallToIntrinsicFunction {
        proof {
            lemma_index_of_unique(ids, index_of(ids, next->0) + 1);
        }
        run_spec(new_next, new_state, ids, kinds)
    } else {
        (result, new_next, new_state)
    }
}

/// Where the interpreter stands after an update of the code, given where it
/// stood before, the expression that was replaced by another (if any), and the
/// first expression of the updated code
pub open spec fn after_code_update(
    next: Option<ExpressionId>,
    state: InterpreterState,
    replaced: Option<(ExpressionId, ExpressionId)>,
    first: ExpressionId,
) -> (Option<ExpressionId>, InterpreterState) {
    match state {
        InterpreterState::Running => match replaced {
            Some((from, to)) => if next == Some(from) {
                (Some(to), state)
            } else {
                (next, state)
            },
            None => (next, state),
        },
        _ => (Some(first), InterpreterState::Running),
    }
}

/// # Executes code, one expression per step
#[derive(Debug)]
pub struct Interpreter {
    next: Option<ExpressionId>,
    state: InterpreterState,
}

impl Interpreter {
    /// The expression that the interpreter evaluates next
    pub closed spec fn next_expression(&self) -> Option<ExpressionId> {
        self.next
    }

    /// The state of the interpreter
    pub closed spec fn current_state(&self) -> InterpreterState {
        self.state
    }

    /// What running the interpreter on the code does: the result of the last
    /// step, and the interpreter's new next expression and state
    pub open spec fn run_outcome(&self, code: &Codebase) -> (StepResult, Option<ExpressionId>, InterpreterState) {
        run_spec(self.next_expression(), self.current_state(), code.ids(), code.kinds())
    }

    /// # An interpreter that starts at the first expression of the code
    pub fn new(code: &Codebase) -> (result: Self)
        ensures
            result.next_expression() == Some(code.ids()[0]),
            result.current_state() == InterpreterState::Running,
    {
        let _ = code.len();
        Interpreter { next: Some(code.id_at(0)), state: InterpreterState::Running }
    }

    /// # The expression that the interpreter evaluates next
    pub fn next(&self) -> (result: Option<ExpressionId>)
        ensures
            result == self.next_expression(),
    {
        self.next
    }

    /// # The state of the interpreter
    pub fn state(&self, code: &Codebase) -> (result: InterpreterState)
        ensures
            result == self.current_state(),
    {
        self.state
    }

    /// # Evaluate the next expression
    pub fn step(&mut self, code: &Codebase) -> (result: StepResult)
        ensures
            ({
                let (r, next, state) = step_spec(
                    old(self).next_expression(),
                    old(self).current_state(),
                    code.ids(),
                    code.kinds(),
                );
                &&& result == r
                &&& final(self).next_expression() == next
                &&& final(self).current_state() == state
            }),
    {
        match self.state {
            InterpreterState::Finished { output } => return StepResult::Finished { output },
            InterpreterState::Error => return StepResult::Error,
            InterpreterState::Running => {},
        }
        let len = code.len();
        let index = match self.next {
            Some(id) => match code.find(id) {
                Some(index) => index,
                None => return self.fail(),
            },
            None => return self.fail(),
        };
        let is_last = index + 1 == len;
        match code.kind_at(index) {
            TokenKind::Identity => {
                if is_last {
                    return self.fail();
                }
                self.next = Some(code.id_at(index + 1));
                StepResult::CallToIntrinsicFunction
            },
            TokenKind::HostFunction { id } => {
                if is_last {
                    return self.fail();
                }
                self.next = Some(code.id_at(index + 1));
                StepResult::CallToHostFunction { id }
            },
            TokenKind::Integer { value } => {
                if !is_last {
                    return self.fail();
                }
                self.finish(Value::Integer { value })
            },
            TokenKind::Empty => {
                if !is_last {
                    return self.fail();
                }
                self.finish(Value::Nothing)
            },
            TokenKind::Unresolved => self.fail(),
        }
    }

    /// # Step until the code has run to an end or calls a host function
    ///
    /// Calls of intrinsic functions need nothing from the caller, so they are
    /// stepped over.
    pub fn run(&mut self, code: &Codebase) -> (result: StepResult)
        ensures
            (result, final(self).next_expression(), final(self).current_state())
                == old(self).run_outcome(code),
    {
        let _ = code.len();
        loop
            invariant
                ids_unique(code.ids()),
                code.ids().len() == code.kinds().len(),
                self.run_outcome(code) == old(self).run_outcome(code),
            decreases remaining(self.next_expression(), self.current_state(), code.ids()),
        {
            let ghost before = *self;
            let result = self.step(code);
            match result {
                StepResult::CallToIntrinsicFunction => {
                    proof {
                        let i = index_of(code.ids(), before.next_expression()->0);
                        lemma_index_of_unique(code.ids(), i + 1);
                    }
                },
                _ => return result,
            }
        }
    }

    fn fail(&mut self) -> (result: StepResult)
        ensures
            result == StepResult::Error,
            final(self).next_expression() == None::<ExpressionId>,
            final(self).current_state() == InterpreterState::Error,
    {
        self.next = None;
        self.state = InterpreterState::Error;
        StepResult::Error
    }

    fn finish(&mut self, output: Value) -> (result: StepResult)
        ensures
            result == (StepResult::Finished { output }),
            final(self).next_expression() == None::<ExpressionId>,
            final(self).current_state() == (InterpreterState::Finished { output }),
    {
        self.next = None;
        self.state = InterpreterState::Finished { output };
        StepResult::Finished { output }
    }

    /// # Follow an update of the code
    ///
    /// If the interpreter has finished or failed, it starts over from the first
    /// expression. Otherwise, if the expression it evaluates next was
    /// replaced, it continues with the replacement.
    pub fn on_code_update(&mut self, replaced: Option<(ExpressionId, ExpressionId)>, code: &Codebase)
        ensures
            (final(self).next_expression(), final(self).current_state()) == after_code_update(
                old(self).next_expression(),
                old(self).current_state(),
                replaced,
                code.ids()[0],
            ),
    {
        match self.state {
            InterpreterState::Running => {
                if let Some((from, to)) = replaced {
                    if self.next == Some(from) {
                        self.next = Some(to);
                    }
                }
            },
            _ => {
                let _ = code.len();
                self.next = Some(code.id_at(0));
                self.state = InterpreterState::Running;
            },
        }
    }
}

} // verus!
