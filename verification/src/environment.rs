//! The scope chain: a stack of frames, the global one at the bottom and the
//! innermost one on top.

use vstd::prelude::*;
use crate::error::{RuntimeError, RuntimeErrorKind};
use crate::token::Token;
use crate::value::{Value, ValueView};

verus! {

/// The bindings of one scope.
pub type Frame = Map<Seq<char>, ValueView>;

/// The frames in reach, outermost first.
pub type Chain = Seq<Frame>;

/// The index of the innermost frame that defines `name`.
pub open spec fn resolve(chain: Chain, name: Seq<char>) -> Option<int>
    decreases chain.len(),
{
    if chain.len() == 0 {
        None
    } else if chain.last().contains_key(name) {
        Some(chain.len() - 1)
    } else {
        resolve(chain.drop_last(), name)
    }
}

/// What `name` is bound to: its value in the innermost frame that defines it.
pub open spec fn lookup(chain: Chain, name: Seq<char>) -> Option<ValueView> {
    match resolve(chain, name) {
        Some(index) => Some(chain[index][name]),
        None => None,
    }
}

/// The chain after `name` is bound to `value` in the innermost frame.
pub open spec fn defined(chain: Chain, name: Seq<char>, value: ValueView) -> Chain
    recommends
        chain.len() > 0,
{
    chain.update(chain.len() - 1, chain.last().insert(name, value))
}

/// The chain after `value` is stored in the innermost frame that defines
/// `name`; `None` where no frame does.
pub open spec fn assigned(chain: Chain, name: Seq<char>, value: ValueView) -> Option<Chain> {
    match resolve(chain, name) {
        Some(index) => Some(chain.update(index, chain[index].insert(name, value))),
        None => None,
    }
}

/// The fault of reading or assigning a name that no frame defines.
pub open spec fn name_error(name: Token) -> RuntimeError {
    RuntimeError {
        kind: RuntimeErrorKind::NameError,
        line_number: name.line_number,
        lexeme: name.lexeme,
    }
}

/// The innermost frame that defines a name is a frame of the chain, and it
/// does define the name; no frame above it does.
pub proof fn lemma_resolve(chain: Chain, name: Seq<char>)
    ensures
        match resolve(chain, name) {
            Some(index) => {
                &&& 0 <= index < chain.len()
                &&& chain[index].contains_key(name)
                &&& forall|above: int|
                    index < above < chain.len() ==> !(#[trigger] chain[above]).contains_key(name)
            },
            None => forall|any: int|
                0 <= any < chain.len() ==> !(#[trigger] chain[any]).contains_key(name),
        },
    decreases chain.len(),
{
    if chain.len() > 0 && !chain.last().contains_key(name) {
        let below = chain.drop_last();
        lemma_resolve(below, name);
        assert(forall|index: int| 0 <= index < below.len() ==> below[index] == chain[index]);
    }
}

/// A name reads as what it was last defined as, and a definition leaves
/// every other name as it was.
pub proof fn lemma_define_then_lookup(
    chain: Chain,
    name: Seq<char>,
    value: ValueView,
    other: Seq<char>,
)
    requires
        chain.len() > 0,
    ensures
        lookup(defined(chain, name, value), name) == Some(value),
        other != name ==> lookup(defined(chain, name, value), other) == lookup(chain, other),
        defined(chain, name, value).len() == chain.len(),
{
    let after = defined(chain, name, value);
    if other != name {
        lemma_same_domains(chain, after, other);
        lemma_resolve(chain, other);
    }
}

/// Two chains of one length whose frames define `name` alike resolve it to
/// the same frame.
proof fn lemma_same_domains(first: Chain, second: Chain, name: Seq<char>)
    requires
        first.len() == second.len(),
        forall|index: int|
            0 <= index < first.len() ==> (#[trigger] first[index]).contains_key(name)
                == second[index].contains_key(name),
    ensures
        resolve(first, name) == resolve(second, name),
    decreases first.len(),
{
    if first.len() > 0 {
        if !first.last().contains_key(name) {
            let below = first.drop_last();
            lemma_same_domains(below, second.drop_last(), name);
        }
    }
}

/// An assignment succeeds where the name reads as something; the name then
/// reads as the new value, every other name as before, and no scope is
/// opened or closed.
pub proof fn lemma_assign_then_lookup(
    chain: Chain,
    name: Seq<char>,
    value: ValueView,
    other: Seq<char>,
)
    ensures
        assigned(chain, name, value) is Some <==> lookup(chain, name) is Some,
        assigned(chain, name, value) matches Some(after) ==> {
            &&& after.len() == chain.len()
            &&& lookup(after, name) == Some(value)
            &&& other != name ==> lookup(after, other) == lookup(chain, other)
        },
{
    lemma_resolve(chain, name);
    if let Some(after) = assigned(chain, name, value) {
        lemma_same_domains(chain, after, name);
        lemma_same_domains(chain, after, other);
        lemma_resolve(chain, other);
    }
}

/// A name defined in a scope that was just opened shadows the outer
/// binding while the scope is open; when the scope is closed, every scope
/// is as it was before.
pub proof fn lemma_shadow(chain: Chain, name: Seq<char>, value: ValueView)
    ensures
        lookup(defined(chain.push(Map::empty()), name, value), name) == Some(value),
        defined(chain.push(Map::empty()), name, value).drop_last() == chain,
{
    let inner = chain.push(Map::empty());
    lemma_define_then_lookup(inner, name, value, name);
}

struct Binding {
    name: String,
    value: Value,
}

struct Scope {
    bindings: Vec<Binding>,
}

/// The index of the last binding of `name`.
spec fn last_index(bindings: Seq<Binding>, name: Seq<char>) -> Option<int>
    decreases bindings.len(),
{
    if bindings.len() == 0 {
        None
    } else if bindings.last().name@ == name {
        Some(bindings.len() - 1)
    } else {
        last_index(bindings.drop_last(), name)
    }
}

/// The frame that a list of bindings stands for: a later binding of a name
/// replaces an earlier one.
spec fn frame_of(bindings: Seq<Binding>) -> Frame
    decreases bindings.len(),
{
    if bindings.len() == 0 {
        Map::empty()
    } else {
        frame_of(bindings.drop_last()).insert(bindings.last().name@, bindings.last().value@)
    }
}

proof fn lemma_last_index(bindings: Seq<Binding>, name: Seq<char>)
    ensures
        match last_index(bindings, name) {
            Some(index) => {
                &&& 0 <= index < bindings.len()
                &&& bindings[index].name@ == name
                &&& frame_of(bindings).contains_key(name)
                &&& frame_of(bindings)[name] == bindings[index].value@
            },
            None => !frame_of(bindings).contains_key(name),
        },
    decreases bindings.len(),
{
    if bindings.len() > 0 && bindings.last().name@ != name {
        lemma_last_index(bindings.drop_last(), name);
    }
}

proof fn lemma_rebind(bindings: Seq<Binding>, index: int, binding: Binding)
    requires
        last_index(bindings, binding.name@) == Some(index),
    ensures
        frame_of(bindings.update(index, binding)) == frame_of(bindings).insert(
            binding.name@,
            binding.value@,
        ),
    decreases bindings.len(),
{
    lemma_last_index(bindings, binding.name@);
    let after = bindings.update(index, binding);
    if index == bindings.len() - 1 {
        assert(after.drop_last() == bindings.drop_last());
    } else {
        lemma_rebind(bindings.drop_last(), index, binding);
        assert(after.drop_last() == bindings.drop_last().update(index, binding));
    }
}

impl Scope {
    spec fn frame(self) -> Frame {
        frame_of(self.bindings@)
    }

    /// Finds the last binding of `name`.
    fn position(&self, name: &String) -> (found: Option<usize>)
        ensures
            match found {
                Some(index) => last_index(self.bindings@, name@) == Some(index as int),
                None => last_index(self.bindings@, name@) is None,
            },
    {
        let mut index: usize = self.bindings.len();
        assert(self.bindings@.take(index as int) == self.bindings@);
        while index > 0
            invariant
                index <= self.bindings.len(),
                last_index(self.bindings@, name@) == last_index(
                    self.bindings@.take(index as int),
                    name@,
                ),
            decreases index,
        {
            if self.bindings[index - 1].name == *name {
                return Some(index - 1);
            }
            proof {
                assert(self.bindings@.take(index as int).drop_last() == self.bindings@.take(
                    index - 1,
                ));
            }
            index -= 1;
        }
        None
    }
}

/// A stack of scopes. It is never empty: the global scope stays for good.
pub struct Environment {
    scopes: Vec<Scope>,
}

impl View for Environment {
    type V = Chain;

    closed spec fn view(&self) -> Chain {
        Seq::new(self.scopes@.len(), |index: int| self.scopes@[index].frame())
    }
}

impl Environment {
    /// Whether the global scope is there.
    pub open spec fn wf(&self) -> bool {
        self@.len() > 0
    }

    /// An environment with the global scope alone, which binds nothing.
    pub fn new() -> (environment: Environment)
        ensures
            environment@ == seq![Map::<Seq<char>, ValueView>::empty()],
            environment.wf(),
    {
        let mut scopes: Vec<Scope> = Vec::new();
        scopes.push(Scope { bindings: Vec::new() });
        let environment = Environment { scopes };
        environment
    }

    /// The number of scopes in reach.
    pub fn depth(&self) -> (depth: usize)
        ensures
            depth == self@.len(),
    {
        self.scopes.len()
    }

    /// Opens a scope inside the innermost one.
    pub fn push_scope(&mut self)
        ensures
            final(self)@ == old(self)@.push(Map::empty()),
    {
        self.scopes.push(Scope { bindings: Vec::new() });
    }

    /// Closes the innermost scope and drops its bindings.
    pub fn pop_scope(&mut self)
        requires
            old(self)@.len() > 1,
        ensures
            final(self)@ == old(self)@.drop_last(),
    {
        let _ = self.scopes.pop();
    }

    /// Binds `name` to `value` in the innermost scope, whether or not the
    /// scope bound it before. No outer scope is searched or changed.
    pub fn define(&mut self, name: String, value: Value)
        requires
            old(self).wf(),
        ensures
            final(self)@ == defined(old(self)@, name@, value@),
    {
        let top: usize = self.scopes.len() - 1;
        let found = self.scopes[top].position(&name);
        let binding = Binding { name, value };
        proof {
            lemma_last_index(self.scopes@[top as int].bindings@, name@);
        }
        match found {
            Some(index) => {
                proof {
                    lemma_rebind(self.scopes@[top as int].bindings@, index as int, binding);
                }
                self.scopes[top].bindings[index] = binding;
            },
            None => {
                self.scopes[top].bindings.push(binding);
                assert(self.scopes@[top as int].bindings@.drop_last() == old(
                    self,
                ).scopes@[top as int].bindings@);
            },
        }
    }

    /// Reads `name`: its value in the innermost scope that binds it.
    pub fn get(&self, name: &Token) -> (result: Result<Value, RuntimeError>)
        ensures
            match lookup(self@, name.lexeme@) {
                Some(value) => result is Ok && result->Ok_0@ == value,
                None => result == Err::<Value, RuntimeError>(name_error(*name)),
            },
    {
        let mut level: usize = self.scopes.len();
        assert(self@.take(level as int) == self@);
        while level > 0
            invariant
                level <= self.scopes.len(),
                resolve(self@, name.lexeme@) == resolve(self@.take(level as int), name.lexeme@),
            decreases level,
        {
            let scope = &self.scopes[level - 1];
            proof {
                lemma_last_index(scope.bindings@, name.lexeme@);
                assert(self@.take(level as int).drop_last() == self@.take(level - 1));
            }
            match scope.position(&name.lexeme) {
                Some(index) => {
                    return Ok(scope.bindings[index].value.clone());
                },
                None => {},
            }
            level -= 1;
        }
        Err(
            RuntimeError {
                kind: RuntimeErrorKind::NameError,
                line_number: name.line_number,
                lexeme: name.lexeme.clone(),
            },
        )
    }

    /// Stores `value` in the innermost scope that binds `name`. Where no
    /// scope binds it, nothing changes.
    pub fn assign(&mut self, name: &Token, value: Value) -> (result: Result<(), RuntimeError>)
        ensures
            match assigned(old(self)@, name.lexeme@, value@) {
                Some(chain) => result is Ok && final(self)@ == chain,
                None => {
                    &&& result == Err::<(), RuntimeError>(name_error(*name))
                    &&& final(self)@ == old(self)@
                },
            },
    {
        let mut level: usize = self.scopes.len();
        assert(self@.take(level as int) == self@);
        while level > 0
            invariant
                *self == *old(self),
                level <= self.scopes.len(),
                resolve(self@, name.lexeme@) == resolve(self@.take(level as int), name.lexeme@),
            decreases level,
        {
            proof {
                lemma_last_index(self.scopes@[level - 1].bindings@, name.lexeme@);
                assert(self@.take(level as int).drop_last() == self@.take(level - 1));
            }
            match self.scopes[level - 1].position(&name.lexeme) {
                Some(index) => {
                    let binding = Binding { name: name.lexeme.clone(), value };
                    proof {
                        lemma_rebind(self.scopes@[level - 1].bindings@, index as int, binding);
                    }
                    self.scopes[level - 1].bindings[index] = binding;
                    return Ok(());
                },
                None => {},
            }
            level -= 1;
        }
        Err(
            RuntimeError {
                kind: RuntimeErrorKind::NameError,
                line_number: name.line_number,
                lexeme: name.lexeme.clone(),
            },
        )
    }
}

} // verus!
