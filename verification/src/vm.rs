//! The state that evaluation works on.

use vstd::prelude::*;
use vstd::hash_map::StringHashMap;
use crate::parse::Term;
use crate::parse::Value;
use crate::parse::terms;

verus! {

/// A stack and a variable table set aside as a unit.
pub struct Context {
    pub vars: StringHashMap<Option<Value>>,
    pub stack: Vec<Value>,
}

/// The state of one interpreter session.
///
/// `stack` is the operand stack, its top last. `vars` maps a name to the
/// value bound to it; a name that maps to `None` is reserved but holds no
/// value, and reads as unbound. `blocks` holds contexts that the embedding
/// program has set aside; evaluation never touches them. `output` collects
/// the lines written by `puts`, oldest first.
pub struct Vm {
    pub stack: Vec<Value>,
    pub vars: StringHashMap<Option<Value>>,
    pub blocks: Vec<Context>,
    pub output: Vec<String>,
}

/// The mathematical model of a [`Context`].
pub struct Scope {
    pub vars: Map<Seq<char>, Option<Term>>,
    pub stack: Seq<Term>,
}

/// The mathematical model of a [`Vm`].
pub struct State {
    pub stack: Seq<Term>,
    pub vars: Map<Seq<char>, Option<Term>>,
    pub blocks: Seq<Scope>,
    pub output: Seq<Seq<char>>,
}

/// The model of a variable table: each name with the term of its value.
pub open spec fn bindings(vars: Map<Seq<char>, Option<Value>>) -> Map<Seq<char>, Option<Term>> {
    Map::new(
        |name: Seq<char>| vars.contains_key(name),
        |name: Seq<char>|
            match vars[name] {
                Some(value) => Some(value@),
                None => None,
            },
    )
}

/// The character sequences of a list of lines.
pub open spec fn lines(output: Seq<String>) -> Seq<Seq<char>> {
    Seq::new(output.len(), |i: int| output[i]@)
}

impl View for Context {
    type V = Scope;

    open spec fn view(&self) -> Scope {
        Scope { vars: bindings(self.vars@), stack: terms(self.stack@) }
    }
}

impl View for Vm {
    type V = State;

    open spec fn view(&self) -> State {
        State {
            stack: terms(self.stack@),
            vars: bindings(self.vars@),
            blocks: Seq::new(self.blocks@.len(), |i: int| self.blocks@[i]@),
            output: lines(self.output@),
        }
    }
}

impl State {
    /// The state of a new session: nothing on the stack, nothing bound,
    /// nothing set aside, nothing written.
    pub open spec fn empty() -> State {
        State {
            stack: Seq::empty(),
            vars: Map::empty(),
            blocks: Seq::empty(),
            output: Seq::empty(),
        }
    }

    /// The operand `k` places below the top of the stack.
    pub open spec fn top(self, k: int) -> Term
        recommends
            0 <= k < self.stack.len(),
    {
        self.stack[self.stack.len() - 1 - k]
    }

    /// The state with `t` pushed on the stack.
    pub open spec fn push(self, t: Term) -> State {
        State { stack: self.stack.push(t), ..self }
    }

    /// The state with the top `n` operands removed.
    pub open spec fn pop(self, n: int) -> State
        recommends
            0 <= n <= self.stack.len(),
    {
        State { stack: self.stack.take(self.stack.len() - n), ..self }
    }

    /// The term that a reference to `name` pushes: the value bound to the
    /// name, or the symbol itself while the name is unbound.
    pub open spec fn resolve(self, name: Seq<char>) -> Term {
        if self.vars.contains_key(name) && self.vars[name] is Some {
            self.vars[name]->0
        } else {
            Term::Sym(name)
        }
    }
}

impl Vm {
    /// The state of a new session.
    pub fn new() -> (vm: Self)
        ensures
            vm@ == State::empty(),
            vm.stack@.len() == 0,
            vm.vars@ == Map::<Seq<char>, Option<Value>>::empty(),
            vm.blocks@.len() == 0,
            vm.output@.len() == 0,
    {
        let vm = Vm {
            stack: Vec::new(),
            vars: StringHashMap::new(),
            blocks: Vec::new(),
            output: Vec::new(),
        };
        assert(vm@.stack =~= Seq::empty());
        assert(vm@.vars =~= Map::empty());
        assert(vm@.blocks =~= Seq::empty());
        assert(vm@.output =~= Seq::empty());
        vm
    }
}

} // verus!
