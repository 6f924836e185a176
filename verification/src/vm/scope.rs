//! The binding environment: a stack of variable layers over a flat
//! registry of functions.

use crate::parser::ast::{FunctionNode, SpecFunction};
use crate::vm::block::return_view;
use crate::vm::error::{EvalError, SpecError};
use crate::vm::function::{call, run_function, values_view};
use crate::vm::value::{SpecValue, Value};
use vstd::hash_map::StringHashMap;
use vstd::prelude::*;
use vstd::string::StringExecFns;

verus! {

/// The model of one layer: the variables it binds, by name.
pub type Layer = Map<Seq<char>, SpecValue>;

/// The model of a [`Scope`].
pub struct SpecScope {
    /// The layers, outermost first and innermost last.
    pub layers: Seq<Layer>,
    /// The registered functions, by name.
    pub functions: Map<Seq<char>, SpecFunction>,
}

/// The index of the innermost layer, among the first `depth` layers, that
/// binds `name`.
pub open spec fn innermost_binding(layers: Seq<Layer>, depth: int, name: Seq<char>) -> Option<int>
    decreases depth,
{
    if depth <= 0 {
        None
    } else if layers[depth - 1].contains_key(name) {
        Some(depth - 1)
    } else {
        innermost_binding(layers, depth - 1, name)
    }
}

/// The value that `name` resolves to: that of its innermost binding.
pub open spec fn lookup(layers: Seq<Layer>, name: Seq<char>) -> Option<SpecValue> {
    match innermost_binding(layers, layers.len() as int, name) {
        Some(i) => Some(layers[i][name]),
        None => None,
    }
}

/// The layers after declaring `name` in the innermost layer.
pub open spec fn declare(layers: Seq<Layer>, name: Seq<char>, value: SpecValue) -> Seq<Layer> {
    layers.update(layers.len() - 1, layers.last().insert(name, value))
}

/// The layers after assigning to `name`: its innermost binding holds
/// `value`, and nothing else has changed. Without a binding nothing changes.
pub open spec fn assign(layers: Seq<Layer>, name: Seq<char>, value: SpecValue) -> Seq<Layer> {
    match innermost_binding(layers, layers.len() as int, name) {
        Some(i) => layers.update(i, layers[i].insert(name, value)),
        None => layers,
    }
}

/// What [`innermost_binding`] finds is a layer that binds the name, with no
/// layer further in that binds it too; it finds nothing only where no layer
/// binds the name.
pub proof fn lemma_innermost_binding(layers: Seq<Layer>, depth: int, name: Seq<char>)
    requires
        0 <= depth <= layers.len(),
    ensures
        match innermost_binding(layers, depth, name) {
            Some(i) => {
                &&& 0 <= i < depth
                &&& layers[i].contains_key(name)
                &&& forall|j: int| i < j < depth ==> !(#[trigger] layers[j]).contains_key(name)
            },
            None => forall|j: int| 0 <= j < depth ==> !(#[trigger] layers[j]).contains_key(name),
        },
    decreases depth,
{
    if depth > 0 && !layers[depth - 1].contains_key(name) {
        lemma_innermost_binding(layers, depth - 1, name);
    }
}

/// The model of the variables of one layer.
pub open spec fn layer_view(layer: Map<Seq<char>, Value>) -> Layer {
    layer.map_values(|value: Value| value@)
}

/// A stack of variable layers, innermost last, and the function registry.
pub struct Scope {
    layers: Vec<StringHashMap<Value>>,
    functions: StringHashMap<FunctionNode>,
}

impl View for Scope {
    type V = SpecScope;

    closed spec fn view(&self) -> SpecScope {
        SpecScope {
            layers: Seq::new(self.layers@.len(), |i: int| layer_view(self.layers@[i]@)),
            functions: self.functions@.map_values(|function: FunctionNode| function@),
        }
    }
}

impl Scope {
    /// A scope always has at least one layer.
    pub open spec fn wf(&self) -> bool {
        self@.layers.len() >= 1
    }

    /// A scope with one empty layer and no functions.
    pub fn new() -> (scope: Scope)
        ensures
            scope.wf(),
            scope@.layers == seq![Map::<Seq<char>, SpecValue>::empty()],
            scope@.functions == Map::<Seq<char>, SpecFunction>::empty(),
    {
        let mut layers: Vec<StringHashMap<Value>> = Vec::new();
        layers.push(StringHashMap::new());
        let scope = Scope { layers, functions: StringHashMap::new() };
        assert(scope@.layers =~~= seq![Map::<Seq<char>, SpecValue>::empty()]);
        assert(scope@.functions =~= Map::<Seq<char>, SpecFunction>::empty());
        scope
    }

    /// Opens a new, empty innermost layer.
    pub(crate) fn push_layer(&mut self)
        ensures
            final(self)@.layers == old(self)@.layers.push(Map::empty()),
            final(self)@.functions == old(self)@.functions,
    {
        self.layers.push(StringHashMap::new());
        assert(self@.layers =~~= old(self)@.layers.push(Map::empty()));
    }

    /// Closes the innermost layer and forgets its bindings. The outermost
    /// layer cannot be closed.
    pub(crate) fn pop_layer(&mut self)
        requires
            old(self)@.layers.len() > 1,
        ensures
            final(self)@.layers == old(self)@.layers.drop_last(),
            final(self)@.functions == old(self)@.functions,
    {
        self.layers.pop();
        assert(self@.layers =~~= old(self)@.layers.drop_last());
    }

    /// Runs `f` inside a fresh layer, which is closed again when `f` returns.
    ///
    /// `f` has to accept the scope with the fresh layer on top and to hand
    /// it back with as many layers as it got, as everything does that
    /// works through the methods of this type. The scope is then what `f`
    /// left, less the layer that was opened for it.
    pub fn subscope<T, F>(&mut self, f: F) -> (result: T) where F: FnOnce(&mut Scope) -> T
        requires
            old(self).wf(),
            forall|inner: &mut Scope|
                mut_ref_current(inner)@.layers == old(self)@.layers.push(Map::empty())
                    && mut_ref_current(inner)@.functions == old(self)@.functions
                    ==> #[trigger] f.requires((inner,)),
            forall|inner: &mut Scope, output: T| #[trigger]
                f.ensures((inner,), output) ==> mut_ref_future(inner)@.layers.len()
                    == mut_ref_current(inner)@.layers.len(),
        ensures
            exists|inner: &mut Scope|
                {
                    &&& mut_ref_current(inner)@.layers == old(self)@.layers.push(Map::empty())
                    &&& mut_ref_current(inner)@.functions == old(self)@.functions
                    &&& #[trigger] f.ensures((inner,), result)
                    &&& final(self)@.layers == mut_ref_future(inner)@.layers.drop_last()
                    &&& final(self)@.functions == mut_ref_future(inner)@.functions
                },
    {
        self.push_layer();
        let result = f(self);
        self.pop_layer();
        result
    }

    /// Binds `name` to `value` in the innermost layer, replacing a binding
    /// of that layer with the same name.
    pub fn add_variable(&mut self, name: &str, value: Value)
        requires
            old(self).wf(),
        ensures
            final(self)@.layers == declare(old(self)@.layers, name@, value@),
            final(self)@.functions == old(self)@.functions,
    {
        let last = self.layers.len() - 1;
        self.layers[last].insert(String::from_str(name), value);
        assert(self@.layers =~~= declare(old(self)@.layers, name@, value@));
    }

    /// The value that `name` resolves to, searching from the innermost layer
    /// outwards.
    pub fn get_variable(&self, name: &str) -> (result: Option<&Value>)
        ensures
            match result {
                Some(value) => lookup(self@.layers, name@) == Some(value@),
                None => lookup(self@.layers, name@) is None,
            },
    {
        let mut i: usize = self.layers.len();
        while i > 0
            invariant
                i <= self.layers.len(),
                innermost_binding(self@.layers, self@.layers.len() as int, name@)
                    == innermost_binding(self@.layers, i as int, name@),
            decreases i,
        {
            i -= 1;
            match self.layers[i].get(name) {
                Some(value) => {
                    return Some(value);
                },
                None => {},
            }
        }
        None
    }

    /// A copy of the value that `name` resolves to.
    pub fn clone_variable(&self, name: &str) -> (result: Option<Value>)
        ensures
            match result {
                Some(value) => lookup(self@.layers, name@) == Some(value@),
                None => lookup(self@.layers, name@) is None,
            },
    {
        match self.get_variable(name) {
            Some(value) => Some(value.clone()),
            None => None,
        }
    }

    /// Replaces the value of the innermost binding of `name`, in the layer
    /// that holds it. No binding is created: without one the scope is left
    /// as it was and the result is [`EvalError::UndefinedVariable`].
    pub fn set_variable(&mut self, name: &str, value: Value) -> (result: Result<(), EvalError>)
        ensures
            final(self)@.layers == assign(old(self)@.layers, name@, value@),
            final(self)@.layers.len() == old(self)@.layers.len(),
            final(self)@.functions == old(self)@.functions,
            match result {
                Ok(_) => lookup(old(self)@.layers, name@) is Some,
                Err(error) => lookup(old(self)@.layers, name@) is None && error@
                    == SpecError::UndefinedVariable(name@),
            },
    {
        let mut i: usize = self.layers.len();
        while i > 0
            invariant
                i <= self.layers.len(),
                *self == *old(self),
                innermost_binding(self@.layers, self@.layers.len() as int, name@)
                    == innermost_binding(self@.layers, i as int, name@),
            decreases i,
        {
            i -= 1;
            if self.layers[i].contains_key(name) {
                self.layers[i].insert(String::from_str(name), value);
                assert(self@.layers =~~= assign(old(self)@.layers, name@, value@));
                return Ok(());
            }
        }
        Err(EvalError::UndefinedVariable(String::from_str(name)))
    }

    /// Registers `function` under its name. A function registered earlier
    /// under the same name is replaced.
    pub fn add_function(&mut self, function: &FunctionNode)
        ensures
            final(self)@.layers == old(self)@.layers,
            final(self)@.functions == old(self)@.functions.insert(function.name@, function@),
    {
        self.functions.insert(function.name.clone(), function.clone());
        assert(self@.functions =~= old(self)@.functions.insert(function.name@, function@));
    }

    /// Calls the function registered under `name` on `args`.
    ///
    /// The callee runs in a frame stack of its own, which starts as one
    /// empty layer and is dropped when the call ends, however it ends. It
    /// can neither read nor change the variables of its caller, so the
    /// scope is afterwards as it was before.
    pub fn call_function(&mut self, name: &str, args: Vec<Value>) -> (result: Result<
        Option<Value>,
        EvalError,
    >)
        ensures
            return_view(result) == call(old(self)@.functions, name@, values_view(args@)),
            final(self)@ == old(self)@,
    {
        let function = match self.functions.get(name) {
            Some(function) => function.clone(),
            None => {
                return Err(EvalError::UndefinedFunction(String::from_str(name)));
            },
        };
        let mut frames: Vec<StringHashMap<Value>> = Vec::new();
        frames.push(StringHashMap::new());
        std::mem::swap(&mut self.layers, &mut frames);
        assert(self@.layers =~~= seq![Map::<Seq<char>, SpecValue>::empty()]);
        let result = run_function(&function, self, args);
        std::mem::swap(&mut self.layers, &mut frames);
        assert(self@.layers =~~= old(self)@.layers);
        result
    }
}

} // verus!
