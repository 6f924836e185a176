//! The layout of a stack frame: which variable lies how far below the top.

use crate::compiler::helper::{is_sized, size_of_type, type_size};
use crate::parser::ast::Type;
use vstd::prelude::*;
use vstd::string::StringExecFns;

verus! {

/// A variable on the stack.
pub struct StackEntry {
    name: String,
    declared_type: Type,
}

/// The model of a [`StackEntry`].
pub struct SpecEntry {
    pub name: Seq<char>,
    pub declared_type: Type,
}

impl View for StackEntry {
    type V = SpecEntry;

    closed spec fn view(&self) -> SpecEntry {
        SpecEntry { name: self.name@, declared_type: self.declared_type }
    }
}

/// The model of a [`Stack`]: its variables, the one pushed last at the
/// end, and the frame below it.
pub struct SpecStack {
    pub parent: Option<Box<SpecStack>>,
    pub variables: Seq<SpecEntry>,
}

/// The room that `variables` take together.
pub open spec fn frame_size(variables: Seq<SpecEntry>) -> nat
    decreases variables.len(),
{
    if variables.len() == 0 {
        0
    } else {
        frame_size(variables.drop_last()) + size_of_type(variables.last().declared_type)
    }
}

/// Where in a frame the variable `name` lies, and its type: the room
/// taken by the variables pushed behind it. Of several variables of one
/// name it is the one pushed last.
pub open spec fn find_in_frame(variables: Seq<SpecEntry>, name: Seq<char>) -> Option<(nat, Type)>
    decreases variables.len(),
{
    if variables.len() == 0 {
        None
    } else if variables.last().name == name {
        Some((0, variables.last().declared_type))
    } else {
        match find_in_frame(variables.drop_last(), name) {
            Some((offset, declared)) => Some(
                (offset + size_of_type(variables.last().declared_type), declared),
            ),
            None => None,
        }
    }
}

impl SpecStack {
    /// The room that the frame and all the frames below it take.
    pub open spec fn total_size(self) -> nat
        decreases self,
    {
        frame_size(self.variables) + match self.parent {
            Some(parent) => parent.total_size(),
            None => 0,
        }
    }

    /// Whether every variable, in this frame and below, can be held on
    /// the stack.
    pub open spec fn all_sized(self) -> bool
        decreases self,
    {
        &&& forall|i: int|
            0 <= i < self.variables.len() ==> is_sized(#[trigger] self.variables[i].declared_type)
        &&& match self.parent {
            Some(parent) => parent.all_sized(),
            None => true,
        }
    }

    /// Where the variable `name` lies below the top of the stack, and its
    /// type. A variable of this frame hides one of the same name below.
    pub open spec fn find(self, name: Seq<char>) -> Option<(nat, Type)>
        decreases self,
    {
        match find_in_frame(self.variables, name) {
            Some(found) => Some(found),
            None => match self.parent {
                Some(parent) => match parent.find(name) {
                    Some((offset, declared)) => Some(
                        (frame_size(self.variables) + offset, declared),
                    ),
                    None => None,
                },
                None => None,
            },
        }
    }
}

/// The variables of one stack frame, on top of the frame of the
/// enclosing function, if there is one.
pub struct Stack<'a> {
    parent: Option<&'a Stack<'a>>,
    variables: Vec<StackEntry>,
}

/// The model of a frame and of those below it.
pub closed spec fn stack_view(stack: Stack) -> SpecStack
    decreases stack,
{
    SpecStack {
        parent: match stack.parent {
            Some(parent) => Some(Box::new(stack_view(*parent))),
            None => None,
        },
        variables: stack.variables@.map_values(|entry: StackEntry| entry@),
    }
}

impl<'a> View for Stack<'a> {
    type V = SpecStack;

    closed spec fn view(&self) -> SpecStack {
        stack_view(*self)
    }
}

/// A variable lies inside its frame.
pub proof fn lemma_find_in_frame_bound(variables: Seq<SpecEntry>, name: Seq<char>)
    ensures
        find_in_frame(variables, name) matches Some((offset, _)) ==> offset <= frame_size(
            variables,
        ),
    decreases variables.len(),
{
    if variables.len() > 0 {
        lemma_find_in_frame_bound(variables.drop_last(), name);
    }
}

impl<'a> Stack<'a> {
    /// A stack is well formed where each of its variables can be held on
    /// the stack and their sizes add up within `usize`.
    pub open spec fn wf(&self) -> bool {
        self@.all_sized() && self@.total_size() <= usize::MAX
    }

    /// An empty frame with nothing below.
    pub fn new() -> (stack: Self)
        ensures
            stack.wf(),
            stack@.parent is None,
            stack@.variables == Seq::<SpecEntry>::empty(),
            stack@.total_size() == 0,
    {
        let stack = Stack { parent: None, variables: Vec::new() };
        assert(stack@.variables =~= Seq::<SpecEntry>::empty());
        stack
    }

    /// Pushes a variable on the frame.
    pub fn add_variable(&mut self, name: &str, declared: Type)
        requires
            old(self).wf(),
            is_sized(declared),
            old(self)@.total_size() + size_of_type(declared) <= usize::MAX,
        ensures
            final(self).wf(),
            final(self)@.parent == old(self)@.parent,
            final(self)@.variables == old(self)@.variables.push(
                SpecEntry { name: name@, declared_type: declared },
            ),
            final(self)@.total_size() == old(self)@.total_size() + size_of_type(declared),
    {
        self.variables.push(StackEntry { name: String::from_str(name), declared_type: declared });
        proof {
            let pushed = SpecEntry { name: name@, declared_type: declared };
            assert(self@.variables =~= old(self)@.variables.push(pushed));
            assert(self@.variables.drop_last() =~= old(self)@.variables);
        }
    }

    /// The room that this frame takes, without the frames below.
    pub fn size(&self) -> (size: usize)
        requires
            self.wf(),
        ensures
            size == frame_size(self@.variables),
    {
        let ghost variables = self@.variables;
        let mut size: usize = 0;
        let mut i: usize = 0;
        while i < self.variables.len()
            invariant
                i <= self.variables.len(),
                self.wf(),
                variables == self@.variables,
                variables.len() == self.variables.len(),
                size == frame_size(variables.take(i as int)),
                frame_size(variables) <= usize::MAX,
            decreases self.variables.len() - i,
        {
            proof {
                assert(variables.take(i + 1).drop_last() =~= variables.take(i as int));
                assert(variables[i as int] == self.variables[i as int]@);
                lemma_frame_prefix(variables, i + 1);
            }
            size += type_size(self.variables[i].declared_type);
            i += 1;
        }
        assert(variables.take(i as int) =~= variables);
        size
    }

    /// Where the variable `name` lies below the top of the stack, and its
    /// type.
    pub fn get_variable(&self, name: &str) -> (found: Option<(usize, Type)>)
        requires
            self.wf(),
        ensures
            match found {
                Some((offset, declared)) => self@.find(name@) == Some((offset as nat, declared)),
                None => self@.find(name@) is None,
            },
        decreases self,
    {
        let ghost variables = self@.variables;
        let wanted = String::from_str(name);
        let mut offset: usize = 0;
        let mut i: usize = self.variables.len();
        assert(variables.take(i as int) =~= variables);
        while i > 0
            invariant
                i <= self.variables.len(),
                self.wf(),
                wanted@ == name@,
                variables == self@.variables,
                variables.len() == self.variables.len(),
                frame_size(variables) <= usize::MAX,
                offset + frame_size(variables.take(i as int)) == frame_size(variables),
                find_in_frame(variables, name@) == match find_in_frame(
                    variables.take(i as int),
                    name@,
                ) {
                    Some((inner, declared)) => Some(((inner + offset) as nat, declared)),
                    None => None,
                },
            decreases i,
        {
            proof {
                assert(variables.take(i as int).drop_last() =~= variables.take(i - 1));
                assert(variables[i - 1] == self.variables[i - 1]@);
            }
            i -= 1;
            let entry = &self.variables[i];
            if entry.name == wanted {
                return Some((offset, entry.declared_type));
            }
            offset += type_size(entry.declared_type);
        }
        assert(variables.take(0) =~= Seq::<SpecEntry>::empty());
        match self.parent {
            Some(parent) => match parent.get_variable(name) {
                Some((below, declared)) => {
                    proof {
                        lemma_find_bound(parent@, name@);
                    }
                    Some((offset + below, declared))
                },
                None => None,
            },
            None => None,
        }
    }

    /// Where the variable `name` lies below the top of the stack.
    pub fn offset(&self, name: &str) -> (found: Option<usize>)
        requires
            self.wf(),
        ensures
            match found {
                Some(offset) => self@.find(name@) matches Some((o, _)) && o == offset,
                None => self@.find(name@) is None,
            },
    {
        match self.get_variable(name) {
            Some((offset, _)) => Some(offset),
            None => None,
        }
    }
}

/// A variable lies inside the stack.
pub proof fn lemma_find_bound(stack: SpecStack, name: Seq<char>)
    ensures
        stack.find(name) matches Some((offset, _)) ==> offset <= stack.total_size(),
    decreases stack,
{
    lemma_find_in_frame_bound(stack.variables, name);
    if let Some(parent) = stack.parent {
        lemma_find_bound(*parent, name);
    }
}

/// The first variables of a frame take no more room than all of them.
pub proof fn lemma_frame_prefix(variables: Seq<SpecEntry>, count: int)
    requires
        0 <= count <= variables.len(),
    ensures
        frame_size(variables.take(count)) <= frame_size(variables),
    decreases variables.len(),
{
    if count < variables.len() {
        assert(variables.drop_last().take(count) =~= variables.take(count));
        lemma_frame_prefix(variables.drop_last(), count);
    } else {
        assert(variables.take(count) =~= variables);
    }
}

} // verus!
