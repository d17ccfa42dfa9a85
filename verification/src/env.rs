//! Scopes: a chain of name-to-value bindings. A scope reads through to its
//! parent and is written only in itself.

use vstd::prelude::*;
use crate::misc::text_eq;
use crate::model::Frame;
use crate::model::Name;
use crate::model::Scopes;
use crate::model::Sexp;
use crate::model::bind;
use crate::model::lookup;
use crate::parse::Value;

verus! {

/// One binding of a scope.
pub struct Binding {
    pub name: String,
    pub value: Value,
}

/// The map that a list of bindings stands for: a later binding of a name
/// hides an earlier one.
pub open spec fn frame_of(bindings: Seq<Binding>) -> Frame
    decreases bindings.len(),
{
    if bindings.len() == 0 {
        Map::empty()
    } else {
        frame_of(bindings.drop_last()).insert(bindings.last().name@, bindings.last().value@)
    }
}

/// The last binding of a name is the one that the map holds.
proof fn lemma_frame_found(bindings: Seq<Binding>, name: Name, i: int)
    requires
        0 <= i < bindings.len(),
        bindings[i].name@ == name,
        forall|j: int| i < j < bindings.len() ==> bindings[j].name@ != name,
    ensures
        frame_of(bindings).contains_key(name),
        frame_of(bindings)[name] == bindings[i].value@,
    decreases bindings.len(),
{
    if i < bindings.len() - 1 {
        lemma_frame_found(bindings.drop_last(), name, i);
    }
}

/// A name that no binding has is not in the map.
proof fn lemma_frame_absent(bindings: Seq<Binding>, name: Name)
    requires
        forall|j: int| 0 <= j < bindings.len() ==> bindings[j].name@ != name,
    ensures
        !frame_of(bindings).contains_key(name),
    decreases bindings.len(),
{
    if bindings.len() > 0 {
        lemma_frame_absent(bindings.drop_last(), name);
    }
}

/// Replacing the last binding of a name rebinds the name in the map.
proof fn lemma_frame_replaced(bindings: Seq<Binding>, i: int, binding: Binding)
    requires
        0 <= i < bindings.len(),
        bindings[i].name@ == binding.name@,
        forall|j: int| i < j < bindings.len() ==> bindings[j].name@ != binding.name@,
    ensures
        frame_of(bindings.update(i, binding)) == frame_of(bindings).insert(
            binding.name@,
            binding.value@,
        ),
    decreases bindings.len(),
{
    let after = bindings.update(i, binding);
    if i == bindings.len() - 1 {
        assert(after.drop_last() =~= bindings.drop_last());
    } else {
        lemma_frame_replaced(bindings.drop_last(), i, binding);
        assert(after.drop_last() =~= bindings.drop_last().update(i, binding));
    }
}

/// What an optional value stands for.
pub open spec fn option_view(value: Option<Value>) -> Option<Sexp> {
    match value {
        Some(v) => Some(v@),
        None => None,
    }
}

/// A scope with the chain of scopes around it.
pub struct Env<'a> {
    parent: Option<&'a Env<'a>>,
    bindings: Vec<Binding>,
}

impl<'a> View for Env<'a> {
    type V = Scopes;

    /// The chain from the root to this scope.
    closed spec fn view(&self) -> Scopes {
        self.chain()
    }
}

impl<'a> Env<'a> {
    /// The chain from the root to this scope.
    spec fn chain(&self) -> Scopes
        decreases self,
    {
        match self.parent {
            None => seq![frame_of(self.bindings@)],
            Some(parent) => parent.chain().push(frame_of(self.bindings@)),
        }
    }

    /// A chain is never empty: it ends in the scope itself.
    pub proof fn lemma_nonempty(&self)
        ensures
            self@.len() >= 1,
    {
    }

    /// The root scope, with no binding.
    pub fn new() -> (r: Env<'a>)
        ensures
            r@ == seq![Map::<Name, Sexp>::empty()],
    {
        Env { parent: None, bindings: Vec::new() }
    }

    /// An empty scope inside `parent`.
    pub fn extend(parent: &'a Env<'a>) -> (r: Env<'a>)
        ensures
            r@ == parent@.push(Map::<Name, Sexp>::empty()),
    {
        Env { parent: Some(parent), bindings: Vec::new() }
    }

    /// This scope's own bindings, as a scope inside `parent`.
    pub fn nest(self, parent: &'a Env<'a>) -> (r: Env<'a>)
        ensures
            r@ == parent@.push(self@.last()),
    {
        Env { parent: Some(parent), bindings: self.bindings }
    }

    /// The value of a name: that of the innermost scope of the chain that
    /// binds it, if any does.
    pub fn get(&self, name: &str) -> (r: Option<Value>)
        ensures
            option_view(r) == lookup(self@, name@),
        decreases self,
    {
        let mut i: usize = self.bindings.len();
        while i > 0
            invariant
                i <= self.bindings.len(),
                forall|j: int| i <= j < self.bindings.len() ==> self.bindings@[j].name@ != name@,
            decreases i,
        {
            i -= 1;
            if text_eq(self.bindings[i].name.as_str(), name) {
                proof {
                    lemma_frame_found(self.bindings@, name@, i as int);
                }
                return Some(self.bindings[i].value.clone());
            }
        }
        proof {
            lemma_frame_absent(self.bindings@, name@);
        }
        match self.parent {
            Some(parent) => {
                assert(self@.drop_last() =~= parent@);
                assert(lookup(self@, name@) == lookup(self@.drop_last(), name@));
                parent.get(name)
            },
            None => None,
        }
    }

    /// Binds a name in this scope, whatever the scopes around it hold.
    pub fn set(&mut self, name: &str, val: Value)
        ensures
            final(self)@ == bind(old(self)@, name@, val@),
    {
        let mut i: usize = self.bindings.len();
        while i > 0
            invariant
                i <= self.bindings.len(),
                *self == *old(self),
                forall|j: int| i <= j < self.bindings.len() ==> self.bindings@[j].name@ != name@,
            decreases i,
        {
            i -= 1;
            if text_eq(self.bindings[i].name.as_str(), name) {
                let binding = Binding { name: name.to_owned(), value: val };
                proof {
                    lemma_frame_replaced(self.bindings@, i as int, binding);
                }
                self.bindings.set(i, binding);
                return;
            }
        }
        self.bindings.push(Binding { name: name.to_owned(), value: val });
        assert(self.bindings@.drop_last() =~= old(self).bindings@);
    }
}

} // verus!
