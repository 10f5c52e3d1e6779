//! The values of expressions, and the variables that hold them.

use vstd::prelude::*;

use crate::kernel::semantics::{self, EnvView, EvalView};
use crate::model::EntityId;
use crate::text;

verus! {

/// A copy of a list of entities.
pub fn copied(ids: &Vec<EntityId>) -> (r: Vec<EntityId>)
    ensures
        r@ == ids@,
{
    let mut out: Vec<EntityId> = Vec::new();
    for i in 0..ids.len()
        invariant
            out@ == ids@.take(i as int),
    {
        out.push(ids[i]);
    }
    assert(ids@.take(ids@.len() as int) =~= ids@);
    out
}

/// The value of an expression.
#[derive(Debug)]
pub enum EvalResult {
    Entity(EntityId),
    EntitySet(Vec<EntityId>),
    Literal(String),
    Empty,
}

impl View for EvalResult {
    type V = EvalView;

    open spec fn view(&self) -> EvalView {
        match self {
            EvalResult::Entity(id) => EvalView::Entity(*id),
            EvalResult::EntitySet(ids) => EvalView::EntitySet(ids@),
            EvalResult::Literal(s) => EvalView::Literal(s@),
            EvalResult::Empty => EvalView::Empty,
        }
    }
}

impl Clone for EvalResult {
    fn clone(&self) -> (r: Self)
        ensures
            r@ == self@,
    {
        match self {
            EvalResult::Entity(id) => EvalResult::Entity(*id),
            EvalResult::EntitySet(ids) => EvalResult::EntitySet(copied(ids)),
            EvalResult::Literal(s) => EvalResult::Literal(s.clone()),
            EvalResult::Empty => EvalResult::Empty,
        }
    }
}

impl EvalResult {
    /// Whether there is nothing in the value.
    pub fn is_empty(&self) -> (r: bool)
        ensures
            r == (match self@ {
                EvalView::EntitySet(ids) => ids.len() == 0,
                EvalView::Literal(s) => s.len() == 0,
                EvalView::Empty => true,
                EvalView::Entity(_) => false,
            }),
    {
        match self {
            EvalResult::EntitySet(ids) => ids.len() == 0,
            EvalResult::Literal(s) => text::is_empty(s.as_str()),
            EvalResult::Empty => true,
            EvalResult::Entity(_) => false,
        }
    }

    /// The nodes that the value stands for.
    pub fn nodes(&self) -> (r: Vec<EntityId>)
        ensures
            r@ == semantics::nodes_of(self@),
    {
        match self {
            EvalResult::EntitySet(ids) => copied(ids),
            EvalResult::Entity(id) => {
                let r: Vec<EntityId> = vec![*id];
                assert(r@ =~= seq![*id]);
                r
            },
            _ => Vec::new(),
        }
    }
}

/// The variables in scope, the one bound last at the end.
#[derive(Debug)]
pub struct Env {
    bindings: Vec<(String, EvalResult)>,
}

pub closed spec fn binding_views(bindings: Seq<(String, EvalResult)>) -> EnvView {
    Seq::new(bindings.len(), |i: int| (bindings[i].0@, bindings[i].1@))
}

impl View for Env {
    type V = EnvView;

    closed spec fn view(&self) -> EnvView {
        binding_views(self.bindings@)
    }
}

impl Clone for Env {
    fn clone(&self) -> (r: Self)
        ensures
            r@ == self@,
    {
        let mut bindings: Vec<(String, EvalResult)> = Vec::new();
        for i in 0..self.bindings.len()
            invariant
                binding_views(bindings@) == self@.take(i as int),
        {
            let ghost before = bindings@;
            let value = self.bindings[i].1.clone();
            bindings.push((self.bindings[i].0.clone(), value));
            assert(binding_views(bindings@) =~= self@.take(i + 1)) by {
                assert(binding_views(bindings@) =~= binding_views(before).push(self@[i as int]));
                assert(self@.take(i + 1) =~= self@.take(i as int).push(self@[i as int]));
            }
        }
        assert(self@.take(self@.len() as int) =~= self@);
        Env { bindings }
    }
}

impl Default for Env {
    fn default() -> (r: Self)
        ensures
            r@ == EnvView::empty(),
    {
        Env::new()
    }
}

impl Env {
    /// No variables.
    pub fn new() -> (r: Self)
        ensures
            r@ == EnvView::empty(),
    {
        let r = Env { bindings: Vec::new() };
        assert(r@ =~= EnvView::empty());
        r
    }

    /// Binds a variable. A former value is forgotten.
    pub fn bind(&mut self, name: String, value: EvalResult)
        ensures
            final(self)@ == semantics::bound(old(self)@, name@, value@),
    {
        let ghost all = self@;
        let ghost mut seen: int = 0;
        let mut i: usize = 0;
        assert(self@ =~= semantics::without(all.take(0), name@) + all.skip(0));
        while i < self.bindings.len()
            invariant
                0 <= seen <= all.len(),
                i == semantics::without(all.take(seen), name@).len(),
                self@ == semantics::without(all.take(seen), name@) + all.skip(seen),
            decreases self.bindings.len() - i,
        {
            let ghost before = self@;
            assert(before.len() == self.bindings@.len());
            assert(before[i as int] == all[seen]);
            assert(all.take(seen + 1).drop_last() =~= all.take(seen));
            let ghost kept = semantics::without(all.take(seen), name@);
            if self.bindings[i].0 == name {
                self.bindings.remove(i);
                assert(self@ =~= before.remove(i as int));
                assert(self@ =~= kept + all.skip(seen + 1));
            } else {
                i = i + 1;
                assert(before =~= kept.push(all[seen]) + all.skip(seen + 1));
            }
            proof {
                seen = seen + 1;
            }
        }
        assert(self@.len() == self.bindings@.len());
        assert(all.take(seen) =~= all);
        assert(self@ =~= semantics::without(all, name@));
        let ghost kept = self@;
        let ghost pair = (name@, value@);
        self.bindings.push((name, value));
        assert(self@ =~= kept.push(pair));
    }

    /// The value of a variable.
    pub fn get(&self, name: &str) -> (r: Option<&EvalResult>)
        ensures
            match r {
                Some(value) => semantics::lookup(self@, name@) == Some(value@),
                None => semantics::lookup(self@, name@) is None,
            },
    {
        let mut i: usize = self.bindings.len();
        assert(self@.take(i as int) =~= self@);
        while i > 0
            invariant
                i <= self@.len(),
                self@.len() == self.bindings.len(),
                semantics::lookup(self@, name@) == semantics::lookup(self@.take(i as int), name@),
            decreases i,
        {
            i = i - 1;
            assert(self@.take(i + 1).drop_last() =~= self@.take(i as int));
            if text::same_text(self.bindings[i].0.as_str(), name) {
                return Some(&self.bindings[i].1);
            }
        }
        None
    }

    /// The entity bound last.
    pub fn last_entity(&self) -> (r: Option<EntityId>)
        ensures
            r == semantics::context_entity(self@),
    {
        let mut i: usize = self.bindings.len();
        assert(self@.take(i as int) =~= self@);
        while i > 0
            invariant
                i <= self@.len(),
                self@.len() == self.bindings.len(),
                semantics::context_entity(self@) == semantics::context_entity(
                    self@.take(i as int),
                ),
            decreases i,
        {
            i = i - 1;
            assert(self@.take(i + 1).drop_last() =~= self@.take(i as int));
            if let EvalResult::Entity(id) = &self.bindings[i].1 {
                return Some(*id);
            }
        }
        None
    }
}

} // verus!
