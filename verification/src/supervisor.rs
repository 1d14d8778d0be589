//! Failure policy: which actors to restart when one of them faults. The
//! supervisor decides; the owner of the scheduler, holding each actor's
//! construction recipe, performs the restarts.

use crate::actor::ActorId;
use vstd::prelude::*;

verus! {

/// What to restart when a child fails.
#[derive(Clone, Copy, PartialEq, Eq, Structural, Debug)]
pub enum Strategy {
    /// Only the failed actor.
    OneForOne,
    /// Every child.
    AllForOne,
}

/// The views of a list of actor ids.
pub open spec fn ids_view(s: Seq<ActorId>) -> Seq<Seq<char>> {
    s.map_values(|x: ActorId| x@)
}

/// A list of supervised children and the strategy applied on a failure.
pub struct Supervisor {
    children: Vec<ActorId>,
    strategy: Strategy,
}

impl Supervisor {
    /// The supervised children, in registration order.
    pub closed spec fn children_view(&self) -> Seq<Seq<char>> {
        ids_view(self.children@)
    }

    /// The strategy applied on a failure.
    pub closed spec fn spec_strategy(&self) -> Strategy {
        self.strategy
    }

    /// A supervisor with no children yet.
    pub fn new(strategy: Strategy) -> (r: Self)
        ensures
            r.children_view() == Seq::<Seq<char>>::empty(),
            r.spec_strategy() == strategy,
    {
        let r = Supervisor { children: Vec::new(), strategy };
        proof {
            assert(ids_view(r.children@) =~= Seq::<Seq<char>>::empty());
        }
        r
    }

    /// Registers one more child.
    pub fn add_child(&mut self, id: ActorId)
        ensures
            final(self).children_view() == old(self).children_view().push(id@),
            final(self).spec_strategy() == old(self).spec_strategy(),
    {
        let ghost pre = self.children@;
        self.children.push(id);
        proof {
            assert(ids_view(self.children@) =~= ids_view(pre).push(self.children@.last()@));
        }
    }

    /// The recovery decision for one failed actor: under one-for-one,
    /// restart exactly the failed actor; under all-for-one, restart every
    /// child.
    pub fn handle_failure(&self, actor_id: &ActorId) -> (r: Vec<ActorId>)
        ensures
            self.spec_strategy() == Strategy::OneForOne ==> ids_view(r@) == seq![actor_id@],
            self.spec_strategy() == Strategy::AllForOne ==> ids_view(r@) == self.children_view(),
    {
        match self.strategy {
            Strategy::OneForOne => {
                let mut r: Vec<ActorId> = Vec::new();
                r.push(actor_id.clone());
                proof {
                    assert(ids_view(r@) =~= seq![actor_id@]);
                }
                r
            },
            Strategy::AllForOne => {
                let mut r: Vec<ActorId> = Vec::new();
                let mut i: usize = 0;
                while i < self.children.len()
                    invariant
                        i <= self.children@.len(),
                        ids_view(r@) =~= ids_view(self.children@).take(i as int),
                    decreases self.children@.len() - i,
                {
                    let ghost pre = r@;
                    r.push(self.children[i].clone());
                    proof {
                        assert(ids_view(r@) =~= ids_view(pre).push(r@.last()@));
                        assert(ids_view(r@) =~= ids_view(self.children@).take(i + 1));
                    }
                    i = i + 1;
                }
                proof {
                    assert(ids_view(self.children@).take(self.children@.len() as int)
                        =~= ids_view(self.children@));
                }
                r
            },
        }
    }
}

} // verus!
