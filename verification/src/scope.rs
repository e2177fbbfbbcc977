//! A lexical scope kept as a stack of bindings.
//!
//! A binding is pushed on top; a lookup finds the topmost binding of a name;
//! leaving a nested scope cuts the stack back to the depth it had on entry.

use vstd::prelude::*;

verus! {

/// What a stack of bindings makes visible: of two bindings of one name, the
/// later one.
pub open spec fn visible<V>(entries: Seq<(String, V)>) -> Map<Seq<char>, V>
    decreases entries.len(),
{
    if entries.len() == 0 {
        Map::empty()
    } else {
        visible(entries.drop_last()).insert(entries.last().0@, entries.last().1)
    }
}

/// A stack of bindings from names to values of type `V`.
pub struct Scope<V> {
    entries: Vec<(String, V)>,
}

impl<V> View for Scope<V> {
    type V = Map<Seq<char>, V>;

    /// The bindings that are visible.
    closed spec fn view(&self) -> Map<Seq<char>, V> {
        visible(self.entries@)
    }
}

impl<V> Scope<V> {
    /// The number of bindings on the stack.
    pub closed spec fn spec_depth(&self) -> nat {
        self.entries@.len()
    }

    /// The lowest `depth` bindings of the stack, oldest first.
    pub closed spec fn prefix(&self, depth: nat) -> Seq<(String, V)> {
        self.entries@.take(depth as int)
    }

    /// The scope without bindings.
    pub fn new() -> (scope: Self)
        ensures
            scope@ == Map::<Seq<char>, V>::empty(),
            scope.spec_depth() == 0,
    {
        Scope { entries: Vec::new() }
    }

    /// The number of bindings on the stack. What is visible is what the
    /// whole stack binds.
    pub fn depth(&self) -> (depth: usize)
        ensures
            depth == self.spec_depth(),
            self@ == visible(self.prefix(depth as nat)),
    {
        assert(self.entries@.take(self.entries@.len() as int) =~= self.entries@);
        self.entries.len()
    }

    /// The value that `name` is bound to, if it is bound.
    pub fn lookup(&self, name: &String) -> (found: Option<&V>)
        ensures
            match found {
                Some(value) => self@.contains_key(name@) && self@[name@] == *value,
                None => !self@.contains_key(name@),
            },
    {
        let mut i: usize = self.entries.len();
        assert(self.entries@.take(i as int) =~= self.entries@);
        while i > 0
            invariant
                i <= self.entries.len(),
                visible(self.entries@).contains_key(name@) <==> visible(
                    self.entries@.take(i as int),
                ).contains_key(name@),
                visible(self.entries@).contains_key(name@) ==> visible(self.entries@)[name@]
                    == visible(self.entries@.take(i as int))[name@],
            decreases i,
        {
            proof {
                let upto = self.entries@.take(i as int);
                assert(upto.drop_last() =~= self.entries@.take(i - 1));
                assert(upto.last() == self.entries@[i - 1]);
            }
            i = i - 1;
            let entry = &self.entries[i];
            if entry.0 == *name {
                return Some(&entry.1);
            }
        }
        None
    }

    /// Binds `name` to `value` on top of the stack, hiding an earlier
    /// binding of `name`.
    pub fn bind(&mut self, name: String, value: V)
        ensures
            final(self)@ == old(self)@.insert(name@, value),
            final(self).spec_depth() == old(self).spec_depth() + 1,
            forall|depth: nat|
                depth <= old(self).spec_depth() ==> #[trigger] final(self).prefix(depth) == old(
                    self,
                ).prefix(depth),
    {
        self.entries.push((name, value));
        proof {
            assert(self.entries@.drop_last() =~= old(self).entries@);
            assert forall|depth: nat| depth <= old(self).spec_depth() implies #[trigger] self.prefix(
                depth,
            ) == old(self).prefix(depth) by {
                assert(self.entries@.take(depth as int) =~= old(self).entries@.take(depth as int));
            }
        }
    }

    /// Cuts the stack back to its lowest `depth` bindings.
    pub fn rewind(&mut self, depth: usize)
        requires
            depth <= old(self).spec_depth(),
        ensures
            final(self)@ == visible(old(self).prefix(depth as nat)),
            final(self).spec_depth() == depth,
            forall|below: nat|
                below <= depth ==> #[trigger] final(self).prefix(below) == old(self).prefix(below),
    {
        self.entries.truncate(depth);
        proof {
            assert(self.entries@ =~= old(self).entries@.take(depth as int));
            assert forall|below: nat| below <= depth implies #[trigger] self.prefix(below) == old(
                self,
            ).prefix(below) by {
                assert(self.entries@.take(below as int) =~= old(self).entries@.take(below as int));
            }
        }
    }
}

} // verus!
