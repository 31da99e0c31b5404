//! The flat variable store.  One namespace is shared by every active
//! call: names are created on first `set` and visible to all frames.
//!
//! Bindings are appended in the order the program makes them; the most
//! recent binding for a name is the one in force.  The store is viewed
//! as the map from each name to that value.

use vstd::prelude::*;

use crate::text::bytes_eq;

verus! {

/// One binding of a variable name to a value.
pub struct Binding {
    pub name: Vec<u8>,
    pub value: i32,
}

/// The variable store.
pub struct VarStore {
    pub entries: Vec<Binding>,
}

/// The mapping induced by a sequence of bindings: later entries shadow
/// earlier ones.
pub open spec fn bindings_map(s: Seq<Binding>) -> Map<Seq<u8>, i32>
    decreases s.len(),
{
    if s.len() == 0 {
        Map::empty()
    } else {
        bindings_map(s.drop_last()).insert(s.last().name@, s.last().value)
    }
}

impl View for VarStore {
    type V = Map<Seq<u8>, i32>;

    open spec fn view(&self) -> Map<Seq<u8>, i32> {
        bindings_map(self.entries@)
    }
}

/// Entries at positions `i` and beyond that never mention `k` do not
/// affect what the store holds for `k`.
proof fn lemma_bindings_prefix(s: Seq<Binding>, k: Seq<u8>, i: int)
    requires
        0 <= i <= s.len(),
        forall|j: int| i <= j < s.len() ==> s[j].name@ != k,
    ensures
        bindings_map(s).contains_key(k) == bindings_map(s.take(i)).contains_key(k),
        bindings_map(s).contains_key(k) ==> bindings_map(s)[k] == bindings_map(s.take(i))[k],
    decreases s.len() - i,
{
    if i == s.len() {
        assert(s.take(i) =~= s);
    } else {
        lemma_bindings_prefix(s, k, i + 1);
        assert(s.take(i + 1).drop_last() =~= s.take(i));
        assert(s.take(i + 1).last() == s[i]);
    }
}

impl VarStore {
    /// An empty store.
    pub fn new() -> (r: VarStore)
        ensures
            r@ == Map::<Seq<u8>, i32>::empty(),
    {
        VarStore { entries: Vec::new() }
    }

    /// The value bound to `name`, if any.
    pub fn lookup(&self, name: &[u8]) -> (r: Option<i32>)
        ensures
            match r {
                Some(v) => self@.contains_key(name@) && self@[name@] == v,
                None => !self@.contains_key(name@),
            },
    {
        let mut i: usize = self.entries.len();
        while i > 0
            invariant
                i <= self.entries@.len(),
                forall|j: int| i <= j < self.entries@.len() ==> self.entries@[j].name@ != name@,
            decreases i,
    {
            i -= 1;
            let b = &self.entries[i];
            if bytes_eq(b.name.as_slice(), name) {
                proof {
                    let s = self.entries@;
                    lemma_bindings_prefix(s, name@, i + 1);
                    assert(s.take(i + 1).drop_last() =~= s.take(i as int));
                    assert(s.take(i + 1).last() == s[i as int]);
                }
                return Some(b.value);
            }
        }
        proof {
            lemma_bindings_prefix(self.entries@, name@, 0);
            assert(self.entries@.take(0) =~= Seq::<Binding>::empty());
        }
        None
    }

    /// Binds `name` to `value`, shadowing any earlier binding.
    pub fn bind(&mut self, name: Vec<u8>, value: i32)
        ensures
            final(self)@ == old(self)@.insert(name@, value),
    {
        self.entries.push(Binding { name, value });
        proof {
            assert(self.entries@.drop_last() =~= old(self).entries@);
        }
    }
}

} // verus!
