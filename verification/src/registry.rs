//! The names of the scratch directories that this process owns.
//!
//! Authoritative for the process's own pid, which is the only thing that can
//! distinguish a live launch from an orphan left by a previous process that
//! happened to hold the same pid number. A pid probe cannot: it reports both as
//! alive.

use vstd::hash_set::StringHashSet;
use vstd::prelude::*;

verus! {

/// The set of claimed names.
pub struct Registry {
    names: StringHashSet,
}

impl View for Registry {
    type V = Set<Seq<char>>;

    closed spec fn view(&self) -> Set<Seq<char>> {
        self.names@
    }
}

/// An empty registry: what a process starts with.
pub fn registry() -> (r: Registry)
    ensures
        r@ == Set::<Seq<char>>::empty(),
{
    Registry { names: StringHashSet::new() }
}

impl Registry {
    /// Claims `name`. `true` when the name was newly inserted.
    pub fn register(&mut self, name: &str) -> (newly: bool)
        ensures
            final(self)@ == old(self)@.insert(name@),
            newly == !old(self)@.contains(name@),
    {
        self.names.insert(name.to_owned())
    }

    /// Gives `name` up. A name that was not claimed is left unclaimed.
    pub fn unregister(&mut self, name: &str)
        ensures
            final(self)@ == old(self)@.remove(name@),
    {
        let _ = self.names.remove(name);
    }

    /// Whether `name` is claimed.
    pub fn is_registered(&self, name: &str) -> (claimed: bool)
        ensures
            claimed == self@.contains(name@),
    {
        self.names.contains(name)
    }
}

/// A name is claimed by one launch at a time: once registered it cannot be
/// registered again, and once given up it can.
pub proof fn law_registration_is_exclusive(claimed: Set<Seq<char>>, name: Seq<char>)
    ensures
        claimed.insert(name).contains(name),
        claimed.insert(name).insert(name) == claimed.insert(name),
        !claimed.insert(name).remove(name).contains(name),
        !claimed.contains(name) ==> claimed.insert(name).remove(name) == claimed,
{
    assert(claimed.insert(name).insert(name) =~= claimed.insert(name));
    if !claimed.contains(name) {
        assert(claimed.insert(name).remove(name) =~= claimed);
    }
}

/// Claiming or giving up one name leaves every other name as it was.
pub proof fn law_registration_is_local(claimed: Set<Seq<char>>, name: Seq<char>, other: Seq<char>)
    requires
        other != name,
    ensures
        claimed.insert(name).contains(other) == claimed.contains(other),
        claimed.remove(name).contains(other) == claimed.contains(other),
{
}

/// A process starts with no name claimed.
pub proof fn law_nothing_is_claimed_at_first(names: Registry, name: &str, claimed: bool)
    requires
        call_ensures(registry, (), names),
        call_ensures(Registry::is_registered, (&names, name), claimed),
    ensures
        !claimed,
{
}

/// After a claim its name is claimed, and any other is if it was before. The claim
/// says whether its own name was not.
pub proof fn law_a_claim_claims_one_name(
    names: &mut Registry,
    name: &str,
    newly: bool,
    other: &str,
    had_name: bool,
    had_other: bool,
    has_other: bool,
)
    requires
        call_ensures(Registry::is_registered, (&*old(names), name), had_name),
        call_ensures(Registry::is_registered, (&*old(names), other), had_other),
        call_ensures(Registry::register, (names, name), newly),
        call_ensures(Registry::is_registered, (&*final(names), other), has_other),
    ensures
        newly == !had_name,
        has_other == (other@ == name@ || had_other),
{
}

/// After a name is given up it is not claimed, and any other is if it was before.
pub proof fn law_giving_up_gives_up_one_name(
    names: &mut Registry,
    name: &str,
    other: &str,
    had_other: bool,
    has_other: bool,
)
    requires
        call_ensures(Registry::is_registered, (&*old(names), other), had_other),
        call_ensures(Registry::unregister, (names, name), ()),
        call_ensures(Registry::is_registered, (&*final(names), other), has_other),
    ensures
        has_other == (other@ != name@ && had_other),
{
}

} // verus!
