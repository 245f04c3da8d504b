use vstd::prelude::*;

use std::rc::Rc;

verus! {

/// A cache of shared strings keyed by their content. Every stored handle holds exactly the
/// text of its key, so the cache is described by the set of texts it holds.
#[verifier::external_body]
pub struct StringCache {
    map: hashbrown::HashMap<String, Rc<String>>,
}

/// The texts held by a cache.
pub uninterp spec fn cache_contents(c: StringCache) -> Set<Seq<char>>;

impl StringCache {
    /// Relies on `hashbrown::HashMap::new`: an empty map.
    #[verifier::external_body]
    pub fn new() -> (r: StringCache)
        ensures
            cache_contents(r) == Set::<Seq<char>>::empty(),
    {
        StringCache { map: hashbrown::HashMap::new() }
    }

    /// Relies on `hashbrown::HashMap::get`: a hit exactly when the text was stored; the
    /// stored handle is shared, not copied.
    #[verifier::external_body]
    pub fn get(&self, s: &str) -> (r: Option<Rc<String>>)
        ensures
            r is Some <==> cache_contents(*self).contains(s@),
            r is Some ==> r->Some_0@ == s@,
    {
        self.map.get(s).cloned()
    }

    /// Relies on `hashbrown::HashMap::entry_ref`: returns the stored handle of `s`, storing
    /// a new one first when there is none.
    #[verifier::external_body]
    pub fn intern(&mut self, s: &str) -> (r: Rc<String>)
        ensures
            cache_contents(*final(self)) == cache_contents(*old(self)).insert(s@),
            r@ == s@,
    {
        self.map.entry_ref(s).or_insert_with(|| Rc::new(s.to_string())).clone()
    }
}

/// Relies on `Rc::clone`: the copy points to the same string.
#[verifier::external_body]
pub fn share(h: &Rc<String>) -> (r: Rc<String>)
    ensures
        r@ == h@,
{
    Rc::clone(h)
}

} // verus!
