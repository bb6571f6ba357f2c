use vstd::prelude::*;

use std::collections::BTreeSet;

verus! {

broadcast use {vstd::std_specs::btree::group_btree_axioms, vstd::laws_cmp::group_laws_cmp};

/// Pages of translated code that a write has made stale; the recompiler must drop them before
/// it runs again.
pub struct PaginasSujas {
    paginas: BTreeSet<u32>,
}

impl PaginasSujas {
    pub closed spec fn view(&self) -> Set<u32> {
        self.paginas@
    }

    pub fn new() -> (r: Self)
        ensures
            r@ == Set::<u32>::empty(),
    {
        PaginasSujas { paginas: BTreeSet::new() }
    }

    pub fn insere(&mut self, pagina: u32)
        ensures
            final(self)@ == old(self)@.insert(pagina),
    {
        self.paginas.insert(pagina);
    }

    /// Hands out the stale pages and leaves the set empty.
    pub fn toma(&mut self) -> (r: BTreeSet<u32>)
        ensures
            r@ == old(self)@,
            final(self)@ == Set::<u32>::empty(),
    {
        let mut vazio: BTreeSet<u32> = BTreeSet::new();
        std::mem::swap(&mut vazio, &mut self.paginas);
        vazio
    }
}

} // verus!
