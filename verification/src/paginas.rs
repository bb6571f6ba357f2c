use vstd::prelude::*;

use crate::constantes::PAGINAS;

verus! {

/// Number of 64-bit words that hold one bit per guest page.
pub const PALAVRAS: usize = 16384;

/// Bit `b` of the word `w`.
pub open spec fn bit_ligado(w: u64, b: u64) -> bool {
    (w >> b) & 1 == 1
}

proof fn lemma_bit_do_or(w: u64, b: u64, c: u64)
    requires
        b < 64,
        c < 64,
    ensures
        bit_ligado(w | (1u64 << b), c) == (c == b || bit_ligado(w, c)),
{
    assert(((w | (1u64 << b)) >> c) & 1 == 1 <==> (c == b || (w >> c) & 1 == 1)) by (bit_vector)
        requires
            b < 64,
            c < 64,
    ;
}

proof fn lemma_bit_do_and(w: u64, b: u64)
    requires
        b < 64,
    ensures
        (w & (1u64 << b) != 0) == bit_ligado(w, b),
{
    assert((w & (1u64 << b) != 0) <==> ((w >> b) & 1 == 1)) by (bit_vector)
        requires
            b < 64,
    ;
}

proof fn lemma_zero_sem_bits(c: u64)
    ensures
        !bit_ligado(0u64, c),
{
    assert((0u64 >> c) & 1 != 1) by (bit_vector);
}

/// The guest pages that have already been fetched as code, one bit per page.
///
/// Every guest write asks this set whether it landed on code, so the test is a shift and a mask.
pub struct PaginasExecutadas {
    bits: Vec<u64>,
}

impl PaginasExecutadas {
    /// Whether `pagina` is marked in the words `bits`.
    pub open spec fn marcada_em(bits: Seq<u64>, pagina: u32) -> bool {
        &&& (pagina / 64) < bits.len()
        &&& bit_ligado(bits[(pagina / 64) as int], (pagina % 64) as u64)
    }

    /// The marked pages.
    pub closed spec fn view(&self) -> Set<u32> {
        Set::new(|p: u32| Self::marcada_em(self.bits@, p))
    }

    pub closed spec fn wf(&self) -> bool {
        self.bits@.len() == PALAVRAS
    }

    /// Only pages of the 32-bit guest space can ever be marked.
    pub proof fn lei_so_paginas_do_guest(&self)
        requires
            self.wf(),
        ensures
            forall|p: u32| #[trigger] self@.contains(p) ==> (p as int) < PAGINAS,
    {
    }

    /// An empty set: no page has been fetched yet.
    pub fn new() -> (r: Self)
        ensures
            r.wf(),
            r@ == Set::<u32>::empty(),
    {
        let bits: Vec<u64> = vec![0u64; PALAVRAS];
        let r = PaginasExecutadas { bits };
        assert forall|p: u32| !(#[trigger] r@.contains(p)) by {
            if (p / 64) < r.bits@.len() {
                lemma_zero_sem_bits((p % 64) as u64);
            }
        }
        assert(r@ =~= Set::<u32>::empty());
        r
    }

    /// Marks `pagina` as fetched. A page number beyond the guest space changes nothing.
    pub fn marca(&mut self, pagina: u32)
        requires
            old(self).wf(),
        ensures
            final(self).wf(),
            final(self)@ == if (pagina as int) < PAGINAS {
                old(self)@.insert(pagina)
            } else {
                old(self)@
            },
    {
        let palavra: usize = (pagina / 64) as usize;
        let bit: u32 = pagina % 64;
        if palavra < self.bits.len() {
            let antes = self.bits[palavra];
            self.bits.set(palavra, antes | (1u64 << (bit as u64)));
            proof {
                assert forall|p: u32| #[trigger] self@.contains(p) == (old(self)@.contains(p) || p == pagina) by {
                    if (p / 64) == palavra as u32 {
                        lemma_bit_do_or(antes, bit as u64, (p % 64) as u64);
                    }
                }
                assert(self@ =~= old(self)@.insert(pagina));
            }
        } else {
            assert(self@ =~= old(self)@);
        }
    }

    /// Whether `pagina` has been fetched as code.
    pub fn contem(&self, pagina: u32) -> (r: bool)
        requires
            self.wf(),
        ensures
            r == self@.contains(pagina),
    {
        let palavra: usize = (pagina / 64) as usize;
        let bit: u32 = pagina % 64;
        if palavra < self.bits.len() {
            proof {
                lemma_bit_do_and(self.bits@[palavra as int], bit as u64);
            }
            self.bits[palavra] & (1u64 << (bit as u64)) != 0
        } else {
            false
        }
    }
}

} // verus!
