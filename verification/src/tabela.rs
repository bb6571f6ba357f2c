use vstd::prelude::*;

use crate::constantes::{PAGE, PAGINAS};

verus! {

/// What the page table needs to know of a guest memory region: where it starts, how many bytes
/// it holds, and whether the guest may write it.
#[derive(Clone, Copy, Debug, PartialEq, Eq)]
pub struct Regiao {
    pub base: u32,
    pub tamanho: u64,
    pub gravavel: bool,
}

/// A direct-access entry of the page table: the page starts `deslocamento` bytes into the
/// region numbered `regiao`.
#[derive(Clone, Copy, Debug, PartialEq, Eq)]
pub struct EntradaDePagina {
    pub regiao: usize,
    pub deslocamento: u64,
}

/// First guest address of `pagina`.
pub open spec fn inicio_da_pagina(pagina: u32) -> int {
    pagina as int * PAGE as int
}

/// Whether `pagina` is writable and lies whole inside the region `r`.
pub open spec fn cabe(r: Regiao, pagina: u32) -> bool {
    &&& r.gravavel
    &&& inicio_da_pagina(pagina) >= r.base
    &&& inicio_da_pagina(pagina) + PAGE as int <= r.base as int + r.tamanho as int
}

/// The first region, from index `i` on, that `pagina` fits in.
pub open spec fn primeira_que_cabe(regioes: Seq<Regiao>, pagina: u32, i: int) -> Option<int>
    decreases regioes.len() - i,
{
    if i < 0 || i >= regioes.len() {
        None
    } else if cabe(regioes[i], pagina) {
        Some(i)
    } else {
        primeira_que_cabe(regioes, pagina, i + 1)
    }
}

/// The page table entry of `pagina`: the start of the page inside the first writable region
/// that holds the whole page, or none when the page must go through the callbacks.
pub open spec fn entrada_de(regioes: Seq<Regiao>, pagina: u32) -> Option<EntradaDePagina> {
    match primeira_que_cabe(regioes, pagina, 0) {
        Some(i) => Some(
            EntradaDePagina {
                regiao: i as usize,
                deslocamento: (inicio_da_pagina(pagina) - regioes[i].base) as u64,
            },
        ),
        None => None,
    }
}

/// Whether a loop over `(inicio / PAGE)..=(fim.saturating_sub(1) / PAGE)` visits `pagina`.
pub open spec fn na_faixa(pagina: u32, inicio: u32, fim: u32) -> bool {
    inicio / PAGE <= pagina && pagina <= fim.saturating_sub(1) / PAGE
}

proof fn lemma_primeira_que_cabe(regioes: Seq<Regiao>, pagina: u32, i: int)
    requires
        0 <= i <= regioes.len(),
        forall|j: int| 0 <= j < i ==> !cabe(#[trigger] regioes[j], pagina),
    ensures
        primeira_que_cabe(regioes, pagina, 0) == primeira_que_cabe(regioes, pagina, i),
    decreases i,
{
    if i > 0 {
        lemma_primeira_que_cabe(regioes, pagina, i - 1);
    }
}

proof fn lemma_primeira_no_intervalo(regioes: Seq<Regiao>, pagina: u32, i: int)
    requires
        0 <= i,
    ensures
        primeira_que_cabe(regioes, pagina, i) matches Some(k) ==> i <= k < regioes.len() && cabe(
            regioes[k],
            pagina,
        ),
    decreases regioes.len() - i,
{
    if i < regioes.len() && !cabe(regioes[i], pagina) {
        lemma_primeira_no_intervalo(regioes, pagina, i + 1);
    }
}

/// The page table entry of `pagina` for the regions `regioes`.
pub fn ponteiro_da_pagina(regioes: &Vec<Regiao>, pagina: u32) -> (r: Option<EntradaDePagina>)
    ensures
        r == entrada_de(regioes@, pagina),
        r matches Some(e) ==> e.regiao < regioes@.len() && cabe(regioes@[e.regiao as int], pagina),
        r matches Some(e) ==> {
            let g = regioes@[e.regiao as int];
            &&& e.regiao < regioes@.len()
            &&& e.deslocamento == pagina as int * 4096 - g.base
            &&& g.gravavel
            &&& pagina as int * 4096 >= g.base
            &&& pagina as int * 4096 + 4096 <= g.base as int + g.tamanho as int
            &&& forall|j: int|
                0 <= j < e.regiao ==> !((#[trigger] regioes@[j]).gravavel && pagina as int * 4096
                    >= regioes@[j].base && pagina as int * 4096 + 4096 <= regioes@[j].base as int
                    + regioes@[j].tamanho as int)
        },
        r is None ==> forall|j: int|
            0 <= j < regioes@.len() ==> !((#[trigger] regioes@[j]).gravavel && pagina as int * 4096
                >= regioes@[j].base && pagina as int * 4096 + 4096 <= regioes@[j].base as int
                + regioes@[j].tamanho as int),
{
    proof {
        assert((pagina as u64) * 4096 <= 0xffff_ffffu64 * 4096) by (nonlinear_arith);
    }
    let inicio: u64 = (pagina as u64) * (PAGE as u64);
    let fim: u64 = inicio + (PAGE as u64);
    let n: usize = regioes.len();
    let mut i: usize = 0;
    proof {
        lemma_primeira_no_intervalo(regioes@, pagina, 0);
    }
    while i < n
        invariant
            0 <= i <= n,
            n == regioes@.len(),
            inicio == inicio_da_pagina(pagina),
            fim == inicio + PAGE,
            forall|j: int| 0 <= j < i ==> !cabe(#[trigger] regioes@[j], pagina),
        decreases n - i,
    {
        let r = regioes[i];
        if r.gravavel && inicio >= r.base as u64 && fim - (r.base as u64) <= r.tamanho {
            proof {
                lemma_primeira_que_cabe(regioes@, pagina, i as int);
            }
            return Some(EntradaDePagina { regiao: i, deslocamento: inicio - (r.base as u64) });
        }
        i = i + 1;
    }
    proof {
        lemma_primeira_que_cabe(regioes@, pagina, n as int);
    }
    None
}

/// The entry of a page is the first writable region that holds the whole page, and the page
/// starts `pagina * 4096 - base` bytes into it; a page no writable region holds whole has none.
pub proof fn lei_entrada_de(regioes: Seq<Regiao>, pagina: u32)
    requires
        regioes.len() <= usize::MAX,
    ensures
        entrada_de(regioes, pagina) matches Some(e) ==> {
            let g = regioes[e.regiao as int];
            &&& e.regiao < regioes.len()
            &&& e.deslocamento == pagina as int * 4096 - g.base
            &&& g.gravavel
            &&& pagina as int * 4096 >= g.base
            &&& pagina as int * 4096 + 4096 <= g.base as int + g.tamanho as int
            &&& forall|j: int|
                0 <= j < e.regiao ==> !((#[trigger] regioes[j]).gravavel && pagina as int * 4096
                    >= regioes[j].base && pagina as int * 4096 + 4096 <= regioes[j].base as int
                    + regioes[j].tamanho as int)
        },
        entrada_de(regioes, pagina) is None ==> forall|j: int|
            0 <= j < regioes.len() ==> !((#[trigger] regioes[j]).gravavel && pagina as int * 4096
                >= regioes[j].base && pagina as int * 4096 + 4096 <= regioes[j].base as int
                + regioes[j].tamanho as int),
{
    lemma_primeira_no_intervalo(regioes, pagina, 0);
    lemma_primeira_minima(regioes, pagina, 0);
}

proof fn lemma_primeira_minima(regioes: Seq<Regiao>, pagina: u32, i: int)
    requires
        0 <= i,
    ensures
        primeira_que_cabe(regioes, pagina, i) matches Some(k) ==> forall|j: int|
            i <= j < k ==> !cabe(#[trigger] regioes[j], pagina),
        primeira_que_cabe(regioes, pagina, i) is None ==> forall|j: int|
            i <= j < regioes.len() ==> !cabe(#[trigger] regioes[j], pagina),
    decreases regioes.len() - i,
{
    if i < regioes.len() && !cabe(regioes[i], pagina) {
        lemma_primeira_minima(regioes, pagina, i + 1);
    }
}

} // verus!
