use vstd::prelude::*;

use std::collections::BTreeSet;

use crate::constantes::{AMOSTRA_DO_JIT, MAX_SEMIHOSTING_STRING, PAGE, PAGINAS};
use crate::paginas::PaginasExecutadas;
use crate::sujas::PaginasSujas;
use crate::tabela::{entrada_de, na_faixa, ponteiro_da_pagina, EntradaDePagina, Regiao};
use crate::vigias::{alguma_toca, arma_atalho, marcadas, tem_id, toca, Vigia, Vigias};

verus! {

/// Why a callback asked the recompiler to hand control back.
#[derive(Clone, Copy, Debug, PartialEq, Eq, Structural)]
pub enum Parada {
    Nenhuma,
    /// Fetching an instruction at this address failed.
    Fetch(u32),
    /// A data access at this address failed.
    Memoria(u32),
    /// The guest raised an exception at this `pc`.
    Excecao(u32),
}

/// The addresses where guest control flow leaves for the host: the range of the host API
/// entry points, and the sentinel a top-level call returns to.
#[derive(Clone, Copy, Debug, PartialEq, Eq)]
pub struct Fronteira {
    pub api_base: u32,
    pub api_size: u32,
    pub retorno: u32,
}

impl Fronteira {
    /// Whether `addr` lies in the host API range.
    pub open spec fn na_api(self, addr: u32) -> bool {
        self.api_base <= addr && addr < self.api_base.saturating_add(self.api_size)
    }

    /// Whether a fetch from `addr` means leaving the guest rather than a fault.
    pub open spec fn e_saida(self, addr: u32) -> bool {
        addr == self.retorno || self.na_api(addr)
    }

    pub fn na_api_exec(&self, addr: u32) -> (r: bool)
        ensures
            r == self.na_api(addr),
            r == (self.api_base <= addr && addr < self.api_base.saturating_add(self.api_size)),
    {
        self.api_base <= addr && addr < self.api_base.saturating_add(self.api_size)
    }
}

/// What a supervisor call asks of the host.
#[derive(Clone, Copy, Debug, PartialEq, Eq, Structural)]
pub enum AtendimentoSvc {
    /// Semihosting `SYS_WRITEC`: copy the byte at `r1` to the output.
    EscreveCaractere,
    /// Semihosting `SYS_WRITE0`: copy the NUL-terminated string at `r1` to the output.
    EscreveTexto,
    /// Another semihosting operation: nothing to do but answer zero.
    OutraConsulta,
    /// Not semihosting: an exception was recorded and the recompiler must halt.
    Parou,
    /// Not semihosting, but a stop reason was already recorded.
    JaParado,
}

/// First guest address of page `p`, as the 32-bit value the code computes.
pub open spec fn de_pagina(p: u32) -> u32 {
    (p as int * PAGE as int) as u32
}

/// One past the last guest address of page `p`, saturated at `u32::MAX`.
pub open spec fn ate_pagina(p: u32) -> u32 {
    de_pagina(p).saturating_add(PAGE)
}

/// Whether a write watch of `vigias` reaches page `p`.
pub open spec fn pagina_vigiada(vigias: Seq<Vigia>, p: u32) -> bool {
    alguma_toca(vigias, de_pagina(p), ate_pagina(p))
}

/// A direct entry of the page table is the one the region layout gives, and its page is
/// neither code already fetched nor under a write watch: writes to such pages must reach the
/// callbacks.
pub open spec fn entrada_valida(
    e: Option<EntradaDePagina>,
    p: u32,
    regioes: Seq<Regiao>,
    executadas: Set<u32>,
    vigias: Seq<Vigia>,
) -> bool {
    e is Some ==> e == entrada_de(regioes, p) && !executadas.contains(p) && !pagina_vigiada(vigias, p)
}

pub open spec fn tabela_ok(
    t: Seq<Option<EntradaDePagina>>,
    regioes: Seq<Regiao>,
    executadas: Set<u32>,
    vigias: Seq<Vigia>,
) -> bool {
    &&& t.len() == PAGINAS
    &&& forall|p: u32|
        (p as int) < PAGINAS ==> #[trigger] entrada_valida(t[p as int], p, regioes, executadas, vigias)
}

/// The pages a write of `len` bytes at `addr` reaches, as the code counts them: a write of no
/// byte still counts the page of `addr`.
pub open spec fn pagina_da_escrita(p: u32, addr: u32, len: u32) -> bool {
    addr / PAGE <= p && p <= addr.saturating_add(len.saturating_sub(1)) / PAGE
}

/// Calls `String::push` (std), which appends `c` at the end of `s`: the view grows by exactly
/// `c`, and nothing else changes.
#[verifier::external_body]
fn acrescenta(s: &mut String, c: char)
    ensures
        final(s)@ == old(s)@.push(c),
{
    s.push(c);
}

proof fn lemma_mesmas_faixas_toca(s: Seq<Vigia>, t: Seq<Vigia>)
    requires
        s.len() == t.len(),
        forall|k: int| 0 <= k < s.len() ==> s[k].inicio == t[k].inicio && s[k].fim == t[k].fim,
    ensures
        forall|a: u32, b: u32| alguma_toca(s, a, b) == alguma_toca(t, a, b),
{
    assert forall|a: u32, b: u32| alguma_toca(s, a, b) == alguma_toca(t, a, b) by {
        if alguma_toca(s, a, b) {
            let k = choose|k: int| 0 <= k < s.len() && toca(#[trigger] s[k], a, b);
            assert(toca(t[k], a, b));
        }
        if alguma_toca(t, a, b) {
            let k = choose|k: int| 0 <= k < t.len() && toca(#[trigger] t[k], a, b);
            assert(toca(s[k], a, b));
        }
    }
}

proof fn lemma_marcadas_toca(s: Seq<Vigia>, inicio: u32, fim: u32)
    ensures
        forall|a: u32, b: u32| alguma_toca(marcadas(s, inicio, fim), a, b) == alguma_toca(s, a, b),
{
    lemma_mesmas_faixas_toca(s, marcadas(s, inicio, fim));
}

/// A watch of `[base, fim)` reaches only pages that the loop over
/// `(base / PAGE)..=(fim.saturating_sub(1) / PAGE)` visits.
proof fn lemma_vigia_na_faixa(v: Vigia, p: u32)
    requires
        (p as int) < PAGINAS,
        toca(v, de_pagina(p), ate_pagina(p)),
    ensures
        na_faixa(p, v.inicio, v.fim),
{
    lemma_pagina_em_u32(p);
}

/// The control state that the recompiler's callbacks read and change: everything the core keeps
/// besides the guest registers and the guest memory.
pub struct Estado {
    paginas_executadas: PaginasExecutadas,
    codigo_sujo: PaginasSujas,
    vigias: Vigias,
    instrucoes: u64,
    limite: u64,
    parada: Parada,
    entradas_no_jit: u64,
    nanos_no_jit: u64,
    amostras_no_jit: u64,
    saida: String,
    regioes: Vec<Regiao>,
    tabela: Vec<Option<EntradaDePagina>>,
}

impl Estado {
    /// Pages already fetched as code.
    pub closed spec fn executadas(&self) -> Set<u32> {
        self.paginas_executadas@
    }

    /// Pages of translated code that a write has made stale.
    pub closed spec fn codigo_sujo(&self) -> Set<u32> {
        self.codigo_sujo@
    }

    /// The write watches, in the order they were registered.
    pub closed spec fn vigias(&self) -> Seq<Vigia> {
        self.vigias@
    }

    /// The range of the dirty-write shortcut.
    pub closed spec fn atalho(&self) -> (u32, u32) {
        self.vigias.atalho()
    }

    /// Instructions retired so far.
    pub closed spec fn instrucoes(&self) -> u64 {
        self.instrucoes
    }

    /// Instruction count at which the current run must stop.
    pub closed spec fn limite(&self) -> u64 {
        self.limite
    }

    pub closed spec fn parada(&self) -> Parada {
        self.parada
    }

    pub closed spec fn entradas_no_jit(&self) -> u64 {
        self.entradas_no_jit
    }

    pub closed spec fn nanos_no_jit(&self) -> u64 {
        self.nanos_no_jit
    }

    pub closed spec fn amostras_no_jit(&self) -> u64 {
        self.amostras_no_jit
    }

    /// Semihosting output.
    pub closed spec fn saida(&self) -> Seq<char> {
        self.saida@
    }

    /// The guest regions the page table was built from.
    pub closed spec fn regioes(&self) -> Seq<Regiao> {
        self.regioes@
    }

    /// The page table: one entry per guest page.
    pub closed spec fn tabela(&self) -> Seq<Option<EntradaDePagina>> {
        self.tabela@
    }

    pub closed spec fn wf(&self) -> bool {
        &&& self.paginas_executadas.wf()
        &&& self.vigias.wf()
        &&& tabela_ok(self.tabela@, self.regioes@, self.paginas_executadas@, self.vigias@)
        &&& self.regioes@.len() <= usize::MAX
    }

    /// The page sets, the watches and the page table are as in `o`.
    pub open spec fn memoria_igual(&self, o: &Estado) -> bool {
        &&& self.executadas() == o.executadas()
        &&& self.codigo_sujo() == o.codigo_sujo()
        &&& self.vigias() == o.vigias()
        &&& self.atalho() == o.atalho()
        &&& self.tabela() == o.tabela()
    }

    /// The counters, the output and the regions are as in `o`; the stop reason may differ.
    pub open spec fn contadores_salvo_parada(&self, o: &Estado) -> bool {
        &&& self.instrucoes() == o.instrucoes()
        &&& self.limite() == o.limite()
        &&& self.entradas_no_jit() == o.entradas_no_jit()
        &&& self.nanos_no_jit() == o.nanos_no_jit()
        &&& self.amostras_no_jit() == o.amostras_no_jit()
        &&& self.saida() == o.saida()
        &&& self.regioes() == o.regioes()
    }

    /// Everything but the page sets, the watches and the page table is as in `o`.
    pub open spec fn contadores_iguais(&self, o: &Estado) -> bool {
        &&& self.contadores_salvo_parada(o)
        &&& self.parada() == o.parada()
    }

    /// Everything but the stale code pages is as in `o`.
    pub open spec fn igual_exceto_sujo(&self, o: &Estado) -> bool {
        &&& self.executadas() == o.executadas()
        &&& self.vigias() == o.vigias()
        &&& self.atalho() == o.atalho()
        &&& self.tabela() == o.tabela()
        &&& self.contadores_iguais(o)
    }

    /// Everything but the stop reason is as in `o`.
    pub open spec fn igual_exceto_parada(&self, o: &Estado) -> bool {
        &&& self.memoria_igual(o)
        &&& self.contadores_salvo_parada(o)
    }

    /// Everything but the semihosting output is as in `o`.
    pub open spec fn igual_exceto_saida(&self, o: &Estado) -> bool {
        &&& self.memoria_igual(o)
        &&& self.parada() == o.parada()
        &&& self.instrucoes() == o.instrucoes()
        &&& self.limite() == o.limite()
        &&& self.entradas_no_jit() == o.entradas_no_jit()
        &&& self.nanos_no_jit() == o.nanos_no_jit()
        &&& self.amostras_no_jit() == o.amostras_no_jit()
        &&& self.regioes() == o.regioes()
    }

    /// Everything but the retired-instruction count is as in `o`.
    pub open spec fn igual_exceto_instrucoes(&self, o: &Estado) -> bool {
        &&& self.memoria_igual(o)
        &&& self.parada() == o.parada()
        &&& self.limite() == o.limite()
        &&& self.entradas_no_jit() == o.entradas_no_jit()
        &&& self.nanos_no_jit() == o.nanos_no_jit()
        &&& self.amostras_no_jit() == o.amostras_no_jit()
        &&& self.saida() == o.saida()
        &&& self.regioes() == o.regioes()
    }

    /// A direct page-table entry always belongs to a writable page that is neither code already
    /// fetched nor under a write watch, and it is the one the region layout gives.
    pub proof fn lei_tabela_direta(&self, p: u32)
        requires
            self.wf(),
            (p as int) < PAGINAS,
            self.tabela()[p as int] is Some,
        ensures
            self.tabela()[p as int] == entrada_de(self.regioes(), p),
            !self.executadas().contains(p),
            !pagina_vigiada(self.vigias(), p),
            !(exists|k: int|
                    0 <= k < self.vigias().len() && (p as int) * 4096 < (#[trigger] self.vigias()[k]).fim && (if (p as int)
                        * 4096 + 4096 > 0xffff_ffff {
                        0xffff_ffffint
                    } else {
                        (p as int) * 4096 + 4096
                    }) > self.vigias()[k].inicio),
            self.tabela()[p as int] matches Some(e) && e.deslocamento == p as int * 4096 - self.regioes()[e.regiao as int].base
                && self.regioes()[e.regiao as int].gravavel,
    {
        lemma_pagina_em_u32(p);
        if entrada_de(self.regioes@, p) is Some {
            crate::tabela::lei_entrada_de(self.regioes@, p);
        }
        assert(entrada_valida(self.tabela@[p as int], p, self.regioes@, self.paginas_executadas@, self.vigias@));
    }

    /// The state right after the guest memory map is set: the page table gives direct access to
    /// every writable page that lies whole in a region, and nothing has run yet.
    pub fn new(regioes: Vec<Regiao>) -> (r: Estado)
        ensures
            r.wf(),
            r.regioes() == regioes@,
            r.tabela() == Seq::new(PAGINAS as nat, |p: int| entrada_de(regioes@, p as u32)),
            r.executadas() == Set::<u32>::empty(),
            r.codigo_sujo() == Set::<u32>::empty(),
            r.vigias() == Seq::<Vigia>::empty(),
            r.atalho() == (0u32, 0u32),
            r.instrucoes() == 0,
            r.limite() == 0,
            r.parada() == Parada::Nenhuma,
            r.entradas_no_jit() == 0,
            r.nanos_no_jit() == 0,
            r.amostras_no_jit() == 0,
            r.saida() == Seq::<char>::empty(),
    {
        let quantas_regioes: usize = regioes.len();
        assert(regioes@.len() == quantas_regioes);
        let mut tabela: Vec<Option<EntradaDePagina>> = Vec::with_capacity(PAGINAS);
        let mut p: usize = 0;
        while p < PAGINAS
            invariant
                0 <= p <= PAGINAS,
                tabela@ == Seq::new(p as nat, |q: int| entrada_de(regioes@, q as u32)),
            decreases PAGINAS - p,
        {
            let e = ponteiro_da_pagina(&regioes, p as u32);
            tabela.push(e);
            proof {
                assert(tabela@ =~= Seq::new((p + 1) as nat, |q: int| entrada_de(regioes@, q as u32)));
            }
            p = p + 1;
        }
        let r = Estado {
            paginas_executadas: PaginasExecutadas::new(),
            codigo_sujo: PaginasSujas::new(),
            vigias: Vigias::new(),
            instrucoes: 0,
            limite: 0,
            parada: Parada::Nenhuma,
            entradas_no_jit: 0,
            nanos_no_jit: 0,
            amostras_no_jit: 0,
            saida: String::new(),
            regioes,
            tabela,
        };
        proof {
            assert forall|q: u32| (q as int) < PAGINAS implies #[trigger] entrada_valida(
                r.tabela@[q as int],
                q,
                r.regioes@,
                r.paginas_executadas@,
                r.vigias@,
            ) by {}
        }
        r
    }

    /// Takes `pagina` out of the page table: from then on every access to it goes through the
    /// callbacks.
    fn anula_pagina(&mut self, pagina: u32)
        requires
            old(self).tabela@.len() == PAGINAS,
        ensures
            final(self).tabela@ == if (pagina as int) < PAGINAS {
                old(self).tabela@.update(pagina as int, None)
            } else {
                old(self).tabela@
            },
            final(self).paginas_executadas == old(self).paginas_executadas,
            final(self).vigias == old(self).vigias,
            final(self).codigo_sujo == old(self).codigo_sujo,
            final(self).contadores_iguais(old(self)),
    {
        if (pagina as usize) < PAGINAS {
            self.tabela.set(pagina as usize, None);
        }
    }

    /// Records why the recompiler has to stop; the caller then halts it.
    pub fn para(&mut self, parada: Parada)
        ensures
            final(self).parada() == parada,
            final(self).igual_exceto_parada(old(self)),
            old(self).wf() ==> final(self).wf(),
    {
        self.parada = parada;
    }

    /// A write of `len` bytes at `addr` may have changed code that was already translated: every
    /// fetched page it reaches joins the stale set.
    pub fn marca_codigo_sujo(&mut self, addr: u32, len: u32)
        requires
            old(self).wf(),
        ensures
            final(self).wf(),
            final(self).codigo_sujo() == old(self).codigo_sujo().union(
                Set::new(|p: u32| pagina_da_escrita(p, addr, len) && old(self).executadas().contains(p)),
            ),
            forall|p: u32|
                addr / 4096 <= p && p <= addr.saturating_add(len.saturating_sub(1)) / 4096
                    && old(self).executadas().contains(p) ==> #[trigger] final(self).codigo_sujo().contains(p),
            forall|p: u32|
                #[trigger] final(self).codigo_sujo().contains(p) ==> old(self).codigo_sujo().contains(p) || (
                old(self).executadas().contains(p) && addr / 4096 <= p && p <= addr.saturating_add(
                    len.saturating_sub(1),
                ) / 4096),
            final(self).igual_exceto_sujo(old(self)),
    {
        let fim: u32 = addr.saturating_add(len.saturating_sub(1));
        let primeira: u32 = addr / PAGE;
        let ultima: u32 = fim / PAGE;
        let mut pagina: u32 = primeira;
        while pagina <= ultima
            invariant
                primeira <= pagina <= ultima + 1,
                ultima < 0x100000,
                primeira == addr / PAGE,
                ultima == addr.saturating_add(len.saturating_sub(1)) / PAGE,
                old(self).wf(),
                self.paginas_executadas == old(self).paginas_executadas,
                self.vigias == old(self).vigias,
                self.tabela@ == old(self).tabela@,
                self.contadores_iguais(old(self)),
                self.codigo_sujo@ == old(self).codigo_sujo@.union(
                    Set::new(|p: u32| primeira <= p < pagina && old(self).paginas_executadas@.contains(p)),
                ),
            decreases ultima + 1 - pagina,
        {
            if self.paginas_executadas.contem(pagina) {
                self.codigo_sujo.insere(pagina);
            }
            proof {
                assert(self.codigo_sujo@ =~= old(self).codigo_sujo@.union(
                    Set::new(|p: u32| primeira <= p < pagina + 1 && old(self).paginas_executadas@.contains(p)),
                ));
            }
            pagina = pagina + 1;
        }
        proof {
            assert(self.codigo_sujo@ =~= old(self).codigo_sujo@.union(
                Set::new(|p: u32| pagina_da_escrita(p, addr, len) && old(self).paginas_executadas@.contains(p)),
            ));
        }
    }

    /// Hands out the stale code pages and forgets them; the caller drops their translations.
    pub fn toma_codigo_sujo(&mut self) -> (r: BTreeSet<u32>)
        requires
            old(self).wf(),
        ensures
            final(self).wf(),
            r@ == old(self).codigo_sujo(),
            final(self).codigo_sujo() == Set::<u32>::empty(),
            final(self).igual_exceto_sujo(old(self)),
    {
        self.codigo_sujo.toma()
    }

    /// A write of the guest to `[inicio, fim)` reaches the write watches.
    fn marca_vigias(&mut self, inicio: u32, fim: u32)
        requires
            old(self).wf(),
        ensures
            final(self).wf(),
            final(self).paginas_executadas == old(self).paginas_executadas,
            final(self).codigo_sujo == old(self).codigo_sujo,
            final(self).tabela@ == old(self).tabela@,
            final(self).contadores_iguais(old(self)),
            final(self).vigias.envoltorio() == old(self).vigias.envoltorio(),
            ({
                let pulou = old(self).atalho().0 <= inicio && fim <= old(self).atalho().1;
                let t = crate::vigias::tocadas(old(self).vigias(), inicio, fim);
                &&& final(self).vigias() == marcadas(old(self).vigias(), inicio, fim)
                &&& final(self).atalho() == if !pulou && arma_atalho(old(self).vigias(), inicio, fim) {
                    (t[0].inicio, t[0].fim)
                } else {
                    old(self).atalho()
                }
            }),
            forall|k: int|
                0 <= k < old(self).vigias().len() && toca(old(self).vigias()[k], inicio, fim) ==> (
                #[trigger] final(self).vigias()[k]).sujo,
    {
        self.vigias.marca_escrita(inicio, fim);
        proof {
            lemma_marcadas_toca(old(self).vigias@, inicio, fim);
            self.lemma_tabela_segue_vigias(old(self).vigias@);
        }
    }

    proof fn lemma_tabela_segue_vigias(&self, antes: Seq<Vigia>)
        requires
            tabela_ok(self.tabela@, self.regioes@, self.paginas_executadas@, antes),
            forall|a: u32, b: u32| alguma_toca(self.vigias@, a, b) ==> alguma_toca(antes, a, b),
        ensures
            tabela_ok(self.tabela@, self.regioes@, self.paginas_executadas@, self.vigias@),
    {
        assert forall|q: u32| (q as int) < PAGINAS implies #[trigger] entrada_valida(
            self.tabela@[q as int],
            q,
            self.regioes@,
            self.paginas_executadas@,
            self.vigias@,
        ) by {
            assert(entrada_valida(self.tabela@[q as int], q, self.regioes@, self.paginas_executadas@, antes));
        }
    }

    /// What follows a write of the guest, `len` bytes at `addr`, once the memory has taken it
    /// (`gravou`): stale code and dirty watches are recorded. Returns whether the write took
    /// effect.
    pub fn escreve(&mut self, addr: u32, len: u32, gravou: bool) -> (r: bool)
        requires
            old(self).wf(),
        ensures
            final(self).wf(),
            r == gravou,
            !gravou ==> *final(self) == *old(self),
            gravou ==> {
                let fim: u32 = addr.saturating_add(len);
                let pulou = old(self).atalho().0 <= addr && fim <= old(self).atalho().1;
                let t = crate::vigias::tocadas(old(self).vigias(), addr, fim);
                &&& final(self).codigo_sujo() == old(self).codigo_sujo().union(
                    Set::new(|p: u32| pagina_da_escrita(p, addr, len) && old(self).executadas().contains(p)),
                )
                &&& final(self).vigias() == marcadas(old(self).vigias(), addr, fim)
                &&& final(self).atalho() == if !pulou && arma_atalho(old(self).vigias(), addr, fim) {
                    (t[0].inicio, t[0].fim)
                } else {
                    old(self).atalho()
                }
                &&& forall|k: int|
                    0 <= k < old(self).vigias().len() && toca(old(self).vigias()[k], addr, fim) ==> (
                    #[trigger] final(self).vigias()[k]).sujo
            },
            final(self).executadas() == old(self).executadas(),
            final(self).tabela() == old(self).tabela(),
            final(self).contadores_iguais(old(self)),
    {
        if !gravou {
            return false;
        }
        self.marca_codigo_sujo(addr, len);
        self.marca_vigias(addr, addr.saturating_add(len));
        true
    }

    /// A data write of the guest, `len` bytes at `addr`, that the memory took (`gravou`) or
    /// refused. A refused write stops the run with a memory fault at `addr`.
    pub fn memory_write(&mut self, addr: u32, len: u32, gravou: bool) -> (r: bool)
        requires
            old(self).wf(),
        ensures
            final(self).wf(),
            r == gravou,
            final(self).parada() == if gravou { old(self).parada() } else { Parada::Memoria(addr) },
            final(self).executadas() == old(self).executadas(),
            final(self).tabela() == old(self).tabela(),
            final(self).contadores_salvo_parada(old(self)),
            gravou ==> {
                let fim: u32 = addr.saturating_add(len);
                let pulou = old(self).atalho().0 <= addr && fim <= old(self).atalho().1;
                let t = crate::vigias::tocadas(old(self).vigias(), addr, fim);
                &&& final(self).codigo_sujo() == old(self).codigo_sujo().union(
                    Set::new(|p: u32| pagina_da_escrita(p, addr, len) && old(self).executadas().contains(p)),
                )
                &&& final(self).vigias() == marcadas(old(self).vigias(), addr, fim)
                &&& final(self).atalho() == if !pulou && arma_atalho(old(self).vigias(), addr, fim) {
                    (t[0].inicio, t[0].fim)
                } else {
                    old(self).atalho()
                }
            },
            !gravou ==> final(self).igual_exceto_parada(old(self)),
            gravou ==> forall|k: int|
                0 <= k < old(self).vigias().len() && toca(old(self).vigias()[k], addr, addr.saturating_add(len))
                    ==> (#[trigger] final(self).vigias()[k]).sujo,
    {
        if !self.escreve(addr, len, gravou) {
            self.para(Parada::Memoria(addr));
            return false;
        }
        true
    }

    /// A data read of the guest at `addr` that the memory served (`leu`) or refused. A refused
    /// read stops the run with a memory fault at `addr`.
    pub fn memory_read(&mut self, addr: u32, leu: bool)
        requires
            old(self).wf(),
        ensures
            final(self).wf(),
            final(self).parada() == if leu { old(self).parada() } else { Parada::Memoria(addr) },
            final(self).igual_exceto_parada(old(self)),
    {
        if !leu {
            self.para(Parada::Memoria(addr));
        }
    }

    /// An instruction fetch at `addr`. `lido` is the word read when `addr` is executable and
    /// readable. A page that becomes code leaves the page table, so that every later write to it
    /// reaches the callback that makes its translation stale. A failed fetch stops the run.
    pub fn memory_read_code(&mut self, addr: u32, lido: Option<u32>) -> (r: Option<u32>)
        requires
            old(self).wf(),
        ensures
            final(self).wf(),
            r == lido,
            match lido {
                Some(_) => {
                    &&& final(self).executadas() == old(self).executadas().insert(addr / PAGE)
                    &&& final(self).tabela() == if old(self).executadas().contains(addr / PAGE) {
                        old(self).tabela()
                    } else {
                        old(self).tabela().update((addr / PAGE) as int, None)
                    }
                    &&& final(self).parada() == old(self).parada()
                },
                None => {
                    &&& final(self).executadas() == old(self).executadas()
                    &&& final(self).tabela() == old(self).tabela()
                    &&& final(self).parada() == Parada::Fetch(addr)
                },
            },
            final(self).vigias() == old(self).vigias(),
            final(self).atalho() == old(self).atalho(),
            final(self).codigo_sujo() == old(self).codigo_sujo(),
            final(self).contadores_salvo_parada(old(self)),
    {
        match lido {
            Some(palavra) => {
                let pagina: u32 = addr / PAGE;
                if !self.paginas_executadas.contem(pagina) {
                    self.paginas_executadas.marca(pagina);
                    self.anula_pagina(pagina);
                    proof {
                        assert forall|q: u32| (q as int) < PAGINAS implies #[trigger] entrada_valida(
                            self.tabela@[q as int],
                            q,
                            self.regioes@,
                            self.paginas_executadas@,
                            self.vigias@,
                        ) by {
                            assert(entrada_valida(
                                old(self).tabela@[q as int],
                                q,
                                old(self).regioes@,
                                old(self).paginas_executadas@,
                                old(self).vigias@,
                            ));
                        }
                    }
                } else {
                    assert(self.paginas_executadas@ =~= old(self).paginas_executadas@.insert(pagina));
                }
                Some(palavra)
            },
            None => {
                self.para(Parada::Fetch(addr));
                None
            },
        }
    }

    /// A supervisor call `svc #swi`, with `op` in `r0` and the core at `pc`. `SVC #0xAB` is ARM
    /// semihosting: it does not interrupt the guest. Any other call stops the run with an
    /// exception, unless a stop reason is already recorded.
    pub fn call_svc(&mut self, swi: u32, op: u32, pc: u32) -> (r: AtendimentoSvc)
        requires
            old(self).wf(),
        ensures
            final(self).wf(),
            r == if swi == 0xab {
                if op == 3 {
                    AtendimentoSvc::EscreveCaractere
                } else if op == 4 {
                    AtendimentoSvc::EscreveTexto
                } else {
                    AtendimentoSvc::OutraConsulta
                }
            } else if old(self).parada() == Parada::Nenhuma {
                AtendimentoSvc::Parou
            } else {
                AtendimentoSvc::JaParado
            },
            final(self).parada() == if r == AtendimentoSvc::Parou {
                Parada::Excecao(pc)
            } else {
                old(self).parada()
            },
            final(self).igual_exceto_parada(old(self)),
    {
        if swi == 0xab {
            if op == 3 {
                AtendimentoSvc::EscreveCaractere
            } else if op == 4 {
                AtendimentoSvc::EscreveTexto
            } else {
                AtendimentoSvc::OutraConsulta
            }
        } else if self.parada == Parada::Nenhuma {
            self.para(Parada::Excecao(pc));
            AtendimentoSvc::Parou
        } else {
            AtendimentoSvc::JaParado
        }
    }

    /// `SYS_WRITEC`: the byte at `r1`, if it could be read, joins the output.
    pub fn semihosting_caractere(&mut self, lido: Option<u8>)
        requires
            old(self).wf(),
        ensures
            final(self).wf(),
            final(self).saida() == match lido {
                Some(b) => old(self).saida().push(b as char),
                None => old(self).saida(),
            },
            final(self).igual_exceto_saida(old(self)),
    {
        if let Some(b) = lido {
            acrescenta(&mut self.saida, b as char);
        }
    }

    /// One step of `SYS_WRITE0`: `lido` is the byte at `r1 + offset` (saturated), if it could be
    /// read. The byte joins the output unless it is the terminator; the answer says whether to
    /// read the next one. At most `MAX_SEMIHOSTING_STRING` bytes are copied.
    pub fn semihosting_texto(&mut self, offset: u32, lido: Option<u8>) -> (continua: bool)
        requires
            old(self).wf(),
        ensures
            final(self).wf(),
            final(self).saida() == if write0_copia(offset as int, lido) {
                old(self).saida().push(lido->0 as char)
            } else {
                old(self).saida()
            },
            continua == write0_continua(offset as int, lido),
            forall|b: u8|
                offset < 4096 && lido == Some(b) && b != 0 ==> final(self).saida() == old(self).saida().push(
                    b as char,
                ) && continua == (offset + 1 < 4096),
            offset >= 4096 || lido is None || lido == Some(0u8) ==> final(self).saida() == old(self).saida()
                && !continua,
            final(self).igual_exceto_saida(old(self)),
    {
        if offset >= MAX_SEMIHOSTING_STRING {
            return false;
        }
        match lido {
            Some(b) => {
                if b == 0 {
                    false
                } else {
                    acrescenta(&mut self.saida, b as char);
                    offset + 1 < MAX_SEMIHOSTING_STRING
                }
            },
            None => false,
        }
    }

    /// Replaces the semihosting output, after the host has trimmed it.
    pub fn substitui_saida(&mut self, saida: String)
        requires
            old(self).wf(),
        ensures
            final(self).wf(),
            final(self).saida() == saida@,
            final(self).igual_exceto_saida(old(self)),
    {
        self.saida = saida;
    }

    /// A copy of the semihosting output.
    pub fn saida_exec(&self) -> (r: String)
        ensures
            r@ == self.saida(),
    {
        self.saida.clone()
    }

    /// The recompiler retired `ticks` instructions.
    pub fn add_ticks(&mut self, ticks: u64)
        requires
            old(self).wf(),
        ensures
            final(self).wf(),
            final(self).instrucoes() == old(self).instrucoes().saturating_add(ticks),
            final(self).igual_exceto_instrucoes(old(self)),
    {
        self.instrucoes = self.instrucoes.saturating_add(ticks);
    }

    /// How many instructions the current run may still retire.
    pub fn get_ticks_remaining(&self) -> (r: u64)
        ensures
            r == self.limite().saturating_sub(self.instrucoes()),
    {
        self.limite.saturating_sub(self.instrucoes)
    }

    /// An exception raised by the guest at `pc`. A failed fetch also ends here, after its
    /// callback has recorded it; a recorded reason is never overwritten. The host API range and
    /// the return sentinel never hold code, so a fetch there is a way out of the guest, not a
    /// fault. Returns whether a stop reason was recorded now.
    pub fn raised_exception(&mut self, pc: u32, fronteira: Fronteira) -> (parou: bool)
        requires
            old(self).wf(),
        ensures
            final(self).wf(),
            parou == (old(self).parada() == Parada::Nenhuma),
            final(self).parada() == if !parou {
                old(self).parada()
            } else if fronteira.e_saida(pc) {
                Parada::Fetch(pc)
            } else {
                Parada::Excecao(pc)
            },
            parou && (pc == fronteira.retorno || (fronteira.api_base <= pc && pc
                < fronteira.api_base.saturating_add(fronteira.api_size))) ==> final(self).parada()
                == Parada::Fetch(pc),
            parou && pc != fronteira.retorno && !(fronteira.api_base <= pc && pc
                < fronteira.api_base.saturating_add(fronteira.api_size)) ==> final(self).parada()
                == Parada::Excecao(pc),
            final(self).igual_exceto_parada(old(self)),
    {
        if self.parada == Parada::Nenhuma {
            if pc == fronteira.retorno || fronteira.na_api_exec(pc) {
                self.para(Parada::Fetch(pc));
            } else {
                self.para(Parada::Excecao(pc));
            }
            true
        } else {
            false
        }
    }
}

/// `s` without the watch registered under `id`.
pub open spec fn sem_id(s: Seq<Vigia>, id: u32) -> Seq<Vigia> {
    match Vigias::posicao(s, id) {
        Some(k) => s.remove(k),
        None => s,
    }
}

/// `t` with the pages that `(inicio / PAGE)..=(fim.saturating_sub(1) / PAGE)` visits given back
/// their direct entry, where no watch of `vigias` reaches them and they are not code.
pub open spec fn tabela_restaurada(
    t: Seq<Option<EntradaDePagina>>,
    regioes: Seq<Regiao>,
    executadas: Set<u32>,
    vigias: Seq<Vigia>,
    inicio: u32,
    fim: u32,
) -> Seq<Option<EntradaDePagina>> {
    Seq::new(
        t.len(),
        |q: int|
            if na_faixa(q as u32, inicio, fim) && !pagina_vigiada(vigias, q as u32) && !executadas.contains(
                q as u32,
            ) {
                entrada_de(regioes, q as u32)
            } else {
                t[q]
            },
    )
}

/// `t` with the pages that `(inicio / PAGE)..=(fim.saturating_sub(1) / PAGE)` visits taken out.
pub open spec fn tabela_anulada(t: Seq<Option<EntradaDePagina>>, inicio: u32, fim: u32) -> Seq<
    Option<EntradaDePagina>,
> {
    Seq::new(t.len(), |q: int| if na_faixa(q as u32, inicio, fim) { None } else { t[q] })
}

proof fn lemma_remove_toca(s: Seq<Vigia>, k: int)
    requires
        0 <= k < s.len(),
    ensures
        forall|a: u32, b: u32| alguma_toca(s.remove(k), a, b) ==> alguma_toca(s, a, b),
{
    assert forall|a: u32, b: u32| alguma_toca(s.remove(k), a, b) implies alguma_toca(s, a, b) by {
        let r = s.remove(k);
        let j = choose|j: int| 0 <= j < r.len() && toca(#[trigger] r[j], a, b);
        if j < k {
            assert(r[j] == s[j]);
        } else {
            assert(r[j] == s[j + 1]);
        }
    }
}

proof fn lemma_push_toca(s: Seq<Vigia>, v: Vigia)
    ensures
        forall|a: u32, b: u32| alguma_toca(s.push(v), a, b) ==> (alguma_toca(s, a, b) || toca(v, a, b)),
{
    assert forall|a: u32, b: u32| alguma_toca(s.push(v), a, b) implies (alguma_toca(s, a, b) || toca(v, a, b)) by {
        let r = s.push(v);
        let j = choose|j: int| 0 <= j < r.len() && toca(#[trigger] r[j], a, b);
        if j < s.len() {
            assert(r[j] == s[j]);
        }
    }
}

proof fn lemma_vigiada_explicita(vs: Seq<Vigia>, q: u32)
    requires
        (q as int) < PAGINAS,
    ensures
        pagina_vigiada(vs, q) == (exists|k: int|
            0 <= k < vs.len() && (q as int) * 4096 < (#[trigger] vs[k]).fim && (if (q as int) * 4096 + 4096
                > 0xffff_ffff {
                0xffff_ffffint
            } else {
                (q as int) * 4096 + 4096
            }) > vs[k].inicio),
{
    lemma_pagina_em_u32(q);
}

proof fn lemma_pagina_em_u32(p: u32)
    requires
        (p as int) < PAGINAS,
    ensures
        p as int * PAGE as int <= 0xffff_f000,
{
    assert(p as int * 4096 <= 0xfffff * 4096) by (nonlinear_arith)
        requires
            p <= 0xfffff,
    ;
}

impl Estado {
    /// All the facts of a state that nothing has touched since the memory map `regioes` was set.
    pub open spec fn inicial(&self, regioes: Seq<Regiao>) -> bool {
        &&& self.wf()
        &&& self.regioes() == regioes
        &&& self.tabela() == Seq::new(PAGINAS as nat, |p: int| entrada_de(regioes, p as u32))
        &&& self.executadas() == Set::<u32>::empty()
        &&& self.codigo_sujo() == Set::<u32>::empty()
        &&& self.vigias() == Seq::<Vigia>::empty()
        &&& self.atalho() == (0u32, 0u32)
        &&& self.instrucoes() == 0
        &&& self.limite() == 0
        &&& self.parada() == Parada::Nenhuma
        &&& self.entradas_no_jit() == 0
        &&& self.nanos_no_jit() == 0
        &&& self.amostras_no_jit() == 0
        &&& self.saida() == Seq::<char>::empty()
    }

    /// The page table once the watch under `id` is gone and the pages of its range that nothing
    /// else needs to intercept are back.
    pub open spec fn tabela_sem_vigia(&self, id: u32) -> Seq<Option<EntradaDePagina>> {
        match Vigias::posicao(self.vigias(), id) {
            Some(k) => tabela_restaurada(
                self.tabela(),
                self.regioes(),
                self.executadas(),
                sem_id(self.vigias(), id),
                self.vigias()[k].inicio,
                self.vigias()[k].fim,
            ),
            None => self.tabela(),
        }
    }

    /// Gives back to the page table the pages of `[inicio, fim)` that nothing else needs to
    /// intercept: those no watch reaches and that are not code.
    pub fn restaura_paginas(&mut self, inicio: u32, fim: u32)
        requires
            old(self).wf(),
        ensures
            final(self).wf(),
            final(self).tabela() == tabela_restaurada(
                old(self).tabela(),
                old(self).regioes(),
                old(self).executadas(),
                old(self).vigias(),
                inicio,
                fim,
            ),
            final(self).executadas() == old(self).executadas(),
            final(self).codigo_sujo() == old(self).codigo_sujo(),
            final(self).vigias() == old(self).vigias(),
            final(self).atalho() == old(self).atalho(),
            final(self).contadores_iguais(old(self)),
            forall|q: u32|
                (q as int) < PAGINAS ==> #[trigger] final(self).tabela()[q as int] == if inicio / 4096 <= q && q
                    <= fim.saturating_sub(1) / 4096 && !(exists|k: int|
                    0 <= k < old(self).vigias().len() && (q as int) * 4096 < (#[trigger] old(self).vigias()[k]).fim && (if (q as int)
                        * 4096 + 4096 > 0xffff_ffff {
                        0xffff_ffffint
                    } else {
                        (q as int) * 4096 + 4096
                    }) > old(self).vigias()[k].inicio) && !old(self).executadas().contains(q) {
                    entrada_de(old(self).regioes(), q)
                } else {
                    old(self).tabela()[q as int]
                },
    {
        let primeira: u32 = inicio / PAGE;
        let ultima: u32 = fim.saturating_sub(1) / PAGE;
        let mut pagina: u32 = primeira;
        let ghost antes = self.tabela@;
        while pagina <= ultima
            invariant
                primeira <= pagina,
                pagina == primeira || pagina <= ultima + 1,
                ultima < 0x100000,
                primeira == inicio / PAGE,
                ultima == fim.saturating_sub(1) / PAGE,
                antes == old(self).tabela@,
                self.wf(),
                self.paginas_executadas == old(self).paginas_executadas,
                self.vigias == old(self).vigias,
                self.codigo_sujo == old(self).codigo_sujo,
                self.contadores_iguais(old(self)),
                self.tabela@ == Seq::new(
                    PAGINAS as nat,
                    |q: int|
                        if primeira <= q < pagina && !pagina_vigiada(self.vigias@, q as u32)
                            && !self.paginas_executadas@.contains(q as u32) {
                            entrada_de(self.regioes@, q as u32)
                        } else {
                            antes[q]
                        },
                ),
            decreases ultima + 1 - pagina,
        {
            proof {
                lemma_pagina_em_u32(pagina);
            }
            let de: u32 = pagina * PAGE;
            let ate: u32 = de.saturating_add(PAGE);
            let vigiada = self.vigias.alguma_toca(de, ate);
            if !(vigiada || self.paginas_executadas.contem(pagina)) {
                let e = ponteiro_da_pagina(&self.regioes, pagina);
                self.tabela.set(pagina as usize, e);
            }
            proof {
                assert forall|q: u32| (q as int) < PAGINAS implies #[trigger] entrada_valida(
                    self.tabela@[q as int],
                    q,
                    self.regioes@,
                    self.paginas_executadas@,
                    self.vigias@,
                ) by {
                    if q != pagina {
                        assert(self.tabela@[q as int] == old(self).tabela@[q as int] || self.tabela@[q as int]
                            == entrada_de(self.regioes@, q));
                    }
                }
                assert(self.tabela@ =~= Seq::new(
                    PAGINAS as nat,
                    |q: int|
                        if primeira <= q < pagina + 1 && !pagina_vigiada(self.vigias@, q as u32)
                            && !self.paginas_executadas@.contains(q as u32) {
                            entrada_de(self.regioes@, q as u32)
                        } else {
                            antes[q]
                        },
                ));
            }
            pagina = pagina + 1;
        }
        proof {
            assert forall|q: u32| (q as int) < PAGINAS implies pagina_vigiada(old(self).vigias@, q) == (exists|k: int|
                0 <= k < old(self).vigias@.len() && (q as int) * 4096 < (#[trigger] old(self).vigias@[k]).fim && (if (q as int) * 4096 + 4096
                    > 0xffff_ffff {
                    0xffff_ffffint
                } else {
                    (q as int) * 4096 + 4096
                }) > old(self).vigias@[k].inicio) by {
                lemma_vigiada_explicita(old(self).vigias@, q);
            }
            assert(self.tabela@ =~= tabela_restaurada(
                old(self).tabela@,
                old(self).regioes@,
                old(self).paginas_executadas@,
                old(self).vigias@,
                inicio,
                fim,
            ));
        }
    }

    /// Drops the watch registered under `id`, if any, and gives back to the page table the pages
    /// of its range that nothing else needs to intercept.
    pub fn desvigia(&mut self, id: u32)
        requires
            old(self).wf(),
        ensures
            final(self).wf(),
            final(self).vigias() == sem_id(old(self).vigias(), id),
            !tem_id(final(self).vigias(), id),
            final(self).atalho() == (0u32, 0u32),
            final(self).tabela() == old(self).tabela_sem_vigia(id),
            match Vigias::posicao(old(self).vigias(), id) {
                Some(k) => final(self).tabela() == tabela_restaurada(
                    old(self).tabela(),
                    old(self).regioes(),
                    old(self).executadas(),
                    final(self).vigias(),
                    old(self).vigias()[k].inicio,
                    old(self).vigias()[k].fim,
                ),
                None => final(self).tabela() == old(self).tabela(),
            },
            forall|k: int|
                0 <= k < final(self).vigias().len() ==> (#[trigger] final(self).vigias()[k]).id != id,
            forall|k: int|
                0 <= k < old(self).vigias().len() && (#[trigger] old(self).vigias()[k]).id != id
                    ==> final(self).vigias().contains(old(self).vigias()[k]),
            forall|k: int|
                0 <= k < final(self).vigias().len() ==> old(self).vigias().contains(
                    #[trigger] final(self).vigias()[k],
                ),
            final(self).executadas() == old(self).executadas(),
            final(self).codigo_sujo() == old(self).codigo_sujo(),
            final(self).contadores_iguais(old(self)),
    {
        let faixa = self.vigias.remove(id);
        proof {
            match faixa {
                Some(_) => {
                    let k = choose|k: int|
                        0 <= k < old(self).vigias@.len() && (#[trigger] old(self).vigias@[k]).id == id
                            && self.vigias@ == old(self).vigias@.remove(k);
                    old(self).vigias.lemma_ids_unicos();
                    Vigias::lemma_posicao(old(self).vigias@, id, k);
                    lemma_remove_toca(old(self).vigias@, k);
                    let o = old(self).vigias@;
                    let f = self.vigias@;
                    assert forall|j: int| 0 <= j < o.len() && (#[trigger] o[j]).id != id implies f.contains(o[j]) by {
                        if j < k {
                            assert(f[j] == o[j]);
                        } else {
                            assert(f[j - 1] == o[j]);
                        }
                    }
                    assert forall|j: int| 0 <= j < f.len() implies o.contains(#[trigger] f[j]) by {
                        if j < k {
                            assert(f[j] == o[j]);
                        } else {
                            assert(f[j] == o[j + 1]);
                        }
                    }
                },
                None => {
                    Vigias::lemma_sem_posicao(old(self).vigias@, id);
                    let o = old(self).vigias@;
                    assert forall|j: int| 0 <= j < o.len() && (#[trigger] o[j]).id != id implies self.vigias@.contains(o[j]) by {
                        assert(self.vigias@[j] == o[j]);
                    }
                },
            }
            self.lemma_tabela_segue_vigias(old(self).vigias@);
        }
        if let Some((inicio, fim)) = faixa {
            self.restaura_paginas(inicio, fim);
        }
    }

    /// Registers a write watch of `len` bytes at `base` under `id`, in place of any earlier one
    /// under the same id. It starts dirty, and the pages it reaches leave the page table so that
    /// guest writes there reach the callback that marks it.
    pub fn vigia(&mut self, id: u32, base: u32, len: u32)
        requires
            old(self).wf(),
        ensures
            final(self).wf(),
            final(self).vigias() == sem_id(old(self).vigias(), id).push(
                Vigia { id, inicio: base, fim: base.saturating_add(len), sujo: true },
            ),
            final(self).atalho() == (0u32, 0u32),
            final(self).tabela() == tabela_anulada(
                old(self).tabela_sem_vigia(id),
                base,
                base.saturating_add(len),
            ),
            final(self).tabela().len() == PAGINAS,
            forall|q: u32|
                (q as int) < PAGINAS ==> #[trigger] final(self).tabela()[q as int] == if base / 4096 <= q && q
                    <= base.saturating_add(len).saturating_sub(1) / 4096 {
                    None
                } else {
                    old(self).tabela_sem_vigia(id)[q as int]
                },
            final(self).vigias().last() == (Vigia { id, inicio: base, fim: base.saturating_add(len), sujo: true }),
            final(self).executadas() == old(self).executadas(),
            final(self).codigo_sujo() == old(self).codigo_sujo(),
            final(self).contadores_iguais(old(self)),
    {
        self.desvigia(id);
        let fim: u32 = base.saturating_add(len);
        let ghost antes_vigias = self.vigias@;
        let ghost antes_tabela = self.tabela@;
        self.vigias.adiciona(id, base, fim);
        let ghost nova = Vigia { id, inicio: base, fim, sujo: true };
        proof {
            lemma_push_toca(antes_vigias, nova);
        }
        let primeira: u32 = base / PAGE;
        let ultima: u32 = fim.saturating_sub(1) / PAGE;
        let mut pagina: u32 = primeira;
        while pagina <= ultima
            invariant
                primeira <= pagina,
                pagina == primeira || pagina <= ultima + 1,
                ultima < 0x100000,
                primeira == base / PAGE,
                self.paginas_executadas@ == old(self).paginas_executadas@,
                self.codigo_sujo@ == old(self).codigo_sujo@,
                self.vigias.atalho() == (0u32, 0u32),
                self.contadores_iguais(old(self)),
                ultima == fim.saturating_sub(1) / PAGE,
                fim == base.saturating_add(len),
                self.paginas_executadas.wf(),
                self.vigias.wf(),
                self.vigias@ == antes_vigias.push(nova),
                self.tabela@.len() == PAGINAS,
                forall|a: u32, b: u32|
                    alguma_toca(self.vigias@, a, b) ==> (alguma_toca(antes_vigias, a, b) || toca(nova, a, b)),
                tabela_ok(antes_tabela, self.regioes@, self.paginas_executadas@, antes_vigias),
                self.tabela@ == Seq::new(
                    PAGINAS as nat,
                    |q: int| if primeira <= q < pagina { None } else { antes_tabela[q] },
                ),
            decreases ultima + 1 - pagina,
        {
            self.anula_pagina(pagina);
            proof {
                assert(self.tabela@ =~= Seq::new(
                    PAGINAS as nat,
                    |q: int| if primeira <= q < pagina + 1 { None } else { antes_tabela[q] },
                ));
            }
            pagina = pagina + 1;
        }
        proof {
            assert(self.tabela@ =~= tabela_anulada(antes_tabela, base, fim));
            assert forall|q: u32| (q as int) < PAGINAS implies #[trigger] entrada_valida(
                self.tabela@[q as int],
                q,
                self.regioes@,
                self.paginas_executadas@,
                self.vigias@,
            ) by {
                assert(entrada_valida(antes_tabela[q as int], q, self.regioes@, self.paginas_executadas@, antes_vigias));
                if self.tabela@[q as int] is Some && toca(nova, de_pagina(q), ate_pagina(q)) {
                    lemma_vigia_na_faixa(nova, q);
                }
            }
        }
    }

    /// Reads and clears the dirty flag of the watch under `id`; a range that is not watched
    /// answers dirty.
    pub fn toma_sujo(&mut self, id: u32) -> (r: bool)
        requires
            old(self).wf(),
        ensures
            final(self).wf(),
            final(self).atalho() == (0u32, 0u32),
            match Vigias::posicao(old(self).vigias(), id) {
                Some(k) => r == old(self).vigias()[k].sujo && final(self).vigias() == old(self).vigias().update(
                    k,
                    Vigia { sujo: false, ..old(self).vigias()[k] },
                ),
                None => r && final(self).vigias() == old(self).vigias(),
            },
            forall|k: int|
                0 <= k < old(self).vigias().len() && (#[trigger] old(self).vigias()[k]).id == id ==> r
                    == old(self).vigias()[k].sujo && !final(self).vigias()[k].sujo,
            (forall|k: int| 0 <= k < old(self).vigias().len() ==> (#[trigger] old(self).vigias()[k]).id != id)
                ==> r && final(self).vigias() == old(self).vigias(),
            final(self).tabela() == old(self).tabela(),
            final(self).executadas() == old(self).executadas(),
            final(self).codigo_sujo() == old(self).codigo_sujo(),
            final(self).contadores_iguais(old(self)),
    {
        let r = self.vigias.toma_sujo(id);
        proof {
            lemma_mesmas_faixas_toca(old(self).vigias@, self.vigias@);
            self.lemma_tabela_segue_vigias(old(self).vigias@);
        }
        r
    }

    /// Marks dirty every watch that a host write of `len` bytes at `addr` reaches.
    pub fn marca_sujo(&mut self, addr: u32, len: u32)
        requires
            old(self).wf(),
        ensures
            final(self).wf(),
            final(self).vigias() == marcadas(old(self).vigias(), addr, addr.saturating_add(len)),
            final(self).atalho() == old(self).atalho(),
            final(self).tabela() == old(self).tabela(),
            final(self).executadas() == old(self).executadas(),
            final(self).codigo_sujo() == old(self).codigo_sujo(),
            final(self).contadores_iguais(old(self)),
    {
        self.vigias.marca_sujo(addr, len);
        proof {
            lemma_marcadas_toca(old(self).vigias@, addr, addr.saturating_add(len));
            self.lemma_tabela_segue_vigias(old(self).vigias@);
        }
    }

    /// Instructions retired so far.
    pub fn instrucoes_exec(&self) -> (r: u64)
        ensures
            r == self.instrucoes(),
    {
        self.instrucoes
    }

    /// Sets the retired-instruction count.
    pub fn define_instrucoes(&mut self, valor: u64)
        requires
            old(self).wf(),
        ensures
            final(self).wf(),
            final(self).instrucoes() == valor,
            final(self).igual_exceto_instrucoes(old(self)),
    {
        self.instrucoes = valor;
    }

    /// Entries into the recompiler, time spent there (the sampled mean scaled to every entry)
    /// and samples taken.
    pub fn relato(&self) -> (r: (u64, u64, u64))
        requires
            self.amostras_no_jit() != 0 ==> (self.nanos_no_jit() / self.amostras_no_jit()) as int
                * self.entradas_no_jit() as int <= u64::MAX,
        ensures
            r == (
                self.entradas_no_jit(),
                if self.amostras_no_jit() == 0 {
                    0u64
                } else {
                    ((self.nanos_no_jit() / self.amostras_no_jit()) * self.entradas_no_jit()) as u64
                },
                self.amostras_no_jit(),
            ),
    {
        let entradas: u64 = self.entradas_no_jit;
        let amostras: u64 = self.amostras_no_jit;
        let nanos: u64 = if amostras == 0 {
            0
        } else {
            self.nanos_no_jit / amostras * entradas
        };
        (entradas, nanos, amostras)
    }

    /// Before an entry into the recompiler: no stop reason yet, and the run may retire `max`
    /// more instructions. Answers whether this entry is one of those timed.
    pub fn prepara_execucao(&mut self, max_instructions: u64) -> (cronometrar: bool)
        requires
            old(self).wf(),
        ensures
            final(self).wf(),
            cronometrar == (old(self).entradas_no_jit() % AMOSTRA_DO_JIT == 0),
            final(self).parada() == Parada::Nenhuma,
            final(self).limite() == old(self).instrucoes().saturating_add(max_instructions),
            final(self).memoria_igual(old(self)),
            final(self).instrucoes() == old(self).instrucoes(),
            final(self).entradas_no_jit() == old(self).entradas_no_jit(),
            final(self).nanos_no_jit() == old(self).nanos_no_jit(),
            final(self).amostras_no_jit() == old(self).amostras_no_jit(),
            final(self).saida() == old(self).saida(),
            final(self).regioes() == old(self).regioes(),
    {
        self.parada = Parada::Nenhuma;
        self.limite = self.instrucoes.saturating_add(max_instructions);
        self.entradas_no_jit % AMOSTRA_DO_JIT == 0
    }

    /// After the recompiler returns: the entry is counted, a timing (`nanos`, for a timed entry)
    /// joins the samples, and the stale code pages are handed out for the caller to drop.
    pub fn conclui_execucao(&mut self, nanos: Option<u64>) -> (paginas: BTreeSet<u32>)
        requires
            old(self).wf(),
        ensures
            final(self).wf(),
            paginas@ == old(self).codigo_sujo(),
            final(self).codigo_sujo() == Set::<u32>::empty(),
            final(self).entradas_no_jit() == old(self).entradas_no_jit().saturating_add(1),
            final(self).nanos_no_jit() == match nanos {
                Some(n) => old(self).nanos_no_jit().saturating_add(n),
                None => old(self).nanos_no_jit(),
            },
            final(self).amostras_no_jit() == match nanos {
                Some(_) => old(self).amostras_no_jit().saturating_add(1),
                None => old(self).amostras_no_jit(),
            },
            final(self).parada() == old(self).parada(),
            final(self).instrucoes() == old(self).instrucoes(),
            final(self).limite() == old(self).limite(),
            final(self).vigias() == old(self).vigias(),
            final(self).atalho() == old(self).atalho(),
            final(self).tabela() == old(self).tabela(),
            final(self).executadas() == old(self).executadas(),
            final(self).saida() == old(self).saida(),
            final(self).regioes() == old(self).regioes(),
    {
        if let Some(n) = nanos {
            self.nanos_no_jit = self.nanos_no_jit.saturating_add(n);
            self.amostras_no_jit = self.amostras_no_jit.saturating_add(1);
        }
        self.entradas_no_jit = self.entradas_no_jit.saturating_add(1);
        self.toma_codigo_sujo()
    }

    /// Entries into the recompiler, nanoseconds measured, and samples taken, as counted.
    pub fn contadores_do_jit(&self) -> (r: (u64, u64, u64))
        ensures
            r == (self.entradas_no_jit(), self.nanos_no_jit(), self.amostras_no_jit()),
    {
        (self.entradas_no_jit, self.nanos_no_jit, self.amostras_no_jit)
    }

    /// The stop reason recorded during the last run.
    pub fn parada_exec(&self) -> (r: Parada)
        ensures
            r == self.parada(),
    {
        self.parada
    }
}

/// Without the watch under `id` there is no watch under `id`.
pub proof fn lemma_sem_id(s: Seq<Vigia>, id: u32)
    requires
        crate::vigias::ids_unicos(s),
    ensures
        !tem_id(sem_id(s, id), id),
        crate::vigias::ids_unicos(sem_id(s, id)),
{
    if tem_id(s, id) {
        let k = choose|k: int| 0 <= k < s.len() && (#[trigger] s[k]).id == id;
        Vigias::lemma_posicao(s, id, k);
        let r = s.remove(k);
        assert forall|j: int| 0 <= j < r.len() implies (#[trigger] r[j]).id != id by {
            if j < k {
                assert(r[j] == s[j]);
            } else {
                assert(r[j] == s[j + 1]);
            }
        }
        assert forall|a: int, b: int| 0 <= a < r.len() && 0 <= b < r.len() && a != b implies r[a].id != r[b].id by {
            let oa = if a < k { a } else { a + 1 };
            let ob = if b < k { b } else { b + 1 };
            assert(r[a] == s[oa]);
            assert(r[b] == s[ob]);
        }
    }
}

/// A new watch starts dirty: after `vigia`, the first read of its id answers dirty, whatever
/// was registered under that id before.
pub proof fn lei_vigia_nasce_suja(s: Seq<Vigia>, id: u32, base: u32, fim: u32)
    requires
        crate::vigias::ids_unicos(s),
    ensures
        ({
            let depois = sem_id(s, id).push(Vigia { id, inicio: base, fim, sujo: true });
            &&& Vigias::posicao(depois, id) == Some(depois.len() - 1)
            &&& depois[depois.len() - 1].sujo
        }),
{
    lemma_sem_id(s, id);
    let r = sem_id(s, id);
    let depois = r.push(Vigia { id, inicio: base, fim, sujo: true });
    assert forall|a: int, b: int| 0 <= a < depois.len() && 0 <= b < depois.len() && a != b implies depois[a].id
        != depois[b].id by {
        if a < r.len() {
            assert(depois[a] == r[a]);
        }
        if b < r.len() {
            assert(depois[b] == r[b]);
        }
    }
    Vigias::lemma_posicao(depois, id, depois.len() - 1);
}

impl Estado {
    /// The page table entry of `pagina`; none beyond the guest space.
    pub fn entrada(&self, pagina: u32) -> (r: Option<EntradaDePagina>)
        ensures
            r == if (pagina as int) < PAGINAS && (pagina as int) < self.tabela().len() {
                self.tabela()[pagina as int]
            } else {
                None
            },
    {
        if (pagina as usize) < PAGINAS && (pagina as usize) < self.tabela.len() {
            self.tabela[pagina as usize]
        } else {
            None
        }
    }

    /// Whether `pagina` has been fetched as code.
    pub fn executada(&self, pagina: u32) -> (r: bool)
        requires
            self.wf(),
        ensures
            r == self.executadas().contains(pagina),
    {
        self.paginas_executadas.contem(pagina)
    }

    /// The write watches.
    pub fn vigias_exec(&self) -> (r: &Vec<Vigia>)
        ensures
            r@ == self.vigias(),
    {
        self.vigias.lista()
    }
}

/// Code that is written is translated again: once the page of `addr` has been fetched as code,
/// a write at `addr` (of the guest, or of the host between runs) puts that page among those
/// whose translation the next run drops.
pub proof fn lei_codigo_escrito_e_recompilado(sujas: Set<u32>, executadas: Set<u32>, addr: u32, len: u32)
    requires
        executadas.contains(addr / PAGE),
    ensures
        sujas.union(Set::new(|p: u32| pagina_da_escrita(p, addr, len) && executadas.contains(p))).contains(
            addr / PAGE,
        ),
{
    assert(pagina_da_escrita(addr / PAGE, addr, len));
}

/// Right after a run is prepared with a budget of `max` instructions, the recompiler may retire
/// exactly `max` more, unless the count would pass `u64::MAX`.
pub proof fn lei_orcamento(instrucoes: u64, max: u64)
    requires
        instrucoes + max <= u64::MAX,
    ensures
        instrucoes.saturating_add(max).saturating_sub(instrucoes) == max,
{
}

/// Whether the `SYS_WRITE0` step at `offset` copies `lido`, the byte read at `r1 + offset`: it
/// must have been readable and not the terminator, within the first `MAX_SEMIHOSTING_STRING`.
pub open spec fn write0_copia(offset: int, lido: Option<u8>) -> bool {
    offset < MAX_SEMIHOSTING_STRING && (lido matches Some(b) && b != 0)
}

/// Whether, after the step at `offset`, the next byte is read.
pub open spec fn write0_continua(offset: int, lido: Option<u8>) -> bool {
    write0_copia(offset, lido) && offset + 1 < MAX_SEMIHOSTING_STRING
}

/// The output after the steps of `SYS_WRITE0` from `offset` on, starting from `saida`, where
/// `lidos[i]` is what reading `r1 + i` gives: each step as `semihosting_texto` states it, the
/// next one taken only when the step says so.
pub open spec fn saida_do_write0(saida: Seq<char>, lidos: Seq<Option<u8>>, offset: int) -> Seq<char>
    decreases lidos.len() - offset,
{
    if offset < 0 || offset >= lidos.len() || !write0_copia(offset, lidos[offset]) {
        saida
    } else if !write0_continua(offset, lidos[offset]) {
        saida.push(lidos[offset]->0 as char)
    } else {
        saida_do_write0(saida.push(lidos[offset]->0 as char), lidos, offset + 1)
    }
}

/// The first offset, from `i` on, whose byte is not copied: unreadable, the terminator, or past
/// the limit; or the end of `lidos`.
pub open spec fn fim_do_write0(lidos: Seq<Option<u8>>, i: int) -> int
    decreases lidos.len() - i,
{
    if i < 0 || i >= lidos.len() || !write0_copia(i, lidos[i]) {
        i
    } else {
        fim_do_write0(lidos, i + 1)
    }
}

/// The text `SYS_WRITE0` copies from `lidos`: the bytes before the first unreadable byte or
/// terminator, at most `MAX_SEMIHOSTING_STRING` of them, each as the `char` of the same value.
pub open spec fn texto_write0(lidos: Seq<Option<u8>>) -> Seq<char> {
    Seq::new(fim_do_write0(lidos, 0) as nat, |i: int| lidos[i]->0 as char)
}

proof fn lemma_write0_desde(saida: Seq<char>, lidos: Seq<Option<u8>>, k: int)
    requires
        0 <= k,
    ensures
        k <= fim_do_write0(lidos, k) <= k + MAX_SEMIHOSTING_STRING,
        fim_do_write0(lidos, k) <= MAX_SEMIHOSTING_STRING || fim_do_write0(lidos, k) == k,
        saida_do_write0(saida, lidos, k) == saida + Seq::new(
            (fim_do_write0(lidos, k) - k) as nat,
            |i: int| lidos[k + i]->0 as char,
        ),
    decreases lidos.len() - k,
{
    let fim = fim_do_write0(lidos, k);
    if k >= lidos.len() || !write0_copia(k, lidos[k]) {
        assert(saida + Seq::new((fim - k) as nat, |i: int| lidos[k + i]->0 as char) =~= saida);
    } else {
        let c = lidos[k]->0 as char;
        lemma_write0_desde(saida.push(c), lidos, k + 1);
        if !write0_continua(k, lidos[k]) {
            assert(fim_do_write0(lidos, k + 1) == k + 1);
        }
        assert(saida_do_write0(saida, lidos, k) =~= saida + Seq::new(
            (fim - k) as nat,
            |i: int| lidos[k + i]->0 as char,
        ));
    }
}

/// A whole `SYS_WRITE0` appends to the output exactly the text at `r1`: the bytes up to the
/// first unreadable one or the terminator, at most `MAX_SEMIHOSTING_STRING` of them.
pub proof fn lei_write0(saida: Seq<char>, lidos: Seq<Option<u8>>)
    ensures
        saida_do_write0(saida, lidos, 0) == saida + texto_write0(lidos),
        texto_write0(lidos).len() <= MAX_SEMIHOSTING_STRING,
{
    lemma_write0_desde(saida, lidos, 0);
    assert(Seq::new((fim_do_write0(lidos, 0) - 0) as nat, |i: int| lidos[0 + i]->0 as char)
        =~= texto_write0(lidos));
}

impl Estado {
    /// No two watches share an id.
    pub proof fn lemma_ids_unicos(&self)
        requires
            self.wf(),
        ensures
            crate::vigias::ids_unicos(self.vigias()),
    {
        self.vigias.lemma_ids_unicos();
    }

    /// The page table has one entry per guest page.
    pub proof fn lemma_tamanho_da_tabela(&self)
        requires
            self.wf(),
        ensures
            self.tabela().len() == PAGINAS,
    {
    }

    /// Reading a watch clears it: right after `toma_sujo` answered for a watched `id`, a second
    /// read finds the same watch, and clean.
    pub proof fn lei_segunda_leitura_limpa(&self, id: u32)
        requires
            self.wf(),
            tem_id(self.vigias(), id),
        ensures
            ({
                let k = Vigias::posicao(self.vigias(), id)->0;
                let depois = self.vigias().update(k, Vigia { sujo: false, ..self.vigias()[k] });
                &&& Vigias::posicao(depois, id) == Some(k)
                &&& !depois[k].sujo
            }),
    {
        self.lemma_ids_unicos();
        crate::vigias::lei_segunda_leitura_limpa(self.vigias(), id);
    }

    /// Unwatching twice is unwatching once: after `desvigia(id)` no watch has `id`, and a second
    /// call changes neither the watches nor the page table.
    pub proof fn lei_desvigiar_de_novo(&self, id: u32)
        requires
            !tem_id(self.vigias(), id),
        ensures
            sem_id(self.vigias(), id) == self.vigias(),
            self.tabela_sem_vigia(id) == self.tabela(),
    {
    }
}

/// The pages a write reaches run from the page of its first byte to the page of its last byte
/// (the end saturating at the top of the guest space); a write of no byte reaches the page of
/// its address.
pub proof fn lei_paginas_da_escrita(p: u32, addr: u32, len: u32)
    ensures
        pagina_da_escrita(p, addr, len) <==> (addr / 4096 <= p && p <= addr.saturating_add(
            len.saturating_sub(1),
        ) / 4096),
        len >= 1 && addr as int + len as int <= 0x1_0000_0000 ==> (pagina_da_escrita(
            ((addr as int + len as int - 1) / 4096) as u32,
            addr,
            len,
        ) && pagina_da_escrita(addr / 4096, addr, len)),
        len >= 1 && addr as int + len as int <= 0x1_0000_0000 ==> (pagina_da_escrita(p, addr, len) <==> (
        addr as int / 4096 <= p as int && p as int <= (addr as int + len as int - 1) / 4096)),
{
}

/// Which bytes `SYS_WRITE0` copies: a readable byte other than 0 within the first 4096, and the
/// copy goes on while the next offset is still below 4096. An unreadable byte, the byte 0 or
/// the limit ends the text.
pub proof fn lei_bytes_do_write0(offset: int, b: u8)
    ensures
        write0_copia(offset, Some(b)) <==> (offset < 4096 && b != 0),
        write0_continua(offset, Some(b)) <==> (offset < 4095 && b != 0),
        !write0_copia(offset, None),
        !write0_copia(offset, Some(0u8)),
{
}

/// A guest string that is readable and has no 0 in its first `n` bytes, `n` within the limit,
/// is copied byte for byte up to the first unreadable byte or terminator after them.
pub proof fn lei_texto_write0(lidos: Seq<Option<u8>>, n: int)
    requires
        0 <= n <= lidos.len(),
        n <= 4096,
        forall|i: int| 0 <= i < n ==> (#[trigger] lidos[i] matches Some(b) && b != 0),
        n == lidos.len() || n == 4096 || lidos[n] is None || lidos[n] == Some(0u8),
    ensures
        texto_write0(lidos).len() == n,
        forall|i: int| 0 <= i < n ==> #[trigger] texto_write0(lidos)[i] == lidos[i]->0 as char,
{
    lemma_fim_do_write0(lidos, 0, n);
}

proof fn lemma_fim_do_write0(lidos: Seq<Option<u8>>, k: int, n: int)
    requires
        0 <= k <= n <= lidos.len(),
        n <= 4096,
        forall|i: int| 0 <= i < n ==> (#[trigger] lidos[i] matches Some(b) && b != 0),
        n == lidos.len() || n == 4096 || lidos[n] is None || lidos[n] == Some(0u8),
    ensures
        fim_do_write0(lidos, k) == n,
    decreases n - k,
{
    if k < n {
        assert(lidos[k] matches Some(b) && b != 0);
        lemma_fim_do_write0(lidos, k + 1, n);
    }
}

} // verus!
