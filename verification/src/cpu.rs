use vstd::prelude::*;

use std::collections::BTreeSet;

use crate::constantes::CPSR_THUMB;
use crate::estado::{Estado, Fronteira, Parada};
use crate::tabela::Regiao;

verus! {

/// An error of the core, with its message.
#[derive(Debug)]
pub struct CpuError(pub String);

impl CpuError {
    pub open spec fn mensagem(&self) -> Seq<char> {
        self.0@
    }

    /// The error of an operation that needs the recompiler before the memory map was set.
    pub fn sem_mapa() -> (r: CpuError)
        ensures
            r.mensagem() == "Dynarmic não recebeu mapa de memória"@,
    {
        CpuError(String::from_str("Dynarmic não recebeu mapa de memória"))
    }
}

/// A guest register, as the rest of the emulator names it.
#[derive(Clone, Copy, Debug, PartialEq, Eq, Structural)]
pub enum Reg {
    R0,
    R1,
    R2,
    R3,
    R4,
    R5,
    R6,
    R7,
    R8,
    R9,
    R10,
    R11,
    R12,
    Sp,
    Lr,
    Pc,
}

/// The architectural number of `reg`.
pub open spec fn numero(reg: Reg) -> usize {
    match reg {
        Reg::R0 => 0,
        Reg::R1 => 1,
        Reg::R2 => 2,
        Reg::R3 => 3,
        Reg::R4 => 4,
        Reg::R5 => 5,
        Reg::R6 => 6,
        Reg::R7 => 7,
        Reg::R8 => 8,
        Reg::R9 => 9,
        Reg::R10 => 10,
        Reg::R11 => 11,
        Reg::R12 => 12,
        Reg::Sp => 13,
        Reg::Lr => 14,
        Reg::Pc => 15,
    }
}

/// Why a run handed control back to the dispatcher.
#[derive(Clone, Copy, Debug, PartialEq, Eq, Structural)]
pub enum StopReason {
    /// The instruction budget ran out.
    Budget,
    /// The guest returned to the sentinel.
    Returned,
    /// The guest jumped into the host API range.
    ApiCall { addr: u32 },
    /// An access at `addr` failed, with the core at `pc`.
    MemoryFault { addr: u32, pc: u32 },
    /// The guest raised an exception at `pc`.
    Exception { pc: u32 },
}

/// What a run ends with, given the stop reason a callback recorded and the core's `pc`.
pub open spec fn motivo(parada: Parada, pc_atual: u32, fronteira: Fronteira) -> StopReason {
    match parada {
        Parada::Nenhuma => StopReason::Budget,
        Parada::Fetch(addr) => if addr == fronteira.retorno {
            StopReason::Returned
        } else if fronteira.na_api(addr) {
            StopReason::ApiCall { addr }
        } else {
            StopReason::MemoryFault { addr, pc: addr }
        },
        Parada::Memoria(addr) => StopReason::MemoryFault { addr, pc: pc_atual },
        Parada::Excecao(pc) => StopReason::Exception { pc },
    }
}

/// The stop reason of a run, from what a callback recorded. A failed fetch from the return
/// sentinel or from the host API range is a way out of the guest; elsewhere it is a fault at
/// the fetched address.
pub fn classifica(parada: Parada, pc_atual: u32, fronteira: Fronteira) -> (r: StopReason)
    ensures
        r == motivo(parada, pc_atual, fronteira),
        parada == Parada::Nenhuma ==> r == StopReason::Budget,
        parada == Parada::Fetch(fronteira.retorno) ==> r == StopReason::Returned,
        forall|a: u32|
            parada == Parada::Fetch(a) && a != fronteira.retorno ==> (r == (StopReason::ApiCall { addr: a })
                <==> (fronteira.api_base <= a && a < fronteira.api_base.saturating_add(fronteira.api_size))),
        forall|a: u32|
            parada == Parada::Fetch(a) && a != fronteira.retorno && !(fronteira.api_base <= a && a
                < fronteira.api_base.saturating_add(fronteira.api_size)) ==> r == (StopReason::MemoryFault {
                addr: a,
                pc: a,
            }),
        forall|a: u32| parada == Parada::Memoria(a) ==> r == (StopReason::MemoryFault { addr: a, pc: pc_atual }),
        forall|pc: u32| parada == Parada::Excecao(pc) ==> r == (StopReason::Exception { pc }),
{
    match parada {
        Parada::Nenhuma => StopReason::Budget,
        Parada::Fetch(addr) => {
            if addr == fronteira.retorno {
                StopReason::Returned
            } else if fronteira.na_api_exec(addr) {
                StopReason::ApiCall { addr }
            } else {
                StopReason::MemoryFault { addr, pc: addr }
            }
        },
        Parada::Memoria(addr) => StopReason::MemoryFault { addr, pc: pc_atual },
        Parada::Excecao(pc) => StopReason::Exception { pc },
    }
}

/// Whether `cpsr` selects the Thumb instruction set.
pub fn em_thumb(cpsr: u32) -> (r: bool)
    ensures
        r == (cpsr & CPSR_THUMB != 0),
{
    cpsr & CPSR_THUMB != 0
}

/// Where and how a run starts.
#[derive(Clone, Copy, Debug, PartialEq, Eq)]
pub struct Execucao {
    /// The `CPSR` to set: its `T` bit follows bit 0 of the requested address.
    pub cpsr: u32,
    /// The address to start at, without its mode bit.
    pub pc: u32,
    /// Whether this entry into the recompiler is timed.
    pub cronometrar: bool,
}

/// The ARM A32 core backed by the recompiler. Creating it sets up nothing: the guest memory map
/// only exists at `reset`.
pub struct DynarmicCpu {
    jit: Option<Estado>,
}

impl DynarmicCpu {
    pub closed spec fn tem_jit(&self) -> bool {
        self.jit is Some
    }

    pub closed spec fn estado(&self) -> Estado {
        self.jit->0
    }

    pub closed spec fn wf(&self) -> bool {
        self.jit matches Some(e) ==> e.wf()
    }

    /// A well-formed core with a memory map holds a well-formed control state.
    pub proof fn lemma_estado_wf(&self)
        requires
            self.wf(),
            self.tem_jit(),
        ensures
            self.estado().wf(),
    {
    }

    /// No two watches of a well-formed core share an id.
    pub proof fn lemma_ids_unicos(&self)
        requires
            self.wf(),
            self.tem_jit(),
        ensures
            crate::vigias::ids_unicos(self.estado().vigias()),
    {
        self.estado().lemma_ids_unicos();
    }

    /// The control state, once the memory map is set, for the recompiler's callbacks.
    pub fn jit_mut(&mut self) -> (r: Result<&mut Estado, CpuError>)
        ensures
            old(self).tem_jit() == r is Ok,
            match r {
                Ok(e) => *e == old(self).estado() && final(self).tem_jit() && final(self).estado() == *final(e)
                    && (old(self).wf() ==> e.wf()) && (final(self).wf() == final(e).wf()),
                Err(err) => *final(self) == *old(self) && err.mensagem() == "Dynarmic não recebeu mapa de memória"@,
            },
    {
        match &mut self.jit {
            Some(e) => Ok(e),
            None => Err(CpuError::sem_mapa()),
        }
    }
}

impl DynarmicCpu {
    pub fn new() -> (r: Result<Self, CpuError>)
        ensures
            r matches Ok(c) && c.wf() && !c.tem_jit(),
    {
        Ok(DynarmicCpu { jit: None })
    }

    /// Sets the guest memory map: the page table is rebuilt from `regioes`, and every piece of
    /// control state starts over.
    pub fn reset(&mut self, regioes: Vec<Regiao>)
        ensures
            final(self).wf(),
            final(self).tem_jit(),
            final(self).estado().inicial(regioes@),
    {
        self.jit = Some(Estado::new(regioes));
    }

    /// The control state, once the memory map is set.
    pub fn jit(&self) -> (r: Result<&Estado, CpuError>)
        ensures
            match r {
                Ok(e) => self.tem_jit() && *e == self.estado(),
                Err(err) => !self.tem_jit() && err.mensagem() == "Dynarmic não recebeu mapa de memória"@,
            },
    {
        match &self.jit {
            Some(e) => Ok(e),
            None => Err(CpuError::sem_mapa()),
        }
    }

    /// The architectural number of `reg`.
    pub fn indice(reg: Reg) -> (r: usize)
        ensures
            r == numero(reg),
            r < 16,
            reg == Reg::R0 ==> r == 0,
            reg == Reg::R1 ==> r == 1,
            reg == Reg::R2 ==> r == 2,
            reg == Reg::R3 ==> r == 3,
            reg == Reg::R4 ==> r == 4,
            reg == Reg::R5 ==> r == 5,
            reg == Reg::R6 ==> r == 6,
            reg == Reg::R7 ==> r == 7,
            reg == Reg::R8 ==> r == 8,
            reg == Reg::R9 ==> r == 9,
            reg == Reg::R10 ==> r == 10,
            reg == Reg::R11 ==> r == 11,
            reg == Reg::R12 ==> r == 12,
            reg == Reg::Sp ==> r == 13,
            reg == Reg::Lr ==> r == 14,
            reg == Reg::Pc ==> r == 15,
    {
        match reg {
            Reg::R0 => 0,
            Reg::R1 => 1,
            Reg::R2 => 2,
            Reg::R3 => 3,
            Reg::R4 => 4,
            Reg::R5 => 5,
            Reg::R6 => 6,
            Reg::R7 => 7,
            Reg::R8 => 8,
            Reg::R9 => 9,
            Reg::R10 => 10,
            Reg::R11 => 11,
            Reg::R12 => 12,
            Reg::Sp => 13,
            Reg::Lr => 14,
            Reg::Pc => 15,
        }
    }

    /// The semihosting output so far; empty before the memory map is set.
    pub fn semihosting(&self) -> (r: String)
        ensures
            r@ == if self.tem_jit() {
                self.estado().saida()
            } else {
                Seq::<char>::empty()
            },
    {
        match &self.jit {
            Some(e) => e.saida_exec(),
            None => String::new(),
        }
    }

    /// Instructions retired so far; zero before the memory map is set.
    pub fn instructions(&self) -> (r: u64)
        ensures
            r == if self.tem_jit() {
                self.estado().instrucoes()
            } else {
                0
            },
    {
        match &self.jit {
            Some(e) => e.instrucoes_exec(),
            None => 0,
        }
    }

    /// Sets the retired-instruction count; nothing to do before the memory map is set.
    pub fn set_instructions(&mut self, valor: u64)
        requires
            old(self).wf(),
        ensures
            final(self).wf(),
            final(self).tem_jit() == old(self).tem_jit(),
            !old(self).tem_jit() ==> *final(self) == *old(self),
            old(self).tem_jit() ==> {
                &&& final(self).estado().instrucoes() == valor
                &&& final(self).estado().igual_exceto_instrucoes(&old(self).estado())
            },
    {
        match &mut self.jit {
            Some(e) => e.define_instrucoes(valor),
            None => {},
        }
    }

    /// Entries into the recompiler, the time spent there, and how many entries were timed; none
    /// before the memory map is set.
    pub fn relato_do_jit(&self) -> (r: Option<(u64, u64, u64)>)
        requires
            self.tem_jit() && self.estado().amostras_no_jit() != 0 ==> (self.estado().nanos_no_jit()
                / self.estado().amostras_no_jit()) as int * self.estado().entradas_no_jit() as int
                <= u64::MAX,
        ensures
            match r {
                Some(t) => self.tem_jit() && t == (
                    self.estado().entradas_no_jit(),
                    if self.estado().amostras_no_jit() == 0 {
                        0u64
                    } else {
                        ((self.estado().nanos_no_jit() / self.estado().amostras_no_jit())
                            * self.estado().entradas_no_jit()) as u64
                    },
                    self.estado().amostras_no_jit(),
                ),
                None => !self.tem_jit(),
            },
    {
        match &self.jit {
            Some(e) => Some(e.relato()),
            None => None,
        }
    }

    /// Watches `len` bytes at `base` under `id`: only guest writes mark the range dirty, and it
    /// starts dirty. An earlier watch under `id` is dropped first. Fails before the memory map
    /// is set.
    pub fn watch_dirty(&mut self, id: u32, base: u32, len: u32) -> (r: Result<(), CpuError>)
        requires
            old(self).wf(),
        ensures
            final(self).wf(),
            r is Ok == old(self).tem_jit(),
            final(self).tem_jit() == old(self).tem_jit(),
            !old(self).tem_jit() ==> *final(self) == *old(self),
            old(self).tem_jit() ==> {
                let antes = old(self).estado();
                let depois = final(self).estado();
                &&& depois.vigias() == crate::estado::sem_id(antes.vigias(), id).push(
                    crate::vigias::Vigia { id, inicio: base, fim: base.saturating_add(len), sujo: true },
                )
                &&& depois.tabela() == crate::estado::tabela_anulada(
                    antes.tabela_sem_vigia(id),
                    base,
                    base.saturating_add(len),
                )
                &&& depois.atalho() == (0u32, 0u32)
                &&& depois.executadas() == antes.executadas()
                &&& depois.codigo_sujo() == antes.codigo_sujo()
                &&& depois.contadores_iguais(&antes)
            },
            r matches Err(err) ==> err.mensagem() == "Dynarmic não recebeu mapa de memória"@,
    {
        match &mut self.jit {
            Some(e) => {
                e.vigia(id, base, len);
                Ok(())
            },
            None => Err(CpuError::sem_mapa()),
        }
    }

    /// Stops watching `id`; the pages of its range that nothing else needs to intercept go back
    /// to direct access.
    pub fn unwatch_dirty(&mut self, id: u32)
        requires
            old(self).wf(),
        ensures
            final(self).wf(),
            final(self).tem_jit() == old(self).tem_jit(),
            !old(self).tem_jit() ==> *final(self) == *old(self),
            old(self).tem_jit() ==> {
                let antes = old(self).estado();
                let depois = final(self).estado();
                &&& depois.vigias() == crate::estado::sem_id(antes.vigias(), id)
                &&& !crate::vigias::tem_id(depois.vigias(), id)
                &&& depois.tabela() == antes.tabela_sem_vigia(id)
                &&& depois.atalho() == (0u32, 0u32)
                &&& depois.executadas() == antes.executadas()
                &&& depois.codigo_sujo() == antes.codigo_sujo()
                &&& depois.contadores_iguais(&antes)
            },
    {
        match &mut self.jit {
            Some(e) => e.desvigia(id),
            None => {},
        }
    }

    /// Whether the range watched under `id` was written by the guest since the last call, which
    /// clears it. A range that is not watched, or a core without memory map, answers dirty.
    pub fn take_dirty(&mut self, id: u32) -> (r: bool)
        requires
            old(self).wf(),
        ensures
            final(self).wf(),
            final(self).tem_jit() == old(self).tem_jit(),
            !old(self).tem_jit() ==> r && *final(self) == *old(self),
            old(self).tem_jit() ==> {
                let antes = old(self).estado();
                let depois = final(self).estado();
                &&& match crate::vigias::Vigias::posicao(antes.vigias(), id) {
                    Some(k) => r == antes.vigias()[k].sujo && depois.vigias() == antes.vigias().update(
                        k,
                        crate::vigias::Vigia { sujo: false, ..antes.vigias()[k] },
                    ),
                    None => r && depois.vigias() == antes.vigias(),
                }
                &&& depois.atalho() == (0u32, 0u32)
                &&& depois.tabela() == antes.tabela()
                &&& depois.executadas() == antes.executadas()
                &&& depois.codigo_sujo() == antes.codigo_sujo()
                &&& depois.contadores_iguais(&antes)
            },
    {
        match &mut self.jit {
            Some(e) => e.toma_sujo(id),
            None => true,
        }
    }

    /// The host reports a write of its own, `len` bytes at `addr`, as one the watches must see.
    pub fn marca_sujo(&mut self, addr: u32, len: u32)
        requires
            old(self).wf(),
        ensures
            final(self).wf(),
            final(self).tem_jit() == old(self).tem_jit(),
            !old(self).tem_jit() ==> *final(self) == *old(self),
            old(self).tem_jit() ==> {
                let antes = old(self).estado();
                let depois = final(self).estado();
                &&& depois.vigias() == crate::vigias::marcadas(antes.vigias(), addr, addr.saturating_add(len))
                &&& depois.atalho() == antes.atalho()
                &&& depois.tabela() == antes.tabela()
                &&& depois.executadas() == antes.executadas()
                &&& depois.codigo_sujo() == antes.codigo_sujo()
                &&& depois.contadores_iguais(&antes)
            },
    {
        match &mut self.jit {
            Some(e) => e.marca_sujo(addr, len),
            None => {},
        }
    }

    /// The host wrote `len` bytes of guest memory at `addr`, between two runs. The translated
    /// code of every page it reached that had been fetched is stale: those pages, together with
    /// any already pending, are handed out for the caller to drop. Watches do not see host
    /// writes.
    pub fn invalida_codigo_escrito(&mut self, addr: u32, len: u32) -> (paginas: BTreeSet<u32>)
        requires
            old(self).wf(),
        ensures
            final(self).wf(),
            final(self).tem_jit() == old(self).tem_jit(),
            !old(self).tem_jit() ==> paginas@ == Set::<u32>::empty() && *final(self) == *old(self),
            old(self).tem_jit() ==> forall|p: u32|
                addr / 4096 <= p && p <= addr.saturating_add(len.saturating_sub(1)) / 4096
                    && old(self).estado().executadas().contains(p) ==> #[trigger] paginas@.contains(p),
            old(self).tem_jit() ==> forall|p: u32|
                #[trigger] paginas@.contains(p) ==> old(self).estado().codigo_sujo().contains(p) || (
                old(self).estado().executadas().contains(p) && addr / 4096 <= p && p <= addr.saturating_add(
                    len.saturating_sub(1),
                ) / 4096),
            old(self).tem_jit() ==> {
                let antes = old(self).estado();
                let depois = final(self).estado();
                &&& paginas@ == antes.codigo_sujo().union(
                    Set::new(
                        |p: u32|
                            crate::estado::pagina_da_escrita(p, addr, len) && antes.executadas().contains(p),
                    ),
                )
                &&& depois.codigo_sujo() == Set::<u32>::empty()
                &&& depois.igual_exceto_sujo(&antes)
            },
    {
        match &mut self.jit {
            Some(e) => {
                e.marca_codigo_sujo(addr, len);
                e.toma_codigo_sujo()
            },
            None => BTreeSet::new(),
        }
    }

    /// Prepares a run from `pc` that may retire `max_instructions`, given the current `cpsr`.
    /// Bit 0 of `pc` selects the instruction set, as in ARM interworking: set, the core runs
    /// Thumb; clear, ARM. Fails before the memory map is set.
    pub fn prepara_execucao(&mut self, pc: u32, max_instructions: u64, cpsr: u32) -> (r: Result<
        Execucao,
        CpuError,
    >)
        requires
            old(self).wf(),
        ensures
            final(self).wf(),
            r is Ok == old(self).tem_jit(),
            final(self).tem_jit() == old(self).tem_jit(),
            !old(self).tem_jit() ==> *final(self) == *old(self),
            r matches Err(err) ==> err.mensagem() == "Dynarmic não recebeu mapa de memória"@,
            r matches Ok(x) ==> {
                let antes = old(self).estado();
                let depois = final(self).estado();
                &&& x.cpsr == if pc % 2 == 1 {
                    cpsr | CPSR_THUMB
                } else {
                    cpsr & !CPSR_THUMB
                }
                &&& (x.cpsr & CPSR_THUMB != 0) == (pc % 2 == 1)
                &&& x.cpsr & !CPSR_THUMB == cpsr & !CPSR_THUMB
                &&& x.pc == pc & !1u32
                &&& x.pc % 2 == 0
                &&& x.pc == pc - pc % 2
                &&& x.cronometrar == (antes.entradas_no_jit() % crate::constantes::AMOSTRA_DO_JIT == 0)
                &&& depois.parada() == Parada::Nenhuma
                &&& depois.limite() == antes.instrucoes().saturating_add(max_instructions)
                &&& depois.memoria_igual(&antes)
                &&& depois.instrucoes() == antes.instrucoes()
                &&& depois.entradas_no_jit() == antes.entradas_no_jit()
                &&& depois.nanos_no_jit() == antes.nanos_no_jit()
                &&& depois.amostras_no_jit() == antes.amostras_no_jit()
                &&& depois.saida() == antes.saida()
                &&& depois.regioes() == antes.regioes()
            },
    {
        match &mut self.jit {
            Some(e) => {
                let cronometrar = e.prepara_execucao(max_instructions);
                let novo_cpsr = if pc & 1 == 1 {
                    cpsr | CPSR_THUMB
                } else {
                    cpsr & !CPSR_THUMB
                };
                proof {
                    assert((pc & 1 == 1) ==> ((cpsr | 0x20u32) & 0x20u32 != 0) && (cpsr | 0x20u32) & !0x20u32
                        == cpsr & !0x20u32) by (bit_vector);
                    assert((pc & 1 != 1) ==> ((cpsr & !0x20u32) & 0x20u32 == 0) && (cpsr & !0x20u32) & !0x20u32
                        == cpsr & !0x20u32) by (bit_vector);
                    assert(pc & 1 == 1 || pc & 1 == 0) by (bit_vector);
                    assert((pc & !1u32) % 2 == 0 && pc & !1u32 == pc - pc % 2) by (bit_vector);
                    assert(pc & 1 == pc % 2) by (bit_vector);
                }
                Ok(Execucao { cpsr: novo_cpsr, pc: pc & !1u32, cronometrar })
            },
            None => Err(CpuError::sem_mapa()),
        }
    }

    /// Finishes a run: the entry is counted, `nanos` (the time of a timed entry) joins the
    /// samples, and the stale code pages are handed out for the caller to drop before the next
    /// run. The run's stop reason follows what the callbacks recorded, with `pc_atual` the core's
    /// `pc`.
    pub fn conclui_execucao(&mut self, nanos: Option<u64>, pc_atual: u32, fronteira: Fronteira) -> (r: (
        BTreeSet<u32>,
        StopReason,
    ))
        requires
            old(self).wf(),
            old(self).tem_jit(),
        ensures
            final(self).wf(),
            final(self).tem_jit(),
            ({
                let antes = old(self).estado();
                let depois = final(self).estado();
                &&& r.0@ == antes.codigo_sujo()
                &&& r.1 == motivo(antes.parada(), pc_atual, fronteira)
                &&& depois.codigo_sujo() == Set::<u32>::empty()
                &&& depois.entradas_no_jit() == antes.entradas_no_jit().saturating_add(1)
                &&& depois.nanos_no_jit() == match nanos {
                    Some(n) => antes.nanos_no_jit().saturating_add(n),
                    None => antes.nanos_no_jit(),
                }
                &&& depois.amostras_no_jit() == match nanos {
                    Some(_) => antes.amostras_no_jit().saturating_add(1),
                    None => antes.amostras_no_jit(),
                }
                &&& depois.parada() == antes.parada()
                &&& depois.instrucoes() == antes.instrucoes()
                &&& depois.limite() == antes.limite()
                &&& depois.vigias() == antes.vigias()
                &&& depois.atalho() == antes.atalho()
                &&& depois.tabela() == antes.tabela()
                &&& depois.executadas() == antes.executadas()
                &&& depois.saida() == antes.saida()
                &&& depois.regioes() == antes.regioes()
            }),
    {
        match &mut self.jit {
            Some(e) => {
                let paginas = e.conclui_execucao(nanos);
                let motivo = classifica(e.parada_exec(), pc_atual, fronteira);
                (paginas, motivo)
            },
            None => (BTreeSet::new(), StopReason::Budget),
        }
    }
}

/// Each register has its ARM number: `Rn` is `n` for `n` up to 12, `SP` is 13, `LR` 14 and `PC`
/// 15. So distinct registers reach distinct slots of the core.
pub proof fn lei_numero_dos_registradores(a: Reg, b: Reg)
    ensures
        numero(Reg::R0) == 0 && numero(Reg::R1) == 1 && numero(Reg::R2) == 2 && numero(Reg::R3) == 3,
        numero(Reg::R4) == 4 && numero(Reg::R5) == 5 && numero(Reg::R6) == 6 && numero(Reg::R7) == 7,
        numero(Reg::R8) == 8 && numero(Reg::R9) == 9 && numero(Reg::R10) == 10 && numero(Reg::R11) == 11,
        numero(Reg::R12) == 12 && numero(Reg::Sp) == 13 && numero(Reg::Lr) == 14 && numero(Reg::Pc) == 15,
        numero(a) == numero(b) ==> a == b,
{
}

/// How a failed fetch at `a` ends a run: at the return sentinel the guest returned; inside
/// `[api_base, api_base + api_size)` (saturating) it called the host API; anywhere else it is a
/// memory fault at `a`, with `pc` equal to `a`. A failed data access is a fault at its address
/// with the core's `pc`; an exception keeps its `pc`; no stop reason means the budget ran out.
pub proof fn lei_motivo(a: u32, pc_atual: u32, f: Fronteira)
    ensures
        motivo(Parada::Nenhuma, pc_atual, f) == StopReason::Budget,
        motivo(Parada::Fetch(f.retorno), pc_atual, f) == StopReason::Returned,
        a != f.retorno ==> (motivo(Parada::Fetch(a), pc_atual, f) == (StopReason::ApiCall { addr: a }) <==> (
        f.api_base <= a && a < f.api_base.saturating_add(f.api_size))),
        a != f.retorno && !(f.api_base <= a && a < f.api_base.saturating_add(f.api_size)) ==> motivo(
            Parada::Fetch(a),
            pc_atual,
            f,
        ) == (StopReason::MemoryFault { addr: a, pc: a }),
        motivo(Parada::Memoria(a), pc_atual, f) == (StopReason::MemoryFault { addr: a, pc: pc_atual }),
        motivo(Parada::Excecao(a), pc_atual, f) == (StopReason::Exception { pc: a }),
{
}

} // verus!
