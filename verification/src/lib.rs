//! Control state of the Dynarmic-backed A32 core.
//!
//! The recompiler itself executes guest code; this crate holds and proves the decisions taken
//! around it: which guest pages have already been fetched as code, which of them a write has
//! made stale, the write watches and their dirty flags, the direct-access page table, the
//! instruction budget, and how a halted run is classified.

pub mod constantes;
pub mod paginas;
pub mod sujas;
pub mod vigias;
pub mod tabela;
pub mod estado;
pub mod cpu;

pub use constantes::{AMOSTRA_DO_JIT, CPSR_THUMB, MAX_SEMIHOSTING_STRING, MODO_USUARIO, PAGE, PAGINAS};
pub use paginas::PaginasExecutadas;
pub use vigias::{Vigia, Vigias};
pub use tabela::{ponteiro_da_pagina, EntradaDePagina, Regiao};
pub use estado::{AtendimentoSvc, Estado, Fronteira, Parada};
pub use cpu::{classifica, em_thumb, CpuError, DynarmicCpu, Execucao, Reg, StopReason};
