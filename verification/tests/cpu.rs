use std::collections::BTreeSet;

use zeebx::{
    classifica, em_thumb, AtendimentoSvc, DynarmicCpu, EntradaDePagina, Fronteira, Parada, Reg,
    Regiao, StopReason, CPSR_THUMB, MODO_USUARIO,
};

const FRONTEIRA: Fronteira = Fronteira { api_base: 0xf000_0000, api_size: 0x1000, retorno: 0xffff_fff0 };

fn regioes() -> Vec<Regiao> {
    vec![
        Regiao { base: 0, tamanho: 0x1000, gravavel: true },
        Regiao { base: 0x1000, tamanho: 0x1000, gravavel: true },
        Regiao { base: 0x2000_0000, tamanho: 0x1000, gravavel: true },
        Regiao { base: 0x3000_0000, tamanho: 0x2000, gravavel: false },
    ]
}

fn cpu() -> DynarmicCpu {
    let mut cpu = DynarmicCpu::new().unwrap();
    cpu.reset(regioes());
    cpu
}

fn conjunto(paginas: &[u32]) -> BTreeSet<u32> {
    paginas.iter().copied().collect()
}

#[test]
fn antes_do_mapa_nada_funciona() {
    let mut cpu = DynarmicCpu::new().unwrap();
    match cpu.jit() {
        Err(e) => assert_eq!(e.0, "Dynarmic não recebeu mapa de memória"),
        Ok(_) => panic!("no memory map was set"),
    }
    assert!(cpu.watch_dirty(1, 0, 4).is_err());
    assert!(cpu.take_dirty(1));
    assert_eq!(cpu.semihosting(), "");
    assert_eq!(cpu.instructions(), 0);
    assert_eq!(cpu.relato_do_jit(), None);
    assert!(cpu.prepara_execucao(0, 10, MODO_USUARIO).is_err());
    assert!(cpu.invalida_codigo_escrito(0, 4).is_empty());
    cpu.set_instructions(5);
    assert_eq!(cpu.instructions(), 0);
}

#[test]
fn reset_monta_a_tabela_de_paginas() {
    let cpu = cpu();
    let e = cpu.jit().unwrap();
    assert_eq!(e.entrada(0), Some(EntradaDePagina { regiao: 0, deslocamento: 0 }));
    assert_eq!(e.entrada(1), Some(EntradaDePagina { regiao: 1, deslocamento: 0 }));
    assert_eq!(e.entrada(2), None);
    assert_eq!(e.entrada(0x20000), Some(EntradaDePagina { regiao: 2, deslocamento: 0 }));
    // Read-only regions stay behind the callbacks.
    assert_eq!(e.entrada(0x30000), None);
    assert_eq!(e.entrada(0x100000), None);
    assert_eq!(cpu.relato_do_jit(), Some((0, 0, 0)));
}

#[test]
fn indice_segue_a_numeracao_do_arm() {
    assert_eq!(DynarmicCpu::indice(Reg::R0), 0);
    assert_eq!(DynarmicCpu::indice(Reg::R7), 7);
    assert_eq!(DynarmicCpu::indice(Reg::R12), 12);
    assert_eq!(DynarmicCpu::indice(Reg::Sp), 13);
    assert_eq!(DynarmicCpu::indice(Reg::Lr), 14);
    assert_eq!(DynarmicCpu::indice(Reg::Pc), 15);
}

#[test]
fn vigia_liga_com_escrita_do_guest_e_nao_com_a_do_host() {
    let mut cpu = cpu();
    cpu.watch_dirty(7, 0x1000, 4).unwrap();
    assert!(cpu.take_dirty(7), "starts dirty");
    assert!(!cpu.take_dirty(7), "reading clears");
    assert!(cpu.invalida_codigo_escrito(0x1000, 4).is_empty());
    assert!(!cpu.take_dirty(7), "a host write does not count");
    let e = cpu.jit_mut().unwrap();
    assert!(e.memory_write(0x1000, 4, true));
    assert_eq!(e.parada_exec(), Parada::Nenhuma);
    assert!(cpu.take_dirty(7), "a guest write counts");
    cpu.unwatch_dirty(7);
    assert!(cpu.take_dirty(7), "an unwatched range reads dirty");
}

#[test]
fn escrita_do_guest_marca_vigia_aninhada() {
    let mut cpu = cpu();
    cpu.watch_dirty(1, 0x1000, 0x1000).unwrap();
    cpu.watch_dirty(2, 0x1800, 0x10).unwrap();
    cpu.take_dirty(1);
    cpu.take_dirty(2);
    let e = cpu.jit_mut().unwrap();
    assert!(e.memory_write(0x1000, 4, true));
    assert!(e.memory_write(0x1800, 4, true));
    assert!(cpu.take_dirty(1));
    assert!(cpu.take_dirty(2));
}

#[test]
fn marca_sujo_do_host_conta_para_a_vigia() {
    let mut cpu = cpu();
    cpu.watch_dirty(3, 0x2000_0010, 0x10).unwrap();
    cpu.take_dirty(3);
    cpu.marca_sujo(0x2000_0000, 0x10);
    assert!(!cpu.take_dirty(3));
    cpu.marca_sujo(0x2000_0000, 0x11);
    assert!(cpu.take_dirty(3));
}

#[test]
fn vigia_tira_paginas_da_tabela_e_desvigiar_devolve() {
    let mut cpu = cpu();
    cpu.watch_dirty(1, 0x0ffc, 8).unwrap();
    {
        let e = cpu.jit().unwrap();
        assert_eq!(e.entrada(0), None);
        assert_eq!(e.entrada(1), None);
    }
    // A second watch on page 1 keeps it out when the first one goes.
    cpu.watch_dirty(2, 0x1800, 4).unwrap();
    cpu.unwatch_dirty(1);
    let e = cpu.jit().unwrap();
    assert_eq!(e.entrada(0), Some(EntradaDePagina { regiao: 0, deslocamento: 0 }));
    assert_eq!(e.entrada(1), None);
    cpu.unwatch_dirty(2);
    let e = cpu.jit().unwrap();
    assert_eq!(e.entrada(1), Some(EntradaDePagina { regiao: 1, deslocamento: 0 }));
}

#[test]
fn vigiar_de_novo_o_mesmo_id_troca_a_faixa() {
    let mut cpu = cpu();
    cpu.watch_dirty(1, 0, 4).unwrap();
    cpu.watch_dirty(1, 0x1000, 4).unwrap();
    let e = cpu.jit().unwrap();
    assert_eq!(e.vigias_exec().len(), 1);
    assert_eq!(e.entrada(0), Some(EntradaDePagina { regiao: 0, deslocamento: 0 }));
    assert_eq!(e.entrada(1), None);
}

#[test]
fn pagina_buscada_como_codigo_sai_da_tabela() {
    let mut cpu = cpu();
    let e = cpu.jit_mut().unwrap();
    assert_eq!(e.memory_read_code(0x0004, Some(0xe3a0_0037)), Some(0xe3a0_0037));
    assert!(e.executada(0));
    assert_eq!(e.entrada(0), None);
    assert_eq!(e.parada_exec(), Parada::Nenhuma);
    // Unwatching a range over code keeps the code page behind the callbacks.
    cpu.watch_dirty(1, 0, 0x2000).unwrap();
    cpu.unwatch_dirty(1);
    let e = cpu.jit().unwrap();
    assert_eq!(e.entrada(0), None);
    assert_eq!(e.entrada(1), Some(EntradaDePagina { regiao: 1, deslocamento: 0 }));
}

#[test]
fn busca_que_falha_para_com_fetch() {
    let mut cpu = cpu();
    let e = cpu.jit_mut().unwrap();
    assert_eq!(e.memory_read_code(0x3000_0000, None), None);
    assert_eq!(e.parada_exec(), Parada::Fetch(0x3000_0000));
    assert!(!e.executada(0x30000));
}

#[test]
fn codigo_alterado_pelo_host_volta_para_ser_recompilado() {
    let mut cpu = cpu();
    cpu.jit_mut().unwrap().memory_read_code(0, Some(0xe3a0_0001));
    // A host write to data does not touch code.
    assert!(cpu.invalida_codigo_escrito(0x1000, 4).is_empty());
    assert_eq!(cpu.invalida_codigo_escrito(0, 4), conjunto(&[0]));
    // The page was handed out once; the next write hands it out again.
    assert_eq!(cpu.invalida_codigo_escrito(0x0ffe, 4), conjunto(&[0]));
    // A write of no byte still counts the page of its address.
    assert_eq!(cpu.invalida_codigo_escrito(0x0800, 0), conjunto(&[0]));
}

#[test]
fn memory_write_em_codigo_fica_para_o_fim_da_execucao() {
    let mut cpu = cpu();
    let e = cpu.jit_mut().unwrap();
    e.memory_read_code(0x1000, Some(0));
    assert!(e.memory_write(0x1ffc, 8, true));
    let (paginas, motivo) = cpu.conclui_execucao(None, 0, FRONTEIRA);
    assert_eq!(paginas, conjunto(&[1]));
    assert_eq!(motivo, StopReason::Budget);
    let (paginas, _) = cpu.conclui_execucao(None, 0, FRONTEIRA);
    assert!(paginas.is_empty());
}

#[test]
fn escrita_recusada_para_com_falha_de_memoria() {
    let mut cpu = cpu();
    cpu.watch_dirty(1, 0x3000_0000, 4).unwrap();
    cpu.take_dirty(1);
    let e = cpu.jit_mut().unwrap();
    assert!(!e.memory_write(0x3000_0000, 4, false));
    assert_eq!(e.parada_exec(), Parada::Memoria(0x3000_0000));
    assert!(!cpu.take_dirty(1));
    let (_, motivo) = cpu.conclui_execucao(None, 0x44, FRONTEIRA);
    assert_eq!(motivo, StopReason::MemoryFault { addr: 0x3000_0000, pc: 0x44 });
}

#[test]
fn leitura_recusada_para_com_falha_de_memoria() {
    let mut cpu = cpu();
    let e = cpu.jit_mut().unwrap();
    e.memory_read(0x1000, true);
    assert_eq!(e.parada_exec(), Parada::Nenhuma);
    e.memory_read(0x5000_0000, false);
    assert_eq!(e.parada_exec(), Parada::Memoria(0x5000_0000));
}

#[test]
fn endereco_com_bit_zero_entra_em_thumb_e_par_volta_para_arm() {
    let mut cpu = cpu();
    let x = cpu.prepara_execucao(0x101, 1, MODO_USUARIO).unwrap();
    assert_eq!(x.pc, 0x100);
    assert_eq!(x.cpsr, MODO_USUARIO | CPSR_THUMB);
    assert!(em_thumb(x.cpsr));
    let y = cpu.prepara_execucao(0, 1, x.cpsr).unwrap();
    assert_eq!(y.pc, 0);
    assert_eq!(y.cpsr, MODO_USUARIO);
    assert!(!em_thumb(y.cpsr));
}

#[test]
fn orcamento_de_instrucoes() {
    let mut cpu = cpu();
    cpu.set_instructions(100);
    cpu.prepara_execucao(0, 10, MODO_USUARIO).unwrap();
    let e = cpu.jit_mut().unwrap();
    assert_eq!(e.get_ticks_remaining(), 10);
    e.add_ticks(4);
    assert_eq!(e.get_ticks_remaining(), 6);
    e.add_ticks(20);
    assert_eq!(e.get_ticks_remaining(), 0);
    assert_eq!(cpu.instructions(), 124);
    // The limit saturates.
    cpu.prepara_execucao(0, u64::MAX, MODO_USUARIO).unwrap();
    assert_eq!(cpu.jit().unwrap().get_ticks_remaining(), u64::MAX - 124);
    let e = cpu.jit_mut().unwrap();
    e.add_ticks(u64::MAX);
    assert_eq!(cpu.instructions(), u64::MAX);
}

#[test]
fn prepara_limpa_a_parada_anterior() {
    let mut cpu = cpu();
    cpu.jit_mut().unwrap().para(Parada::Excecao(8));
    cpu.prepara_execucao(0, 1, MODO_USUARIO).unwrap();
    assert_eq!(cpu.jit().unwrap().parada_exec(), Parada::Nenhuma);
}

#[test]
fn classificacao_das_paradas() {
    assert_eq!(classifica(Parada::Nenhuma, 9, FRONTEIRA), StopReason::Budget);
    assert_eq!(classifica(Parada::Fetch(0xffff_fff0), 9, FRONTEIRA), StopReason::Returned);
    assert_eq!(
        classifica(Parada::Fetch(0xf000_0000), 9, FRONTEIRA),
        StopReason::ApiCall { addr: 0xf000_0000 }
    );
    assert_eq!(
        classifica(Parada::Fetch(0xf000_0fff), 9, FRONTEIRA),
        StopReason::ApiCall { addr: 0xf000_0fff }
    );
    assert_eq!(
        classifica(Parada::Fetch(0xf000_1000), 9, FRONTEIRA),
        StopReason::MemoryFault { addr: 0xf000_1000, pc: 0xf000_1000 }
    );
    assert_eq!(
        classifica(Parada::Memoria(0x40), 9, FRONTEIRA),
        StopReason::MemoryFault { addr: 0x40, pc: 9 }
    );
    assert_eq!(classifica(Parada::Excecao(0x88), 9, FRONTEIRA), StopReason::Exception { pc: 0x88 });
}

#[test]
fn faixa_de_api_no_fim_do_espaco_satura() {
    let f = Fronteira { api_base: 0xffff_f000, api_size: 0x2000, retorno: 0 };
    assert_eq!(
        classifica(Parada::Fetch(0xffff_fffe), 0, f),
        StopReason::ApiCall { addr: 0xffff_fffe }
    );
    assert_eq!(
        classifica(Parada::Fetch(0xffff_ffff), 0, f),
        StopReason::MemoryFault { addr: 0xffff_ffff, pc: 0xffff_ffff }
    );
}

#[test]
fn excecao_na_fronteira_vira_fetch_e_nao_sobrescreve() {
    let mut cpu = cpu();
    let e = cpu.jit_mut().unwrap();
    assert!(e.raised_exception(0xffff_fff0, FRONTEIRA));
    assert_eq!(e.parada_exec(), Parada::Fetch(0xffff_fff0));
    assert!(!e.raised_exception(0x100, FRONTEIRA));
    assert_eq!(e.parada_exec(), Parada::Fetch(0xffff_fff0));
    let (_, motivo) = cpu.conclui_execucao(None, 0, FRONTEIRA);
    assert_eq!(motivo, StopReason::Returned);

    cpu.prepara_execucao(0, 1, MODO_USUARIO).unwrap();
    let e = cpu.jit_mut().unwrap();
    assert!(e.raised_exception(0x100, FRONTEIRA));
    assert_eq!(e.parada_exec(), Parada::Excecao(0x100));
    e.prepara_execucao(1);
    assert!(e.raised_exception(0xf000_0004, FRONTEIRA));
    let (_, motivo) = cpu.conclui_execucao(None, 0, FRONTEIRA);
    assert_eq!(motivo, StopReason::ApiCall { addr: 0xf000_0004 });
}

#[test]
fn svc_de_semihosting_nao_interrompe() {
    let mut cpu = cpu();
    let e = cpu.jit_mut().unwrap();
    assert_eq!(e.call_svc(0xab, 3, 0x8), AtendimentoSvc::EscreveCaractere);
    e.semihosting_caractere(Some(b'Z'));
    e.semihosting_caractere(None);
    assert_eq!(e.call_svc(0xab, 4, 0x8), AtendimentoSvc::EscreveTexto);
    assert_eq!(e.call_svc(0xab, 0x16, 0x8), AtendimentoSvc::OutraConsulta);
    assert_eq!(e.parada_exec(), Parada::Nenhuma);
    assert_eq!(cpu.semihosting(), "Z");
}

#[test]
fn svc_comum_para_com_excecao_uma_vez() {
    let mut cpu = cpu();
    let e = cpu.jit_mut().unwrap();
    assert_eq!(e.call_svc(0x10, 0, 0x20), AtendimentoSvc::Parou);
    assert_eq!(e.parada_exec(), Parada::Excecao(0x20));
    assert_eq!(e.call_svc(0x11, 0, 0x24), AtendimentoSvc::JaParado);
    assert_eq!(e.parada_exec(), Parada::Excecao(0x20));
}

#[test]
fn write0_copia_ate_o_terminador() {
    let mut cpu = cpu();
    let e = cpu.jit_mut().unwrap();
    let memoria = b"oi\0resto";
    let mut offset = 0u32;
    while e.semihosting_texto(offset, Some(memoria[offset as usize])) {
        offset += 1;
    }
    assert_eq!(offset, 2);
    assert_eq!(cpu.semihosting(), "oi");
}

#[test]
fn write0_para_na_leitura_que_falha_e_no_limite() {
    let mut cpu = cpu();
    let e = cpu.jit_mut().unwrap();
    assert!(e.semihosting_texto(0, Some(b'a')));
    assert!(!e.semihosting_texto(1, None));
    assert!(!e.semihosting_texto(4095, Some(b'b')));
    assert!(!e.semihosting_texto(4096, Some(b'c')));
    assert_eq!(e.saida_exec(), "ab");
    let mut saida = e.saida_exec();
    saida.truncate(1);
    e.substitui_saida(saida);
    assert_eq!(cpu.semihosting(), "a");
}

#[test]
fn write0_de_texto_longo_copia_no_maximo_4096_bytes() {
    let mut cpu = cpu();
    let e = cpu.jit_mut().unwrap();
    let mut offset = 0u32;
    while e.semihosting_texto(offset, Some(b'x')) {
        offset += 1;
    }
    assert_eq!(offset, 4095);
    assert_eq!(cpu.semihosting().len(), 4096);
}

#[test]
fn semihosting_byte_alto_vira_caractere_latino() {
    let mut cpu = cpu();
    cpu.jit_mut().unwrap().semihosting_caractere(Some(0xe9));
    assert_eq!(cpu.semihosting(), "é");
}

#[test]
fn reset_limpa_o_semihosting_e_os_contadores() {
    let mut cpu = cpu();
    cpu.jit_mut().unwrap().semihosting_caractere(Some(b'q'));
    cpu.set_instructions(9);
    cpu.watch_dirty(1, 0, 4).unwrap();
    cpu.reset(regioes());
    assert_eq!(cpu.semihosting(), "");
    assert_eq!(cpu.instructions(), 0);
    assert!(cpu.take_dirty(1));
    assert_eq!(
        cpu.jit().unwrap().entrada(0),
        Some(EntradaDePagina { regiao: 0, deslocamento: 0 })
    );
}

#[test]
fn relato_escala_a_media_amostrada() {
    let mut cpu = cpu();
    // Entry 0 is timed, entries 1..63 are not.
    let x = cpu.prepara_execucao(0, 1, MODO_USUARIO).unwrap();
    assert!(x.cronometrar);
    cpu.conclui_execucao(Some(1000), 0, FRONTEIRA);
    for _ in 1..64 {
        let x = cpu.prepara_execucao(0, 1, MODO_USUARIO).unwrap();
        assert!(!x.cronometrar);
        cpu.conclui_execucao(None, 0, FRONTEIRA);
    }
    assert!(cpu.prepara_execucao(0, 1, MODO_USUARIO).unwrap().cronometrar);
    // 64 entries, one sample of 1000 ns: 1000 ns per entry.
    assert_eq!(cpu.relato_do_jit(), Some((64, 64_000, 1)));
    assert_eq!(cpu.jit().unwrap().contadores_do_jit(), (64, 1000, 1));
}
