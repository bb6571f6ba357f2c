use zeebx::{ponteiro_da_pagina, EntradaDePagina, PaginasExecutadas, Regiao};

#[test]
fn paginas_comecam_vazias() {
    let p = PaginasExecutadas::new();
    assert!(!p.contem(0));
    assert!(!p.contem(0xfffff));
    assert!(!p.contem(u32::MAX));
}

#[test]
fn marca_e_le_de_volta() {
    let mut p = PaginasExecutadas::new();
    p.marca(0);
    p.marca(63);
    p.marca(64);
    p.marca(0xfffff);
    assert!(p.contem(0));
    assert!(p.contem(63));
    assert!(p.contem(64));
    assert!(p.contem(0xfffff));
    assert!(!p.contem(1));
    assert!(!p.contem(62));
    assert!(!p.contem(65));
    assert!(!p.contem(0xffffe));
}

#[test]
fn pagina_fora_do_guest_nao_e_marcada() {
    let mut p = PaginasExecutadas::new();
    p.marca(0x100000);
    assert!(!p.contem(0x100000));
    assert!(!p.contem(0));
}

#[test]
fn ponteiro_da_pagina_usa_a_primeira_regiao_gravavel_que_cabe() {
    let regioes = vec![
        Regiao { base: 0, tamanho: 0x1000, gravavel: false },
        Regiao { base: 0x1000, tamanho: 0x1800, gravavel: true },
        Regiao { base: 0, tamanho: 0x3000, gravavel: true },
    ];
    // Page 0 only fits in the read-only region and in the third one.
    assert_eq!(
        ponteiro_da_pagina(&regioes, 0),
        Some(EntradaDePagina { regiao: 2, deslocamento: 0 })
    );
    // Page 1 fits whole in the second region.
    assert_eq!(
        ponteiro_da_pagina(&regioes, 1),
        Some(EntradaDePagina { regiao: 1, deslocamento: 0 })
    );
    // Page 2 sticks out of the second region: the third one holds it.
    assert_eq!(
        ponteiro_da_pagina(&regioes, 2),
        Some(EntradaDePagina { regiao: 2, deslocamento: 0x2000 })
    );
    // Page 3 is in no region.
    assert_eq!(ponteiro_da_pagina(&regioes, 3), None);
}

#[test]
fn pagina_que_nao_cabe_inteira_fica_sem_acesso_direto() {
    let regioes = vec![Regiao { base: 0x2000_0000, tamanho: 0x1800, gravavel: true }];
    assert_eq!(
        ponteiro_da_pagina(&regioes, 0x20000),
        Some(EntradaDePagina { regiao: 0, deslocamento: 0 })
    );
    assert_eq!(ponteiro_da_pagina(&regioes, 0x20001), None);
    assert_eq!(ponteiro_da_pagina(&regioes, 0x1ffff), None);
}
