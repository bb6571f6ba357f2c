use zeebx::{Vigia, Vigias};

fn sujos(v: &Vigias) -> Vec<(u32, bool)> {
    v.lista().iter().map(|w| (w.id, w.sujo)).collect()
}

#[test]
fn vigia_nova_nasce_suja_e_ler_limpa() {
    let mut v = Vigias::new();
    v.adiciona(7, 0x1000, 0x1004);
    assert_eq!(v.lista(), &vec![Vigia { id: 7, inicio: 0x1000, fim: 0x1004, sujo: true }]);
    assert!(v.toma_sujo(7));
    assert!(!v.toma_sujo(7));
}

#[test]
fn id_sem_vigia_responde_sujo() {
    let mut v = Vigias::new();
    assert!(v.toma_sujo(3));
    v.adiciona(7, 0, 4);
    assert!(v.toma_sujo(3));
}

#[test]
fn escrita_que_toca_marca_e_a_que_nao_toca_nao() {
    let mut v = Vigias::new();
    v.adiciona(1, 0x1000, 0x1004);
    v.adiciona(2, 0x2000, 0x2010);
    v.toma_sujo(1);
    v.toma_sujo(2);
    // Ends exactly where the first range starts: no overlap.
    v.marca_escrita(0x0ffc, 0x1000);
    assert_eq!(sujos(&v), vec![(1, false), (2, false)]);
    // Starts exactly where the first range ends: no overlap.
    v.marca_escrita(0x1004, 0x1008);
    assert_eq!(sujos(&v), vec![(1, false), (2, false)]);
    v.marca_escrita(0x1003, 0x1005);
    assert_eq!(sujos(&v), vec![(1, true), (2, false)]);
    // One write across both ranges marks both.
    v.toma_sujo(1);
    v.marca_escrita(0x1000, 0x3000);
    assert_eq!(sujos(&v), vec![(1, true), (2, true)]);
}

#[test]
fn escrita_fora_do_envoltorio_nao_marca() {
    let mut v = Vigias::new();
    v.adiciona(1, 0x1000, 0x2000);
    v.toma_sujo(1);
    v.marca_escrita(0x3000, 0x3004);
    v.marca_escrita(0, 0x1000);
    assert_eq!(sujos(&v), vec![(1, false)]);
}

#[test]
fn faixa_aninhada_nao_e_pulada_pelo_atalho() {
    // A write that touches only the outer range does not arm the shortcut on it, since the
    // inner range lies inside: a later write there still reaches the inner range.
    let mut v = Vigias::new();
    v.adiciona(1, 0, 100);
    v.adiciona(2, 50, 60);
    v.toma_sujo(1);
    v.toma_sujo(2);
    v.marca_escrita(10, 20);
    assert_eq!(sujos(&v), vec![(1, true), (2, false)]);
    v.marca_escrita(55, 56);
    assert_eq!(sujos(&v), vec![(1, true), (2, true)]);
}

#[test]
fn faixa_aninhada_com_escritas_do_guest_seguidas() {
    let mut v = Vigias::new();
    v.adiciona(1, 0x1000, 0x2000);
    v.adiciona(2, 0x1800, 0x1810);
    v.toma_sujo(1);
    v.toma_sujo(2);
    v.marca_escrita(0x1000, 0x1004);
    v.marca_escrita(0x1800, 0x1804);
    assert_eq!(sujos(&v), vec![(1, true), (2, true)]);
}

#[test]
fn atalho_arma_sobre_faixa_sozinha() {
    // With a single range the shortcut arms; later writes inside it leave everything as is.
    let mut v = Vigias::new();
    v.adiciona(1, 0x1000, 0x2000);
    v.adiciona(2, 0x3000, 0x3010);
    v.toma_sujo(1);
    v.toma_sujo(2);
    v.marca_escrita(0x1000, 0x1004);
    v.marca_escrita(0x1ffc, 0x2000);
    assert_eq!(sujos(&v), vec![(1, true), (2, false)]);
    v.marca_escrita(0x1ffc, 0x3001);
    assert_eq!(sujos(&v), vec![(1, true), (2, true)]);
}

#[test]
fn atalho_nao_arma_com_duas_faixas_tocadas() {
    let mut v = Vigias::new();
    v.adiciona(1, 0, 100);
    v.adiciona(2, 50, 60);
    v.toma_sujo(1);
    v.toma_sujo(2);
    v.marca_escrita(55, 56);
    assert_eq!(sujos(&v), vec![(1, true), (2, true)]);
    v.toma_sujo(2);
    v.toma_sujo(1);
    v.marca_escrita(10, 20);
    v.toma_sujo(2);
    // The write above touched the outer range alone, but the inner range lies inside it: no
    // shortcut was armed, and the inner range is reached again.
    v.marca_escrita(55, 56);
    assert_eq!(sujos(&v), vec![(1, true), (2, true)]);
}

#[test]
fn remove_devolve_a_faixa() {
    let mut v = Vigias::new();
    v.adiciona(1, 0x10, 0x20);
    v.adiciona(2, 0x30, 0x40);
    assert_eq!(v.remove(1), Some((0x10, 0x20)));
    assert_eq!(v.remove(1), None);
    assert_eq!(v.lista(), &vec![Vigia { id: 2, inicio: 0x30, fim: 0x40, sujo: true }]);
    assert!(v.toma_sujo(1));
}

#[test]
fn marca_sujo_do_host_marca_as_faixas_tocadas() {
    let mut v = Vigias::new();
    v.adiciona(1, 0x1000, 0x1004);
    v.adiciona(2, 0x2000, 0x2004);
    v.toma_sujo(1);
    v.toma_sujo(2);
    v.marca_sujo(0x1002, 0x1000);
    assert_eq!(sujos(&v), vec![(1, true), (2, true)]);
    v.toma_sujo(1);
    v.toma_sujo(2);
    // The end saturates instead of wrapping around.
    v.marca_sujo(0x1002, u32::MAX);
    assert_eq!(sujos(&v), vec![(1, true), (2, true)]);
}

#[test]
fn alguma_toca_testa_sobreposicao() {
    let mut v = Vigias::new();
    v.adiciona(1, 0x1000, 0x1004);
    assert!(v.alguma_toca(0x0000, 0x1001));
    assert!(v.alguma_toca(0x1003, 0x2000));
    assert!(!v.alguma_toca(0x0000, 0x1000));
    assert!(!v.alguma_toca(0x1004, 0x2000));
}
