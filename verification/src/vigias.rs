use vstd::prelude::*;

verus! {

/// A write watch: the guest range `[inicio, fim)` registered under `id`, and whether a guest
/// write has touched it since it was last read.
#[derive(Clone, Copy, Debug, PartialEq, Eq)]
pub struct Vigia {
    pub id: u32,
    pub inicio: u32,
    pub fim: u32,
    pub sujo: bool,
}

/// Whether a write of `[inicio, fim)` reaches the watched range of `v`.
pub open spec fn toca(v: Vigia, inicio: u32, fim: u32) -> bool {
    inicio < v.fim && fim > v.inicio
}

/// `v`, marked dirty when the write `[inicio, fim)` reaches it.
pub open spec fn marca_se_toca(v: Vigia, inicio: u32, fim: u32) -> Vigia {
    if toca(v, inicio, fim) {
        Vigia { id: v.id, inicio: v.inicio, fim: v.fim, sujo: true }
    } else {
        v
    }
}

/// Every watch of `s`, with those that the write `[inicio, fim)` reaches marked dirty.
pub open spec fn marcadas(s: Seq<Vigia>, inicio: u32, fim: u32) -> Seq<Vigia> {
    s.map_values(|v: Vigia| marca_se_toca(v, inicio, fim))
}

/// The watches of `s` that the write `[inicio, fim)` reaches, in order.
pub open spec fn tocadas(s: Seq<Vigia>, inicio: u32, fim: u32) -> Seq<Vigia>
    decreases s.len(),
{
    if s.len() == 0 {
        Seq::empty()
    } else {
        let antes = tocadas(s.drop_last(), inicio, fim);
        if toca(s.last(), inicio, fim) {
            antes.push(s.last())
        } else {
            antes
        }
    }
}

/// Smallest start among the watches of `s`; 0 when there is none.
pub open spec fn menor_inicio(s: Seq<Vigia>) -> u32
    decreases s.len(),
{
    if s.len() == 0 {
        0
    } else if s.len() == 1 {
        s[0].inicio
    } else {
        let m = menor_inicio(s.drop_last());
        if s.last().inicio < m {
            s.last().inicio
        } else {
            m
        }
    }
}

/// Largest end among the watches of `s`; 0 when there is none.
pub open spec fn maior_fim(s: Seq<Vigia>) -> u32
    decreases s.len(),
{
    if s.len() == 0 {
        0
    } else if s.len() == 1 {
        s[0].fim
    } else {
        let m = maior_fim(s.drop_last());
        if s.last().fim > m {
            s.last().fim
        } else {
            m
        }
    }
}

/// No two watches of `s` share an id.
pub open spec fn ids_unicos(s: Seq<Vigia>) -> bool {
    forall|a: int, b: int| 0 <= a < s.len() && 0 <= b < s.len() && a != b ==> s[a].id != s[b].id
}

/// Whether some watch of `s` reaches `[inicio, fim)`.
pub open spec fn alguma_toca(s: Seq<Vigia>, inicio: u32, fim: u32) -> bool {
    exists|k: int| 0 <= k < s.len() && toca(#[trigger] s[k], inicio, fim)
}

/// Whether some watch of `s` has the id `id`.
pub open spec fn tem_id(s: Seq<Vigia>, id: u32) -> bool {
    exists|k: int| 0 <= k < s.len() && (#[trigger] s[k]).id == id
}

/// The watch `k` of `s` is dirty, has the range `atalho`, and no other watch reaches that range.
pub open spec fn atalho_de(s: Seq<Vigia>, atalho: (u32, u32), k: int) -> bool {
    &&& 0 <= k < s.len()
    &&& s[k].sujo
    &&& s[k].inicio == atalho.0
    &&& s[k].fim == atalho.1
    &&& forall|j: int| 0 <= j < s.len() && j != k ==> !toca(#[trigger] s[j], atalho.0, atalho.1)
}

/// The shortcut range is either empty or the range of a dirty watch that no other watch
/// reaches: a write inside it reaches that watch alone, and nothing is left to mark.
pub open spec fn atalho_valido(s: Seq<Vigia>, atalho: (u32, u32)) -> bool {
    ||| atalho == (0u32, 0u32)
    ||| exists|k: int| #[trigger] atalho_de(s, atalho, k)
}

proof fn lemma_limites(s: Seq<Vigia>)
    ensures
        forall|k: int|
            0 <= k < s.len() ==> menor_inicio(s) <= (#[trigger] s[k]).inicio && s[k].fim <= maior_fim(s),
    decreases s.len(),
{
    if s.len() > 1 {
        lemma_limites(s.drop_last());
        assert forall|k: int| 0 <= k < s.len() implies menor_inicio(s) <= (#[trigger] s[k]).inicio
            && s[k].fim <= maior_fim(s) by {
            if k < s.len() - 1 {
                assert(s[k] == s.drop_last()[k]);
            }
        }
    }
}

proof fn lemma_tocadas_passo(s: Seq<Vigia>, i: int, inicio: u32, fim: u32)
    requires
        0 <= i < s.len(),
    ensures
        tocadas(s.take(i + 1), inicio, fim) == if toca(s[i], inicio, fim) {
            tocadas(s.take(i), inicio, fim).push(s[i])
        } else {
            tocadas(s.take(i), inicio, fim)
        },
{
    assert(s.take(i + 1).drop_last() =~= s.take(i));
}

proof fn lemma_tocadas_de(s: Seq<Vigia>, inicio: u32, fim: u32)
    ensures
        forall|j: int|
            0 <= j < tocadas(s, inicio, fim).len() ==> toca(#[trigger] tocadas(s, inicio, fim)[j], inicio, fim)
                && s.contains(tocadas(s, inicio, fim)[j]),
    decreases s.len(),
{
    if s.len() > 0 {
        let d = s.drop_last();
        lemma_tocadas_de(d, inicio, fim);
        let t = tocadas(s, inicio, fim);
        let td = tocadas(d, inicio, fim);
        assert forall|j: int| 0 <= j < t.len() implies toca(#[trigger] t[j], inicio, fim) && s.contains(t[j]) by {
            if j < td.len() {
                assert(t[j] == td[j]);
                assert(d.contains(td[j]));
                let k = choose|k: int| 0 <= k < d.len() && d[k] == td[j];
                assert(s[k] == d[k]);
            } else {
                assert(s[s.len() - 1] == t[j]);
            }
        }
    }
}

proof fn lemma_nenhuma_tocada(s: Seq<Vigia>, inicio: u32, fim: u32)
    requires
        forall|k: int| 0 <= k < s.len() ==> !toca(#[trigger] s[k], inicio, fim),
    ensures
        tocadas(s, inicio, fim).len() == 0,
        marcadas(s, inicio, fim) == s,
    decreases s.len(),
{
    if s.len() > 0 {
        let d = s.drop_last();
        assert forall|k: int| 0 <= k < d.len() implies !toca(#[trigger] d[k], inicio, fim) by {
            assert(d[k] == s[k]);
        }
        lemma_nenhuma_tocada(d, inicio, fim);
    }
    assert(marcadas(s, inicio, fim) =~= s);
}

/// The write watches, with the bounding interval of all of them and the shortcut for writes
/// that land inside a range already known to be dirty.
pub struct Vigias {
    lista: Vec<Vigia>,
    /// Smallest start and largest end over all watches; `(0, 0)` when there is none.
    envoltorio: (u32, u32),
    /// A range already dirty: a write inside it needs nothing more.
    atalho: (u32, u32),
}

impl Vigias {
    pub closed spec fn view(&self) -> Seq<Vigia> {
        self.lista@
    }

    pub closed spec fn envoltorio(&self) -> (u32, u32) {
        self.envoltorio
    }

    pub closed spec fn atalho(&self) -> (u32, u32) {
        self.atalho
    }

    pub closed spec fn wf(&self) -> bool {
        &&& ids_unicos(self.lista@)
        &&& self.envoltorio == (menor_inicio(self.lista@), maior_fim(self.lista@))
        &&& atalho_valido(self.lista@, self.atalho)
    }

    pub proof fn lemma_ids_unicos(&self)
        requires
            self.wf(),
        ensures
            ids_unicos(self@),
    {
    }

    pub fn new() -> (r: Self)
        ensures
            r.wf(),
            r@ == Seq::<Vigia>::empty(),
            r.atalho() == (0u32, 0u32),
            r.envoltorio() == (0u32, 0u32),
    {
        Vigias { lista: Vec::new(), envoltorio: (0, 0), atalho: (0, 0) }
    }

    /// A write of the guest to `[inicio, fim)`: every watch it reaches becomes dirty. A write
    /// inside the shortcut range reaches only the watch it belongs to, which is already dirty, so
    /// it is skipped. The shortcut is armed on the one watch a write touches when that watch holds
    /// the whole write and no other watch reaches its range.
    pub fn marca_escrita(&mut self, inicio: u32, fim: u32)
        requires
            old(self).wf(),
        ensures
            final(self).wf(),
            final(self).envoltorio() == old(self).envoltorio(),
            ({
                let pulou = old(self).atalho().0 <= inicio && fim <= old(self).atalho().1;
                &&& final(self)@ == marcadas(old(self)@, inicio, fim)
                &&& final(self).atalho() == if !pulou && arma_atalho(old(self)@, inicio, fim) {
                    (tocadas(old(self)@, inicio, fim)[0].inicio, tocadas(old(self)@, inicio, fim)[0].fim)
                } else {
                    old(self).atalho()
                }
            }),
            forall|k: int|
                0 <= k < old(self)@.len() && toca(old(self)@[k], inicio, fim) ==> (#[trigger] final(self)@[k]).sujo,
            final(self)@.len() == old(self)@.len(),
            forall|k: int|
                0 <= k < old(self)@.len() ==> {
                    let v = #[trigger] final(self)@[k];
                    &&& v.id == old(self)@[k].id
                    &&& v.inicio == old(self)@[k].inicio
                    &&& v.fim == old(self)@[k].fim
                    &&& v.sujo == (old(self)@[k].sujo || (inicio < old(self)@[k].fim && fim > old(self)@[k].inicio))
                },
    {
        proof {
            lemma_limites(self.lista@);
            self.lemma_atalho_basta(inicio, fim);
            lemma_marcadas_preserva(self.lista@, inicio, fim);
        }
        let (menor, maior) = self.envoltorio;
        if fim <= menor || inicio >= maior {
            proof {
                assert forall|k: int| 0 <= k < self.lista@.len() implies !toca(
                    #[trigger] self.lista@[k],
                    inicio,
                    fim,
                ) by {}
                lemma_nenhuma_tocada(self.lista@, inicio, fim);
            }
            return;
        }
        let (a, b) = self.atalho;
        if inicio >= a && fim <= b {
            proof {
                lemma_marcadas_sujas(self.lista@, inicio, fim);
            }
            return;
        }
        let ghost antes = self.lista@;
        let n: usize = self.lista.len();
        let mut tocadas_ate: usize = 0;
        let mut faixa: (u32, u32) = (0, 0);
        let mut i: usize = 0;
        while i < n
            invariant
                0 <= i <= n,
                n == antes.len(),
                self.lista@.len() == n,
                self.envoltorio == old(self).envoltorio,
                self.atalho == old(self).atalho,
                forall|j: int| 0 <= j < i ==> self.lista@[j] == marca_se_toca(antes[j], inicio, fim),
                forall|j: int| i <= j < n ==> self.lista@[j] == antes[j],
                tocadas_ate == tocadas(antes.take(i as int), inicio, fim).len(),
                tocadas_ate > 0 ==> faixa == (
                    tocadas(antes.take(i as int), inicio, fim).last().inicio,
                    tocadas(antes.take(i as int), inicio, fim).last().fim,
                ),
            decreases n - i,
        {
            proof {
                lemma_tocadas_passo(antes, i as int, inicio, fim);
            }
            let v = self.lista[i];
            if inicio < v.fim && fim > v.inicio {
                self.lista.set(i, Vigia { id: v.id, inicio: v.inicio, fim: v.fim, sujo: true });
                proof {
                    lemma_tocadas_cabe(antes.take(i as int), inicio, fim);
                }
                tocadas_ate = tocadas_ate + 1;
                faixa = (v.inicio, v.fim);
            }
            i = i + 1;
        }
        proof {
            assert(antes.take(n as int) =~= antes);
            assert(self.lista@ =~= marcadas(antes, inicio, fim));
        }
        if tocadas_ate == 1 && inicio >= faixa.0 && fim <= faixa.1 {
            let alcancam = self.conta_tocadas(faixa.0, faixa.1);
            proof {
                lemma_marcadas_tocadas(antes, inicio, fim, faixa.0, faixa.1);
            }
            if alcancam == 1 {
                self.atalho = faixa;
                proof {
                    let t = tocadas(antes, inicio, fim);
                    lemma_tocadas_de(antes, inicio, fim);
                    assert(antes.contains(t[0]) && toca(t[0], inicio, fim));
                    let k = choose|k: int| 0 <= k < antes.len() && antes[k] == t[0];
                    let l = self.lista@;
                    assert(l[k].sujo);
                    assert(toca(l[k], faixa.0, faixa.1));
                    assert forall|j: int| 0 <= j < l.len() && j != k implies !toca(#[trigger] l[j], faixa.0, faixa.1) by {
                        if toca(l[j], faixa.0, faixa.1) {
                            lemma_tocadas_duas(l, faixa.0, faixa.1, j, k);
                        }
                    }
                    assert(atalho_de(l, self.atalho, k));
                }
            }
        }
        proof {
            self.lemma_marcadas_mantem_wf(antes, inicio, fim, old(self).atalho);
        }
    }

    proof fn lemma_atalho_basta(&self, inicio: u32, fim: u32)
        requires
            self.wf(),
        ensures
            self.atalho.0 <= inicio && fim <= self.atalho.1 ==> forall|k: int|
                0 <= k < self.lista@.len() && toca(self.lista@[k], inicio, fim) ==> (#[trigger] self.lista@[k]).sujo,
    {
        let s = self.lista@;
        if self.atalho.0 <= inicio && fim <= self.atalho.1 && self.atalho != (0u32, 0u32) {
            let w = choose|w: int| #[trigger] atalho_de(s, self.atalho, w);
            assert forall|k: int| 0 <= k < s.len() && toca(s[k], inicio, fim) implies (#[trigger] s[k]).sujo by {
                if k != w {
                    assert(!toca(s[k], self.atalho.0, self.atalho.1));
                }
            }
        }
    }

    proof fn lemma_marcadas_mantem_wf(&self, antes: Seq<Vigia>, inicio: u32, fim: u32, atalho_antes: (u32, u32))
        requires
            ids_unicos(antes),
            self.envoltorio == (menor_inicio(antes), maior_fim(antes)),
            atalho_valido(antes, atalho_antes),
            self.lista@ == marcadas(antes, inicio, fim),
            self.atalho == atalho_antes || atalho_valido(self.lista@, self.atalho),
        ensures
            self.wf(),
    {
        lemma_marcadas_limites(antes, inicio, fim);
        let s = self.lista@;
        if self.atalho == atalho_antes && atalho_antes != (0u32, 0u32) && !atalho_valido(s, self.atalho) {
            let w = choose|w: int| #[trigger] atalho_de(antes, atalho_antes, w);
            assert forall|j: int| 0 <= j < s.len() && j != w implies !toca(#[trigger] s[j], atalho_antes.0, atalho_antes.1) by {
                assert(!toca(antes[j], atalho_antes.0, atalho_antes.1));
            }
            assert(atalho_de(s, self.atalho, w));
        }
    }

    /// How many watches reach `[inicio, fim)`.
    fn conta_tocadas(&self, inicio: u32, fim: u32) -> (r: usize)
        ensures
            r == tocadas(self@, inicio, fim).len(),
    {
        let n: usize = self.lista.len();
        let mut conta: usize = 0;
        let mut i: usize = 0;
        while i < n
            invariant
                0 <= i <= n,
                n == self.lista@.len(),
                conta == tocadas(self.lista@.take(i as int), inicio, fim).len(),
            decreases n - i,
        {
            proof {
                lemma_tocadas_passo(self.lista@, i as int, inicio, fim);
                lemma_tocadas_cabe(self.lista@.take(i as int), inicio, fim);
            }
            let v = self.lista[i];
            if inicio < v.fim && fim > v.inicio {
                conta = conta + 1;
            }
            i = i + 1;
        }
        proof {
            assert(self.lista@.take(n as int) =~= self.lista@);
        }
        conta
    }

    /// Recomputes the bounding interval and drops the shortcut.
    fn recalcula_envoltorio(&mut self)
        requires
            ids_unicos(old(self).lista@),
        ensures
            final(self).wf(),
            final(self)@ == old(self)@,
            final(self).atalho() == (0u32, 0u32),
    {
        self.atalho = (0, 0);
        let n: usize = self.lista.len();
        let mut menor: u32 = 0;
        let mut maior: u32 = 0;
        let mut i: usize = 0;
        while i < n
            invariant
                0 <= i <= n,
                n == self.lista@.len(),
                menor == menor_inicio(self.lista@.take(i as int)),
                maior == maior_fim(self.lista@.take(i as int)),
            decreases n - i,
        {
            let v = self.lista[i];
            proof {
                assert(self.lista@.take(i + 1).drop_last() =~= self.lista@.take(i as int));
            }
            if i == 0 {
                menor = v.inicio;
                maior = v.fim;
            } else {
                if v.inicio < menor {
                    menor = v.inicio;
                }
                if v.fim > maior {
                    maior = v.fim;
                }
            }
            i = i + 1;
        }
        proof {
            assert(self.lista@.take(n as int) =~= self.lista@);
        }
        self.envoltorio = (menor, maior);
    }

    /// Registers the range `[inicio, fim)` under `id`, dirty from the start: nothing of it has
    /// been seen yet.
    pub fn adiciona(&mut self, id: u32, inicio: u32, fim: u32)
        requires
            old(self).wf(),
            !tem_id(old(self)@, id),
        ensures
            final(self).wf(),
            final(self)@ == old(self)@.push(Vigia { id, inicio, fim, sujo: true }),
            final(self).atalho() == (0u32, 0u32),
    {
        self.lista.push(Vigia { id, inicio, fim, sujo: true });
        proof {
            let s = self.lista@;
            assert forall|a: int, b: int| 0 <= a < s.len() && 0 <= b < s.len() && a != b implies s[a].id
                != s[b].id by {
                if a == s.len() - 1 {
                    assert(old(self)@[b] == s[b]);
                } else if b == s.len() - 1 {
                    assert(old(self)@[a] == s[a]);
                }
            }
        }
        self.recalcula_envoltorio();
    }

    /// Removes the watch registered under `id`, if there is one, and gives back its range.
    pub fn remove(&mut self, id: u32) -> (r: Option<(u32, u32)>)
        requires
            old(self).wf(),
        ensures
            final(self).wf(),
            final(self).atalho() == (0u32, 0u32),
            !tem_id(final(self)@, id),
            match r {
                Some(faixa) => exists|k: int|
                    0 <= k < old(self)@.len() && (#[trigger] old(self)@[k]).id == id && faixa == (
                        old(self)@[k].inicio,
                        old(self)@[k].fim,
                    ) && final(self)@ == old(self)@.remove(k),
                None => !tem_id(old(self)@, id) && final(self)@ == old(self)@,
            },
    {
        let n: usize = self.lista.len();
        let mut i: usize = 0;
        while i < n
            invariant
                0 <= i <= n,
                n == self.lista@.len(),
                self.lista@ == old(self).lista@,
                ids_unicos(self.lista@),
                forall|j: int| 0 <= j < i ==> (#[trigger] self.lista@[j]).id != id,
            decreases n - i,
        {
            if self.lista[i].id == id {
                let v = self.lista.remove(i);
                proof {
                    let s = self.lista@;
                    let o = old(self).lista@;
                    assert forall|a: int, b: int| 0 <= a < s.len() && 0 <= b < s.len() && a != b implies s[a].id
                        != s[b].id by {
                        let oa = if a < i { a } else { a + 1 };
                        let ob = if b < i { b } else { b + 1 };
                        assert(s[a] == o[oa]);
                        assert(s[b] == o[ob]);
                    }
                    assert forall|k: int| 0 <= k < s.len() implies (#[trigger] s[k]).id != id by {
                        let ok = if k < i { k } else { k + 1 };
                        assert(s[k] == o[ok]);
                    }
                }
                self.recalcula_envoltorio();
                assert(old(self)@[i as int].id == id);
                return Some((v.inicio, v.fim));
            }
            i = i + 1;
        }
        self.recalcula_envoltorio();
        None
    }

    /// Reads and clears the dirty flag of `id`. A range that is not watched answers dirty: when
    /// in doubt, the caller must look again. The shortcut is dropped, since a range may turn
    /// clean here.
    pub fn toma_sujo(&mut self, id: u32) -> (r: bool)
        requires
            old(self).wf(),
        ensures
            final(self).wf(),
            final(self).atalho() == (0u32, 0u32),
            final(self).envoltorio() == old(self).envoltorio(),
            match Self::posicao(old(self)@, id) {
                Some(k) => r == old(self)@[k].sujo && final(self)@ == old(self)@.update(
                    k,
                    Vigia { sujo: false, ..old(self)@[k] },
                ),
                None => r && final(self)@ == old(self)@,
            },
            forall|k: int|
                0 <= k < old(self)@.len() && (#[trigger] old(self)@[k]).id == id ==> r == old(self)@[k].sujo
                    && !final(self)@[k].sujo,
            (forall|k: int| 0 <= k < old(self)@.len() ==> (#[trigger] old(self)@[k]).id != id) ==> r
                && final(self)@ == old(self)@,
            final(self)@.len() == old(self)@.len(),
            forall|k: int|
                0 <= k < old(self)@.len() && old(self)@[k].id != id ==> #[trigger] final(self)@[k] == old(self)@[k],
    {
        self.atalho = (0, 0);
        let n: usize = self.lista.len();
        let mut i: usize = 0;
        while i < n
            invariant
                0 <= i <= n,
                n == self.lista@.len(),
                self.lista@ == old(self).lista@,
                self.envoltorio == old(self).envoltorio,
                self.atalho == (0u32, 0u32),
                old(self).wf(),
                forall|j: int| 0 <= j < i ==> (#[trigger] self.lista@[j]).id != id,
            decreases n - i,
        {
            let v = self.lista[i];
            if v.id == id {
                self.lista.set(i, Vigia { id: v.id, inicio: v.inicio, fim: v.fim, sujo: false });
                proof {
                    Self::lemma_posicao(old(self)@, id, i as int);
                    assert(self.lista@ =~= old(self)@.update(i as int, Vigia { sujo: false, ..old(self)@[i as int] }));
                    let s = self.lista@;
                    assert forall|k: int| 0 <= k < s.len() implies old(self)@[k].inicio == s[k].inicio
                        && old(self)@[k].fim == s[k].fim by {}
                    lemma_mesmas_faixas(old(self)@, self.lista@);
                    assert forall|a: int, b: int| 0 <= a < s.len() && 0 <= b < s.len() && a != b implies s[a].id
                        != s[b].id by {
                        assert(s[a].id == old(self)@[a].id);
                        assert(s[b].id == old(self)@[b].id);
                    }
                }
                return v.sujo;
            }
            i = i + 1;
        }
        proof {
            Self::lemma_sem_posicao(old(self)@, id);
        }
        true
    }

    /// The index of the watch registered under `id`, if any.
    pub open spec fn posicao(s: Seq<Vigia>, id: u32) -> Option<int> {
        if tem_id(s, id) {
            Some(choose|k: int| 0 <= k < s.len() && (#[trigger] s[k]).id == id)
        } else {
            None
        }
    }

    pub proof fn lemma_posicao(s: Seq<Vigia>, id: u32, k: int)
        requires
            ids_unicos(s),
            0 <= k < s.len(),
            s[k].id == id,
        ensures
            Self::posicao(s, id) == Some(k),
    {
        let c = choose|c: int| 0 <= c < s.len() && (#[trigger] s[c]).id == id;
        assert(c == k);
    }

    pub proof fn lemma_sem_posicao(s: Seq<Vigia>, id: u32)
        requires
            forall|j: int| 0 <= j < s.len() ==> (#[trigger] s[j]).id != id,
        ensures
            Self::posicao(s, id) == None::<int>,
    {
    }

    /// A write of the host to `[addr, addr + len)`, reported as if the guest had made it: every
    /// watch it reaches becomes dirty. The shortcut is not consulted.
    pub fn marca_sujo(&mut self, addr: u32, len: u32)
        requires
            old(self).wf(),
        ensures
            final(self).wf(),
            final(self).atalho() == old(self).atalho(),
            final(self).envoltorio() == old(self).envoltorio(),
            final(self)@ == marcadas(old(self)@, addr, addr.saturating_add(len)),
            final(self)@.len() == old(self)@.len(),
            forall|k: int|
                0 <= k < old(self)@.len() ==> {
                    let v = #[trigger] final(self)@[k];
                    &&& v.id == old(self)@[k].id
                    &&& v.inicio == old(self)@[k].inicio
                    &&& v.fim == old(self)@[k].fim
                    &&& v.sujo == (old(self)@[k].sujo || (addr < old(self)@[k].fim && addr.saturating_add(len) > old(self)@[k].inicio))
                },
    {
        let fim: u32 = addr.saturating_add(len);
        let ghost antes = self.lista@;
        let n: usize = self.lista.len();
        let mut i: usize = 0;
        while i < n
            invariant
                0 <= i <= n,
                n == antes.len(),
                self.lista@.len() == n,
                self.envoltorio == old(self).envoltorio,
                self.atalho == old(self).atalho,
                forall|j: int| 0 <= j < i ==> self.lista@[j] == marca_se_toca(antes[j], addr, fim),
                forall|j: int| i <= j < n ==> self.lista@[j] == antes[j],
            decreases n - i,
        {
            let v = self.lista[i];
            if addr < v.fim && fim > v.inicio {
                self.lista.set(i, Vigia { id: v.id, inicio: v.inicio, fim: v.fim, sujo: true });
            }
            i = i + 1;
        }
        proof {
            assert(self.lista@ =~= marcadas(antes, addr, fim));
            self.lemma_marcadas_mantem_wf(antes, addr, fim, old(self).atalho);
        }
    }

    /// The watches, in the order they were registered.
    pub fn lista(&self) -> (r: &Vec<Vigia>)
        ensures
            r@ == self@,
    {
        &self.lista
    }

    /// Whether some watch reaches `[de, ate)`.
    pub fn alguma_toca(&self, de: u32, ate: u32) -> (r: bool)
        ensures
            r == alguma_toca(self@, de, ate),
            r == exists|k: int| 0 <= k < self@.len() && de < (#[trigger] self@[k]).fim && ate > self@[k].inicio,
    {
        let n: usize = self.lista.len();
        let mut i: usize = 0;
        while i < n
            invariant
                0 <= i <= n,
                n == self.lista@.len(),
                forall|j: int| 0 <= j < i ==> !toca(#[trigger] self.lista@[j], de, ate),
            decreases n - i,
        {
            let v = self.lista[i];
            if de < v.fim && ate > v.inicio {
                return true;
            }
            i = i + 1;
        }
        false
    }
}

proof fn lemma_mesmas_faixas(s: Seq<Vigia>, t: Seq<Vigia>)
    requires
        s.len() == t.len(),
        forall|k: int| 0 <= k < s.len() ==> s[k].inicio == t[k].inicio && s[k].fim == t[k].fim,
    ensures
        menor_inicio(s) == menor_inicio(t),
        maior_fim(s) == maior_fim(t),
    decreases s.len(),
{
    if s.len() > 1 {
        lemma_mesmas_faixas(s.drop_last(), t.drop_last());
    }
}

proof fn lemma_tocadas_cabe(s: Seq<Vigia>, inicio: u32, fim: u32)
    ensures
        tocadas(s, inicio, fim).len() <= s.len(),
    decreases s.len(),
{
    if s.len() > 0 {
        lemma_tocadas_cabe(s.drop_last(), inicio, fim);
    }
}

proof fn lemma_marcadas_limites(s: Seq<Vigia>, inicio: u32, fim: u32)
    ensures
        menor_inicio(marcadas(s, inicio, fim)) == menor_inicio(s),
        maior_fim(marcadas(s, inicio, fim)) == maior_fim(s),
        ids_unicos(s) ==> ids_unicos(marcadas(s, inicio, fim)),
    decreases s.len(),
{
    let m = marcadas(s, inicio, fim);
    if s.len() > 0 {
        lemma_marcadas_limites(s.drop_last(), inicio, fim);
        assert(m.drop_last() =~= marcadas(s.drop_last(), inicio, fim));
    }
}

/// Reading a watch clears it: right after `toma_sujo` answered for `id`, a second read finds the
/// same watch, and clean.
pub proof fn lei_segunda_leitura_limpa(s: Seq<Vigia>, id: u32)
    requires
        ids_unicos(s),
        tem_id(s, id),
    ensures
        ({
            let k = Vigias::posicao(s, id)->0;
            let depois = s.update(k, Vigia { sujo: false, ..s[k] });
            &&& ids_unicos(depois)
            &&& Vigias::posicao(depois, id) == Some(k)
            &&& !depois[k].sujo
        }),
{
    let k = choose|k: int| 0 <= k < s.len() && (#[trigger] s[k]).id == id;
    Vigias::lemma_posicao(s, id, k);
    let depois = s.update(k, Vigia { sujo: false, ..s[k] });
    assert(ids_unicos(depois)) by {
        assert forall|a: int, b: int| 0 <= a < depois.len() && 0 <= b < depois.len() && a != b implies depois[a].id
            != depois[b].id by {
            assert(depois[a].id == s[a].id);
            assert(depois[b].id == s[b].id);
        }
    }
    Vigias::lemma_posicao(depois, id, k);
}

/// A range that is not watched, or no longer, always reads dirty: `toma_sujo` finds no watch for
/// `id` and answers dirty.
pub proof fn lei_sem_vigia_le_sujo(s: Seq<Vigia>, id: u32)
    requires
        !tem_id(s, id),
    ensures
        Vigias::posicao(s, id) == None::<int>,
{
}

/// Whether a write `[inicio, fim)` that the shortcut did not skip arms it: it touches one watch
/// alone, that watch holds the whole write, and no other watch reaches that watch's range.
pub open spec fn arma_atalho(s: Seq<Vigia>, inicio: u32, fim: u32) -> bool {
    let t = tocadas(s, inicio, fim);
    &&& t.len() == 1
    &&& inicio >= t[0].inicio
    &&& fim <= t[0].fim
    &&& tocadas(s, t[0].inicio, t[0].fim).len() == 1
}

proof fn lemma_tocadas_uma(s: Seq<Vigia>, inicio: u32, fim: u32, k: int)
    requires
        0 <= k < s.len(),
        toca(s[k], inicio, fim),
    ensures
        tocadas(s, inicio, fim).len() >= 1,
    decreases s.len(),
{
    if k < s.len() - 1 {
        assert(s.drop_last()[k] == s[k]);
        lemma_tocadas_uma(s.drop_last(), inicio, fim, k);
    }
}

/// Two distinct watches that reach `[inicio, fim)` are both counted.
proof fn lemma_tocadas_duas(s: Seq<Vigia>, inicio: u32, fim: u32, j: int, k: int)
    requires
        0 <= j < s.len(),
        0 <= k < s.len(),
        j != k,
        toca(s[j], inicio, fim),
        toca(s[k], inicio, fim),
    ensures
        tocadas(s, inicio, fim).len() >= 2,
    decreases s.len(),
{
    let d = s.drop_last();
    let u = s.len() - 1;
    if j == u {
        assert(d[k] == s[k]);
        lemma_tocadas_uma(d, inicio, fim, k);
    } else if k == u {
        assert(d[j] == s[j]);
        lemma_tocadas_uma(d, inicio, fim, j);
    } else {
        assert(d[j] == s[j]);
        assert(d[k] == s[k]);
        lemma_tocadas_duas(d, inicio, fim, j, k);
        lemma_tocadas_cabe(d, inicio, fim);
    }
}

/// Marking watches dirty changes no range, so it changes no count of the watches a range reaches.
proof fn lemma_marcadas_tocadas(s: Seq<Vigia>, inicio: u32, fim: u32, a: u32, b: u32)
    ensures
        tocadas(marcadas(s, inicio, fim), a, b).len() == tocadas(s, a, b).len(),
    decreases s.len(),
{
    if s.len() > 0 {
        lemma_marcadas_tocadas(s.drop_last(), inicio, fim, a, b);
        assert(marcadas(s, inicio, fim).drop_last() =~= marcadas(s.drop_last(), inicio, fim));
    }
}

/// Marking keeps every id and range, and leaves every reached watch dirty.
proof fn lemma_marcadas_preserva(s: Seq<Vigia>, inicio: u32, fim: u32)
    ensures
        marcadas(s, inicio, fim).len() == s.len(),
        forall|k: int|
            0 <= k < s.len() ==> {
                let m = #[trigger] marcadas(s, inicio, fim)[k];
                &&& m.id == s[k].id
                &&& m.inicio == s[k].inicio
                &&& m.fim == s[k].fim
                &&& m.sujo == (s[k].sujo || toca(s[k], inicio, fim))
            },
{
}

/// Where every watch a write reaches is already dirty, marking changes nothing.
proof fn lemma_marcadas_sujas(s: Seq<Vigia>, inicio: u32, fim: u32)
    requires
        forall|k: int| 0 <= k < s.len() && toca(s[k], inicio, fim) ==> (#[trigger] s[k]).sujo,
    ensures
        marcadas(s, inicio, fim) == s,
{
    assert(marcadas(s, inicio, fim) =~= s);
}

} // verus!
