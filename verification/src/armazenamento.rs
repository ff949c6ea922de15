//! The repository: it owns the path of the backing file and the high-water
//! mark of assigned identifiers, and computes, for each operation, what the
//! file's contents become. Reading and writing the file itself is the
//! host's part; every operation here is a pure function of the contents
//! handed in.

use vstd::prelude::*;
use vstd::string::StrSliceExecFns;
use vstd::string::StringExecFns;

use crate::codec::espec_campo_simples;
use crate::formato::codificar_linha;
use crate::formato::espec_arquivo;
use crate::formato::espec_linha_de;
use crate::formato::espec_registro_simples;
use crate::formato::espec_registros;
use crate::formato::espec_ultimo_id;
use crate::formato::lema_arquivo_anexa;
use crate::formato::lema_arquivo_registros;
use crate::formato::espec_visoes;
use crate::formato::listar_de;
use crate::formato::maior_id_de;
use crate::formato::reescrever;
use crate::registro::espec_pessoa_valida;
use crate::registro::Erro;
use crate::registro::Pessoa;
use crate::registro::VisaoPessoa;
use crate::texto::aparar;
use crate::texto::contem_sub;
use crate::texto::espec_aparar;
use crate::texto::espec_contem;
use crate::texto::espec_minusculas;
use crate::texto::minusculas;

verus! {

// ---------------------------------------------------------------------------
// What each operation does to the record list, stated over views
// ---------------------------------------------------------------------------

/// Whether some record carries the identifier.
pub open spec fn espec_tem_id(rs: Seq<VisaoPessoa>, id: int) -> bool {
    exists|j: int| 0 <= j < rs.len() && rs[j].id == Some(id)
}

/// The first record carrying the identifier, in file order.
pub open spec fn espec_busca_id(rs: Seq<VisaoPessoa>, id: int) -> Option<VisaoPessoa>
    decreases rs.len(),
{
    if rs.len() == 0 {
        None
    } else if rs[0].id == Some(id) {
        Some(rs[0])
    } else {
        espec_busca_id(rs.drop_first(), id)
    }
}

/// The list with every record of that identifier removed.
pub open spec fn espec_remove_id(rs: Seq<VisaoPessoa>, id: int) -> Seq<VisaoPessoa>
    decreases rs.len(),
{
    if rs.len() == 0 {
        rs
    } else {
        let resto = espec_remove_id(rs.drop_last(), id);
        if rs.last().id == Some(id) {
            resto
        } else {
            resto.push(rs.last())
        }
    }
}

/// The stored record with the target's identity and the new record's text
/// fields.
pub open spec fn espec_substitui(alvo: VisaoPessoa, novo: VisaoPessoa) -> VisaoPessoa {
    VisaoPessoa { id: alvo.id, nome: novo.nome, email: novo.email, telefone: novo.telefone }
}

/// The list with the first record of the new record's identifier replaced
/// by its text fields; later duplicates stay untouched.
pub open spec fn espec_atualiza(rs: Seq<VisaoPessoa>, novo: VisaoPessoa) -> Seq<VisaoPessoa>
    decreases rs.len(),
{
    if rs.len() == 0 {
        rs
    } else if rs[0].id == novo.id {
        seq![espec_substitui(rs[0], novo)] + rs.drop_first()
    } else {
        seq![rs[0]] + espec_atualiza(rs.drop_first(), novo)
    }
}

/// Whether a record's name matches a query, both case-folded.
pub open spec fn espec_casa_nome(p: VisaoPessoa, consulta: Seq<char>) -> bool {
    espec_contem(espec_minusculas(p.nome), espec_minusculas(consulta))
}

/// The records whose names match the query, in file order.
pub open spec fn espec_filtra_nome(rs: Seq<VisaoPessoa>, consulta: Seq<char>) -> Seq<VisaoPessoa>
    decreases rs.len(),
{
    if rs.len() == 0 {
        rs
    } else {
        let resto = espec_filtra_nome(rs.drop_last(), consulta);
        if espec_casa_nome(rs.last(), consulta) {
            resto.push(rs.last())
        } else {
            resto
        }
    }
}

/// When the first match stands at `k`, the update rewrites exactly that
/// position and nothing else.
pub proof fn lema_atualiza_em(rs: Seq<VisaoPessoa>, novo: VisaoPessoa, k: int)
    requires
        0 <= k < rs.len(),
        rs[k].id == novo.id,
        forall|j: int| 0 <= j < k ==> rs[j].id != novo.id,
    ensures
        espec_atualiza(rs, novo) == rs.update(k, espec_substitui(rs[k], novo)),
    decreases k,
{
    if k == 0 {
        assert(seq![espec_substitui(rs[0], novo)] + rs.drop_first() =~= rs.update(
            0,
            espec_substitui(rs[0], novo),
        ));
    } else {
        let cauda = rs.drop_first();
        assert(cauda[k - 1] == rs[k]);
        assert(forall|j: int| 0 <= j < k - 1 ==> cauda[j] == rs[j + 1]);
        lema_atualiza_em(cauda, novo, k - 1);
        assert(seq![rs[0]] + cauda.update(k - 1, espec_substitui(rs[k], novo)) =~= rs.update(
            k,
            espec_substitui(rs[k], novo),
        ));
    }
}

// ---------------------------------------------------------------------------
// The repository
// ---------------------------------------------------------------------------

/// The repository state: the backing file's path, fixed at construction,
/// and the highest identifier ever assigned.
#[derive(Debug)]
pub struct Storage {
    pub caminho_arquivo: String,
    pub ultimo_id: i64,
}

impl Storage {
    /// Binds a repository to a file path; a blank path is refused. The
    /// last identifier is recovered from the contents the host read (or
    /// created) at that path.
    pub fn construir(caminho_arquivo: String, conteudo: &str) -> (r: Result<Storage, Erro>)
        ensures
            espec_aparar(caminho_arquivo@).len() == 0 ==> r == Err::<Storage, Erro>(Erro::Config),
            espec_aparar(caminho_arquivo@).len() != 0 ==> match r {
                Ok(s) => s.caminho_arquivo == caminho_arquivo && s.ultimo_id as int
                    == espec_ultimo_id(conteudo@) && s.ultimo_id >= 0,
                Err(_) => false,
            },
    {
        let ap = aparar(caminho_arquivo.as_str());
        if ap.as_str().is_empty() {
            return Err(Erro::Config);
        }
        let ultimo = maior_id_de(conteudo);
        Ok(Storage { caminho_arquivo, ultimo_id: ultimo })
    }

    fn proximo_id(&mut self) -> (r: i64)
        requires
            old(self).ultimo_id < i64::MAX,
        ensures
            r == old(self).ultimo_id + 1,
            final(self).ultimo_id == r,
            final(self).caminho_arquivo == old(self).caminho_arquivo,
    {
        self.ultimo_id = self.ultimo_id + 1;
        self.ultimo_id
    }

    /// Validates the record, assigns the next identifier, advances the
    /// high-water mark and hands back the identifier with the one line the
    /// host appends to the file. A rejected record leaves repository and
    /// record exactly as they were.
    pub fn criar(&mut self, pessoa: &mut Pessoa) -> (r: Result<(i64, String), Erro>)
        requires
            old(self).ultimo_id < i64::MAX,
        ensures
            !espec_pessoa_valida(old(pessoa)@) ==> r == Err::<(i64, String), Erro>(Erro::Validacao)
                && *final(self) == *old(self) && *final(pessoa) == *old(pessoa),
            espec_pessoa_valida(old(pessoa)@) ==> match r {
                Ok(par) => par.0 == old(self).ultimo_id + 1 && final(self).ultimo_id == par.0
                    && final(self).caminho_arquivo == old(self).caminho_arquivo && *final(pessoa)
                    == (Pessoa { id: Some(par.0), ..*old(pessoa) }) && par.1@ == espec_linha_de(
                    final(pessoa)@,
                ),
                Err(_) => false,
            },
    {
        match pessoa.validar() {
            Ok(_) => {},
            Err(e) => {
                return Err(e);
            },
        }
        let novo_id = self.proximo_id();
        pessoa.definir_id(novo_id);
        let linha = codificar_linha(pessoa);
        Ok((novo_id, linha))
    }

    /// All records the given contents hold, in file order.
    pub fn listar_todas(&self, conteudo: &str) -> (r: Vec<Pessoa>)
        ensures
            espec_visoes(r@) == espec_registros(conteudo@),
    {
        listar_de(conteudo)
    }

    /// The first record with the identifier, or nothing; absence is a
    /// normal outcome, not an error.
    pub fn buscar_por_id(&self, id: i64, conteudo: &str) -> (r: Option<Pessoa>)
        ensures
            match r {
                Some(p) => espec_busca_id(espec_registros(conteudo@), id as int) == Some(p@),
                None => espec_busca_id(espec_registros(conteudo@), id as int) is None,
            },
    {
        let todas = listar_de(conteudo);
        let ghost regs = espec_registros(conteudo@);
        let mut i: usize = 0;
        proof {
            assert(regs.skip(0) =~= regs);
        }
        while i < todas.len()
            invariant
                i <= todas@.len(),
                regs == espec_registros(conteudo@),
                espec_visoes(todas@) == regs,
                regs.len() == todas@.len(),
                espec_busca_id(regs, id as int) == espec_busca_id(regs.skip(i as int), id as int),
            decreases todas@.len() - i,
        {
            proof {
                assert(regs[i as int] == todas@[i as int]@);
                assert(regs.skip(i as int)[0] == regs[i as int]);
                assert(regs.skip(i as int).drop_first() =~= regs.skip(i as int + 1));
            }
            let casa = match todas[i].id {
                Some(v) => v == id,
                None => false,
            };
            if casa {
                proof {
                    assert(regs[i as int].id == Some(id as int));
                    assert(espec_busca_id(regs.skip(i as int), id as int) == Some(regs[i as int]));
                }
                return Some(todas[i].clone());
            }
            i = i + 1;
        }
        proof {
            assert(regs.skip(todas@.len() as int) =~= Seq::<VisaoPessoa>::empty());
        }
        None
    }

    /// Replaces the text fields of the first record carrying the given
    /// record's identifier and hands back the file's new contents. A
    /// record without an identifier or failing validation is refused; an
    /// identifier absent from the contents is not found.
    pub fn atualizar(&self, pessoa: &Pessoa, conteudo: &str) -> (r: Result<String, Erro>)
        ensures
            pessoa.id is None ==> r == Err::<String, Erro>(Erro::Validacao),
            pessoa.id is Some && !espec_pessoa_valida(pessoa@) ==> r == Err::<String, Erro>(
                Erro::Validacao,
            ),
            pessoa.id is Some && espec_pessoa_valida(pessoa@) && !espec_tem_id(
                espec_registros(conteudo@),
                pessoa@.id->0,
            ) ==> r == Err::<String, Erro>(Erro::NaoEncontrado),
            pessoa.id is Some && espec_pessoa_valida(pessoa@) && espec_tem_id(
                espec_registros(conteudo@),
                pessoa@.id->0,
            ) ==> match r {
                Ok(novo) => novo@ == espec_arquivo(
                    espec_atualiza(espec_registros(conteudo@), pessoa@),
                ),
                Err(_) => false,
            },
    {
        let id_busca: i64 = match pessoa.id {
            Some(v) => v,
            None => {
                return Err(Erro::Validacao);
            },
        };
        match pessoa.validar() {
            Ok(_) => {},
            Err(e) => {
                return Err(e);
            },
        }
        let mut todas = listar_de(conteudo);
        let ghost regs = espec_registros(conteudo@);
        let mut i: usize = 0;
        while i < todas.len()
            invariant
                i <= todas@.len(),
                regs == espec_registros(conteudo@),
                espec_visoes(todas@) == regs,
                regs.len() == todas@.len(),
                pessoa.id == Some(id_busca),
                espec_pessoa_valida(pessoa@),
                forall|j: int| 0 <= j < i ==> regs[j].id != Some(id_busca as int),
            decreases todas@.len() - i,
        {
            proof {
                assert(regs[i as int] == todas@[i as int]@);
            }
            let casa = match todas[i].id {
                Some(v) => v == id_busca,
                None => false,
            };
            if casa {
                let ghost k = i as int;
                let ghost alvo = regs[k];
                let novo = Pessoa {
                    id: todas[i].id,
                    nome: pessoa.nome.clone(),
                    email: pessoa.email.clone(),
                    telefone: pessoa.telefone.clone(),
                };
                proof {
                    assert(novo@ == espec_substitui(alvo, pessoa@));
                }
                todas.set(i, novo);
                proof {
                    lema_atualiza_em(regs, pessoa@, k);
                    assert(espec_visoes(todas@) =~= regs.update(k, espec_substitui(alvo, pessoa@)));
                    assert(regs[k].id == Some(id_busca as int));
                    assert(espec_tem_id(regs, id_busca as int));
                }
                let novo_conteudo = reescrever(&todas);
                return Ok(novo_conteudo);
            }
            i = i + 1;
        }
        proof {
            assert(!espec_tem_id(regs, id_busca as int));
        }
        Err(Erro::NaoEncontrado)
    }

    /// Removes every record with the identifier and hands back the file's
    /// new contents; an identifier no record carries is not found.
    pub fn deletar(&self, id: i64, conteudo: &str) -> (r: Result<String, Erro>)
        ensures
            !espec_tem_id(espec_registros(conteudo@), id as int) ==> r == Err::<String, Erro>(
                Erro::NaoEncontrado,
            ),
            espec_tem_id(espec_registros(conteudo@), id as int) ==> match r {
                Ok(novo) => novo@ == espec_arquivo(
                    espec_remove_id(espec_registros(conteudo@), id as int),
                ),
                Err(_) => false,
            },
    {
        let todas = listar_de(conteudo);
        let ghost regs = espec_registros(conteudo@);
        let mut mantidas: Vec<Pessoa> = Vec::new();
        let mut achou = false;
        let mut i: usize = 0;
        proof {
            assert(regs.subrange(0, 0) =~= Seq::<VisaoPessoa>::empty());
            assert(espec_visoes(mantidas@) =~= espec_remove_id(regs.subrange(0, 0), id as int));
        }
        while i < todas.len()
            invariant
                i <= todas@.len(),
                espec_visoes(todas@) == regs,
                regs.len() == todas@.len(),
                espec_visoes(mantidas@) == espec_remove_id(regs.subrange(0, i as int), id as int),
                achou == (exists|j: int| 0 <= j < i && (#[trigger] regs[j]).id == Some(id as int)),
            decreases todas@.len() - i,
        {
            let ghost antes = regs.subrange(0, i as int);
            proof {
                assert(regs[i as int] == todas@[i as int]@);
                assert(regs.subrange(0, i as int + 1).drop_last() =~= antes);
                assert(regs.subrange(0, i as int + 1).last() == regs[i as int]);
            }
            let casa = match todas[i].id {
                Some(v) => v == id,
                None => false,
            };
            let ghost mantidas_antes = mantidas@;
            if casa {
                achou = true;
                proof {
                    assert(regs[i as int].id == Some(id as int));
                }
            } else {
                mantidas.push(todas[i].clone());
                proof {
                    assert(espec_visoes(mantidas@) =~= espec_visoes(mantidas_antes).push(
                        regs[i as int],
                    ));
                    assert(regs[i as int].id != Some(id as int));
                }
            }
            i = i + 1;
        }
        proof {
            assert(regs.subrange(0, todas@.len() as int) =~= regs);
            assert(achou == espec_tem_id(regs, id as int));
        }
        if !achou {
            return Err(Erro::NaoEncontrado);
        }
        let novo_conteudo = reescrever(&mantidas);
        Ok(novo_conteudo)
    }

    /// The records whose names contain the query, matched without regard
    /// to case, in file order.
    pub fn buscar_por_nome(&self, nome: String, conteudo: &str) -> (r: Vec<Pessoa>)
        ensures
            espec_visoes(r@) == espec_filtra_nome(espec_registros(conteudo@), nome@),
    {
        let todas = listar_de(conteudo);
        let ghost regs = espec_registros(conteudo@);
        let consulta = minusculas(nome.as_str());
        let mut r: Vec<Pessoa> = Vec::new();
        let mut i: usize = 0;
        proof {
            assert(regs.subrange(0, 0) =~= Seq::<VisaoPessoa>::empty());
            assert(espec_visoes(r@) =~= espec_filtra_nome(regs.subrange(0, 0), nome@));
        }
        while i < todas.len()
            invariant
                i <= todas@.len(),
                espec_visoes(todas@) == regs,
                regs.len() == todas@.len(),
                consulta@ == espec_minusculas(nome@),
                espec_visoes(r@) == espec_filtra_nome(regs.subrange(0, i as int), nome@),
            decreases todas@.len() - i,
        {
            let ghost antes = regs.subrange(0, i as int);
            proof {
                assert(regs[i as int] == todas@[i as int]@);
                assert(regs.subrange(0, i as int + 1).drop_last() =~= antes);
                assert(regs.subrange(0, i as int + 1).last() == regs[i as int]);
            }
            let ghost r_antes = r@;
            let nome_registro = minusculas(todas[i].nome.as_str());
            if contem_sub(nome_registro.as_str(), consulta.as_str()) {
                r.push(todas[i].clone());
                proof {
                    assert(espec_visoes(r@) =~= espec_visoes(r_antes).push(regs[i as int]));
                }
            }
            i = i + 1;
        }
        proof {
            assert(regs.subrange(0, todas@.len() as int) =~= regs);
        }
        r
    }

    /// How many records the contents hold.
    pub fn contar(&self, conteudo: &str) -> (r: usize)
        ensures
            r == espec_registros(conteudo@).len(),
    {
        let todas = listar_de(conteudo);
        proof {
            assert(espec_visoes(todas@).len() == todas@.len());
        }
        todas.len()
    }

    /// The contents of an emptied file: the header alone.
    pub fn limpar_todos(&self) -> (r: String)
        ensures
            r@ == espec_arquivo(Seq::<VisaoPessoa>::empty()),
    {
        let vazio: Vec<Pessoa> = Vec::new();
        let r = reescrever(&vazio);
        proof {
            assert(espec_visoes(Seq::<Pessoa>::empty()) =~= Seq::<VisaoPessoa>::empty());
        }
        r
    }

    pub fn obter_caminho(&self) -> (r: String)
        ensures
            r == self.caminho_arquivo,
    {
        self.caminho_arquivo.clone()
    }
}

// ---------------------------------------------------------------------------
// Laws of identifier assignment
// ---------------------------------------------------------------------------

proof fn lema_ids_ate(ids: Seq<int>, k: int)
    requires
        forall|j: int|
            0 <= j < ids.len() ==> #[trigger] ids[j] == (if j == 0 {
                1int
            } else {
                ids[j - 1] + 1
            }),
        0 <= k < ids.len(),
    ensures
        ids[k] == k + 1,
    decreases k,
{
    if k > 0 {
        lema_ids_ate(ids, k - 1);
    }
}

/// Identifier monotonicity. `criar` returns `ultimo_id + 1` and advances
/// `ultimo_id` to it, `construir` on a fresh file starts it at zero, and no
/// other operation touches it; so when each identifier of a run of creates
/// is one more than the one before, starting at one, the N-th create
/// returns exactly N, deletions in between notwithstanding.
pub proof fn lema_ids_monotonicos(ids: Seq<int>)
    requires
        forall|j: int|
            0 <= j < ids.len() ==> #[trigger] ids[j] == (if j == 0 {
                1int
            } else {
                ids[j - 1] + 1
            }),
    ensures
        forall|k: int| 0 <= k < ids.len() ==> ids[k] == k + 1,
{
    assert forall|k: int| 0 <= k < ids.len() implies ids[k] == k + 1 by {
        lema_ids_ate(ids, k);
    }
}

/// The list reflects mutations: create one record, create a second,
/// delete the first, and what the file then holds parses to exactly the
/// second. The two creates append their lines (first two conclusions, the
/// contents `criar` hands out), and deleting the first identifier from the
/// two-record file leaves a file holding the second record alone.
pub proof fn lema_lista_reflete_mutacoes(a: VisaoPessoa, b: VisaoPessoa)
    requires
        espec_registro_simples(a),
        espec_registro_simples(b),
        a.id != b.id,
    ensures
        espec_arquivo(seq![a]) == espec_arquivo(Seq::<VisaoPessoa>::empty()) + espec_linha_de(a),
        espec_arquivo(seq![a, b]) == espec_arquivo(seq![a]) + espec_linha_de(b),
        espec_registros(
            espec_arquivo(espec_remove_id(espec_registros(espec_arquivo(seq![a, b])), a.id->0)),
        ) == seq![b],
{
    assert(Seq::<VisaoPessoa>::empty().push(a) =~= seq![a]);
    assert(seq![a].push(b) =~= seq![a, b]);
    lema_arquivo_anexa(Seq::<VisaoPessoa>::empty(), a);
    lema_arquivo_anexa(seq![a], b);
    let dois = seq![a, b];
    assert(forall|k: int| 0 <= k < dois.len() ==> espec_registro_simples(#[trigger] dois[k]));
    lema_arquivo_registros(dois);
    let ia = a.id->0;
    assert(a.id == Some(ia));
    assert(b.id != Some(ia));
    assert(dois.drop_last() =~= seq![a]);
    assert(dois.last() == b);
    assert(seq![a].drop_last() =~= Seq::<VisaoPessoa>::empty());
    assert(seq![a].last() == a);
    assert(espec_remove_id(Seq::<VisaoPessoa>::empty(), ia) =~= Seq::<VisaoPessoa>::empty());
    assert(espec_remove_id(seq![a], ia) =~= Seq::<VisaoPessoa>::empty());
    assert(espec_remove_id(dois, ia) =~= seq![b]);
    assert(forall|k: int| 0 <= k < seq![b].len() ==> espec_registro_simples(#[trigger] seq![b][k]));
    lema_arquivo_registros(seq![b]);
}

/// Update isolation: rewriting the file after an update changes exactly
/// the first record carrying the target identifier — its identifier kept,
/// its text fields replaced — and every other record parses back byte for
/// byte as it was.
pub proof fn lema_atualizacao_isolada(rs: Seq<VisaoPessoa>, novo: VisaoPessoa, k: int)
    requires
        0 <= k < rs.len(),
        rs[k].id == novo.id,
        forall|j: int| 0 <= j < k ==> (#[trigger] rs[j]).id != novo.id,
        forall|j: int| 0 <= j < rs.len() ==> espec_registro_simples(#[trigger] rs[j]),
        espec_campo_simples(novo.nome),
        espec_campo_simples(novo.email),
        espec_campo_simples(novo.telefone),
    ensures
        ({
            let depois = espec_registros(espec_arquivo(espec_atualiza(rs, novo)));
            &&& depois.len() == rs.len()
            &&& depois[k] == espec_substitui(rs[k], novo)
            &&& forall|j: int| 0 <= j < rs.len() && j != k ==> #[trigger] depois[j] == rs[j]
        }),
{
    lema_atualiza_em(rs, novo, k);
    let atualizados = rs.update(k, espec_substitui(rs[k], novo));
    assert forall|j: int| 0 <= j < atualizados.len() implies espec_registro_simples(
        #[trigger] atualizados[j],
    ) by {
        if j != k {
            assert(atualizados[j] == rs[j]);
        }
    }
    lema_arquivo_registros(atualizados);
}

} // verus!
