use wead::armazenamento::Storage;
use wead::meu_ola;
use wead::registro::EntidadeBase;
use wead::registro::Erro;
use wead::registro::Pessoa;
use wead::registro::resumo_pessoa;

const CABECALHO: &str = "id,nome,email,telefone\n";

fn pessoa(nome: &str, email: &str, telefone: &str) -> Pessoa {
    Pessoa::nova(nome.to_string(), email.to_string(), telefone.to_string())
}

fn criar(storage: &mut Storage, conteudo: &mut String, p: &mut Pessoa) -> Result<i64, Erro> {
    let (id, linha) = storage.criar(p)?;
    conteudo.push_str(&linha);
    Ok(id)
}

fn novo_repositorio() -> (Storage, String) {
    let conteudo = CABECALHO.to_string();
    let storage = Storage::construir("dados.csv".to_string(), &conteudo).unwrap();
    (storage, conteudo)
}

#[test]
fn cenario_completo() {
    let (mut storage, mut conteudo) = novo_repositorio();
    let mut ana = pessoa("Ana", "ana@x.com", "111");
    let mut bo = pessoa("Bo", "bo@x.com", "222");
    assert_eq!(criar(&mut storage, &mut conteudo, &mut ana), Ok(1));
    assert_eq!(criar(&mut storage, &mut conteudo, &mut bo), Ok(2));
    let achada = storage.buscar_por_id(1, &conteudo).unwrap();
    assert_eq!(achada.nome, "Ana");
    conteudo = storage.deletar(1, &conteudo).unwrap();
    assert!(storage.buscar_por_id(1, &conteudo).is_none());
    assert_eq!(storage.contar(&conteudo), 1);
}

#[test]
fn ids_nao_sao_reutilizados() {
    let (mut storage, mut conteudo) = novo_repositorio();
    let mut primeira = pessoa("Ana", "ana@x.com", "111");
    assert_eq!(criar(&mut storage, &mut conteudo, &mut primeira), Ok(1));
    conteudo = storage.deletar(1, &conteudo).unwrap();
    let mut segunda = pessoa("Bia", "bia@x.com", "333");
    assert_eq!(criar(&mut storage, &mut conteudo, &mut segunda), Ok(2));
}

#[test]
fn ids_crescem_um_a_um_apesar_de_remocoes() {
    let (mut storage, mut conteudo) = novo_repositorio();
    for n in 1..=5 {
        let mut p = pessoa("Ana", "ana@x.com", "111");
        assert_eq!(criar(&mut storage, &mut conteudo, &mut p), Ok(n));
        if n == 3 {
            conteudo = storage.deletar(2, &conteudo).unwrap();
        }
    }
}

#[test]
fn lista_reflete_mutacoes() {
    let (mut storage, mut conteudo) = novo_repositorio();
    let mut a = pessoa("Ana", "ana@x.com", "111");
    let mut b = pessoa("Bo", "bo@x.com", "222");
    criar(&mut storage, &mut conteudo, &mut a).unwrap();
    criar(&mut storage, &mut conteudo, &mut b).unwrap();
    conteudo = storage.deletar(a.obter_id().unwrap(), &conteudo).unwrap();
    let todas = storage.listar_todas(&conteudo);
    assert_eq!(todas.len(), 1);
    assert_eq!(todas[0].nome, "Bo");
    assert_eq!(todas[0].id, Some(2));
}

#[test]
fn atualizacao_muda_so_o_alvo() {
    let (mut storage, mut conteudo) = novo_repositorio();
    let mut a = pessoa("Ana", "ana@x.com", "111");
    let mut b = pessoa("Bo", "bo@x.com", "222");
    let mut c = pessoa("Caio", "caio@x.com", "333");
    criar(&mut storage, &mut conteudo, &mut a).unwrap();
    criar(&mut storage, &mut conteudo, &mut b).unwrap();
    criar(&mut storage, &mut conteudo, &mut c).unwrap();
    let mut novo = pessoa("Beto", "beto@x.com", "999");
    novo.definir_id(2);
    conteudo = storage.atualizar(&novo, &conteudo).unwrap();
    let todas = storage.listar_todas(&conteudo);
    assert_eq!(todas.len(), 3);
    assert_eq!((todas[0].nome.as_str(), todas[0].email.as_str(), todas[0].telefone.as_str()),
        ("Ana", "ana@x.com", "111"));
    assert_eq!((todas[1].nome.as_str(), todas[1].email.as_str(), todas[1].telefone.as_str()),
        ("Beto", "beto@x.com", "999"));
    assert_eq!(todas[1].id, Some(2));
    assert_eq!((todas[2].nome.as_str(), todas[2].email.as_str(), todas[2].telefone.as_str()),
        ("Caio", "caio@x.com", "333"));
}

#[test]
fn criar_invalido_nao_muda_nada() {
    let (mut storage, mut conteudo) = novo_repositorio();
    let mut vazia = pessoa("", "ana@x.com", "111");
    assert_eq!(criar(&mut storage, &mut conteudo, &mut vazia), Err(Erro::Validacao));
    assert_eq!(conteudo, CABECALHO);
    assert_eq!(vazia.obter_id(), None);
    // the high-water mark did not move: the next create still returns 1
    let mut ana = pessoa("Ana", "ana@x.com", "111");
    assert_eq!(criar(&mut storage, &mut conteudo, &mut ana), Ok(1));
}

#[test]
fn validacao_rejeita_cada_campo() {
    assert!(pessoa("  ", "a@b", "1").validar().is_err());
    assert!(pessoa("Ana", "  ", "1").validar().is_err());
    assert!(pessoa("Ana", "sem-arroba", "1").validar().is_err());
    assert!(pessoa("Ana", "a@b", "  ").validar().is_err());
    assert_eq!(pessoa("Ana", "a@b", "1").validar(), Ok(true));
}

#[test]
fn definir_email_so_exige_arroba() {
    let mut p = pessoa("Ana", "ana@x.com", "111");
    assert_eq!(p.definir_email("  @  ".to_string()), Ok(()));
    assert_eq!(p.obter_email(), "  @  ");
    assert_eq!(p.definir_email("sem-arroba".to_string()), Err(Erro::Validacao));
    assert_eq!(p.obter_email(), "  @  ");
}

#[test]
fn busca_por_nome_ignora_caixa() {
    let (mut storage, mut conteudo) = novo_repositorio();
    let mut a = pessoa("Ana Clara", "ana@x.com", "111");
    let mut b = pessoa("Bruno", "bruno@x.com", "222");
    criar(&mut storage, &mut conteudo, &mut a).unwrap();
    criar(&mut storage, &mut conteudo, &mut b).unwrap();
    let achadas = storage.buscar_por_nome("aNA".to_string(), &conteudo);
    assert_eq!(achadas.len(), 1);
    assert_eq!(achadas[0].nome, "Ana Clara");
    let achadas = storage.buscar_por_nome("CLARA".to_string(), &conteudo);
    assert_eq!(achadas.len(), 1);
    assert!(storage.buscar_por_nome("zeta".to_string(), &conteudo).is_empty());
}

#[test]
fn erros_de_atualizar_e_deletar() {
    let (storage, conteudo) = novo_repositorio();
    let sem_id = pessoa("Ana", "ana@x.com", "111");
    assert_eq!(storage.atualizar(&sem_id, &conteudo), Err(Erro::Validacao));
    let mut ausente = pessoa("Ana", "ana@x.com", "111");
    ausente.definir_id(9);
    assert_eq!(storage.atualizar(&ausente, &conteudo), Err(Erro::NaoEncontrado));
    let mut invalida = pessoa("", "ana@x.com", "111");
    invalida.definir_id(1);
    assert_eq!(storage.atualizar(&invalida, &conteudo), Err(Erro::Validacao));
    assert_eq!(storage.deletar(9, &conteudo), Err(Erro::NaoEncontrado));
}

#[test]
fn caminho_em_branco_e_recusado() {
    assert_eq!(Storage::construir("   ".to_string(), CABECALHO).unwrap_err(), Erro::Config);
    let storage = Storage::construir("dados.csv".to_string(), CABECALHO).unwrap();
    assert_eq!(storage.obter_caminho(), "dados.csv");
}

#[test]
fn ultimo_id_vem_do_maior_da_tabela() {
    let conteudo = "id,nome,email,telefone\n7,a,b,c\nxx,d,e,f\n3,g,h,i\n";
    let mut storage = Storage::construir("dados.csv".to_string(), conteudo).unwrap();
    let mut p = pessoa("Ana", "ana@x.com", "111");
    let mut texto = conteudo.to_string();
    assert_eq!(criar(&mut storage, &mut texto, &mut p), Ok(8));
}

#[test]
fn linhas_em_branco_e_curtas_sao_puladas() {
    let conteudo = "id,nome,email,telefone\n\n1,Ana,ana@x.com,111\nlixo\n2,Bo,bo@x.com,222\n";
    let storage = Storage::construir("dados.csv".to_string(), conteudo).unwrap();
    let todas = storage.listar_todas(conteudo);
    assert_eq!(todas.len(), 2);
    assert_eq!(todas[0].nome, "Ana");
    assert_eq!(todas[1].nome, "Bo");
}

#[test]
fn campo_escapado_sobrevive_a_propria_linha() {
    let (mut storage, mut conteudo) = novo_repositorio();
    let mut p = pessoa("diz \"oi\"", "ana@x.com", "111");
    criar(&mut storage, &mut conteudo, &mut p).unwrap();
    let todas = storage.listar_todas(&conteudo);
    assert_eq!(todas[0].nome, "diz \"oi\"");
}

#[test]
fn limpar_todos_deixa_so_o_cabecalho() {
    let (mut storage, mut conteudo) = novo_repositorio();
    let mut p = pessoa("Ana", "ana@x.com", "111");
    criar(&mut storage, &mut conteudo, &mut p).unwrap();
    let conteudo = storage.limpar_todos();
    assert_eq!(conteudo, CABECALHO);
    assert_eq!(storage.contar(&conteudo), 0);
}

#[test]
fn entidade_base_e_textos() {
    let mut base = EntidadeBase::nova();
    assert!(!base.esta_persistida());
    base.definir_id(5);
    assert_eq!(base.obter_id(), Some(5));
    assert!(base.esta_persistida());

    let mut p = pessoa("Ana", "ana@x.com", "111");
    assert_eq!(resumo_pessoa(&p), "ID: N/A | Nome: Ana | Email: ana@x.com | Tel: 111");
    assert_eq!(p.para_texto(), "Pessoa[id=null, nome=Ana, email=ana@x.com, telefone=111]");
    p.definir_id(3);
    assert_eq!(resumo_pessoa(&p), "ID: 3 | Nome: Ana | Email: ana@x.com | Tel: 111");
    assert_eq!(p.para_texto(), "Pessoa[id=3, nome=Ana, email=ana@x.com, telefone=111]");

    let pares = p.para_array();
    assert_eq!(pares.len(), 4);
    assert_eq!(pares[0], ("id".to_string(), "3".to_string()));
    assert_eq!(pares[1], ("nome".to_string(), "Ana".to_string()));
    assert_eq!(pares[2], ("email".to_string(), "ana@x.com".to_string()));
    assert_eq!(pares[3], ("telefone".to_string(), "111".to_string()));

    assert_eq!(meu_ola("Rust".to_string()), "Opa, Rust!");
}

#[test]
fn formato_da_linha_gravada() {
    let (mut storage, mut conteudo) = novo_repositorio();
    let mut p = pessoa("Ana", "ana@x.com", "111");
    criar(&mut storage, &mut conteudo, &mut p).unwrap();
    assert_eq!(conteudo, "id,nome,email,telefone\n1,Ana,ana@x.com,111\n");
    let mut q = pessoa("a,b", "q@x.com", "222");
    criar(&mut storage, &mut conteudo, &mut q).unwrap();
    assert_eq!(
        conteudo,
        "id,nome,email,telefone\n1,Ana,ana@x.com,111\n2,\"a,b\",q@x.com,222\n"
    );
}
