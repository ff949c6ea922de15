//! The backing file format: a fixed header line, then one comma-delimited
//! line per record with escaped fields, each line ended by a newline.

use vstd::prelude::*;
use vstd::string::StrSliceExecFns;
use vstd::string::StringExecFns;

use crate::codec::desescapar_csv;
use crate::codec::escapar_csv;
use crate::codec::espec_campo_simples;
use crate::codec::espec_desescapar;
use crate::codec::espec_escapar;
use crate::registro::Pessoa;
use crate::registro::VisaoPessoa;
use crate::codec::lema_desescapar_simples;
use crate::codec::lema_escapar_simples;
use crate::texto::anexar_char;
use crate::texto::aparar;
use crate::texto::analisar_i64;
use crate::texto::dividir;
use crate::texto::espec_analisa_i64;
use crate::texto::espec_aparar;
use crate::texto::espec_branco;
use crate::texto::espec_dec_i64;
use crate::texto::espec_dec_nat;
use crate::texto::espec_divide;
use crate::texto::espec_eh_digito;
use crate::texto::inteiro_para_texto;
use crate::texto::lema_analisa_dec;
use crate::texto::lema_aparar_pontas;
use crate::texto::lema_dec_nat_propriedades;
use crate::texto::lema_divide_concat;
use crate::texto::lema_divide_sem;

verus! {

/// The fixed header line, without its newline.
pub open spec fn espec_cabecalho() -> Seq<char> {
    "id,nome,email,telefone"@
}

pub fn cabecalho() -> (r: String)
    ensures
        r@ == espec_cabecalho(),
{
    String::from_str("id,nome,email,telefone")
}

/// The identifier written to the file: an absent one is written as `0`.
pub open spec fn espec_id_gravado(id: Option<int>) -> int {
    match id {
        Some(i) => i,
        None => 0,
    }
}

/// One record's line, without its newline.
pub open spec fn espec_linha_sem_nl(p: VisaoPessoa) -> Seq<char> {
    espec_dec_i64(espec_id_gravado(p.id)) + seq![','] + espec_escapar(p.nome) + seq![',']
        + espec_escapar(p.email) + seq![','] + espec_escapar(p.telefone)
}

/// One record's line as written, newline included.
pub open spec fn espec_linha_de(p: VisaoPessoa) -> Seq<char> {
    espec_linha_sem_nl(p) + seq!['\n']
}

/// The data lines of a list of records, in order.
pub open spec fn espec_corpo(rs: Seq<VisaoPessoa>) -> Seq<char>
    decreases rs.len(),
{
    if rs.len() == 0 {
        Seq::<char>::empty()
    } else {
        espec_linha_de(rs[0]) + espec_corpo(rs.drop_first())
    }
}

/// The whole file for a list of records: header, newline, then the body.
pub open spec fn espec_arquivo(rs: Seq<VisaoPessoa>) -> Seq<char> {
    espec_cabecalho() + seq!['\n'] + espec_corpo(rs)
}

/// Growing the list by one record appends exactly that record's line.
pub proof fn lema_corpo_anexa(rs: Seq<VisaoPessoa>, p: VisaoPessoa)
    ensures
        espec_corpo(rs.push(p)) == espec_corpo(rs) + espec_linha_de(p),
    decreases rs.len(),
{
    if rs.len() == 0 {
        assert(rs.push(p)[0] == p);
        assert(rs.push(p).drop_first() =~= Seq::<VisaoPessoa>::empty());
        assert(espec_corpo(Seq::<VisaoPessoa>::empty()) =~= Seq::<char>::empty());
        assert(espec_corpo(rs.push(p)) =~= espec_linha_de(p));
        assert(espec_corpo(rs) + espec_linha_de(p) =~= espec_linha_de(p));
    } else {
        assert(rs.push(p)[0] == rs[0]);
        assert(rs.push(p).drop_first() =~= rs.drop_first().push(p));
        lema_corpo_anexa(rs.drop_first(), p);
        assert(espec_linha_de(rs[0]) + (espec_corpo(rs.drop_first()) + espec_linha_de(p)) =~= (
        espec_linha_de(rs[0]) + espec_corpo(rs.drop_first())) + espec_linha_de(p));
    }
}

/// What one line of the file contributes: nothing for a blank or short
/// line, one record otherwise.
pub open spec fn espec_registro_da_linha(l: Seq<char>) -> Seq<VisaoPessoa> {
    if espec_aparar(l).len() == 0 {
        Seq::<VisaoPessoa>::empty()
    } else {
        let campos = espec_divide(l, ',');
        if campos.len() >= 4 {
            seq![
                VisaoPessoa {
                    id: espec_analisa_i64(campos[0]),
                    nome: espec_desescapar(campos[1]),
                    email: espec_desescapar(campos[2]),
                    telefone: espec_desescapar(campos[3]),
                },
            ]
        } else {
            Seq::<VisaoPessoa>::empty()
        }
    }
}

pub open spec fn espec_registros_das_linhas(ls: Seq<Seq<char>>) -> Seq<VisaoPessoa>
    decreases ls.len(),
{
    if ls.len() == 0 {
        Seq::<VisaoPessoa>::empty()
    } else {
        espec_registros_das_linhas(ls.drop_last()) + espec_registro_da_linha(ls.last())
    }
}

/// The records a file's contents hold: every line after the header that is
/// neither blank nor short of four fields, in file order.
pub open spec fn espec_registros(conteudo: Seq<char>) -> Seq<VisaoPessoa> {
    espec_registros_das_linhas(espec_divide(conteudo, '\n').drop_first())
}

/// The identifier a line carries in its first field, if one parses.
pub open spec fn espec_id_da_linha(l: Seq<char>) -> Option<int> {
    espec_analisa_i64(espec_divide(l, ',')[0])
}

pub open spec fn espec_maior_id_das_linhas(ls: Seq<Seq<char>>) -> int
    decreases ls.len(),
{
    if ls.len() == 0 {
        0
    } else {
        let m = espec_maior_id_das_linhas(ls.drop_last());
        match espec_id_da_linha(ls.last()) {
            Some(v) => if v > m {
                v
            } else {
                m
            },
            None => m,
        }
    }
}

/// The highest identifier any line after the header carries, and zero when
/// none does; unparsable first fields are passed over.
pub open spec fn espec_ultimo_id(conteudo: Seq<char>) -> int {
    espec_maior_id_das_linhas(espec_divide(conteudo, '\n').drop_first())
}

/// The views of a list of records.
pub open spec fn espec_visoes(rs: Seq<Pessoa>) -> Seq<VisaoPessoa> {
    rs.map_values(|p: Pessoa| p@)
}

// ---------------------------------------------------------------------------
// Executable encoding and parsing
// ---------------------------------------------------------------------------

/// Encodes one record as its file line, newline included.
pub fn codificar_linha(p: &Pessoa) -> (r: String)
    ensures
        r@ == espec_linha_de(p@),
{
    let id_num: i64 = match p.id {
        Some(i) => i,
        None => 0,
    };
    let mut r = inteiro_para_texto(id_num);
    anexar_char(&mut r, ',');
    let nome = escapar_csv(p.nome.as_str());
    r.append(nome.as_str());
    anexar_char(&mut r, ',');
    let email = escapar_csv(p.email.as_str());
    r.append(email.as_str());
    anexar_char(&mut r, ',');
    let telefone = escapar_csv(p.telefone.as_str());
    r.append(telefone.as_str());
    anexar_char(&mut r, '\n');
    proof {
        assert(r@ =~= espec_linha_sem_nl(p@) + seq!['\n']);
    }
    r
}

/// Parses one data line; a blank line or one short of four fields yields
/// nothing.
pub fn analisar_linha(l: &str) -> (r: Option<Pessoa>)
    ensures
        match r {
            Some(p) => espec_registro_da_linha(l@) == seq![p@],
            None => espec_registro_da_linha(l@) == Seq::<VisaoPessoa>::empty(),
        },
{
    let aparada = aparar(l);
    if aparada.as_str().is_empty() {
        return None;
    }
    let campos = dividir(l, ',');
    if campos.len() < 4 {
        proof {
            assert(campos.deep_view().len() == campos@.len());
        }
        return None;
    }
    proof {
        assert(campos.deep_view().len() == campos@.len());
        assert(campos.deep_view()[0] == campos@[0]@);
        assert(campos.deep_view()[1] == campos@[1]@);
        assert(campos.deep_view()[2] == campos@[2]@);
        assert(campos.deep_view()[3] == campos@[3]@);
    }
    let id = analisar_i64(campos[0].as_str());
    let nome = desescapar_csv(campos[1].as_str());
    let email = desescapar_csv(campos[2].as_str());
    let telefone = desescapar_csv(campos[3].as_str());
    let p = Pessoa { id, nome, email, telefone };
    Some(p)
}

/// Parses a whole file's contents into its records, skipping the header
/// line, blank lines and short lines.
pub fn listar_de(conteudo: &str) -> (r: Vec<Pessoa>)
    ensures
        espec_visoes(r@) == espec_registros(conteudo@),
{
    let linhas = dividir(conteudo, '\n');
    let ghost ls = espec_divide(conteudo@, '\n');
    let mut r: Vec<Pessoa> = Vec::new();
    let mut i: usize = 1;
    proof {
        assert(linhas.deep_view().len() == linhas@.len());
        assert(ls.drop_first().subrange(0, 0) =~= Seq::<Seq<char>>::empty());
        assert(espec_visoes(r@) =~= Seq::<VisaoPessoa>::empty());
    }
    while i < linhas.len()
        invariant
            1 <= i <= linhas@.len() || (linhas@.len() == 0 && i == 1),
            linhas.deep_view() == ls,
            ls.len() == linhas@.len(),
            espec_visoes(r@) == espec_registros_das_linhas(ls.drop_first().subrange(0, i - 1)),
        decreases linhas@.len() - i,
    {
        proof {
            assert(linhas.deep_view()[i as int] == linhas@[i as int]@);
            assert(ls.drop_first().subrange(0, i as int).drop_last() =~= ls.drop_first().subrange(
                0,
                i as int - 1,
            ));
            assert(ls.drop_first().subrange(0, i as int).last() == ls[i as int]);
        }
        let ghost r_antes = r@;
        match analisar_linha(linhas[i].as_str()) {
            Some(p) => {
                r.push(p);
                proof {
                    assert(espec_visoes(r@) =~= espec_visoes(r_antes) + seq![r@[r@.len() - 1]@]);
                }
            },
            None => {
                proof {
                    assert(espec_visoes(r_antes) + Seq::<VisaoPessoa>::empty() =~= espec_visoes(
                        r_antes,
                    ));
                }
            },
        }
        i = i + 1;
    }
    proof {
        if linhas@.len() == 0 {
            assert(ls.drop_first() =~= Seq::<Seq<char>>::empty());
            assert(ls.drop_first().subrange(0, 0) =~= ls.drop_first());
        } else {
            assert(ls.drop_first().subrange(0, i - 1) =~= ls.drop_first());
        }
    }
    r
}

/// Recovers the highest identifier of a file's contents.
pub fn maior_id_de(conteudo: &str) -> (r: i64)
    ensures
        r as int == espec_ultimo_id(conteudo@),
        r >= 0,
{
    let linhas = dividir(conteudo, '\n');
    let ghost ls = espec_divide(conteudo@, '\n');
    let mut m: i64 = 0;
    let mut i: usize = 1;
    proof {
        assert(linhas.deep_view().len() == linhas@.len());
        assert(ls.drop_first().subrange(0, 0) =~= Seq::<Seq<char>>::empty());
    }
    while i < linhas.len()
        invariant
            1 <= i <= linhas@.len() || (linhas@.len() == 0 && i == 1),
            linhas.deep_view() == ls,
            ls.len() == linhas@.len(),
            m >= 0,
            m as int == espec_maior_id_das_linhas(ls.drop_first().subrange(0, i - 1)),
        decreases linhas@.len() - i,
    {
        proof {
            assert(linhas.deep_view()[i as int] == linhas@[i as int]@);
            assert(ls.drop_first().subrange(0, i as int).drop_last() =~= ls.drop_first().subrange(
                0,
                i as int - 1,
            ));
            assert(ls.drop_first().subrange(0, i as int).last() == ls[i as int]);
        }
        let campos = dividir(linhas[i].as_str(), ',');
        proof {
            assert(campos.deep_view().len() == campos@.len());
            assert(campos.deep_view()[0] == campos@[0]@);
        }
        match analisar_i64(campos[0].as_str()) {
            Some(v) => {
                if v > m {
                    m = v;
                }
            },
            None => {},
        }
        i = i + 1;
    }
    proof {
        if linhas@.len() == 0 {
            assert(ls.drop_first() =~= Seq::<Seq<char>>::empty());
            assert(ls.drop_first().subrange(0, 0) =~= ls.drop_first());
        } else {
            assert(ls.drop_first().subrange(0, i - 1) =~= ls.drop_first());
        }
    }
    m
}

/// Renders a whole file from a list of records: the header then one line
/// per record.
pub fn reescrever(registros: &Vec<Pessoa>) -> (r: String)
    ensures
        r@ == espec_arquivo(espec_visoes(registros@)),
{
    let mut r = cabecalho();
    anexar_char(&mut r, '\n');
    proof {
        assert(espec_visoes(registros@.subrange(0, 0)) =~= Seq::<VisaoPessoa>::empty());
        assert(r@ =~= espec_cabecalho() + seq!['\n'] + espec_corpo(
            espec_visoes(registros@.subrange(0, 0)),
        ));
    }
    let mut i: usize = 0;
    while i < registros.len()
        invariant
            i <= registros@.len(),
            r@ == espec_cabecalho() + seq!['\n'] + espec_corpo(
                espec_visoes(registros@.subrange(0, i as int)),
            ),
        decreases registros@.len() - i,
    {
        let linha = codificar_linha(&registros[i]);
        r.append(linha.as_str());
        proof {
            let antes = espec_visoes(registros@.subrange(0, i as int));
            assert(espec_visoes(registros@.subrange(0, i as int + 1)) =~= antes.push(
                registros@[i as int]@,
            ));
            lema_corpo_anexa(antes, registros@[i as int]@);
            assert(r@ =~= espec_cabecalho() + seq!['\n'] + (espec_corpo(antes) + espec_linha_de(
                registros@[i as int]@,
            )));
        }
        i = i + 1;
    }
    proof {
        assert(registros@.subrange(0, registros@.len() as int) =~= registros@);
    }
    r
}

// ---------------------------------------------------------------------------
// Round trip: rendering then parsing reproduces the records
// ---------------------------------------------------------------------------

/// A record the file format reproduces exactly: its fields are simple
/// (free of delimiters and of edge white space) and its identifier is
/// present and within the signed 64-bit range.
pub open spec fn espec_registro_simples(p: VisaoPessoa) -> bool {
    &&& espec_campo_simples(p.nome)
    &&& espec_campo_simples(p.email)
    &&& espec_campo_simples(p.telefone)
    &&& match p.id {
        Some(i) => -0x8000000000000000 <= i && i <= 0x7fffffffffffffff,
        None => false,
    }
}

proof fn lema_dec_livre(n: int)
    ensures
        espec_dec_i64(n).len() >= 1,
        forall|j: int|
            0 <= j < espec_dec_i64(n).len() ==> #[trigger] espec_dec_i64(n)[j] != '\n'
                && espec_dec_i64(n)[j] != ',' && !espec_branco(espec_dec_i64(n)[j]),
{
    if n < 0 {
        lema_dec_nat_propriedades((-n) as nat);
        let d = espec_dec_nat((-n) as nat);
        let s = seq!['-'] + d;
        assert(espec_dec_i64(n) == s);
        assert forall|j: int|
            0 <= j < s.len() implies #[trigger] s[j] != '\n' && s[j] != ',' && !espec_branco(
            s[j],
        ) by {
            if j == 0 {
                assert(s[0] == '-');
            } else {
                assert(s[j] == d[j - 1]);
                assert(espec_eh_digito(d[j - 1]));
            }
        }
    } else {
        lema_dec_nat_propriedades(n as nat);
        let d = espec_dec_nat(n as nat);
        assert forall|j: int|
            0 <= j < d.len() implies #[trigger] d[j] != '\n' && d[j] != ',' && !espec_branco(
            d[j],
        ) by {
            assert(espec_eh_digito(d[j]));
        }
    }
}

/// The shape of one encoded line: trimming leaves it alone, it holds no
/// newline, and splitting it on commas yields exactly the four fields.
proof fn lema_linha_campos(p: VisaoPessoa)
    requires
        espec_registro_simples(p),
    ensures
        espec_linha_sem_nl(p).len() > 0,
        espec_aparar(espec_linha_sem_nl(p)) == espec_linha_sem_nl(p),
        forall|j: int|
            0 <= j < espec_linha_sem_nl(p).len() ==> #[trigger] espec_linha_sem_nl(p)[j] != '\n',
        espec_divide(espec_linha_sem_nl(p), ',') == seq![
            espec_dec_i64(espec_id_gravado(p.id)),
            p.nome,
            p.email,
            p.telefone,
        ],
{
    let dec = espec_dec_i64(espec_id_gravado(p.id));
    let linha = espec_linha_sem_nl(p);
    lema_dec_livre(espec_id_gravado(p.id));
    lema_escapar_simples(p.nome);
    lema_escapar_simples(p.email);
    lema_escapar_simples(p.telefone);
    assert forall|x: int| 0 <= x < p.nome.len() implies #[trigger] p.nome[x] != ',' && p.nome[x]
        != '\n' by {
        if p.nome[x] == ',' {
            assert(p.nome.contains(','));
        }
        if p.nome[x] == '\n' {
            assert(p.nome.contains('\n'));
        }
    }
    assert forall|x: int| 0 <= x < p.email.len() implies #[trigger] p.email[x] != ',' && p.email[x]
        != '\n' by {
        if p.email[x] == ',' {
            assert(p.email.contains(','));
        }
        if p.email[x] == '\n' {
            assert(p.email.contains('\n'));
        }
    }
    assert forall|x: int| 0 <= x < p.telefone.len() implies #[trigger] p.telefone[x] != ','
        && p.telefone[x] != '\n' by {
        if p.telefone[x] == ',' {
            assert(p.telefone.contains(','));
        }
        if p.telefone[x] == '\n' {
            assert(p.telefone.contains('\n'));
        }
    }
    // splitting on commas peels the four fields off in order
    let resto1 = p.nome + seq![','] + p.email + seq![','] + p.telefone;
    let resto2 = p.email + seq![','] + p.telefone;
    assert(linha =~= dec + seq![','] + resto1);
    lema_divide_concat(dec, resto1, ',');
    assert(resto1 =~= p.nome + seq![','] + resto2);
    lema_divide_concat(p.nome, resto2, ',');
    lema_divide_concat(p.email, p.telefone, ',');
    lema_divide_sem(p.telefone, ',');
    assert(espec_divide(linha, ',') =~= seq![dec, p.nome, p.email, p.telefone]);
    // no newline anywhere in the line
    assert forall|j: int| 0 <= j < linha.len() implies #[trigger] linha[j] != '\n' by {
        let n0 = dec.len() as int;
        let n1 = n0 + 1;
        let n2 = n1 + p.nome.len() as int;
        let n3 = n2 + 1;
        let n4 = n3 + p.email.len() as int;
        let n5 = n4 + 1;
        if j < n0 {
            assert(linha[j] == dec[j]);
        } else if j == n0 {
            assert(linha[j] == ',');
        } else if j < n2 {
            assert(linha[j] == p.nome[j - n1]);
        } else if j == n2 {
            assert(linha[j] == ',');
        } else if j < n4 {
            assert(linha[j] == p.email[j - n3]);
        } else if j == n4 {
            assert(linha[j] == ',');
        } else {
            assert(linha[j] == p.telefone[j - n5]);
        }
    }
    // trimming leaves the line alone: its ends are never white space
    assert(linha[0] == dec[0]);
    assert(!espec_branco(linha[0]));
    if p.telefone.len() > 0 {
        lema_aparar_pontas(p.telefone);
        assert(linha.last() == p.telefone.last());
    } else {
        assert(linha.last() == ',');
        assert(!espec_branco(','));
    }
    assert(espec_aparar(linha) == linha);
}

/// One encoded line parses back to exactly its record.
pub proof fn lema_registro_da_linha_codificada(p: VisaoPessoa)
    requires
        espec_registro_simples(p),
    ensures
        espec_registro_da_linha(espec_linha_sem_nl(p)) == seq![p],
{
    lema_linha_campos(p);
    let linha = espec_linha_sem_nl(p);
    lema_analisa_dec(p.id->0);
    lema_desescapar_simples(p.nome);
    lema_desescapar_simples(p.email);
    lema_desescapar_simples(p.telefone);
    let campos = espec_divide(linha, ',');
    assert(campos[0] == espec_dec_i64(p.id->0));
    assert(espec_analisa_i64(campos[0]) == Some(p.id->0));
    let registro = VisaoPessoa {
        id: espec_analisa_i64(campos[0]),
        nome: espec_desescapar(campos[1]),
        email: espec_desescapar(campos[2]),
        telefone: espec_desescapar(campos[3]),
    };
    assert(registro == p);
    assert(espec_registro_da_linha(linha) =~= seq![p]);
}

/// The lines of a list of records, in order, without their newlines.
pub open spec fn espec_linhas_de(rs: Seq<VisaoPessoa>) -> Seq<Seq<char>>
    decreases rs.len(),
{
    if rs.len() == 0 {
        Seq::<Seq<char>>::empty()
    } else {
        espec_linhas_de(rs.drop_last()).push(espec_linha_sem_nl(rs.last()))
    }
}

proof fn lema_linhas_frente(rs: Seq<VisaoPessoa>)
    requires
        rs.len() > 0,
    ensures
        espec_linhas_de(rs) == seq![espec_linha_sem_nl(rs[0])] + espec_linhas_de(rs.drop_first()),
    decreases rs.len(),
{
    if rs.len() == 1 {
        assert(rs.drop_last() =~= Seq::<VisaoPessoa>::empty());
        assert(rs.drop_first() =~= Seq::<VisaoPessoa>::empty());
        assert(rs.last() == rs[0]);
        assert(espec_linhas_de(rs) =~= seq![espec_linha_sem_nl(rs[0])] + espec_linhas_de(
            rs.drop_first(),
        ));
    } else {
        let dl = rs.drop_last();
        lema_linhas_frente(dl);
        assert(dl[0] == rs[0]);
        assert(dl.drop_first() =~= rs.drop_first().drop_last());
        assert(rs.drop_first().last() == rs.last());
        assert((seq![espec_linha_sem_nl(rs[0])] + espec_linhas_de(dl.drop_first())).push(
            espec_linha_sem_nl(rs.last()),
        ) =~= seq![espec_linha_sem_nl(rs[0])] + espec_linhas_de(dl.drop_first()).push(
            espec_linha_sem_nl(rs.last()),
        ));
    }
}

proof fn lema_divide_corpo(rs: Seq<VisaoPessoa>)
    requires
        forall|k: int| 0 <= k < rs.len() ==> espec_registro_simples(#[trigger] rs[k]),
    ensures
        espec_divide(espec_corpo(rs), '\n') == espec_linhas_de(rs).push(Seq::<char>::empty()),
    decreases rs.len(),
{
    if rs.len() == 0 {
        lema_divide_sem(Seq::<char>::empty(), '\n');
        assert(espec_linhas_de(rs).push(Seq::<char>::empty()) =~= seq![Seq::<char>::empty()]);
    } else {
        lema_linha_campos(rs[0]);
        let cauda = rs.drop_first();
        assert(forall|k: int| 0 <= k < cauda.len() ==> espec_registro_simples(#[trigger] cauda[k]));
        lema_divide_corpo(cauda);
        assert(espec_corpo(rs) =~= espec_linha_sem_nl(rs[0]) + seq!['\n'] + espec_corpo(cauda));
        lema_divide_concat(espec_linha_sem_nl(rs[0]), espec_corpo(cauda), '\n');
        lema_linhas_frente(rs);
        assert((seq![espec_linha_sem_nl(rs[0])] + espec_linhas_de(cauda)).push(
            Seq::<char>::empty(),
        ) =~= seq![espec_linha_sem_nl(rs[0])] + espec_linhas_de(cauda).push(Seq::<char>::empty()));
    }
}

proof fn lema_das_linhas(rs: Seq<VisaoPessoa>)
    requires
        forall|k: int| 0 <= k < rs.len() ==> espec_registro_simples(#[trigger] rs[k]),
    ensures
        espec_registros_das_linhas(espec_linhas_de(rs)) == rs,
    decreases rs.len(),
{
    if rs.len() == 0 {
        assert(espec_registros_das_linhas(espec_linhas_de(rs)) =~= rs);
    } else {
        let dl = rs.drop_last();
        assert(forall|k: int| 0 <= k < dl.len() ==> espec_registro_simples(#[trigger] dl[k]));
        lema_das_linhas(dl);
        lema_registro_da_linha_codificada(rs.last());
        assert(espec_linhas_de(rs).drop_last() =~= espec_linhas_de(dl));
        assert(espec_linhas_de(rs).last() == espec_linha_sem_nl(rs.last()));
        assert(dl + seq![rs.last()] =~= rs);
    }
}

proof fn lema_cabecalho_livre()
    ensures
        espec_cabecalho().len() > 0,
        forall|j: int|
            0 <= j < espec_cabecalho().len() ==> #[trigger] espec_cabecalho()[j] != '\n',
{
    reveal_strlit("id,nome,email,telefone");
}

/// Round trip of the whole file: rendering a list of simple records and
/// parsing the result yields the list back, record for record.
pub proof fn lema_arquivo_registros(rs: Seq<VisaoPessoa>)
    requires
        forall|k: int| 0 <= k < rs.len() ==> espec_registro_simples(#[trigger] rs[k]),
    ensures
        espec_registros(espec_arquivo(rs)) == rs,
{
    lema_cabecalho_livre();
    lema_divide_concat(espec_cabecalho(), espec_corpo(rs), '\n');
    lema_divide_corpo(rs);
    let ls = espec_divide(espec_arquivo(rs), '\n');
    assert(ls =~= seq![espec_cabecalho()] + espec_linhas_de(rs).push(Seq::<char>::empty()));
    assert(ls.drop_first() =~= espec_linhas_de(rs).push(Seq::<char>::empty()));
    let com_vazia = espec_linhas_de(rs).push(Seq::<char>::empty());
    assert(com_vazia.drop_last() =~= espec_linhas_de(rs));
    assert(com_vazia.last() == Seq::<char>::empty());
    assert(espec_aparar(Seq::<char>::empty()).len() == 0);
    assert(espec_registro_da_linha(Seq::<char>::empty()) =~= Seq::<VisaoPessoa>::empty());
    lema_das_linhas(rs);
    assert(rs + Seq::<VisaoPessoa>::empty() =~= rs);
}

/// A fresh file holds no identifier: recovery starts the counter at zero.
pub proof fn lema_ultimo_id_arquivo_vazio()
    ensures
        espec_ultimo_id(espec_arquivo(Seq::<VisaoPessoa>::empty())) == 0,
{
    lema_cabecalho_livre();
    let vazio = Seq::<char>::empty();
    assert(espec_corpo(Seq::<VisaoPessoa>::empty()) == vazio);
    lema_divide_concat(espec_cabecalho(), vazio, '\n');
    lema_divide_sem(vazio, '\n');
    let ls = espec_divide(espec_arquivo(Seq::<VisaoPessoa>::empty()), '\n');
    assert(ls =~= seq![espec_cabecalho()] + seq![vazio]);
    assert(ls.drop_first() =~= seq![vazio]);
    assert(seq![vazio].drop_last() =~= Seq::<Seq<char>>::empty());
    assert(espec_maior_id_das_linhas(Seq::<Seq<char>>::empty()) == 0);
    lema_divide_sem(vazio, ',');
    assert(espec_divide(vazio, ',')[0] == vazio);
    assert(espec_analisa_i64(vazio) is None);
    assert(espec_id_da_linha(vazio) is None);
}

/// The recovered counter bounds the identifiers on file: every parsed
/// record's identifier is at most `espec_ultimo_id` of the same contents.
pub proof fn lema_ultimo_id_cota(conteudo: Seq<char>)
    ensures
        forall|k: int|
            0 <= k < espec_registros(conteudo).len() ==> match (
            #[trigger] espec_registros(conteudo)[k]).id {
                Some(v) => v <= espec_ultimo_id(conteudo),
                None => true,
            },
{
    lema_maior_id_cota(espec_divide(conteudo, '\n').drop_first());
}

proof fn lema_maior_id_monotono(ls: Seq<Seq<char>>)
    requires
        ls.len() > 0,
    ensures
        espec_maior_id_das_linhas(ls.drop_last()) <= espec_maior_id_das_linhas(ls),
{
}

proof fn lema_maior_id_cota(ls: Seq<Seq<char>>)
    ensures
        forall|k: int|
            0 <= k < espec_registros_das_linhas(ls).len() ==> match (
            #[trigger] espec_registros_das_linhas(ls)[k]).id {
                Some(v) => v <= espec_maior_id_das_linhas(ls),
                None => true,
            },
    decreases ls.len(),
{
    if ls.len() > 0 {
        let dl = ls.drop_last();
        lema_maior_id_cota(dl);
        lema_maior_id_monotono(ls);
        let antes = espec_registros_das_linhas(dl);
        let novo = espec_registro_da_linha(ls.last());
        assert forall|k: int|
            0 <= k < espec_registros_das_linhas(ls).len() implies match (
        #[trigger] espec_registros_das_linhas(ls)[k]).id {
            Some(v) => v <= espec_maior_id_das_linhas(ls),
            None => true,
        } by {
            if k < antes.len() {
                assert(espec_registros_das_linhas(ls)[k] == antes[k]);
            } else {
                assert(espec_registros_das_linhas(ls)[k] == novo[k - antes.len()]);
                assert(novo.len() == 1);
                assert(novo[0].id == espec_id_da_linha(ls.last()));
            }
        }
    }
}

/// Appending one record's line to a rendered file renders the grown list:
/// this is what a create does to the file's contents.
pub proof fn lema_arquivo_anexa(rs: Seq<VisaoPessoa>, p: VisaoPessoa)
    ensures
        espec_arquivo(rs.push(p)) == espec_arquivo(rs) + espec_linha_de(p),
{
    lema_corpo_anexa(rs, p);
    assert(espec_cabecalho() + seq!['\n'] + (espec_corpo(rs) + espec_linha_de(p)) =~= (
    espec_cabecalho() + seq!['\n'] + espec_corpo(rs)) + espec_linha_de(p));
}

} // verus!
