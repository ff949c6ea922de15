//! The person record: identity, required text fields, validation rules and
//! the small free helpers of the namespace.

use vstd::prelude::*;
use vstd::string::StrSliceExecFns;
use vstd::string::StringExecFns;

use crate::texto::anexar_char;
use crate::texto::aparar;
use crate::texto::contem_char;
use crate::texto::eh_digito;
use crate::texto::espec_aparar;
use crate::texto::espec_dec_i64;
use crate::texto::espec_eh_digito;
use crate::texto::inteiro_para_texto;

verus! {

/// The error kinds of the library. Input and output failures belong to the
/// host and are not among them.
#[derive(Clone, Copy, PartialEq, Eq, Structural, Debug)]
pub enum Erro {
    /// Invalid construction input: a blank file path.
    Config,
    /// A record broke a field rule.
    Validacao,
    /// An update or delete named an identifier absent from storage.
    NaoEncontrado,
}

/// Marker for entities that can be persisted; it carries no behaviour.
pub struct InterfacePersistivel;

/// Common base of the entities: the optional identifier.
#[derive(Clone, Copy, Debug)]
pub struct EntidadeBase {
    pub id: Option<i64>,
}

impl EntidadeBase {
    pub fn nova() -> (r: EntidadeBase)
        ensures
            r.id is None,
    {
        EntidadeBase { id: None }
    }

    pub fn obter_id(&self) -> (r: Option<i64>)
        ensures
            r == self.id,
    {
        self.id
    }

    pub fn definir_id(&mut self, id: i64)
        ensures
            final(self).id == Some(id),
    {
        self.id = Some(id);
    }

    pub fn esta_persistida(&self) -> (r: bool)
        ensures
            r == (self.id is Some),
    {
        self.id.is_some()
    }
}

/// The mathematical shape of a person record: the identifier and the three
/// text fields as plain sequences.
pub ghost struct VisaoPessoa {
    pub id: Option<int>,
    pub nome: Seq<char>,
    pub email: Seq<char>,
    pub telefone: Seq<char>,
}

/// A person with a name, an email address and a phone number.
#[derive(Debug)]
pub struct Pessoa {
    pub id: Option<i64>,
    pub nome: String,
    pub email: String,
    pub telefone: String,
}

impl Clone for Pessoa {
    fn clone(&self) -> (r: Pessoa)
        ensures
            r == *self,
    {
        Pessoa {
            id: self.id,
            nome: self.nome.clone(),
            email: self.email.clone(),
            telefone: self.telefone.clone(),
        }
    }
}

impl View for Pessoa {
    type V = VisaoPessoa;

    open spec fn view(&self) -> VisaoPessoa {
        VisaoPessoa {
            id: match self.id {
                Some(i) => Some(i as int),
                None => None,
            },
            nome: self.nome@,
            email: self.email@,
            telefone: self.telefone@,
        }
    }
}

/// The field rules: a non-blank name, a non-blank email holding an `@`,
/// and a non-blank phone.
pub open spec fn espec_pessoa_valida(p: VisaoPessoa) -> bool {
    espec_aparar(p.nome).len() > 0 && espec_aparar(p.email).len() > 0 && p.email.contains('@')
        && espec_aparar(p.telefone).len() > 0
}

impl Pessoa {
    /// A record starts with no identifier: it has never been persisted.
    pub fn nova(nome: String, email: String, telefone: String) -> (r: Pessoa)
        ensures
            r.id is None,
            r.nome == nome,
            r.email == email,
            r.telefone == telefone,
    {
        Pessoa { id: None, nome, email, telefone }
    }

    pub fn obter_nome(&self) -> (r: String)
        ensures
            r == self.nome,
    {
        self.nome.clone()
    }

    pub fn definir_nome(&mut self, nome: String)
        ensures
            *final(self) == (Pessoa { nome, ..*old(self) }),
    {
        self.nome = nome;
    }

    pub fn obter_email(&self) -> (r: String)
        ensures
            r == self.email,
    {
        self.email.clone()
    }

    /// Replaces the email only when the new value holds an `@`; this check
    /// is deliberately looser than `validar`, which also rejects blank text.
    pub fn definir_email(&mut self, email: String) -> (r: Result<(), Erro>)
        ensures
            email@.contains('@') ==> r is Ok && *final(self) == (Pessoa { email, ..*old(self) }),
            !email@.contains('@') ==> r == Err::<(), Erro>(Erro::Validacao) && *final(self) == *old(self),
    {
        if !contem_char(email.as_str(), '@') {
            return Err(Erro::Validacao);
        }
        self.email = email;
        Ok(())
    }

    pub fn obter_telefone(&self) -> (r: String)
        ensures
            r == self.telefone,
    {
        self.telefone.clone()
    }

    pub fn definir_telefone(&mut self, telefone: String)
        ensures
            *final(self) == (Pessoa { telefone, ..*old(self) }),
    {
        self.telefone = telefone;
    }

    pub fn obter_id(&self) -> (r: Option<i64>)
        ensures
            r == self.id,
    {
        self.id
    }

    pub fn definir_id(&mut self, id: i64)
        ensures
            *final(self) == (Pessoa { id: Some(id), ..*old(self) }),
    {
        self.id = Some(id);
    }

    /// The record as labelled pairs, in field order; an absent identifier
    /// shows as `0`.
    pub fn para_array(&self) -> (r: Vec<(String, String)>)
        ensures
            r@.len() == 4,
            r@[0].0@ == "id"@ && r@[0].1@ == espec_dec_i64(
                match self.id {
                    Some(i) => i as int,
                    None => 0,
                },
            ),
            r@[1].0@ == "nome"@ && r@[1].1 == self.nome,
            r@[2].0@ == "email"@ && r@[2].1 == self.email,
            r@[3].0@ == "telefone"@ && r@[3].1 == self.telefone,
    {
        let id_num: i64 = match self.id {
            Some(i) => i,
            None => 0,
        };
        let mut r: Vec<(String, String)> = Vec::new();
        r.push((String::from_str("id"), inteiro_para_texto(id_num)));
        r.push((String::from_str("nome"), self.nome.clone()));
        r.push((String::from_str("email"), self.email.clone()));
        r.push((String::from_str("telefone"), self.telefone.clone()));
        r
    }

    /// Checks the field rules; says yes or names the broken rule.
    pub fn validar(&self) -> (r: Result<bool, Erro>)
        ensures
            r is Ok <==> espec_pessoa_valida(self@),
            r is Ok ==> r == Ok::<bool, Erro>(true),
            r is Err ==> r == Err::<bool, Erro>(Erro::Validacao),
    {
        let nome_aparado = aparar(self.nome.as_str());
        if nome_aparado.as_str().is_empty() {
            return Err(Erro::Validacao);
        }
        let email_aparado = aparar(self.email.as_str());
        if email_aparado.as_str().is_empty() || !contem_char(self.email.as_str(), '@') {
            return Err(Erro::Validacao);
        }
        let telefone_aparado = aparar(self.telefone.as_str());
        if telefone_aparado.as_str().is_empty() {
            return Err(Erro::Validacao);
        }
        Ok(true)
    }

    /// The record as one readable line; an absent identifier shows as
    /// `null`.
    pub fn para_texto(&self) -> (r: String)
        ensures
            r@ == "Pessoa[id="@ + espec_texto_id(self@.id, "null"@) + ", nome="@ + self.nome@
                + ", email="@ + self.email@ + ", telefone="@ + self.telefone@ + "]"@,
    {
        let mut r = String::from_str("Pessoa[id=");
        let id_txt = texto_id(self.id, "null");
        r.append(id_txt.as_str());
        r.append(", nome=");
        r.append(self.nome.as_str());
        r.append(", email=");
        r.append(self.email.as_str());
        r.append(", telefone=");
        r.append(self.telefone.as_str());
        r.append("]");
        r
    }
}

/// The identifier in decimal, or the given placeholder when absent.
pub open spec fn espec_texto_id(id: Option<int>, ausente: Seq<char>) -> Seq<char> {
    match id {
        Some(i) => espec_dec_i64(i),
        None => ausente,
    }
}

fn texto_id(id: Option<i64>, ausente: &str) -> (r: String)
    ensures
        r@ == espec_texto_id(
            match id {
                Some(i) => Some(i as int),
                None => None,
            },
            ausente@,
        ),
{
    match id {
        Some(i) => inteiro_para_texto(i),
        None => String::from_str(ausente),
    }
}

/// The digits of the input, in order, everything else removed.
pub open spec fn espec_so_digitos(s: Seq<char>) -> Seq<char>
    decreases s.len(),
{
    if s.len() == 0 {
        s
    } else {
        let resto = espec_so_digitos(s.drop_last());
        if espec_eh_digito(s.last()) {
            resto.push(s.last())
        } else {
            resto
        }
    }
}

/// Strips a phone number down to its digits.
pub fn formatar_telefone(telefone: String) -> (r: String)
    ensures
        r@ == espec_so_digitos(telefone@),
{
    let n: usize = telefone.as_str().unicode_len();
    let mut r = String::new();
    proof {
        assert(telefone@.subrange(0, 0) =~= Seq::<char>::empty());
    }
    let mut i: usize = 0;
    while i < n
        invariant
            i <= n,
            n == telefone@.len(),
            r@ == espec_so_digitos(telefone@.subrange(0, i as int)),
        decreases n - i,
    {
        let c = telefone.as_str().get_char(i);
        proof {
            assert(telefone@.subrange(0, i as int + 1).drop_last() =~= telefone@.subrange(
                0,
                i as int,
            ));
            assert(telefone@.subrange(0, i as int + 1).last() == c);
        }
        if eh_digito(c) {
            anexar_char(&mut r, c);
        }
        i = i + 1;
    }
    proof {
        assert(telefone@.subrange(0, n as int) =~= telefone@);
    }
    r
}

/// A loose well-formedness test for an email address: an `@`, a dot, and
/// more than five bytes in all.
pub fn validar_email(email: String) -> (r: bool)
    ensures
        r == (email@.contains('@') && email@.contains('.') && vstd::utf8::encode_utf8(email@).len()
            > 5),
{
    contem_char(email.as_str(), '@') && contem_char(email.as_str(), '.')
        && email.as_str().as_bytes().len() > 5
}

/// One-line summary of a record; an absent identifier shows as `N/A`.
pub fn resumo_pessoa(pessoa: &Pessoa) -> (r: String)
    ensures
        r@ == "ID: "@ + espec_texto_id(pessoa@.id, "N/A"@) + " | Nome: "@ + pessoa.nome@
            + " | Email: "@ + pessoa.email@ + " | Tel: "@ + pessoa.telefone@,
{
    let mut r = String::from_str("ID: ");
    let id_txt = texto_id(pessoa.id, "N/A");
    r.append(id_txt.as_str());
    r.append(" | Nome: ");
    r.append(pessoa.nome.as_str());
    r.append(" | Email: ");
    r.append(pessoa.email.as_str());
    r.append(" | Tel: ");
    r.append(pessoa.telefone.as_str());
    r
}

} // verus!
