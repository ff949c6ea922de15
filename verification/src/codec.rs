//! The escaping codec: the pure pair of functions that makes a text field
//! safe for one comma-delimited line, and undoes it on the way back.

use vstd::prelude::*;
use vstd::string::StrSliceExecFns;
use vstd::string::StringExecFns;

use crate::texto::anexar_char;
use crate::texto::aparar;
use crate::texto::contem_char;
use crate::texto::espec_aparar;
use crate::texto::espec_branco;

verus! {

/// A field must be wrapped in quotes when it holds a comma, a double
/// quote or a newline.
pub open spec fn espec_precisa_aspas(s: Seq<char>) -> bool {
    s.contains(',') || s.contains('"') || s.contains('\n')
}

/// Every double quote doubled, the other characters kept.
pub open spec fn espec_duplica_aspas(s: Seq<char>) -> Seq<char>
    decreases s.len(),
{
    if s.len() == 0 {
        s
    } else {
        let resto = espec_duplica_aspas(s.drop_first());
        if s[0] == '"' {
            seq!['"', '"'] + resto
        } else {
            seq![s[0]] + resto
        }
    }
}

/// Every doubled double quote collapsed to one, scanning left to right.
pub open spec fn espec_colapsa_aspas(s: Seq<char>) -> Seq<char>
    decreases s.len(),
{
    if s.len() == 0 {
        s
    } else if s.len() >= 2 && s[0] == '"' && s[1] == '"' {
        seq!['"'] + espec_colapsa_aspas(s.skip(2))
    } else {
        seq![s[0]] + espec_colapsa_aspas(s.drop_first())
    }
}

/// A field that needs quoting is wrapped in double quotes with its inner
/// quotes doubled; any other field passes unchanged.
pub open spec fn espec_escapar(s: Seq<char>) -> Seq<char> {
    if espec_precisa_aspas(s) {
        seq!['"'] + espec_duplica_aspas(s) + seq!['"']
    } else {
        s
    }
}

/// The field is trimmed; when the trimmed text is wrapped in double quotes
/// the wrapping pair is stripped and doubled quotes collapse to one.
/// A lone double quote has no pair to strip and stays as it is.
pub open spec fn espec_desescapar(s: Seq<char>) -> Seq<char> {
    let t = espec_aparar(s);
    if t.len() >= 2 && t[0] == '"' && t.last() == '"' {
        espec_colapsa_aspas(t.subrange(1, t.len() - 1))
    } else {
        t
    }
}

/// A field the codec passes through untouched in both directions: free of
/// the delimiter characters and of edge white space.
pub open spec fn espec_campo_simples(s: Seq<char>) -> bool {
    !s.contains(',') && !s.contains('"') && !s.contains('\n') && espec_aparar(s) == s
}

proof fn lema_duplica_anexa(s: Seq<char>, c: char)
    ensures
        espec_duplica_aspas(s.push(c)) == espec_duplica_aspas(s) + (if c == '"' {
            seq!['"', '"']
        } else {
            seq![c]
        }),
    decreases s.len(),
{
    let cauda = if c == '"' {
        seq!['"', '"']
    } else {
        seq![c]
    };
    if s.len() == 0 {
        assert(s.push(c)[0] == c);
        assert(s.push(c).drop_first() =~= Seq::<char>::empty());
        assert(espec_duplica_aspas(Seq::<char>::empty()) =~= Seq::<char>::empty());
        assert(espec_duplica_aspas(s.push(c)) =~= cauda);
        assert(espec_duplica_aspas(s) + cauda =~= cauda);
    } else {
        assert(s.push(c)[0] == s[0]);
        assert(s.push(c).drop_first() =~= s.drop_first().push(c));
        lema_duplica_anexa(s.drop_first(), c);
        let resto = espec_duplica_aspas(s.drop_first());
        if s[0] == '"' {
            assert(seq!['"', '"'] + (resto + cauda) =~= (seq!['"', '"'] + resto) + cauda);
        } else {
            assert(seq![s[0]] + (resto + cauda) =~= (seq![s[0]] + resto) + cauda);
        }
    }
}

pub fn escapar_csv(s: &str) -> (r: String)
    ensures
        r@ == espec_escapar(s@),
{
    let precisa = contem_char(s, ',') || contem_char(s, '"') || contem_char(s, '\n');
    if !precisa {
        return String::from_str(s);
    }
    let n: usize = s.unicode_len();
    let mut r = String::new();
    anexar_char(&mut r, '"');
    proof {
        assert(s@.subrange(0, 0) =~= Seq::<char>::empty());
        assert(r@ =~= seq!['"'] + espec_duplica_aspas(s@.subrange(0, 0)));
    }
    let mut i: usize = 0;
    while i < n
        invariant
            i <= n,
            n == s@.len(),
            r@ == seq!['"'] + espec_duplica_aspas(s@.subrange(0, i as int)),
        decreases n - i,
    {
        let c = s.get_char(i);
        let ghost prefixo = s@.subrange(0, i as int);
        if c == '"' {
            anexar_char(&mut r, '"');
            anexar_char(&mut r, '"');
        } else {
            anexar_char(&mut r, c);
        }
        proof {
            lema_duplica_anexa(prefixo, c);
            assert(s@.subrange(0, i as int + 1) =~= prefixo.push(c));
            if c == '"' {
                assert(r@ =~= seq!['"'] + (espec_duplica_aspas(prefixo) + seq!['"', '"']));
            } else {
                assert(r@ =~= seq!['"'] + (espec_duplica_aspas(prefixo) + seq![c]));
            }
        }
        i = i + 1;
    }
    anexar_char(&mut r, '"');
    proof {
        assert(s@.subrange(0, n as int) =~= s@);
        assert(r@ =~= seq!['"'] + espec_duplica_aspas(s@) + seq!['"']);
    }
    r
}

pub fn desescapar_csv(s: &str) -> (r: String)
    ensures
        r@ == espec_desescapar(s@),
{
    let t = aparar(s);
    let n: usize = t.as_str().unicode_len();
    if n >= 2 && t.as_str().get_char(0) == '"' && t.as_str().get_char(n - 1) == '"' {
        let ghost interno = t@.subrange(1, n as int - 1);
        let mut r = String::new();
        let mut i: usize = 1;
        proof {
            assert(interno.skip(0) =~= interno);
            assert(r@ + espec_colapsa_aspas(interno.skip(0)) =~= espec_colapsa_aspas(interno));
        }
        while i < n - 1
            invariant
                1 <= i <= n - 1,
                n == t@.len(),
                n >= 2,
                interno == t@.subrange(1, n as int - 1),
                espec_colapsa_aspas(interno) == r@ + espec_colapsa_aspas(
                    interno.skip(i as int - 1),
                ),
            decreases n - i,
        {
            let c = t.as_str().get_char(i);
            let ghost resto = interno.skip(i as int - 1);
            proof {
                assert(resto[0] == t@[i as int]);
            }
            if c == '"' && i + 1 < n - 1 && t.as_str().get_char(i + 1) == '"' {
                anexar_char(&mut r, '"');
                proof {
                    assert(resto[1] == t@[i as int + 1]);
                    assert(resto.skip(2) =~= interno.skip(i as int + 1));
                }
                i = i + 2;
            } else {
                anexar_char(&mut r, c);
                proof {
                    if resto.len() >= 2 {
                        assert(resto[1] == t@[i as int + 1]);
                    }
                    assert(resto.drop_first() =~= interno.skip(i as int));
                }
                i = i + 1;
            }
        }
        proof {
            assert(interno.skip(n as int - 2) =~= Seq::<char>::empty());
        }
        r
    } else {
        proof {
            if n >= 2 {
                assert(t@.last() == t@[n as int - 1]);
            }
        }
        t
    }
}

/// A simple field needs no quoting: the escape passes it through.
pub proof fn lema_escapar_simples(s: Seq<char>)
    requires
        espec_campo_simples(s),
    ensures
        espec_escapar(s) == s,
{
}

/// A simple field comes back from the unescape unchanged too.
pub proof fn lema_desescapar_simples(s: Seq<char>)
    requires
        espec_campo_simples(s),
    ensures
        espec_desescapar(s) == s,
{
    let t = espec_aparar(s);
    assert(t == s);
    if t.len() >= 2 && t[0] == '"' && t.last() == '"' {
        assert(s.contains('"'));
    }
}

/// The collapse undoes the doubling exactly.
proof fn lema_colapsa_duplica(s: Seq<char>)
    ensures
        espec_colapsa_aspas(espec_duplica_aspas(s)) == s,
    decreases s.len(),
{
    if s.len() == 0 {
    } else {
        lema_colapsa_duplica(s.drop_first());
        let resto = espec_duplica_aspas(s.drop_first());
        if s[0] == '"' {
            let d = seq!['"', '"'] + resto;
            assert(d.len() >= 2 && d[0] == '"' && d[1] == '"');
            assert(d.skip(2) =~= resto);
            assert(seq!['"'] + s.drop_first() =~= s);
        } else {
            let d = seq![s[0]] + resto;
            assert(d[0] == s[0]);
            assert(d.drop_first() =~= resto);
            assert(seq![s[0]] + s.drop_first() =~= s);
        }
    }
}

/// Round trip: a field without edge white space comes back from the codec
/// exactly as it went in, whatever delimiters it holds inside.
pub proof fn lema_ida_e_volta(campo: Seq<char>)
    requires
        espec_aparar(campo) == campo,
    ensures
        espec_desescapar(espec_escapar(campo)) == campo,
{
    if espec_precisa_aspas(campo) {
        let e = seq!['"'] + espec_duplica_aspas(campo) + seq!['"'];
        assert(e[0] == '"');
        assert(e.last() == '"');
        assert(e.len() >= 2);
        assert(!espec_branco('"'));
        assert(espec_aparar(e) == e);
        assert(e.subrange(1, e.len() - 1) =~= espec_duplica_aspas(campo));
        lema_colapsa_duplica(campo);
    } else {
        let t = espec_aparar(espec_escapar(campo));
        assert(t == campo);
        if t.len() >= 2 && t[0] == '"' && t.last() == '"' {
            assert(campo.contains('"'));
        }
    }
}

} // verus!
