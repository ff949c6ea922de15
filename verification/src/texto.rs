//! Verified text utilities: character classes, trimming, splitting on a
//! separator, substring search, and decimal conversion of identifiers.

use vstd::prelude::*;
use vstd::string::StrSliceExecFns;
use vstd::string::StringExecFns;

verus! {

// ---------------------------------------------------------------------------
// Character classes
// ---------------------------------------------------------------------------

/// The characters with the Unicode `White_Space` property, the set that
/// `str::trim` removes at both ends.
pub open spec fn espec_branco(c: char) -> bool {
    let u = c as u32;
    ||| u == 0x20
    ||| (0x09 <= u && u <= 0x0D)
    ||| u == 0x85
    ||| u == 0xA0
    ||| u == 0x1680
    ||| (0x2000 <= u && u <= 0x200A)
    ||| u == 0x2028
    ||| u == 0x2029
    ||| u == 0x202F
    ||| u == 0x205F
    ||| u == 0x3000
}

pub fn eh_branco(c: char) -> (r: bool)
    ensures
        r == espec_branco(c),
{
    let u: u32 = c as u32;
    u == 0x20 || (0x09 <= u && u <= 0x0D) || u == 0x85 || u == 0xA0 || u == 0x1680 || (0x2000 <= u
        && u <= 0x200A) || u == 0x2028 || u == 0x2029 || u == 0x202F || u == 0x205F || u == 0x3000
}

pub open spec fn espec_eh_digito(c: char) -> bool {
    48 <= c as u32 && c as u32 <= 57
}

/// The numeric value of a decimal digit character.
pub open spec fn espec_digito(c: char) -> int {
    c as u32 - 48
}

pub fn eh_digito(c: char) -> (r: bool)
    ensures
        r == espec_eh_digito(c),
{
    let u: u32 = c as u32;
    48 <= u && u <= 57
}

pub open spec fn espec_char_digito(d: int) -> char {
    if d == 0 {
        '0'
    } else if d == 1 {
        '1'
    } else if d == 2 {
        '2'
    } else if d == 3 {
        '3'
    } else if d == 4 {
        '4'
    } else if d == 5 {
        '5'
    } else if d == 6 {
        '6'
    } else if d == 7 {
        '7'
    } else if d == 8 {
        '8'
    } else {
        '9'
    }
}

fn char_digito(d: u64) -> (c: char)
    requires
        d < 10,
    ensures
        c == espec_char_digito(d as int),
{
    if d == 0 {
        '0'
    } else if d == 1 {
        '1'
    } else if d == 2 {
        '2'
    } else if d == 3 {
        '3'
    } else if d == 4 {
        '4'
    } else if d == 5 {
        '5'
    } else if d == 6 {
        '6'
    } else if d == 7 {
        '7'
    } else if d == 8 {
        '8'
    } else {
        '9'
    }
}

// ---------------------------------------------------------------------------
// Trusted wrappers around std string operations that vstd does not specify
// ---------------------------------------------------------------------------

/// Relies on String::push: appends exactly the one character.
#[verifier::external_body]
pub(crate) fn anexar_char(s: &mut String, c: char)
    ensures
        final(s)@ == old(s)@.push(c),
{
    s.push(c);
}

/// The lowercase form of a character sequence, as `str::to_lowercase`
/// computes it; it depends on the characters alone.
pub uninterp spec fn espec_minusculas(s: Seq<char>) -> Seq<char>;

/// Relies on str::to_lowercase: the result is a pure function of the
/// characters of the input.
#[verifier::external_body]
pub(crate) fn minusculas(s: &str) -> (r: String)
    ensures
        r@ == espec_minusculas(s@),
{
    s.to_lowercase()
}

// ---------------------------------------------------------------------------
// Trimming
// ---------------------------------------------------------------------------

/// The input with every leading and trailing white-space character removed.
pub open spec fn espec_aparar(s: Seq<char>) -> Seq<char>
    decreases s.len(),
{
    if s.len() == 0 {
        s
    } else if espec_branco(s[0]) {
        espec_aparar(s.drop_first())
    } else if espec_branco(s.last()) {
        espec_aparar(s.drop_last())
    } else {
        s
    }
}

pub proof fn lema_aparar_len(s: Seq<char>)
    ensures
        espec_aparar(s).len() <= s.len(),
    decreases s.len(),
{
    if s.len() == 0 {
    } else if espec_branco(s[0]) {
        lema_aparar_len(s.drop_first());
    } else if espec_branco(s.last()) {
        lema_aparar_len(s.drop_last());
    }
}

/// A text that trimming leaves alone neither starts nor ends with white
/// space.
pub proof fn lema_aparar_pontas(s: Seq<char>)
    requires
        espec_aparar(s) == s,
        s.len() > 0,
    ensures
        !espec_branco(s[0]),
        !espec_branco(s.last()),
{
    if espec_branco(s[0]) {
        lema_aparar_len(s.drop_first());
        assert(false);
    }
    if espec_branco(s.last()) {
        lema_aparar_len(s.drop_last());
        assert(false);
    }
}

pub fn aparar(s: &str) -> (r: String)
    ensures
        r@ == espec_aparar(s@),
{
    let n: usize = s.unicode_len();
    proof {
        assert(s@.subrange(0, n as int) =~= s@);
    }
    let mut a: usize = 0;
    while a < n && eh_branco(s.get_char(a))
        invariant
            a <= n,
            n == s@.len(),
            espec_aparar(s@) == espec_aparar(s@.subrange(a as int, n as int)),
        decreases n - a,
    {
        proof {
            let resto = s@.subrange(a as int, n as int);
            assert(resto[0] == s@[a as int]);
            assert(resto.drop_first() =~= s@.subrange(a as int + 1, n as int));
        }
        a = a + 1;
    }
    if a == n {
        proof {
            assert(s@.subrange(a as int, n as int) =~= Seq::<char>::empty());
        }
        return String::new();
    }
    let mut b: usize = n;
    while b > a && eh_branco(s.get_char(b - 1))
        invariant
            a < b <= n,
            n == s@.len(),
            !espec_branco(s@[a as int]),
            espec_aparar(s@) == espec_aparar(s@.subrange(a as int, b as int)),
        decreases b,
    {
        proof {
            let resto = s@.subrange(a as int, b as int);
            assert(resto[0] == s@[a as int]);
            assert(resto.last() == s@[b as int - 1]);
            assert(resto.drop_last() =~= s@.subrange(a as int, b as int - 1));
        }
        b = b - 1;
    }
    let r = s.substring_char(a, b);
    proof {
        let nucleo = s@.subrange(a as int, b as int);
        assert(nucleo[0] == s@[a as int]);
        assert(nucleo.last() == s@[b as int - 1]);
    }
    String::from_str(r)
}

// ---------------------------------------------------------------------------
// Splitting on a separator character
// ---------------------------------------------------------------------------

/// Index of the first occurrence of `sep` in `s`, or `-1` when absent.
pub open spec fn espec_indice_sep(s: Seq<char>, sep: char) -> int
    decreases s.len(),
{
    if s.len() == 0 {
        -1
    } else if s[0] == sep {
        0
    } else {
        let r = espec_indice_sep(s.drop_first(), sep);
        if r < 0 {
            -1
        } else {
            r + 1
        }
    }
}

pub proof fn lema_indice_sep(s: Seq<char>, sep: char)
    ensures
        espec_indice_sep(s, sep) == -1 ==> (forall|j: int| 0 <= j < s.len() ==> s[j] != sep),
        espec_indice_sep(s, sep) != -1 ==> 0 <= espec_indice_sep(s, sep) < s.len()
            && s[espec_indice_sep(s, sep)] == sep && (forall|j: int|
            0 <= j < espec_indice_sep(s, sep) ==> s[j] != sep),
    decreases s.len(),
{
    if s.len() == 0 {
    } else if s[0] == sep {
    } else {
        let sd = s.drop_first();
        lema_indice_sep(sd, sep);
        let r = espec_indice_sep(sd, sep);
        if r == -1 {
            assert(espec_indice_sep(s, sep) == -1);
            assert forall|j: int| 0 <= j < s.len() implies s[j] != sep by {
                if j >= 1 {
                    assert(sd[j - 1] == s[j]);
                    assert(sd[j - 1] != sep);
                }
            }
        } else {
            assert(espec_indice_sep(s, sep) == r + 1);
            assert(s[r + 1] == sd[r]);
            assert forall|j: int| 0 <= j < r + 1 implies s[j] != sep by {
                if j >= 1 {
                    assert(sd[j - 1] == s[j]);
                    assert(sd[j - 1] != sep);
                }
            }
        }
    }
}

/// The pieces of `s` between occurrences of `sep`, in order; one more piece
/// than there are separators, and empty pieces are kept.
pub open spec fn espec_divide(s: Seq<char>, sep: char) -> Seq<Seq<char>>
    decreases s.len(),
{
    let i = espec_indice_sep(s, sep);
    if 0 <= i && i < s.len() {
        seq![s.subrange(0, i)] + espec_divide(s.subrange(i + 1, s.len() as int), sep)
    } else {
        seq![s]
    }
}

/// When the first `sep` of `s` stands at `k`, the first piece is `s[..k]`
/// and the rest divides `s[k+1..]`.
pub proof fn lema_divide_em(s: Seq<char>, sep: char, k: int)
    requires
        0 <= k < s.len(),
        s[k] == sep,
        forall|j: int| 0 <= j < k ==> s[j] != sep,
    ensures
        espec_divide(s, sep) == seq![s.subrange(0, k)] + espec_divide(
            s.subrange(k + 1, s.len() as int),
            sep,
        ),
{
    lema_indice_sep(s, sep);
    let i = espec_indice_sep(s, sep);
    assert(i != -1);
    assert(i == k);
}

/// A separator-free text divides into the one piece that it is.
pub proof fn lema_divide_sem(s: Seq<char>, sep: char)
    requires
        forall|j: int| 0 <= j < s.len() ==> s[j] != sep,
    ensures
        espec_divide(s, sep) == seq![s],
{
    lema_indice_sep(s, sep);
}

/// Dividing `a + sep + resto` cuts `a` off first when `a` is free of the
/// separator.
pub proof fn lema_divide_concat(a: Seq<char>, resto: Seq<char>, sep: char)
    requires
        forall|j: int| 0 <= j < a.len() ==> a[j] != sep,
    ensures
        espec_divide(a + seq![sep] + resto, sep) == seq![a] + espec_divide(resto, sep),
{
    let s = a + seq![sep] + resto;
    let k = a.len() as int;
    assert(s[k] == sep);
    assert(forall|j: int| 0 <= j < k ==> s[j] == a[j]);
    lema_divide_em(s, sep, k);
    assert(s.subrange(0, k) =~= a);
    assert(s.subrange(k + 1, s.len() as int) =~= resto);
}

pub fn dividir(s: &str, sep: char) -> (r: Vec<String>)
    ensures
        r.deep_view() == espec_divide(s@, sep),
{
    let n: usize = s.unicode_len();
    let mut r: Vec<String> = Vec::new();
    let mut inicio: usize = 0;
    let mut i: usize = 0;
    proof {
        assert(s@.subrange(0, n as int) =~= s@);
        assert(r.deep_view() =~= Seq::<Seq<char>>::empty());
    }
    while i < n
        invariant
            inicio <= i <= n,
            n == s@.len(),
            forall|j: int| inicio <= j < i ==> s@[j] != sep,
            espec_divide(s@, sep) == r.deep_view() + espec_divide(
                s@.subrange(inicio as int, n as int),
                sep,
            ),
        decreases n - i,
    {
        if s.get_char(i) == sep {
            let pedaco = String::from_str(s.substring_char(inicio, i));
            let ghost r_antes = r.deep_view();
            r.push(pedaco);
            proof {
                let resto = s@.subrange(inicio as int, n as int);
                let k = i - inicio as int;
                assert(resto[k] == s@[i as int]);
                assert(forall|j: int| 0 <= j < k ==> resto[j] == s@[j + inicio]);
                lema_divide_em(resto, sep, k);
                assert(resto.subrange(0, k) =~= s@.subrange(inicio as int, i as int));
                assert(resto.subrange(k + 1, resto.len() as int) =~= s@.subrange(
                    i as int + 1,
                    n as int,
                ));
                assert(r.deep_view() =~= r_antes.push(pedaco@));
                assert(r_antes + (seq![pedaco@] + espec_divide(
                    s@.subrange(i as int + 1, n as int),
                    sep,
                )) =~= r.deep_view() + espec_divide(s@.subrange(i as int + 1, n as int), sep));
            }
            inicio = i + 1;
        }
        i = i + 1;
    }
    let pedaco = String::from_str(s.substring_char(inicio, n));
    let ghost r_antes = r.deep_view();
    r.push(pedaco);
    proof {
        let resto = s@.subrange(inicio as int, n as int);
        assert(forall|j: int| 0 <= j < resto.len() ==> resto[j] == s@[j + inicio]);
        lema_divide_sem(resto, sep);
        assert(r.deep_view() =~= r_antes.push(pedaco@));
        assert(r_antes + seq![resto] =~= r.deep_view());
    }
    r
}

// ---------------------------------------------------------------------------
// Character and substring search
// ---------------------------------------------------------------------------

pub fn contem_char(s: &str, c: char) -> (r: bool)
    ensures
        r == s@.contains(c),
{
    let n: usize = s.unicode_len();
    let mut i: usize = 0;
    while i < n
        invariant
            i <= n,
            n == s@.len(),
            forall|j: int| 0 <= j < i ==> s@[j] != c,
        decreases n - i,
    {
        if s.get_char(i) == c {
            proof {
                assert(s@[i as int] == c);
            }
            return true;
        }
        i = i + 1;
    }
    false
}

/// Whether `agulha` occurs contiguously somewhere in `s`.
pub open spec fn espec_contem(s: Seq<char>, agulha: Seq<char>) -> bool {
    exists|i: int|
        0 <= i && i + agulha.len() <= s.len() && #[trigger] s.subrange(i, i + agulha.len() as int)
            == agulha
}

fn casa_em(s: &str, i: usize, agulha: &str) -> (r: bool)
    requires
        i + agulha@.len() <= s@.len(),
    ensures
        r == (s@.subrange(i as int, i as int + agulha@.len() as int) == agulha@),
{
    let n: usize = s.unicode_len();
    let m: usize = agulha.unicode_len();
    let mut j: usize = 0;
    while j < m
        invariant
            j <= m,
            n == s@.len(),
            m == agulha@.len(),
            i + m <= n,
            forall|k: int| 0 <= k < j ==> s@[i + k] == agulha@[k],
        decreases m - j,
    {
        if s.get_char(i + j) != agulha.get_char(j) {
            proof {
                assert(s@.subrange(i as int, i as int + m as int)[j as int] == s@[i + j]);
            }
            return false;
        }
        j = j + 1;
    }
    proof {
        assert(s@.subrange(i as int, i as int + m as int) =~= agulha@);
    }
    true
}

pub fn contem_sub(s: &str, agulha: &str) -> (r: bool)
    ensures
        r == espec_contem(s@, agulha@),
{
    let n: usize = s.unicode_len();
    let m: usize = agulha.unicode_len();
    if m > n {
        return false;
    }
    if m == 0 {
        proof {
            assert(s@.subrange(0, 0 + agulha@.len() as int) =~= agulha@);
            assert(0 <= 0int && 0int + agulha@.len() <= s@.len() && s@.subrange(
                0,
                0 + agulha@.len() as int,
            ) == agulha@);
            assert(espec_contem(s@, agulha@));
        }
        return true;
    }
    let mut i: usize = 0;
    while i <= n - m
        invariant
            1 <= m <= n,
            n == s@.len(),
            m == agulha@.len(),
            i <= n - m + 1,
            forall|k: int| 0 <= k < i ==> #[trigger] s@.subrange(k, k + m as int) != agulha@,
        decreases n - i,
    {
        if casa_em(s, i, agulha) {
            proof {
                let ti = i as int;
                assert(0 <= ti && ti + agulha@.len() <= s@.len() && s@.subrange(
                    ti,
                    ti + agulha@.len() as int,
                ) == agulha@);
                assert(espec_contem(s@, agulha@));
            }
            return true;
        }
        i = i + 1;
    }
    false
}

// ---------------------------------------------------------------------------
// Decimal rendering of identifiers
// ---------------------------------------------------------------------------

/// The decimal digits of `n`, most significant first.
pub open spec fn espec_dec_nat(n: nat) -> Seq<char>
    decreases n,
{
    if n < 10 {
        seq![espec_char_digito(n as int)]
    } else {
        espec_dec_nat(n / 10).push(espec_char_digito((n % 10) as int))
    }
}

/// The decimal form of a signed integer, with a leading `-` when negative.
pub open spec fn espec_dec_i64(n: int) -> Seq<char> {
    if n < 0 {
        seq!['-'] + espec_dec_nat((-n) as nat)
    } else {
        espec_dec_nat(n as nat)
    }
}

fn dec_nat(n: u64) -> (r: String)
    ensures
        r@ == espec_dec_nat(n as nat),
    decreases n,
{
    if n < 10 {
        let mut s = String::new();
        anexar_char(&mut s, char_digito(n));
        proof {
            assert(Seq::<char>::empty().push(espec_char_digito(n as int)) =~= seq![
                espec_char_digito(n as int),
            ]);
        }
        s
    } else {
        let mut s = dec_nat(n / 10);
        anexar_char(&mut s, char_digito(n % 10));
        s
    }
}

pub fn inteiro_para_texto(n: i64) -> (r: String)
    ensures
        r@ == espec_dec_i64(n as int),
{
    if n < 0 {
        let mag: u64 = ((-(n + 1)) as u64) + 1;
        proof {
            assert(mag as int == -(n as int));
        }
        let mut s = String::from_str("-");
        let d = dec_nat(mag);
        s.append(d.as_str());
        proof {
            reveal_strlit("-");
            assert("-"@ =~= seq!['-']);
        }
        s
    } else {
        dec_nat(n as u64)
    }
}

// ---------------------------------------------------------------------------
// Decimal parsing of identifiers
// ---------------------------------------------------------------------------

pub open spec fn espec_todos_digitos(s: Seq<char>) -> bool {
    forall|i: int| 0 <= i < s.len() ==> espec_eh_digito(s[i])
}

/// The numeric value of a sequence of decimal digits.
pub open spec fn espec_valor_digitos(s: Seq<char>) -> int
    decreases s.len(),
{
    if s.len() == 0 {
        0
    } else {
        espec_valor_digitos(s.drop_last()) * 10 + espec_digito(s.last())
    }
}

/// What `str::parse::<i64>` returns: an optional sign, then at least one
/// digit and nothing else, with the value within the signed 64-bit range.
pub open spec fn espec_analisa_i64(s: Seq<char>) -> Option<int> {
    let tem_sinal = s.len() > 0 && (s[0] == '+' || s[0] == '-');
    let neg = s.len() > 0 && s[0] == '-';
    let corpo = if tem_sinal {
        s.drop_first()
    } else {
        s
    };
    if corpo.len() > 0 && espec_todos_digitos(corpo) {
        let v = if neg {
            -espec_valor_digitos(corpo)
        } else {
            espec_valor_digitos(corpo)
        };
        if -0x8000000000000000 <= v && v <= 0x7fffffffffffffff {
            Some(v)
        } else {
            None
        }
    } else {
        None
    }
}

pub proof fn lema_valor_digitos_nao_negativo(s: Seq<char>)
    requires
        espec_todos_digitos(s),
    ensures
        espec_valor_digitos(s) >= 0,
    decreases s.len(),
{
    if s.len() > 0 {
        assert(forall|i: int|
            0 <= i < s.drop_last().len() ==> espec_eh_digito(#[trigger] s.drop_last()[i]));
        lema_valor_digitos_nao_negativo(s.drop_last());
        assert(espec_eh_digito(s.last()));
    }
}

/// Appending digits never lowers the value: a prefix is worth no more than
/// the whole.
pub proof fn lema_valor_prefixo(s: Seq<char>, k: int)
    requires
        espec_todos_digitos(s),
        0 <= k <= s.len(),
    ensures
        espec_valor_digitos(s.subrange(0, k)) <= espec_valor_digitos(s),
    decreases s.len(),
{
    if k == s.len() {
        assert(s.subrange(0, k) =~= s);
    } else {
        let corte = s.drop_last();
        assert(forall|i: int| 0 <= i < corte.len() ==> espec_eh_digito(#[trigger] corte[i]));
        lema_valor_prefixo(corte, k);
        assert(s.subrange(0, k) =~= corte.subrange(0, k));
        lema_valor_digitos_nao_negativo(corte);
        assert(espec_eh_digito(s.last()));
    }
}

pub fn analisar_i64(s: &str) -> (r: Option<i64>)
    ensures
        match r {
            Some(v) => espec_analisa_i64(s@) == Some(v as int),
            None => espec_analisa_i64(s@) is None,
        },
{
    let n: usize = s.unicode_len();
    if n == 0 {
        return None;
    }
    let c0: char = s.get_char(0);
    let tem_sinal: bool = c0 == '+' || c0 == '-';
    let neg: bool = c0 == '-';
    let comeco: usize = if tem_sinal {
        1
    } else {
        0
    };
    let ghost corpo = if tem_sinal {
        s@.drop_first()
    } else {
        s@
    };
    if comeco >= n {
        return None;
    }
    proof {
        assert(corpo.subrange(0, 0) =~= Seq::<char>::empty());
        assert(forall|j: int| 0 <= j < corpo.len() ==> corpo[j] == s@[j + comeco]);
    }
    let mut i: usize = comeco;
    let mut mag: u64 = 0;
    while i < n
        invariant
            comeco <= i <= n,
            n == s@.len(),
            n >= 1,
            tem_sinal == (s@[0] == '+' || s@[0] == '-'),
            neg == (s@[0] == '-'),
            comeco == (if tem_sinal {
                1int
            } else {
                0int
            }),
            comeco < n,
            corpo == (if tem_sinal {
                s@.drop_first()
            } else {
                s@
            }),
            corpo.len() == n - comeco,
            forall|j: int| 0 <= j < corpo.len() ==> corpo[j] == s@[j + comeco],
            espec_todos_digitos(corpo.subrange(0, i - comeco)),
            mag == espec_valor_digitos(corpo.subrange(0, i - comeco)),
            mag <= 0x8000000000000000,
        decreases n - i,
    {
        let c: char = s.get_char(i);
        let ghost k = i - comeco as int;
        proof {
            assert(corpo[k] == c);
            assert(corpo.subrange(0, k + 1).drop_last() =~= corpo.subrange(0, k));
            assert(corpo.subrange(0, k + 1).last() == c);
        }
        if !eh_digito(c) {
            return None;
        }
        let d: u64 = ((c as u32) - 48) as u64;
        proof {
            assert(forall|j: int|
                0 <= j < k + 1 ==> espec_eh_digito(#[trigger] corpo.subrange(0, k + 1)[j]));
        }
        if mag > 922337203685477580 {
            proof {
                assert(espec_valor_digitos(corpo.subrange(0, k + 1)) > 0x8000000000000000);
                if espec_todos_digitos(corpo) {
                    lema_valor_prefixo(corpo, k + 1);
                }
            }
            return None;
        }
        mag = mag * 10 + d;
        if mag > 0x8000000000000000 {
            proof {
                if espec_todos_digitos(corpo) {
                    lema_valor_prefixo(corpo, k + 1);
                }
            }
            return None;
        }
        i = i + 1;
    }
    proof {
        assert(corpo.subrange(0, n - comeco) =~= corpo);
    }
    if neg {
        if mag == 0x8000000000000000 {
            Some(i64::MIN)
        } else {
            Some(-(mag as i64))
        }
    } else {
        if mag == 0x8000000000000000 {
            None
        } else {
            Some(mag as i64)
        }
    }
}

/// Printing an identifier and parsing it back yields the same number.
pub proof fn lema_dec_nat_propriedades(n: nat)
    ensures
        espec_dec_nat(n).len() >= 1,
        espec_todos_digitos(espec_dec_nat(n)),
        espec_valor_digitos(espec_dec_nat(n)) == n,
        espec_eh_digito(espec_dec_nat(n)[0]),
    decreases n,
{
    if n < 10 {
        let c = espec_char_digito(n as int);
        assert(espec_eh_digito(c) && espec_digito(c) == n);
        assert(espec_dec_nat(n) == seq![c]);
        assert(espec_valor_digitos(Seq::<char>::empty()) == 0);
        assert(seq![c].drop_last() =~= Seq::<char>::empty());
        assert(seq![c].last() == c);
        assert(espec_valor_digitos(seq![c]) == espec_valor_digitos(seq![c].drop_last()) * 10
            + espec_digito(seq![c].last()));
    } else {
        lema_dec_nat_propriedades(n / 10);
        let prefixo = espec_dec_nat(n / 10);
        let c = espec_char_digito((n % 10) as int);
        assert(espec_eh_digito(c) && espec_digito(c) == n % 10);
        assert(espec_dec_nat(n) == prefixo.push(c));
        assert(prefixo.push(c).drop_last() =~= prefixo);
        assert(prefixo.push(c).last() == c);
        assert(espec_valor_digitos(prefixo.push(c)) == (n / 10) * 10 + n % 10);
        assert((n / 10) * 10 + n % 10 == n) by (nonlinear_arith);
        assert(forall|i: int|
            0 <= i < prefixo.push(c).len() ==> espec_eh_digito(#[trigger] prefixo.push(c)[i]));
    }
}

pub proof fn lema_analisa_dec(n: int)
    requires
        -0x8000000000000000 <= n <= 0x7fffffffffffffff,
    ensures
        espec_analisa_i64(espec_dec_i64(n)) == Some(n),
{
    if n < 0 {
        lema_dec_nat_propriedades((-n) as nat);
        let digitos = espec_dec_nat((-n) as nat);
        let s = seq!['-'] + digitos;
        assert(s.len() > 0 && s[0] == '-');
        assert(s.drop_first() =~= digitos);
        assert(espec_dec_i64(n) == s);
    } else {
        lema_dec_nat_propriedades(n as nat);
        let s = espec_dec_nat(n as nat);
        assert(espec_eh_digito(s[0]));
        assert(s[0] != '+' && s[0] != '-');
    }
}

} // verus!
