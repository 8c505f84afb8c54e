//! Text helpers shared by the other modules: character sequences, decimal
//! numbers with zero padding, and the few std string operations we rely on.

use vstd::prelude::*;
use vstd::string::StrSliceExecFns;
use vstd::string::StringExecFns;

verus! {

/// `String::push` appends one character at the end.
pub assume_specification [ String::push ](s: &mut String, ch: char)
    ensures
        final(s)@ == old(s)@.push(ch),
;

/// `char::from_u32` gives the character with that code point, when it is
/// one (not a surrogate, at most `0x10FFFF`), and nothing otherwise.
pub assume_specification [ char::from_u32 ](i: u32) -> (r: Option<char>)
    ensures
        r == (if i <= 0x10FFFF && !(0xD800 <= i && i <= 0xDFFF) {
            Some(i as char)
        } else {
            None
        }),
;

/// A leading (high) surrogate.
pub open spec fn alto(u: u16) -> bool {
    0xD800 <= u && u < 0xDC00
}

/// A trailing (low) surrogate.
pub open spec fn baixo(u: u16) -> bool {
    0xDC00 <= u && u < 0xE000
}

/// The text of UTF-16 units, as `String::from_utf16_lossy` reads them: a
/// leading surrogate followed by a trailing one is one character, any
/// other surrogate becomes U+FFFD, and every other unit is the character
/// with that code.
pub open spec fn texto_utf16(u: Seq<u16>) -> Seq<char>
    decreases u.len(),
{
    if u.len() == 0 {
        Seq::empty()
    } else if u.len() >= 2 && alto(u[0]) && baixo(u[1]) {
        seq![(0x10000 + (u[0] - 0xD800) * 0x400 + (u[1] - 0xDC00)) as char] + texto_utf16(u.skip(2))
    } else if 0xD800 <= u[0] && u[0] < 0xE000 {
        seq!['\u{FFFD}'] + texto_utf16(u.skip(1))
    } else {
        seq![u[0] as char] + texto_utf16(u.skip(1))
    }
}

/// The code points of UTF-16 units, as Windows keeps a path's name: a
/// leading surrogate followed by a trailing one is one code point, and
/// every other unit (an unpaired surrogate too) stands for itself.
pub open spec fn pontos_utf16(u: Seq<u16>) -> Seq<u32>
    decreases u.len(),
{
    if u.len() == 0 {
        Seq::empty()
    } else if u.len() >= 2 && alto(u[0]) && baixo(u[1]) {
        seq![(0x10000 + (u[0] - 0xD800) * 0x400 + (u[1] - 0xDC00)) as u32] + pontos_utf16(u.skip(2))
    } else {
        seq![u[0] as u32] + pontos_utf16(u.skip(1))
    }
}

/// The code points of UTF-16 units (see `pontos_utf16`).
pub fn pontos_de_utf16(u: &[u16]) -> (r: Vec<u32>)
    ensures
        r@ == pontos_utf16(u@),
{
    let mut r: Vec<u32> = Vec::new();
    let mut i: usize = 0;
    assert(u@.skip(0) =~= u@);
    assert(r@ + pontos_utf16(u@.skip(0)) =~= pontos_utf16(u@));
    while i < u.len()
        invariant
            i <= u.len(),
            pontos_utf16(u@) == r@ + pontos_utf16(u@.skip(i as int)),
        decreases u.len() - i,
    {
        let a = u[i];
        let ghost resto = u@.skip(i as int);
        let ghost r0 = r@;
        assert(resto[0] == a);
        if i + 1 < u.len() && 0xD800 <= a && a < 0xDC00 && 0xDC00 <= u[i + 1] && u[i + 1] < 0xE000 {
            let b = u[i + 1];
            assert(resto[1] == b);
            let v: u32 = 0x10000 + ((a - 0xD800) as u32) * 0x400 + ((b - 0xDC00) as u32);
            r.push(v);
            assert(resto.skip(2) =~= u@.skip(i + 2));
            assert(r@ + pontos_utf16(u@.skip(i + 2)) =~= r0 + pontos_utf16(resto));
            i = i + 2;
        } else {
            r.push(a as u32);
            assert(resto.skip(1) =~= u@.skip(i + 1));
            assert(r@ + pontos_utf16(u@.skip(i + 1)) =~= r0 + pontos_utf16(resto));
            i = i + 1;
        }
    }
    assert(u@.skip(u.len() as int) =~= Seq::<u16>::empty());
    assert(r@ + pontos_utf16(u@.skip(u.len() as int)) =~= r@);
    r
}

/// Decodes UTF-16 units (see `texto_utf16`).
pub fn texto_de_utf16(u: &[u16]) -> (r: String)
    ensures
        r@ == texto_utf16(u@),
{
    let mut r = String::new();
    let mut i: usize = 0;
    assert(u@.skip(0) =~= u@);
    while i < u.len()
        invariant
            i <= u.len(),
            texto_utf16(u@) == r@ + texto_utf16(u@.skip(i as int)),
        decreases u.len() - i,
    {
        let a = u[i];
        let ghost resto = u@.skip(i as int);
        assert(resto[0] == a);
        if i + 1 < u.len() && 0xD800 <= a && a < 0xDC00 && 0xDC00 <= u[i + 1] && u[i + 1] < 0xE000 {
            let b = u[i + 1];
            assert(resto[1] == b);
            let v: u32 = 0x10000 + ((a - 0xD800) as u32) * 0x400 + ((b - 0xDC00) as u32);
            match char::from_u32(v) {
                Some(c) => r.push(c),
                None => r.push('\u{FFFD}'),
            }
            assert(resto.skip(2) =~= u@.skip(i + 2));
            i = i + 2;
        } else if 0xD800 <= a && a < 0xE000 {
            r.push('\u{FFFD}');
            assert(resto.skip(1) =~= u@.skip(i + 1));
            i = i + 1;
        } else {
            match char::from_u32(a as u32) {
                Some(c) => r.push(c),
                None => r.push('\u{FFFD}'),
            }
            assert(resto.skip(1) =~= u@.skip(i + 1));
            i = i + 1;
        }
    }
    r
}

/// The characters of `s`, in order.
pub fn caracteres(s: &str) -> (v: Vec<char>)
    ensures
        v@ == s@,
{
    let n: usize = s.unicode_len();
    let mut v: Vec<char> = Vec::new();
    let mut i: usize = 0;
    while i < n
        invariant
            n == s@.len(),
            i <= n,
            v@ == s@.subrange(0, i as int),
        decreases n - i,
    {
        v.push(s.get_char(i));
        i = i + 1;
    }
    v
}

/// A `String` holding the characters of `v`.
pub fn texto_de(v: &Vec<char>) -> (s: String)
    ensures
        s@ == v@,
{
    let mut s = String::new();
    let mut i: usize = 0;
    while i < v.len()
        invariant
            i <= v.len(),
            s@ == v@.subrange(0, i as int),
        decreases v.len() - i,
    {
        s.push(v[i]);
        i = i + 1;
    }
    s
}

/// The decimal digit `d` (0 to 9) as a character.
pub open spec fn digito(d: nat) -> char {
    (48 + d) as char
}

/// The decimal representation of `n`, without leading zeros.
pub open spec fn decimal(n: nat) -> Seq<char>
    decreases n,
{
    if n < 10 {
        seq![digito(n)]
    } else {
        decimal(n / 10).push(digito(n % 10))
    }
}

/// `n` in decimal, left-padded with zeros up to `largura` characters
/// (what `{:0largura}` prints for an unsigned integer).
pub open spec fn decimal_com_zeros(n: nat, largura: nat) -> Seq<char> {
    let d = decimal(n);
    if d.len() >= largura {
        d
    } else {
        Seq::new((largura - d.len()) as nat, |i: int| '0') + d
    }
}

/// `10^w`
pub open spec fn potencia10(w: nat) -> nat
    decreases w,
{
    if w == 0 {
        1
    } else {
        10 * potencia10((w - 1) as nat)
    }
}

/// `a` sorts before `b`: at the first position where they differ, `a` has
/// the smaller character.
pub open spec fn antes_na_ordem(a: Seq<char>, b: Seq<char>) -> bool {
    exists|k: int|
        0 <= k < a.len() && k < b.len() && #[trigger] a.take(k) == b.take(k) && (a[k] as u32) < (
        b[k] as u32)
}

proof fn lema_tamanho_decimal(n: nat, w: nat)
    requires
        w >= 1,
        n < potencia10(w),
    ensures
        decimal(n).len() <= w,
    decreases w,
{
    if n >= 10 {
        assert(w >= 2) by {
            if w == 1 {
                assert(potencia10(0) == 1);
            }
        }
        lema_tamanho_decimal(n / 10, (w - 1) as nat);
    }
}

proof fn lema_zeros_passo(n: nat, w: nat)
    requires
        w >= 2,
        n < potencia10(w),
    ensures
        decimal_com_zeros(n, w) == decimal_com_zeros(n / 10, (w - 1) as nat).push(digito(n % 10)),
{
    lema_tamanho_decimal(n, w);
    let d = decimal(n);
    if n >= 10 {
        lema_tamanho_decimal(n / 10, (w - 1) as nat);
        let q = decimal(n / 10);
        assert(d == q.push(digito(n % 10)));
        let z = Seq::new((w - d.len()) as nat, |i: int| '0');
        let zq = Seq::new(((w - 1) as nat - q.len()) as nat, |i: int| '0');
        assert(z =~= zq);
        assert(decimal_com_zeros(n, w) =~= z + d);
        assert(decimal_com_zeros(n / 10, (w - 1) as nat) =~= zq + q);
        assert(z + q.push(digito(n % 10)) =~= (zq + q).push(digito(n % 10)));
    } else {
        assert(d == seq![digito(n)]);
        assert(decimal(0) == seq![digito(0)]);
        assert(decimal_com_zeros(n, w) =~= Seq::new((w - 1) as nat, |i: int| '0') + seq![
            digito(n),
        ]);
        assert(decimal_com_zeros(0, (w - 1) as nat) =~= Seq::new((w - 1) as nat, |i: int| '0'));
        assert(n % 10 == n);
        assert(Seq::new((w - 1) as nat, |i: int| '0') + seq![digito(n)] =~= Seq::new(
            (w - 1) as nat,
            |i: int| '0',
        ).push(digito(n)));
    }
}

proof fn lema_tamanho_zeros(n: nat, w: nat)
    requires
        w >= 1,
        n < potencia10(w),
    ensures
        decimal_com_zeros(n, w).len() == w,
{
    lema_tamanho_decimal(n, w);
}

/// Numbers below `10^w` written with `w` digits (zeros in front) sort as
/// the numbers do.
pub proof fn lema_ordem_com_zeros(a: nat, b: nat, w: nat)
    requires
        w >= 1,
        a < b < potencia10(w),
    ensures
        antes_na_ordem(decimal_com_zeros(a, w), decimal_com_zeros(b, w)),
        decimal_com_zeros(a, w).len() == w,
        decimal_com_zeros(b, w).len() == w,
    decreases w,
{
    lema_tamanho_zeros(a, w);
    lema_tamanho_zeros(b, w);
    let za = decimal_com_zeros(a, w);
    let zb = decimal_com_zeros(b, w);
    assert(digito(a % 10) as u32 == 48 + a % 10);
    assert(digito(b % 10) as u32 == 48 + b % 10);
    if w == 1 {
        assert(potencia10(1) == 10) by {
            assert(potencia10(0) == 1);
        }
        assert(decimal(a) == seq![digito(a)]);
        assert(decimal(b) == seq![digito(b)]);
        assert(za =~= seq![digito(a)]);
        assert(zb =~= seq![digito(b)]);
        assert(za.take(0) =~= zb.take(0));
        assert(a % 10 == a && b % 10 == b);
    } else {
        lema_zeros_passo(a, w);
        lema_zeros_passo(b, w);
        let w1 = (w - 1) as nat;
        let qa = decimal_com_zeros(a / 10, w1);
        let qb = decimal_com_zeros(b / 10, w1);
        assert(b / 10 < potencia10(w1));
        lema_tamanho_zeros(a / 10, w1);
        lema_tamanho_zeros(b / 10, w1);
        if a / 10 < b / 10 {
            lema_ordem_com_zeros(a / 10, b / 10, w1);
            let k = choose|k: int|
                0 <= k < qa.len() && k < qb.len() && #[trigger] qa.take(k) == qb.take(k) && (
                qa[k] as u32) < (qb[k] as u32);
            assert(za.take(k) =~= qa.take(k));
            assert(zb.take(k) =~= qb.take(k));
            assert(za[k] == qa[k] && zb[k] == qb[k]);
        } else {
            assert(a / 10 == b / 10);
            let k = (w - 1) as int;
            assert(za.take(k) =~= qa);
            assert(zb.take(k) =~= qb);
            assert(za[k] == digito(a % 10));
            assert(zb[k] == digito(b % 10));
        }
    }
}

fn caractere_digito(d: u128) -> (c: char)
    requires
        d < 10,
    ensures
        c == digito(d as nat),
{
    let b: u8 = 48 + d as u8;
    b as char
}

/// Appends the decimal digits of `n` to `s`.
pub fn escrever_decimal(s: &mut String, n: u128)
    ensures
        final(s)@ == old(s)@ + decimal(n as nat),
    decreases n,
{
    if n < 10 {
        s.push(caractere_digito(n));
    } else {
        escrever_decimal(s, n / 10);
        s.push(caractere_digito(n % 10));
    }
}

pub proof fn lema_decimal_nao_vazio(n: nat)
    ensures
        decimal(n).len() >= 1,
    decreases n,
{
    if n >= 10 {
        lema_decimal_nao_vazio(n / 10);
    }
}

/// Appends `n` in decimal, left-padded with zeros up to `largura` characters.
pub fn escrever_com_zeros(s: &mut String, n: u128, largura: usize)
    ensures
        final(s)@ == old(s)@ + decimal_com_zeros(n as nat, largura as nat),
{
    let mut digitos = String::new();
    escrever_decimal(&mut digitos, n);
    let d: usize = digitos.as_str().unicode_len();
    let ghost antes = s@;
    if d < largura {
        let faltam: usize = largura - d;
        let mut i: usize = 0;
        while i < faltam
            invariant
                i <= faltam,
                s@ == antes + Seq::new(i as nat, |j: int| '0'),
            decreases faltam - i,
        {
            s.push('0');
            i = i + 1;
            assert(s@ =~= antes + Seq::new(i as nat, |j: int| '0'));
        }
    }
    s.append(digitos.as_str());
    assert(s@ =~= antes + decimal_com_zeros(n as nat, largura as nat));
}

/// `a` followed by `b`.
pub fn unir(a: &str, b: &str) -> (r: String)
    ensures
        r@ == a@ + b@,
{
    let mut r = String::from_str(a);
    r.append(b);
    r
}

/// Does `s` start with `p`?
pub fn comeca_com(s: &Vec<char>, p: &Vec<char>) -> (r: bool)
    ensures
        r == p@.is_prefix_of(s@),
{
    if p.len() > s.len() {
        return false;
    }
    let mut i: usize = 0;
    while i < p.len()
        invariant
            p.len() <= s.len(),
            i <= p.len(),
            forall|j: int| 0 <= j < i ==> p@[j] == s@[j],
        decreases p.len() - i,
    {
        if p[i] != s[i] {
            return false;
        }
        i = i + 1;
    }
    assert(p@ =~= s@.subrange(0, p@.len() as int));
    true
}

/// Are `a` and `b` the same characters?
pub fn iguais(a: &Vec<char>, b: &Vec<char>) -> (r: bool)
    ensures
        r == (a@ == b@),
{
    if a.len() != b.len() {
        return false;
    }
    let mut i: usize = 0;
    while i < a.len()
        invariant
            a.len() == b.len(),
            i <= a.len(),
            forall|j: int| 0 <= j < i ==> a@[j] == b@[j],
        decreases a.len() - i,
    {
        if a[i] != b[i] {
            return false;
        }
        i = i + 1;
    }
    assert(a@ =~= b@);
    true
}

/// `c` with `A`..`Z` turned into `a`..`z` (what `to_ascii_lowercase` does).
pub open spec fn minuscula_ascii(c: char) -> char {
    if 65 <= c as u32 <= 90 {
        (c as u32 + 32) as char
    } else {
        c
    }
}

/// Lower-cases the ASCII letters of `s`, leaving every other character.
pub fn minusculas_ascii(s: &Vec<char>) -> (r: Vec<char>)
    ensures
        r@ == s@.map_values(|c: char| minuscula_ascii(c)),
{
    let mut r: Vec<char> = Vec::new();
    let mut i: usize = 0;
    while i < s.len()
        invariant
            i <= s.len(),
            r@ == s@.take(i as int).map_values(|c: char| minuscula_ascii(c)),
        decreases s.len() - i,
    {
        let c = s[i];
        let n: u32 = c as u32;
        let m: char = if 65 <= n && n <= 90 {
            ((n + 32) as u8) as char
        } else {
            c
        };
        assert(m == minuscula_ascii(c));
        r.push(m);
        i = i + 1;
        assert(r@ =~= s@.take(i as int).map_values(|c: char| minuscula_ascii(c)));
    }
    assert(s@.take(s@.len() as int) =~= s@);
    r
}

/// The characters of `s` from position `inicio` on.
pub fn copiar_desde(s: &Vec<char>, inicio: usize) -> (r: Vec<char>)
    requires
        inicio <= s.len(),
    ensures
        r@ == s@.skip(inicio as int),
{
    let mut r: Vec<char> = Vec::new();
    let mut i: usize = inicio;
    while i < s.len()
        invariant
            inicio <= i <= s.len(),
            r@ == s@.subrange(inicio as int, i as int),
        decreases s.len() - i,
    {
        r.push(s[i]);
        i = i + 1;
    }
    r
}

/// The characters of `s` at positions `inicio` up to (not including) `fim`.
pub fn copiar_trecho(s: &Vec<char>, inicio: usize, fim: usize) -> (r: Vec<char>)
    requires
        inicio <= fim <= s.len(),
    ensures
        r@ == s@.subrange(inicio as int, fim as int),
{
    let mut r: Vec<char> = Vec::new();
    let mut i: usize = inicio;
    while i < fim
        invariant
            inicio <= i <= fim <= s.len(),
            r@ == s@.subrange(inicio as int, i as int),
        decreases fim - i,
    {
        r.push(s[i]);
        i = i + 1;
    }
    r
}

/// Appends the characters of `v` to `s`.
pub fn acrescentar(s: &mut String, v: &Vec<char>)
    ensures
        final(s)@ == old(s)@ + v@,
{
    let ghost antes = s@;
    let mut i: usize = 0;
    while i < v.len()
        invariant
            i <= v.len(),
            s@ == antes + v@.subrange(0, i as int),
        decreases v.len() - i,
    {
        s.push(v[i]);
        i = i + 1;
        assert(s@ =~= antes + v@.subrange(0, i as int));
    }
    assert(v@.subrange(0, v@.len() as int) =~= v@);
}

// ---------------------------------------------------------------------------
// White space and trimming
// ---------------------------------------------------------------------------

/// The characters with the Unicode property White_Space (what
/// `char::is_whitespace` and `str::trim` go by).
pub open spec fn espaco(c: char) -> bool {
    let n = c as u32;
    ||| 9 <= n <= 13
    ||| n == 32
    ||| n == 0x85
    ||| n == 0xa0
    ||| n == 0x1680
    ||| 0x2000 <= n <= 0x200a
    ||| n == 0x2028
    ||| n == 0x2029
    ||| n == 0x202f
    ||| n == 0x205f
    ||| n == 0x3000
}

/// Is `c` white space?
pub fn eh_espaco(c: char) -> (r: bool)
    ensures
        r == espaco(c),
{
    let n: u32 = c as u32;
    (9 <= n && n <= 13) || n == 32 || n == 0x85 || n == 0xa0 || n == 0x1680 || (0x2000 <= n && n
        <= 0x200a) || n == 0x2028 || n == 0x2029 || n == 0x202f || n == 0x205f || n == 0x3000
}

/// `s` without its leading white space.
pub open spec fn sem_espacos_iniciais(s: Seq<char>) -> Seq<char>
    decreases s.len(),
{
    if s.len() > 0 && espaco(s[0]) {
        sem_espacos_iniciais(s.skip(1))
    } else {
        s
    }
}

/// `s` without its trailing white space.
pub open spec fn sem_espacos_finais(s: Seq<char>) -> Seq<char>
    decreases s.len(),
{
    if s.len() > 0 && espaco(s.last()) {
        sem_espacos_finais(s.drop_last())
    } else {
        s
    }
}

/// `s` without leading and trailing white space (what `str::trim` returns).
pub open spec fn aparado(s: Seq<char>) -> Seq<char> {
    sem_espacos_finais(sem_espacos_iniciais(s))
}

/// The characters of `s` without trailing white space.
pub fn aparar_fim(s: &Vec<char>) -> (r: Vec<char>)
    ensures
        r@ == sem_espacos_finais(s@),
{
    let mut j: usize = s.len();
    assert(s@.take(j as int) =~= s@);
    while j > 0 && eh_espaco(s[j - 1])
        invariant
            j <= s.len(),
            sem_espacos_finais(s@) == sem_espacos_finais(s@.take(j as int)),
        decreases j,
    {
        assert(s@.take(j as int).drop_last() =~= s@.take(j - 1));
        j = j - 1;
    }
    copiar_trecho(s, 0, j)
}

/// The characters of `s` without leading and trailing white space.
pub fn aparar(s: &Vec<char>) -> (r: Vec<char>)
    ensures
        r@ == aparado(s@),
{
    let mut i: usize = 0;
    assert(s@.skip(0) =~= s@);
    while i < s.len() && eh_espaco(s[i])
        invariant
            i <= s.len(),
            sem_espacos_iniciais(s@) == sem_espacos_iniciais(s@.skip(i as int)),
        decreases s.len() - i,
    {
        assert(s@.skip(i as int).skip(1) =~= s@.skip(i + 1));
        i = i + 1;
    }
    aparar_fim(&copiar_desde(s, i))
}

/// The words of `s` (runs without white space) joined by single spaces,
/// with a flag telling whether white space followed the last word: what
/// `split_whitespace` then `join(" ")` builds, read left to right.
pub open spec fn compactado(s: Seq<char>) -> (Seq<char>, bool)
    decreases s.len(),
{
    if s.len() == 0 {
        (Seq::empty(), false)
    } else {
        let (o, pendente) = compactado(s.drop_last());
        let c = s.last();
        if espaco(c) {
            (o, o.len() > 0)
        } else if pendente {
            (o.push(' ').push(c), false)
        } else {
            (o.push(c), false)
        }
    }
}

/// The words of `s` joined by single spaces.
pub open spec fn palavras_unidas(s: Seq<char>) -> Seq<char> {
    compactado(s).0
}

/// Joins the words of `v` with single spaces.
pub fn unir_palavras(v: &Vec<char>) -> (r: Vec<char>)
    ensures
        r@ == palavras_unidas(v@),
{
    let mut o: Vec<char> = Vec::new();
    let mut pendente = false;
    let mut i: usize = 0;
    assert(v@.take(0) =~= Seq::<char>::empty());
    while i < v.len()
        invariant
            i <= v.len(),
            (o@, pendente) == compactado(v@.take(i as int)),
        decreases v.len() - i,
    {
        assert(v@.take(i + 1).drop_last() =~= v@.take(i as int));
        let c = v[i];
        if eh_espaco(c) {
            pendente = o.len() > 0;
        } else {
            if pendente {
                o.push(' ');
            }
            o.push(c);
            pendente = false;
        }
        i = i + 1;
    }
    assert(v@.take(v@.len() as int) =~= v@);
    o
}

// ---------------------------------------------------------------------------
// Unsigned decimal numbers
// ---------------------------------------------------------------------------

pub open spec fn eh_digito(c: char) -> bool {
    48 <= c as u32 <= 57
}

/// The value of a string of decimal digits.
pub open spec fn valor_digitos(s: Seq<char>) -> nat
    decreases s.len(),
{
    if s.len() == 0 {
        0
    } else {
        valor_digitos(s.drop_last()) * 10 + (s.last() as u32 - 48) as nat
    }
}

/// `s` without a leading `+`.
pub open spec fn sem_sinal(s: Seq<char>) -> Seq<char> {
    if s.len() > 0 && s[0] == '+' {
        s.skip(1)
    } else {
        s
    }
}

/// What `str::parse` gives for an unsigned integer type whose largest value
/// is `max`: an optional `+`, then at least one decimal digit and nothing
/// else, and a value that fits.
pub open spec fn numero_sem_sinal(s: Seq<char>, max: nat) -> Option<nat> {
    let d = sem_sinal(s);
    if d.len() > 0 && (forall|i: int| 0 <= i < d.len() ==> eh_digito(#[trigger] d[i]))
        && valor_digitos(d) <= max {
        Some(valor_digitos(d))
    } else {
        None
    }
}

proof fn lema_valor_cresce(d: Seq<char>, i: int)
    requires
        0 <= i <= d.len(),
        forall|k: int| 0 <= k < d.len() ==> eh_digito(#[trigger] d[k]),
    ensures
        valor_digitos(d.take(i)) <= valor_digitos(d),
    decreases d.len() - i,
{
    if i == d.len() {
        assert(d.take(i) =~= d);
    } else {
        lema_valor_cresce(d, i + 1);
        assert(d.take(i + 1).drop_last() =~= d.take(i));
    }
}

/// Reading back a number written in decimal gives the number.
pub proof fn lema_valor_decimal(n: nat)
    ensures
        valor_digitos(decimal(n)) == n,
        forall|i: int| 0 <= i < decimal(n).len() ==> eh_digito(#[trigger] decimal(n)[i]),
    decreases n,
{
    assert(digito(n % 10) as u32 == 48 + n % 10);
    let d = decimal(n);
    if n < 10 {
        assert(d.drop_last() =~= Seq::<char>::empty());
        assert(valor_digitos(d.drop_last()) == 0);
        assert(d.last() == digito(n));
        assert(n % 10 == n);
    } else {
        lema_valor_decimal(n / 10);
        assert(d.drop_last() =~= decimal(n / 10));
        assert(d.last() == digito(n % 10));
        assert((n / 10) * 10 + n % 10 == n);
        assert forall|i: int| 0 <= i < decimal(n).len() implies eh_digito(#[trigger] decimal(n)[i]) by {
            if i < decimal(n / 10).len() {
                assert(decimal(n)[i] == decimal(n / 10)[i]);
            }
        }
    }
}

proof fn lema_valor_zeros(z: Seq<char>)
    requires
        forall|i: int| 0 <= i < z.len() ==> z[i] == '0',
    ensures
        valor_digitos(z) == 0,
    decreases z.len(),
{
    if z.len() > 0 {
        lema_valor_zeros(z.drop_last());
    }
}

/// Leading zeros do not change the value.
pub proof fn lema_valor_com_zeros(z: Seq<char>, s: Seq<char>)
    requires
        forall|i: int| 0 <= i < z.len() ==> z[i] == '0',
    ensures
        valor_digitos(z + s) == valor_digitos(s),
    decreases s.len(),
{
    if s.len() == 0 {
        assert(z + s =~= z);
        lema_valor_zeros(z);
    } else {
        lema_valor_com_zeros(z, s.drop_last());
        assert((z + s).drop_last() =~= z + s.drop_last());
    }
}

/// A number written with leading zeros parses back to itself.
pub proof fn lema_ler_com_zeros(n: nat, largura: nat, max: nat)
    requires
        n <= max,
    ensures
        numero_sem_sinal(decimal_com_zeros(n, largura), max) == Some(n),
        forall|i: int|
            0 <= i < decimal_com_zeros(n, largura).len() ==> eh_digito(
                #[trigger] decimal_com_zeros(n, largura)[i],
            ),
{
    lema_valor_decimal(n);
    lema_decimal_nao_vazio(n);
    let d = decimal(n);
    let s = decimal_com_zeros(n, largura);
    if d.len() < largura {
        let z = Seq::new((largura - d.len()) as nat, |i: int| '0');
        lema_valor_com_zeros(z, d);
        assert forall|i: int| 0 <= i < s.len() implies eh_digito(#[trigger] s[i]) by {
            if i >= z.len() {
                assert(s[i] == d[i - z.len()]);
            }
        }
    }
    assert(eh_digito(s[0]));
    assert(sem_sinal(s) == s);
}

/// Parses an unsigned decimal number no larger than `max`.
pub fn ler_sem_sinal(s: &Vec<char>, max: u128) -> (r: Option<u128>)
    ensures
        r is Some <==> numero_sem_sinal(s@, max as nat) is Some,
        r matches Some(v) ==> numero_sem_sinal(s@, max as nat) == Some(v as nat),
{
    let inicio: usize = if s.len() > 0 && s[0] == '+' { 1 } else { 0 };
    let d = copiar_desde(s, inicio);
    assert(d@ =~= sem_sinal(s@));
    if d.len() == 0 {
        return None;
    }
    let mut i: usize = 0;
    while i < d.len()
        invariant
            i <= d.len(),
            d@ == sem_sinal(s@),
            forall|k: int| 0 <= k < i ==> eh_digito(#[trigger] d@[k]),
        decreases d.len() - i,
    {
        let n: u32 = d[i] as u32;
        if n < 48 || n > 57 {
            assert(!eh_digito(d@[i as int]));
            assert(!(forall|j: int| 0 <= j < d@.len() ==> eh_digito(#[trigger] d@[j])));
            return None;
        }
        i = i + 1;
    }
    let mut acc: u128 = 0;
    let mut k: usize = 0;
    assert(d@.take(0) =~= Seq::<char>::empty());
    while k < d.len()
        invariant
            k <= d.len(),
            d@ == sem_sinal(s@),
            forall|j: int| 0 <= j < d.len() ==> eh_digito(#[trigger] d@[j]),
            acc as nat == valor_digitos(d@.take(k as int)),
            acc <= max,
        decreases d.len() - k,
    {
        assert(d@.take(k + 1).drop_last() =~= d@.take(k as int));
        assert(eh_digito(d@[k as int]));
        let dg: u128 = (d[k] as u32 - 48) as u128;
        assert(valor_digitos(d@.take(k + 1)) == acc * 10 + dg);
        if dg > max || acc > (max - dg) / 10 {
            proof {
                lema_valor_cresce(d@, k + 1);
                if dg <= max {
                    let y = (max - dg) as int;
                    assert(acc * 10 + dg > max) by (nonlinear_arith)
                        requires
                            acc > y / 10,
                            y == max - dg,
                            y >= 0,
                    ;
                }
            }
            return None;
        }
        assert(acc * 10 + dg <= max) by (nonlinear_arith)
            requires
                acc <= (max - dg) / 10,
                dg <= max,
        ;
        acc = acc * 10 + dg;
        k = k + 1;
    }
    assert(d@.take(d@.len() as int) =~= d@);
    Some(acc)
}

} // verus!
