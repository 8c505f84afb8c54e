//! The order in which Windows paths are sorted: component by component, as
//! `std::path::Path` compares them on Windows.
//!
//! A path is read as a list of components: an optional prefix (`C:`,
//! `\\server\share`, `\\?\...`, `\\.\device`), an optional root, then its
//! names. Two paths compare by their first differing component; a component
//! kind compares before its content (prefix < root < `.` < `..` < name), and
//! names compare code point by code point, case included (an unpaired
//! UTF-16 surrogate by its own value).

use vstd::prelude::*;

use crate::texto::caracteres;

verus! {

/// The first part of a Windows path, as `std::path::Prefix` distinguishes it,
/// listed in the order in which paths with them are sorted.
pub enum Prefixo {
    /// `\\?\name`
    Literal(Seq<u32>),
    /// `\\?\UNC\server\share`
    LiteralUnc(Seq<u32>, Seq<u32>),
    /// `\\?\C:` (the letter in upper case)
    LiteralDisco(u32),
    /// `\\.\device`
    Dispositivo(Seq<u32>),
    /// `\\server\share`
    Unc(Seq<u32>, Seq<u32>),
    /// `C:` (the letter in upper case)
    Disco(u32),
}

/// One component of a path, in the order in which kinds are sorted.
pub enum Componente {
    Prefixo(Prefixo),
    /// The root separator.
    Raiz,
    /// `.`
    Atual,
    /// `..`
    Acima,
    /// A name.
    Normal(Seq<u32>),
}

/// A separator: `\`, and also `/` outside `\\?\` paths.
pub open spec fn barra(c: u32, literal: bool) -> bool {
    c == 92 || (!literal && c == 47)
}

/// An ASCII letter, as a drive letter must be.
pub open spec fn letra(c: u32) -> bool {
    (97 <= c && c <= 122) || (65 <= c && c <= 90)
}

/// An ASCII letter in upper case.
pub open spec fn maiuscula(c: u32) -> u32 {
    if 97 <= c && c <= 122 {
        (c - 32) as u32
    } else {
        c
    }
}

/// The first separator at or after `i`, or the end of `s`.
pub open spec fn fim_do_nome(s: Seq<u32>, i: int, literal: bool) -> int
    decreases s.len() - i,
{
    if i >= s.len() {
        s.len() as int
    } else if barra(s[i], literal) {
        i
    } else {
        fim_do_nome(s, i + 1, literal)
    }
}

/// The prefix of `s`, if it has one, and how many characters it takes.
pub open spec fn analise_prefixo(s: Seq<u32>) -> (Option<Prefixo>, int) {
    if s.len() >= 2 && barra(s[0], false) && barra(s[1], false) {
        if s.len() >= 4 && s[0] == 92 && s[1] == 92 && s[2] == 63 && s[3] == 92 {
            if s.len() >= 8 && s[4] == 85 && s[5] == 78 && s[6] == 67 && barra(s[7], false) {
                let a = fim_do_nome(s, 8, true);
                if a < s.len() {
                    let b = fim_do_nome(s, a + 1, true);
                    let recurso = s.subrange(a + 1, b);
                    (
                        Some(Prefixo::LiteralUnc(s.subrange(8, a), recurso)),
                        if recurso.len() > 0 {
                            b
                        } else {
                            a
                        },
                    )
                } else {
                    (Some(Prefixo::LiteralUnc(s.subrange(8, a), Seq::empty())), a)
                }
            } else if s.len() >= 6 && letra(s[4]) && s[5] == 58 && (s.len() == 6 || s[6] == 92) {
                (Some(Prefixo::LiteralDisco(maiuscula(s[4]))), 6)
            } else {
                let a = fim_do_nome(s, 4, true);
                (Some(Prefixo::Literal(s.subrange(4, a))), a)
            }
        } else if s.len() >= 4 && s[2] == 46 && barra(s[3], false) {
            let a = fim_do_nome(s, 4, false);
            (Some(Prefixo::Dispositivo(s.subrange(4, a))), a)
        } else {
            let a = fim_do_nome(s, 2, false);
            if a < s.len() {
                let b = fim_do_nome(s, a + 1, false);
                if a > 2 && b > a + 1 {
                    (Some(Prefixo::Unc(s.subrange(2, a), s.subrange(a + 1, b))), b)
                } else {
                    (None, 0)
                }
            } else {
                (None, 0)
            }
        }
    } else if s.len() >= 2 && letra(s[0]) && s[1] == 58 {
        (Some(Prefixo::Disco(maiuscula(s[0]))), 2)
    } else {
        (None, 0)
    }
}

/// Paths with this prefix take their separators and names literally.
pub open spec fn eh_literal(p: Option<Prefixo>) -> bool {
    match p {
        Some(Prefixo::Literal(_)) => true,
        Some(Prefixo::LiteralUnc(_, _)) => true,
        Some(Prefixo::LiteralDisco(_)) => true,
        _ => false,
    }
}

/// Every prefix but a drive letter stands for a root of its own.
pub open spec fn raiz_no_prefixo(p: Option<Prefixo>) -> bool {
    match p {
        Some(Prefixo::Disco(_)) => false,
        Some(_) => true,
        None => false,
    }
}

/// Splits `s` at its separators: the pieces before the last separator and
/// the piece after it.
pub open spec fn partes(s: Seq<u32>, literal: bool) -> (Seq<Seq<u32>>, Seq<u32>)
    decreases s.len(),
{
    if s.len() == 0 {
        (Seq::empty(), Seq::empty())
    } else {
        let (f, c) = partes(s.drop_last(), literal);
        if barra(s.last(), literal) {
            (f.push(c), Seq::empty())
        } else {
            (f, c.push(s.last()))
        }
    }
}

/// The pieces of `s` between separators (empty pieces included).
pub open spec fn segmentos(s: Seq<u32>, literal: bool) -> Seq<Seq<u32>> {
    let (f, c) = partes(s, literal);
    f.push(c)
}

/// What one piece between separators stands for: nothing when it is empty
/// or `.` (a `.` counts in `\\?\` paths), `..`, or a name.
pub open spec fn componente_de(seg: Seq<u32>, literal: bool) -> Seq<Componente> {
    if seg.len() == 0 {
        Seq::empty()
    } else if seg == seq![46u32] {
        if literal {
            seq![Componente::Atual]
        } else {
            Seq::empty()
        }
    } else if seg == seq![46u32, 46u32] {
        seq![Componente::Acima]
    } else {
        seq![Componente::Normal(seg)]
    }
}

/// The components of the pieces `segs`, in order.
pub open spec fn corpo(segs: Seq<Seq<u32>>, literal: bool) -> Seq<Componente>
    decreases segs.len(),
{
    if segs.len() == 0 {
        Seq::empty()
    } else {
        corpo(segs.drop_last(), literal) + componente_de(segs.last(), literal)
    }
}

/// The path has a root: a separator right after its prefix, or a prefix
/// that stands for one.
pub open spec fn tem_raiz(s: Seq<u32>) -> bool {
    let (p, n) = analise_prefixo(s);
    (n < s.len() && barra(s[n], eh_literal(p))) || raiz_no_prefixo(p)
}

/// The root separator written right after the prefix.
pub open spec fn raiz_fisica(s: Seq<u32>) -> bool {
    let (p, n) = analise_prefixo(s);
    n < s.len() && barra(s[n], eh_literal(p))
}

/// A path with no root that starts (after its prefix) with the piece `.`.
pub open spec fn atual_inicial(s: Seq<u32>) -> bool {
    let (p, n) = analise_prefixo(s);
    !tem_raiz(s) && n < s.len() && s[n] == 46 && (n + 1 == s.len() || barra(s[n + 1], eh_literal(p)))
}

/// The components before the names: the prefix, then the root (or a
/// leading `.`).
pub open spec fn cabeca(s: Seq<u32>) -> Seq<Componente> {
    let p = analise_prefixo(s).0;
    (match p {
        Some(q) => seq![Componente::Prefixo(q)],
        None => Seq::empty(),
    }) + (if raiz_fisica(s) || (raiz_no_prefixo(p) && !eh_literal(p)) {
        seq![Componente::Raiz]
    } else if atual_inicial(s) {
        seq![Componente::Atual]
    } else {
        Seq::empty()
    })
}

/// Where the names start.
pub open spec fn inicio_do_corpo(s: Seq<u32>) -> int {
    if raiz_fisica(s) || atual_inicial(s) {
        analise_prefixo(s).1 + 1
    } else {
        analise_prefixo(s).1
    }
}

/// The components of a Windows path, as `Path::components` lists them.
pub open spec fn componentes(s: Seq<u32>) -> Seq<Componente> {
    let literal = eh_literal(analise_prefixo(s).0);
    cabeca(s) + corpo(segmentos(s.skip(inicio_do_corpo(s)), literal), literal)
}

// ---------------------------------------------------------------------------
// Sort keys
// ---------------------------------------------------------------------------

/// A code point in a sort key, above the markers.
pub open spec fn cod(c: u32) -> u64 {
    (c + 16) as u64
}

pub open spec fn cod_texto(t: Seq<u32>) -> Seq<u64> {
    t.map_values(|c: u32| cod(c))
}

/// The key of a prefix: its kind, then its text, each name closed by 0.
pub open spec fn codigo_prefixo(p: Prefixo) -> Seq<u64> {
    seq![1u64] + match p {
        Prefixo::Literal(a) => seq![1u64] + cod_texto(a),
        Prefixo::LiteralUnc(a, b) => seq![2u64] + cod_texto(a) + seq![0u64] + cod_texto(b),
        Prefixo::LiteralDisco(c) => seq![3u64, cod(c)],
        Prefixo::Dispositivo(a) => seq![4u64] + cod_texto(a),
        Prefixo::Unc(a, b) => seq![5u64] + cod_texto(a) + seq![0u64] + cod_texto(b),
        Prefixo::Disco(c) => seq![6u64, cod(c)],
    } + seq![0u64]
}

/// The key of a component: its kind, then its text, closed by 0.
pub open spec fn codigo_componente(c: Componente) -> Seq<u64> {
    match c {
        Componente::Prefixo(p) => codigo_prefixo(p),
        Componente::Raiz => seq![2u64, 0u64],
        Componente::Atual => seq![3u64, 0u64],
        Componente::Acima => seq![4u64, 0u64],
        Componente::Normal(t) => seq![5u64] + cod_texto(t) + seq![0u64],
    }
}

/// The sort key of a list of components: the keys of the components, one
/// after the other. Comparing keys character by character compares the
/// lists component by component.
pub open spec fn codigo(cs: Seq<Componente>) -> Seq<u64>
    decreases cs.len(),
{
    if cs.len() == 0 {
        Seq::empty()
    } else {
        codigo(cs.drop_last()) + codigo_componente(cs.last())
    }
}

/// `a` comes strictly before `b`, character by character (a proper start
/// comes first).
pub open spec fn antes(a: Seq<u64>, b: Seq<u64>) -> bool
    decreases a.len(),
{
    if a.len() == 0 {
        b.len() > 0
    } else if b.len() == 0 {
        false
    } else if a[0] != b[0] {
        a[0] < b[0]
    } else {
        antes(a.drop_first(), b.drop_first())
    }
}

/// Two keys never come each before the other.
pub proof fn lema_antes_assimetrico(a: Seq<u64>, b: Seq<u64>)
    ensures
        !(antes(a, b) && antes(b, a)),
    decreases a.len(),
{
    if a.len() > 0 && b.len() > 0 && a[0] == b[0] {
        lema_antes_assimetrico(a.drop_first(), b.drop_first());
    }
}

/// Of two different keys, one comes before the other.
pub proof fn lema_antes_total(a: Seq<u64>, b: Seq<u64>)
    ensures
        a != b ==> antes(a, b) || antes(b, a),
    decreases a.len(),
{
    if a.len() > 0 && b.len() > 0 && a[0] == b[0] {
        lema_antes_total(a.drop_first(), b.drop_first());
        if a.drop_first() == b.drop_first() {
            assert(a =~= seq![a[0]] + a.drop_first());
            assert(b =~= seq![b[0]] + b.drop_first());
        }
    } else if a.len() == 0 && b.len() == 0 {
        assert(a =~= b);
    }
}

/// Coming before is transitive.
pub proof fn lema_antes_transitivo(a: Seq<u64>, b: Seq<u64>, c: Seq<u64>)
    requires
        antes(a, b),
        antes(b, c),
    ensures
        antes(a, c),
    decreases a.len(),
{
    if a.len() > 0 && b.len() > 0 && c.len() > 0 && a[0] == b[0] && b[0] == c[0] {
        lema_antes_transitivo(a.drop_first(), b.drop_first(), c.drop_first());
    }
}

/// "Not after" is transitive.
pub proof fn lema_nao_depois(a: Seq<u64>, b: Seq<u64>, c: Seq<u64>)
    requires
        !antes(b, a),
        !antes(c, b),
    ensures
        !antes(c, a),
{
    if antes(c, a) {
        lema_antes_total(b, c);
        if antes(b, c) {
            lema_antes_transitivo(b, c, a);
        }
    }
}

/// The sort key of a path.
pub open spec fn chave_de_ordem(s: Seq<u32>) -> Seq<u64> {
    codigo(componentes(s))
}

// ---------------------------------------------------------------------------
// The order itself
// ---------------------------------------------------------------------------

/// Texts compared code point by code point (case included); a
/// proper start comes first.
pub open spec fn texto_antes(a: Seq<u32>, b: Seq<u32>) -> bool
    decreases a.len(),
{
    if a.len() == 0 {
        b.len() > 0
    } else if b.len() == 0 {
        false
    } else if a[0] != b[0] {
        a[0] < b[0]
    } else {
        texto_antes(a.drop_first(), b.drop_first())
    }
}

/// The place of a prefix kind in the order.
pub open spec fn indice_prefixo(p: Prefixo) -> int {
    match p {
        Prefixo::Literal(_) => 1,
        Prefixo::LiteralUnc(_, _) => 2,
        Prefixo::LiteralDisco(_) => 3,
        Prefixo::Dispositivo(_) => 4,
        Prefixo::Unc(_, _) => 5,
        Prefixo::Disco(_) => 6,
    }
}

/// Prefixes compare by kind, then by their texts in order.
pub open spec fn prefixo_antes(p: Prefixo, q: Prefixo) -> bool {
    if indice_prefixo(p) != indice_prefixo(q) {
        indice_prefixo(p) < indice_prefixo(q)
    } else {
        match (p, q) {
            (Prefixo::Literal(a), Prefixo::Literal(b)) => texto_antes(a, b),
            (Prefixo::Dispositivo(a), Prefixo::Dispositivo(b)) => texto_antes(a, b),
            (Prefixo::LiteralUnc(a, b), Prefixo::LiteralUnc(c, d)) => texto_antes(a, c) || (a == c
                && texto_antes(b, d)),
            (Prefixo::Unc(a, b), Prefixo::Unc(c, d)) => texto_antes(a, c) || (a == c && texto_antes(
                b,
                d,
            )),
            (Prefixo::LiteralDisco(x), Prefixo::LiteralDisco(y)) => x < y,
            (Prefixo::Disco(x), Prefixo::Disco(y)) => x < y,
            _ => false,
        }
    }
}

/// The place of a component kind in the order.
pub open spec fn indice_componente(c: Componente) -> int {
    match c {
        Componente::Prefixo(_) => 1,
        Componente::Raiz => 2,
        Componente::Atual => 3,
        Componente::Acima => 4,
        Componente::Normal(_) => 5,
    }
}

/// Components compare by kind, then by content.
pub open spec fn componente_antes(c: Componente, d: Componente) -> bool {
    if indice_componente(c) != indice_componente(d) {
        indice_componente(c) < indice_componente(d)
    } else {
        match (c, d) {
            (Componente::Prefixo(p), Componente::Prefixo(q)) => prefixo_antes(p, q),
            (Componente::Normal(a), Componente::Normal(b)) => texto_antes(a, b),
            _ => false,
        }
    }
}

/// Lists of components compare by their first difference; a proper start
/// comes first. This is how paths are sorted.
pub open spec fn lista_antes(a: Seq<Componente>, b: Seq<Componente>) -> bool
    decreases a.len(),
{
    if a.len() == 0 {
        b.len() > 0
    } else if b.len() == 0 {
        false
    } else if a[0] != b[0] {
        componente_antes(a[0], b[0])
    } else {
        lista_antes(a.drop_first(), b.drop_first())
    }
}

proof fn lema_cod(x: u32, w: u32)
    ensures
        cod(x) >= 16,
        x != w ==> cod(x) != cod(w),
        (cod(x) < cod(w)) == (x < w),
{
}

proof fn lema_antes_mesmo_inicio(x: Seq<u64>, y: Seq<u64>, z: Seq<u64>)
    ensures
        antes(x + y, x + z) == antes(y, z),
    decreases x.len(),
{
    if x.len() == 0 {
        assert(x + y =~= y);
        assert(x + z =~= z);
    } else {
        assert((x + y).drop_first() =~= x.drop_first() + y);
        assert((x + z).drop_first() =~= x.drop_first() + z);
        assert((x + y)[0] == (x + z)[0]);
        lema_antes_mesmo_inicio(x.drop_first(), y, z);
    }
}

proof fn lema_texto_antes_irreflexivo(a: Seq<u32>)
    ensures
        !texto_antes(a, a),
    decreases a.len(),
{
    if a.len() > 0 {
        lema_texto_antes_irreflexivo(a.drop_first());
    }
}

proof fn lema_antes_texto(a: Seq<u32>, b: Seq<u32>, y: Seq<u64>, z: Seq<u64>)
    requires
        a != b,
    ensures
        antes(cod_texto(a) + seq![0u64] + y, cod_texto(b) + seq![0u64] + z) == texto_antes(a, b),
    decreases a.len(),
{
    let s1 = cod_texto(a) + seq![0u64] + y;
    let s2 = cod_texto(b) + seq![0u64] + z;
    if a.len() == 0 {
        assert(b.len() > 0) by {
            if b.len() == 0 {
                assert(a =~= b);
            }
        }
        assert(s1[0] == 0u64);
        assert(s2[0] == cod(b[0]));
        lema_cod(b[0], b[0]);
    } else if b.len() == 0 {
        assert(s2[0] == 0u64);
        assert(s1[0] == cod(a[0]));
        lema_cod(a[0], a[0]);
    } else if a[0] != b[0] {
        assert(s1[0] == cod(a[0]));
        assert(s2[0] == cod(b[0]));
        lema_cod(a[0], b[0]);
    } else {
        assert(s1[0] == s2[0]);
        assert(s1.drop_first() =~= cod_texto(a.drop_first()) + seq![0u64] + y);
        assert(s2.drop_first() =~= cod_texto(b.drop_first()) + seq![0u64] + z);
        assert(a.drop_first() != b.drop_first()) by {
            if a.drop_first() == b.drop_first() {
                assert(a =~= seq![a[0]] + a.drop_first());
                assert(b =~= seq![b[0]] + b.drop_first());
            }
        }
        lema_antes_texto(a.drop_first(), b.drop_first(), y, z);
    }
}

proof fn lema_antes_par(a: Seq<u32>, b: Seq<u32>, c: Seq<u32>, d: Seq<u32>, y: Seq<u64>, z: Seq<u64>)
    requires
        a != c || b != d,
    ensures
        antes(
            cod_texto(a) + seq![0u64] + cod_texto(b) + seq![0u64] + y,
            cod_texto(c) + seq![0u64] + cod_texto(d) + seq![0u64] + z,
        ) == (texto_antes(a, c) || (a == c && texto_antes(b, d))),
{
    if a != c {
        assert(cod_texto(a) + seq![0u64] + cod_texto(b) + seq![0u64] + y =~= cod_texto(a) + seq![
            0u64,
        ] + (cod_texto(b) + seq![0u64] + y));
        assert(cod_texto(c) + seq![0u64] + cod_texto(d) + seq![0u64] + z =~= cod_texto(c) + seq![
            0u64,
        ] + (cod_texto(d) + seq![0u64] + z));
        lema_antes_texto(a, c, cod_texto(b) + seq![0u64] + y, cod_texto(d) + seq![0u64] + z);
    } else {
        let x = cod_texto(a) + seq![0u64];
        assert(cod_texto(a) + seq![0u64] + cod_texto(b) + seq![0u64] + y =~= x + (cod_texto(b)
            + seq![0u64] + y));
        assert(cod_texto(c) + seq![0u64] + cod_texto(d) + seq![0u64] + z =~= x + (cod_texto(d)
            + seq![0u64] + z));
        lema_antes_mesmo_inicio(x, cod_texto(b) + seq![0u64] + y, cod_texto(d) + seq![0u64] + z);
        lema_antes_texto(b, d, y, z);
        lema_texto_antes_irreflexivo(a);
    }
}

#[verifier::rlimit(40)]
proof fn lema_antes_prefixo(p: Prefixo, q: Prefixo, y: Seq<u64>, z: Seq<u64>)
    requires
        p != q,
    ensures
        antes(codigo_prefixo(p) + y, codigo_prefixo(q) + z) == prefixo_antes(p, q),
{
    let s1 = codigo_prefixo(p) + y;
    let s2 = codigo_prefixo(q) + z;
    assert(s1[0] == 1u64 && s2[0] == 1u64);
    let t1 = s1.drop_first();
    let t2 = s2.drop_first();
    assert(t1[0] == indice_prefixo(p));
    assert(t2[0] == indice_prefixo(q));
    assert(antes(s1, s2) == antes(t1, t2));
    if indice_prefixo(p) == indice_prefixo(q) {
        let r1 = t1.drop_first();
        let r2 = t2.drop_first();
        assert(antes(t1, t2) == antes(r1, r2));
        match (p, q) {
            (Prefixo::Literal(a), Prefixo::Literal(b)) => {
                assert(r1 =~= cod_texto(a) + seq![0u64] + y);
                assert(r2 =~= cod_texto(b) + seq![0u64] + z);
                lema_antes_texto(a, b, y, z);
            },
            (Prefixo::Dispositivo(a), Prefixo::Dispositivo(b)) => {
                assert(r1 =~= cod_texto(a) + seq![0u64] + y);
                assert(r2 =~= cod_texto(b) + seq![0u64] + z);
                lema_antes_texto(a, b, y, z);
            },
            (Prefixo::LiteralUnc(a, b), Prefixo::LiteralUnc(c, d)) => {
                assert(r1 =~= cod_texto(a) + seq![0u64] + cod_texto(b) + seq![0u64] + y);
                assert(r2 =~= cod_texto(c) + seq![0u64] + cod_texto(d) + seq![0u64] + z);
                lema_antes_par(a, b, c, d, y, z);
            },
            (Prefixo::Unc(a, b), Prefixo::Unc(c, d)) => {
                assert(r1 =~= cod_texto(a) + seq![0u64] + cod_texto(b) + seq![0u64] + y);
                assert(r2 =~= cod_texto(c) + seq![0u64] + cod_texto(d) + seq![0u64] + z);
                lema_antes_par(a, b, c, d, y, z);
            },
            (Prefixo::LiteralDisco(x), Prefixo::LiteralDisco(w)) => {
                assert(r1[0] == cod(x) && r2[0] == cod(w));
                lema_cod(x, w);
            },
            (Prefixo::Disco(x), Prefixo::Disco(w)) => {
                assert(r1[0] == cod(x) && r2[0] == cod(w));
                lema_cod(x, w);
            },
            _ => {},
        }
    }
}

proof fn lema_antes_componente(c: Componente, d: Componente, y: Seq<u64>, z: Seq<u64>)
    requires
        c != d,
    ensures
        antes(codigo_componente(c) + y, codigo_componente(d) + z) == componente_antes(c, d),
{
    let s1 = codigo_componente(c) + y;
    let s2 = codigo_componente(d) + z;
    assert(s1[0] == indice_componente(c));
    assert(s2[0] == indice_componente(d));
    match (c, d) {
        (Componente::Prefixo(p), Componente::Prefixo(q)) => {
            lema_antes_prefixo(p, q, y, z);
        },
        (Componente::Normal(a), Componente::Normal(b)) => {
            assert(s1.drop_first() =~= cod_texto(a) + seq![0u64] + y);
            assert(s2.drop_first() =~= cod_texto(b) + seq![0u64] + z);
            lema_antes_texto(a, b, y, z);
        },
        _ => {},
    }
}

proof fn lema_codigo_primeiro(a: Seq<Componente>)
    requires
        a.len() > 0,
    ensures
        codigo(a) == codigo_componente(a[0]) + codigo(a.drop_first()),
{
    assert(a =~= seq![a[0]] + a.drop_first());
    lema_codigo_soma(seq![a[0]], a.drop_first());
    lema_codigo_um(a[0]);
}

proof fn lema_codigo_vazio(a: Seq<Componente>)
    ensures
        (codigo(a).len() == 0) == (a.len() == 0),
    decreases a.len(),
{
    if a.len() > 0 {
        lema_codigo_vazio(a.drop_last());
        assert(codigo_componente(a.last()).len() > 0);
    }
}

/// The sort keys order paths as their components do: comparing two keys
/// character by character gives the order of `lista_antes`.
pub proof fn lei_chave_ordena_componentes(a: Seq<Componente>, b: Seq<Componente>)
    ensures
        antes(codigo(a), codigo(b)) == lista_antes(a, b),
    decreases a.len(),
{
    lema_codigo_vazio(a);
    lema_codigo_vazio(b);
    if a.len() > 0 && b.len() > 0 {
        lema_codigo_primeiro(a);
        lema_codigo_primeiro(b);
        if a[0] == b[0] {
            lema_antes_mesmo_inicio(
                codigo_componente(a[0]),
                codigo(a.drop_first()),
                codigo(b.drop_first()),
            );
            lei_chave_ordena_componentes(a.drop_first(), b.drop_first());
        } else {
            lema_antes_componente(a[0], b[0], codigo(a.drop_first()), codigo(b.drop_first()));
        }
    }
}

// ---------------------------------------------------------------------------
// Computing keys
// ---------------------------------------------------------------------------

proof fn lema_fim_do_nome(s: Seq<u32>, i: int, literal: bool)
    requires
        0 <= i <= s.len(),
    ensures
        i <= fim_do_nome(s, i, literal) <= s.len(),
        forall|k: int| i <= k < fim_do_nome(s, i, literal) ==> !barra(#[trigger] s[k], literal),
        fim_do_nome(s, i, literal) < s.len() ==> barra(s[fim_do_nome(s, i, literal)], literal),
    decreases s.len() - i,
{
    if i < s.len() && !barra(s[i], literal) {
        lema_fim_do_nome(s, i + 1, literal);
    }
}

fn eh_barra(c: u32, literal: bool) -> (r: bool)
    ensures
        r == barra(c, literal),
{
    c == 92 || (!literal && c == 47)
}

/// The first separator at or after `i`, or the end.
fn fim_nome(v: &Vec<u32>, i: usize, literal: bool) -> (r: usize)
    requires
        i <= v.len(),
    ensures
        r == fim_do_nome(v@, i as int, literal),
        i <= r <= v.len(),
{
    let mut j: usize = i;
    while j < v.len() && !eh_barra(v[j], literal)
        invariant
            i <= j <= v.len(),
            fim_do_nome(v@, i as int, literal) == fim_do_nome(v@, j as int, literal),
        decreases v.len() - j,
    {
        j = j + 1;
    }
    j
}

fn cod_exec(c: u32) -> (r: u64)
    ensures
        r == cod(c),
{
    (c as u64) + 16
}

fn eh_letra(c: u32) -> (r: bool)
    ensures
        r == letra(c),
{
    (97 <= c && c <= 122) || (65 <= c && c <= 90)
}

fn maiuscula_exec(c: u32) -> (r: u32)
    ensures
        r == maiuscula(c),
{
    if 97 <= c && c <= 122 {
        c - 32
    } else {
        c
    }
}

/// Appends the key of `v[a..b]`.
fn empurrar_texto(out: &mut Vec<u64>, v: &Vec<u32>, a: usize, b: usize)
    requires
        a <= b <= v.len(),
    ensures
        final(out)@ == old(out)@ + cod_texto(v@.subrange(a as int, b as int)),
{
    let ghost inicio = out@;
    let mut k: usize = a;
    while k < b
        invariant
            a <= k <= b <= v.len(),
            out@ == inicio + cod_texto(v@.subrange(a as int, k as int)),
        decreases b - k,
    {
        let c = cod_exec(v[k]);
        out.push(c);
        k = k + 1;
        assert(cod_texto(v@.subrange(a as int, k as int)) =~= cod_texto(
            v@.subrange(a as int, k - 1),
        ).push(cod(v@[k - 1])));
    }
}

/// The prefix of a path: how many characters it takes, its key, whether
/// the path is literal (`\\?\`) and whether the prefix stands for a root.
fn prefixo_exec(v: &Vec<u32>) -> (r: (usize, Vec<u64>, bool, bool))
    ensures
        r.0 == analise_prefixo(v@).1,
        r.1@ == (match analise_prefixo(v@).0 {
            Some(q) => codigo_prefixo(q),
            None => Seq::empty(),
        }),
        r.2 == eh_literal(analise_prefixo(v@).0),
        r.3 == raiz_no_prefixo(analise_prefixo(v@).0),
        r.0 <= v.len(),
{
    let n: usize = v.len();
    let mut out: Vec<u64> = Vec::new();
    if n >= 2 && eh_barra(v[0], false) && eh_barra(v[1], false) {
        if n >= 4 && v[0] == 92 && v[1] == 92 && v[2] == 63 && v[3] == 92 {
            if n >= 8 && v[4] == 85 && v[5] == 78 && v[6] == 67 && eh_barra(v[7], false) {
                let a = fim_nome(v, 8, true);
                out.push(1);
                out.push(2);
                empurrar_texto(&mut out, v, 8, a);
                out.push(0);
                if a < n {
                    let b = fim_nome(v, a + 1, true);
                    empurrar_texto(&mut out, v, a + 1, b);
                    out.push(0);
                    let ghost q = Prefixo::LiteralUnc(v@.subrange(8, a as int), v@.subrange(a + 1, b as int));
                    assert(out@ =~= codigo_prefixo(q));
                    if b > a + 1 {
                        (b, out, true, true)
                    } else {
                        (a, out, true, true)
                    }
                } else {
                    out.push(0);
                    let ghost q = Prefixo::LiteralUnc(v@.subrange(8, a as int), Seq::empty());
                    assert(cod_texto(Seq::<u32>::empty()) =~= Seq::<u64>::empty());
                    assert(out@ =~= codigo_prefixo(q));
                    (a, out, true, true)
                }
            } else if n >= 6 && eh_letra(v[4]) && v[5] == 58 && (n == 6 || v[6] == 92) {
                out.push(1);
                out.push(3);
                let m = maiuscula_exec(v[4]);
                out.push(cod_exec(m));
                out.push(0);
                assert(out@ =~= codigo_prefixo(Prefixo::LiteralDisco(maiuscula(v@[4]))));
                (6, out, true, true)
            } else {
                let a = fim_nome(v, 4, true);
                out.push(1);
                out.push(1);
                empurrar_texto(&mut out, v, 4, a);
                out.push(0);
                assert(out@ =~= codigo_prefixo(Prefixo::Literal(v@.subrange(4, a as int))));
                (a, out, true, true)
            }
        } else if n >= 4 && v[2] == 46 && eh_barra(v[3], false) {
            let a = fim_nome(v, 4, false);
            out.push(1);
            out.push(4);
            empurrar_texto(&mut out, v, 4, a);
            out.push(0);
            assert(out@ =~= codigo_prefixo(Prefixo::Dispositivo(v@.subrange(4, a as int))));
            (a, out, false, true)
        } else {
            let a = fim_nome(v, 2, false);
            if a < n {
                let b = fim_nome(v, a + 1, false);
                if a > 2 && b > a + 1 {
                    out.push(1);
                    out.push(5);
                    empurrar_texto(&mut out, v, 2, a);
                    out.push(0);
                    empurrar_texto(&mut out, v, a + 1, b);
                    out.push(0);
                    assert(out@ =~= codigo_prefixo(
                        Prefixo::Unc(v@.subrange(2, a as int), v@.subrange(a + 1, b as int)),
                    ));
                    (b, out, false, true)
                } else {
                    (0, out, false, false)
                }
            } else {
                (0, out, false, false)
            }
        }
    } else if n >= 2 && eh_letra(v[0]) && v[1] == 58 {
        out.push(1);
        out.push(6);
        let m = maiuscula_exec(v[0]);
        out.push(cod_exec(m));
        out.push(0);
        assert(out@ =~= codigo_prefixo(Prefixo::Disco(maiuscula(v@[0]))));
        (2, out, false, false)
    } else {
        (0, out, false, false)
    }
}

proof fn lema_codigo_soma(a: Seq<Componente>, b: Seq<Componente>)
    ensures
        codigo(a + b) == codigo(a) + codigo(b),
    decreases b.len(),
{
    if b.len() == 0 {
        assert(a + b =~= a);
        assert(codigo(a) + codigo(b) =~= codigo(a));
    } else {
        lema_codigo_soma(a, b.drop_last());
        assert((a + b).drop_last() =~= a + b.drop_last());
        assert((a + b).last() == b.last());
        assert(codigo(a + b) =~= codigo(a) + codigo(b));
    }
}

proof fn lema_codigo_um(c: Componente)
    ensures
        codigo(seq![c]) == codigo_componente(c),
{
    let s = seq![c];
    assert(s.drop_last() =~= Seq::<Componente>::empty());
    assert(codigo(Seq::<Componente>::empty()) =~= Seq::<u64>::empty());
    assert(s.last() == c);
    assert(codigo(s) == codigo(s.drop_last()) + codigo_componente(s.last()));
    assert(codigo(s) =~= codigo_componente(c));
}

/// Appends the key of what the piece `v[a..b]` stands for.
fn emitir(out: &mut Vec<u64>, v: &Vec<u32>, a: usize, b: usize, literal: bool)
    requires
        a <= b <= v.len(),
    ensures
        final(out)@ == old(out)@ + codigo(componente_de(v@.subrange(a as int, b as int), literal)),
{
    let ghost seg = v@.subrange(a as int, b as int);
    if b == a {
        assert(seg.len() == 0);
        assert(codigo(Seq::<Componente>::empty()) =~= Seq::<u64>::empty());
        assert(out@ =~= old(out)@ + codigo(componente_de(seg, literal)));
    } else if b - a == 1 && v[a] == 46 {
        assert(seg =~= seq![46u32]);
        if literal {
            out.push(3);
            out.push(0);
            proof {
                lema_codigo_um(Componente::Atual);
            }
            assert(out@ =~= old(out)@ + codigo(componente_de(seg, literal)));
        } else {
            assert(codigo(Seq::<Componente>::empty()) =~= Seq::<u64>::empty());
            assert(out@ =~= old(out)@ + codigo(componente_de(seg, literal)));
        }
    } else if b - a == 2 && v[a] == 46 && v[a + 1] == 46 {
        assert(seg =~= seq![46u32, 46u32]);
        assert(seg != seq![46u32]) by {
            assert(seg.len() == 2);
        }
        out.push(4);
        out.push(0);
        proof {
            lema_codigo_um(Componente::Acima);
        }
        assert(out@ =~= old(out)@ + codigo(componente_de(seg, literal)));
    } else {
        assert(seg != seq![46u32]) by {
            if seg == seq![46u32] {
                assert(seg.len() == 1 && seg[0] == v@[a as int]);
            }
        }
        assert(seg != seq![46u32, 46u32]) by {
            if seg == seq![46u32, 46u32] {
                assert(seg.len() == 2 && seg[0] == v@[a as int] && seg[1] == v@[a + 1]);
            }
        }
        out.push(5);
        empurrar_texto(out, v, a, b);
        out.push(0);
        proof {
            lema_codigo_um(Componente::Normal(seg));
        }
        assert(out@ =~= old(out)@ + codigo(componente_de(seg, literal)));
    }
}

/// The key of the components before the names, where the names start and
/// whether the path is literal.
fn cabeca_exec(v: &Vec<u32>) -> (r: (Vec<u64>, usize, bool, bool))
    ensures
        r.0@ == codigo(cabeca(v@)),
        r.1 == inicio_do_corpo(v@),
        r.1 <= v.len(),
        r.2 == eh_literal(analise_prefixo(v@).0),
        r.3 == atual_inicial(v@),
{
    let (n, mut out, literal, raiz_prefixo) = prefixo_exec(&v);
    let ghost p = analise_prefixo(v@).0;
    let ghost cab_prefixo: Seq<Componente> = match p {
        Some(q) => seq![Componente::Prefixo(q)],
        None => Seq::empty(),
    };
    proof {
        match p {
            Some(q) => lema_codigo_um(Componente::Prefixo(q)),
            None => {
                assert(codigo(Seq::<Componente>::empty()) =~= Seq::<u64>::empty());
            },
        }
    }
    assert(out@ == codigo(cab_prefixo));
    let len: usize = v.len();
    let raiz = n < len && eh_barra(v[n], literal);
    let tem = raiz || raiz_prefixo;
    let atual = !tem && n < len && v[n] == 46 && (n + 1 == len || eh_barra(v[n + 1], literal));
    assert(raiz == raiz_fisica(v@));
    assert(tem == tem_raiz(v@));
    assert(atual == atual_inicial(v@));
    let ghost resto: Seq<Componente> = if raiz || (raiz_prefixo && !literal) {
        seq![Componente::Raiz]
    } else if atual {
        seq![Componente::Atual]
    } else {
        Seq::empty()
    };
    if raiz || (raiz_prefixo && !literal) {
        out.push(2);
        out.push(0);
        proof {
            lema_codigo_um(Componente::Raiz);
        }
    } else if atual {
        out.push(3);
        out.push(0);
        proof {
            lema_codigo_um(Componente::Atual);
        }
    } else {
        assert(codigo(Seq::<Componente>::empty()) =~= Seq::<u64>::empty());
    }
    proof {
        lema_codigo_soma(cab_prefixo, resto);
    }
    assert(cabeca(v@) == cab_prefixo + resto);
    assert(out@ =~= codigo(cabeca(v@)));
    let inicio: usize = if raiz || atual {
        n + 1
    } else {
        n
    };
    (out, inicio, literal, atual)
}

/// Appends the key of the names of `v`, from `inicio` on.
fn corpo_exec(out: &mut Vec<u64>, v: &Vec<u32>, inicio: usize, literal: bool)
    requires
        inicio <= v.len(),
    ensures
        final(out)@ == old(out)@ + codigo(corpo(segmentos(v@.skip(inicio as int), literal), literal)),
{
    let ghost cab = out@;
    let len: usize = v.len();
    let mut ini: usize = inicio;
    let mut i: usize = inicio;
    assert(v@.subrange(inicio as int, inicio as int) =~= Seq::<u32>::empty());
    assert(codigo(Seq::<Componente>::empty()) =~= Seq::<u64>::empty());
    assert(out@ =~= cab + codigo(corpo(Seq::<Seq<u32>>::empty(), literal)));
    while i < len
        invariant
            len == v.len(),
            inicio <= ini <= i <= len,
            out@ == cab + codigo(
                corpo(partes(v@.subrange(inicio as int, i as int), literal).0, literal),
            ),
            partes(v@.subrange(inicio as int, i as int), literal).1 == v@.subrange(
                ini as int,
                i as int,
            ),
        decreases len - i,
    {
        let ghost t = v@.subrange(inicio as int, i + 1);
        assert(t.drop_last() =~= v@.subrange(inicio as int, i as int));
        assert(t.last() == v@[i as int]);
        if eh_barra(v[i], literal) {
            let ghost f = partes(v@.subrange(inicio as int, i as int), literal).0;
            let ghost seg = v@.subrange(ini as int, i as int);
            emitir(out, v, ini, i, literal);
            proof {
                assert(f.push(seg).drop_last() =~= f);
                lema_codigo_soma(corpo(f, literal), componente_de(seg, literal));
            }
            ini = i + 1;
            assert(v@.subrange(ini as int, i + 1) =~= Seq::<u32>::empty());
        } else {
            assert(v@.subrange(ini as int, i + 1) =~= v@.subrange(ini as int, i as int).push(
                v@[i as int],
            ));
        }
        i = i + 1;
    }
    let ghost f = partes(v@.subrange(inicio as int, len as int), literal).0;
    let ghost seg = v@.subrange(ini as int, len as int);
    emitir(out, v, ini, len, literal);
    proof {
        assert(f.push(seg).drop_last() =~= f);
        lema_codigo_soma(corpo(f, literal), componente_de(seg, literal));
        assert(v@.subrange(inicio as int, len as int) =~= v@.skip(inicio as int));
    }
}

/// The code points of a text.
pub open spec fn pontos(s: Seq<char>) -> Seq<u32> {
    s.map_values(|c: char| c as u32)
}

/// The code points of `caminho` (see `pontos`).
pub fn pontos_de(caminho: &str) -> (r: Vec<u32>)
    ensures
        r@ == pontos(caminho@),
{
    let v = caracteres(caminho);
    let mut r: Vec<u32> = Vec::new();
    let mut i: usize = 0;
    while i < v.len()
        invariant
            i <= v.len(),
            v@ == caminho@,
            r@ == pontos(v@.take(i as int)),
        decreases v.len() - i,
    {
        r.push(v[i] as u32);
        i = i + 1;
        assert(r@ =~= pontos(v@.take(i as int)));
    }
    assert(v@.take(v.len() as int) =~= v@);
    r
}

/// The sort key of a path given as text (see `chave_de_ordem`): paths sort
/// as their keys do under `antes`.
pub fn chave_ordem(caminho: &str) -> (r: Vec<u64>)
    ensures
        r@ == chave_de_ordem(pontos(caminho@)),
{
    chave_ordem_pontos(&pontos_de(caminho))
}

/// The sort key of a path given as code points (see `chave_de_ordem`).
pub fn chave_ordem_pontos(v: &Vec<u32>) -> (r: Vec<u64>)
    ensures
        r@ == chave_de_ordem(v@),
{
    let (mut out, inicio, literal, _atual) = cabeca_exec(v);
    corpo_exec(&mut out, v, inicio, literal);
    proof {
        lema_codigo_soma(cabeca(v@), corpo(segmentos(v@.skip(inicio as int), literal), literal));
    }
    out
}

// ---------------------------------------------------------------------------
// File name
// ---------------------------------------------------------------------------

/// The name a list of components ends with, if it ends with a name.
pub open spec fn nome_final(cs: Seq<Componente>) -> Option<Seq<u32>> {
    if cs.len() > 0 {
        match cs.last() {
            Componente::Normal(n) => Some(n),
            _ => None,
        }
    } else {
        None
    }
}

proof fn lema_nome_final_soma(a: Seq<Componente>, b: Seq<Componente>)
    ensures
        nome_final(a + b) == (if b.len() > 0 {
            nome_final(b)
        } else {
            nome_final(a)
        }),
{
    if b.len() == 0 {
        assert(a + b =~= a);
    } else {
        assert((a + b).last() == b.last());
    }
}

/// The name the components of `v` end with, as a range of `v` (`None`: they
/// do not end with a name).
pub(crate) fn nome_final_exec(v: &Vec<u32>) -> (r: Option<(usize, usize)>)
    ensures
        match r {
            Some((a, b)) => a <= b <= v.len() && nome_final(componentes(v@)) == Some(
                v@.subrange(a as int, b as int),
            ),
            None => nome_final(componentes(v@)) is None,
        },
{
    let (_cab, inicio, literal, _atual) = cabeca_exec(v);
    let len: usize = v.len();
    let mut ini: usize = inicio;
    let mut i: usize = inicio;
    let mut ult: Option<(usize, usize)> = None;
    assert(v@.subrange(inicio as int, inicio as int) =~= Seq::<u32>::empty());
    while i < len
        invariant
            len == v.len(),
            inicio <= ini <= i <= len,
            partes(v@.subrange(inicio as int, i as int), literal).1 == v@.subrange(
                ini as int,
                i as int,
            ),
            match ult {
                Some((a, b)) => a <= b <= len && nome_final(
                    corpo(partes(v@.subrange(inicio as int, i as int), literal).0, literal),
                ) == Some(v@.subrange(a as int, b as int)),
                None => nome_final(
                    corpo(partes(v@.subrange(inicio as int, i as int), literal).0, literal),
                ) is None,
            },
        decreases len - i,
    {
        let ghost t = v@.subrange(inicio as int, i + 1);
        assert(t.drop_last() =~= v@.subrange(inicio as int, i as int));
        assert(t.last() == v@[i as int]);
        if eh_barra(v[i], literal) {
            let ghost f = partes(v@.subrange(inicio as int, i as int), literal).0;
            let ghost seg = v@.subrange(ini as int, i as int);
            proof {
                assert(f.push(seg).drop_last() =~= f);
                lema_nome_final_soma(corpo(f, literal), componente_de(seg, literal));
            }
            ult = proximo_nome(v, ini, i, literal, ult);
            ini = i + 1;
            assert(v@.subrange(ini as int, i + 1) =~= Seq::<u32>::empty());
        } else {
            assert(v@.subrange(ini as int, i + 1) =~= v@.subrange(ini as int, i as int).push(
                v@[i as int],
            ));
        }
        i = i + 1;
    }
    let ghost f = partes(v@.subrange(inicio as int, len as int), literal).0;
    let ghost seg = v@.subrange(ini as int, len as int);
    proof {
        assert(f.push(seg).drop_last() =~= f);
        lema_nome_final_soma(corpo(f, literal), componente_de(seg, literal));
        assert(v@.subrange(inicio as int, len as int) =~= v@.skip(inicio as int));
    }
    let r = proximo_nome(v, ini, len, literal, ult);
    proof {
        let c = corpo(segmentos(v@.skip(inicio as int), literal), literal);
        lema_nome_final_soma(cabeca(v@), c);
        if c.len() == 0 {
            let cab = cabeca(v@);
            if cab.len() > 0 {
                assert(!(cab.last() is Normal));
            }
        }
    }
    r
}

/// The path has a parent: its last component is a name, `.` or `..`.
pub open spec fn pai_existe(cs: Seq<Componente>) -> bool {
    cs.len() > 0 && match cs.last() {
        Componente::Normal(_) => true,
        Componente::Atual => true,
        Componente::Acima => true,
        _ => false,
    }
}

proof fn lema_corpo_tem_pai(segs: Seq<Seq<u32>>, literal: bool)
    ensures
        corpo(segs, literal).len() > 0 ==> pai_existe(corpo(segs, literal)),
    decreases segs.len(),
{
    if segs.len() > 0 {
        lema_corpo_tem_pai(segs.drop_last(), literal);
        let a = corpo(segs.drop_last(), literal);
        let b = componente_de(segs.last(), literal);
        if b.len() > 0 {
            assert((a + b).last() == b.last());
        } else {
            assert(a + b =~= a);
        }
    }
}

/// The piece `v[a..b]` stands for a component.
fn produz(v: &Vec<u32>, a: usize, b: usize, literal: bool) -> (r: bool)
    requires
        a <= b <= v.len(),
    ensures
        r == (componente_de(v@.subrange(a as int, b as int), literal).len() > 0),
{
    let ghost seg = v@.subrange(a as int, b as int);
    if b == a {
        false
    } else if b - a == 1 && v[a] == 46 {
        assert(seg =~= seq![46u32]);
        literal
    } else {
        assert(seg != seq![46u32]) by {
            if seg == seq![46u32] {
                assert(seg.len() == 1 && seg[0] == v@[a as int]);
            }
        }
        true
    }
}

/// Does the path `v` have a parent (see `pai_existe`)?
pub(crate) fn pai_existe_exec(v: &Vec<u32>) -> (r: bool)
    ensures
        r == pai_existe(componentes(v@)),
{
    let (_cab, inicio, literal, atual) = cabeca_exec(v);
    let len: usize = v.len();
    let mut ini: usize = inicio;
    let mut i: usize = inicio;
    let mut algum = false;
    assert(v@.subrange(inicio as int, inicio as int) =~= Seq::<u32>::empty());
    while i < len
        invariant
            len == v.len(),
            inicio <= ini <= i <= len,
            partes(v@.subrange(inicio as int, i as int), literal).1 == v@.subrange(
                ini as int,
                i as int,
            ),
            algum == (corpo(partes(v@.subrange(inicio as int, i as int), literal).0, literal).len()
                > 0),
        decreases len - i,
    {
        let ghost t = v@.subrange(inicio as int, i + 1);
        assert(t.drop_last() =~= v@.subrange(inicio as int, i as int));
        assert(t.last() == v@[i as int]);
        if eh_barra(v[i], literal) {
            let ghost f = partes(v@.subrange(inicio as int, i as int), literal).0;
            let ghost seg = v@.subrange(ini as int, i as int);
            proof {
                assert(f.push(seg).drop_last() =~= f);
            }
            let p = produz(v, ini, i, literal);
            algum = algum || p;
            ini = i + 1;
            assert(v@.subrange(ini as int, i + 1) =~= Seq::<u32>::empty());
        } else {
            assert(v@.subrange(ini as int, i + 1) =~= v@.subrange(ini as int, i as int).push(
                v@[i as int],
            ));
        }
        i = i + 1;
    }
    let ghost f = partes(v@.subrange(inicio as int, len as int), literal).0;
    let ghost seg = v@.subrange(ini as int, len as int);
    let p = produz(v, ini, len, literal);
    proof {
        assert(f.push(seg).drop_last() =~= f);
        assert(v@.subrange(inicio as int, len as int) =~= v@.skip(inicio as int));
        let c = corpo(segmentos(v@.skip(inicio as int), literal), literal);
        lema_corpo_tem_pai(segmentos(v@.skip(inicio as int), literal), literal);
        let cab = cabeca(v@);
        if c.len() > 0 {
            assert((cab + c).last() == c.last());
        } else {
            assert(cab + c =~= cab);
        }
    }
    algum || p || atual
}

/// The last name after the piece `v[a..b]` (`ult`: the last name before it).
fn proximo_nome(v: &Vec<u32>, a: usize, b: usize, literal: bool, ult: Option<(usize, usize)>) -> (r:
    Option<(usize, usize)>)
    requires
        a <= b <= v.len(),
        match ult {
            Some((x, y)) => x <= y <= v.len(),
            None => true,
        },
    ensures
        match r {
            Some((x, y)) => x <= y <= v.len(),
            None => true,
        },
        componente_de(v@.subrange(a as int, b as int), literal).len() == 0 ==> r == ult,
        componente_de(v@.subrange(a as int, b as int), literal).len() > 0 ==> match r {
            Some((x, y)) => nome_final(componente_de(v@.subrange(a as int, b as int), literal))
                == Some(v@.subrange(x as int, y as int)),
            None => nome_final(componente_de(v@.subrange(a as int, b as int), literal)) is None,
        },
{
    let ghost seg = v@.subrange(a as int, b as int);
    if b == a {
        ult
    } else if b - a == 1 && v[a] == 46 {
        assert(seg =~= seq![46u32]);
        if literal {
            None
        } else {
            ult
        }
    } else if b - a == 2 && v[a] == 46 && v[a + 1] == 46 {
        assert(seg =~= seq![46u32, 46u32]);
        assert(seg != seq![46u32]) by {
            assert(seg.len() == 2);
        }
        None
    } else {
        assert(seg != seq![46u32]) by {
            if seg == seq![46u32] {
                assert(seg.len() == 1 && seg[0] == v@[a as int]);
            }
        }
        assert(seg != seq![46u32, 46u32]) by {
            if seg == seq![46u32, 46u32] {
                assert(seg.len() == 2 && seg[0] == v@[a as int] && seg[1] == v@[a + 1]);
            }
        }
        Some((a, b))
    }
}

/// Does `a` come strictly before `b` (see `antes`)?
pub fn vem_antes(a: &Vec<u64>, b: &Vec<u64>) -> (r: bool)
    ensures
        r == antes(a@, b@),
{
    let mut i: usize = 0;
    assert(a@.skip(0) =~= a@ && b@.skip(0) =~= b@);
    while i < a.len() && i < b.len() && a[i] == b[i]
        invariant
            i <= a.len(),
            i <= b.len(),
            antes(a@, b@) == antes(a@.skip(i as int), b@.skip(i as int)),
        decreases a.len() - i,
    {
        assert(a@.skip(i as int).drop_first() =~= a@.skip(i + 1));
        assert(b@.skip(i as int).drop_first() =~= b@.skip(i + 1));
        i = i + 1;
    }
    if i == a.len() {
        i < b.len()
    } else if i == b.len() {
        false
    } else {
        a[i] < b[i]
    }
}

} // verus!
