//! Path text, dates and small text formats.
//!
//! Paths are Windows paths given as text (already made absolute by the caller)
//! or as their UTF-16 code units.

use vstd::prelude::*;
use vstd::string::StrSliceExecFns;
use vstd::string::StringExecFns;

use crate::ordem::{
    analise_prefixo, componentes, eh_literal, nome_final, nome_final_exec, pai_existe, pai_existe_exec,
    pontos, pontos_de,
};
use crate::texto::{
    acrescentar, caracteres, comeca_com, copiar_desde, copiar_trecho, decimal, decimal_com_zeros,
    escrever_com_zeros, escrever_decimal, texto_de,
};

verus! {

/// What `str::to_lowercase` returns for a string (full Unicode lower-casing).
pub uninterp spec fn minusculas(s: Seq<char>) -> Seq<char>;

/// Calls `str::to_lowercase`; the result is named, not described.
#[verifier::external_body]
fn para_minusculas(s: &str) -> (r: String)
    ensures
        r@ == minusculas(s@),
{
    s.to_lowercase()
}

/// `'/'` becomes `'\'`; every other character stays.
pub open spec fn trocar_barras(s: Seq<char>) -> Seq<char> {
    s.map_values(|c: char| if c == '/' { '\\' } else { c })
}

/// `\\?\UNC\`
pub open spec fn prefixo_unc() -> Seq<char> {
    seq!['\\', '\\', '?', '\\', 'U', 'N', 'C', '\\']
}

/// `\\?\`
pub open spec fn prefixo_literal() -> Seq<char> {
    seq!['\\', '\\', '?', '\\']
}

/// Drops the "verbatim" prefix: `\\?\UNC\server\x` becomes `\\server\x`,
/// `\\?\D:\x` becomes `D:\x`.
pub open spec fn sem_prefixo_literal(s: Seq<char>) -> Seq<char> {
    if prefixo_unc().is_prefix_of(s) {
        seq!['\\', '\\'] + s.skip(8)
    } else if prefixo_literal().is_prefix_of(s) {
        s.skip(4)
    } else {
        s
    }
}

/// A path with backslashes only and no verbatim prefix.
pub open spec fn normalizado(s: Seq<char>) -> Seq<char> {
    sem_prefixo_literal(trocar_barras(s))
}

/// A lower-cased path ending in exactly the `'\'` that it had or that is
/// added.
pub open spec fn chave_de_minusculas(m: Seq<char>) -> Seq<char> {
    if m.len() > 0 && m.last() == '\\' {
        m
    } else {
        m.push('\\')
    }
}

/// The comparison key of a path: backslashes only, no verbatim prefix,
/// lower case, and ending in exactly the `'\'` that it had or that is added.
pub open spec fn chave(s: Seq<char>) -> Seq<char> {
    chave_de_minusculas(minusculas(normalizado(s)))
}

/// `filho` is `pai` or lies below it.
pub open spec fn dentro(filho: Seq<char>, pai: Seq<char>) -> bool {
    chave(pai).is_prefix_of(chave(filho))
}

/// The path with `'/'` turned into `'\'` and without a verbatim prefix
/// (`\\?\UNC\server\x` becomes `\\server\x`, `\\?\D:\x` becomes `D:\x`).
pub fn normalizar(caminho: &str) -> (r: String)
    ensures
        r@ == normalizado(caminho@),
{
    let v = caracteres(caminho);
    let mut barras: Vec<char> = Vec::new();
    let mut i: usize = 0;
    while i < v.len()
        invariant
            i <= v.len(),
            barras@ == trocar_barras(v@.subrange(0, i as int)),
        decreases v.len() - i,
    {
        let c = v[i];
        barras.push(if c == '/' { '\\' } else { c });
        i = i + 1;
        assert(barras@ =~= trocar_barras(v@.subrange(0, i as int)));
    }
    assert(v@.subrange(0, v@.len() as int) =~= v@);
    let unc = vec!['\\', '\\', '?', '\\', 'U', 'N', 'C', '\\'];
    let literal = vec!['\\', '\\', '?', '\\'];
    assert(unc@ =~= prefixo_unc());
    assert(literal@ =~= prefixo_literal());
    if comeca_com(&barras, &unc) {
        let resto = copiar_desde(&barras, 8);
        let mut t = texto_de(&vec!['\\', '\\']);
        acrescentar(&mut t, &resto);
        t
    } else if comeca_com(&barras, &literal) {
        texto_de(&copiar_desde(&barras, 4))
    } else {
        texto_de(&barras)
    }
}

/// The key of a path from its lower-cased normal form: a `'\'` is added
/// unless it already ends in one.
pub fn chave_de_minusculas_exec(m: &str) -> (r: String)
    ensures
        r@ == chave_de_minusculas(m@),
{
    let mc = caracteres(m);
    let mut r = texto_de(&mc);
    if !(mc.len() > 0 && mc[mc.len() - 1] == '\\') {
        r.push('\\');
    }
    r
}

/// Normalised text of an (absolute) path, for comparisons.
pub fn chave_caminho(caminho: &str) -> (r: String)
    ensures
        r@ == chave(caminho@),
{
    let n = normalizar(caminho);
    let m = para_minusculas(n.as_str());
    chave_de_minusculas_exec(m.as_str())
}

/// Is `filho` inside `pai` (or `pai` itself)?
pub fn esta_dentro(filho: &str, pai: &str) -> (r: bool)
    ensures
        r == dentro(filho@, pai@),
{
    let f = chave_caminho(filho);
    let p = chave_caminho(pai);
    comeca_com(&caracteres(f.as_str()), &caracteres(p.as_str()))
}

/// Do `a` and `b` name the same place?
pub fn mesmo_caminho(a: &str, b: &str) -> (r: bool)
    ensures
        r == (chave(a@) == chave(b@)),
{
    chave_caminho(a) == chave_caminho(b)
}

/// Every path is inside itself.
pub proof fn lei_dentro_de_si(p: Seq<char>)
    ensures
        dentro(p, p),
{
    assert(chave(p).subrange(0, chave(p).len() as int) =~= chave(p));
}

/// Being inside is transitive.
pub proof fn lei_dentro_transitivo(a: Seq<char>, b: Seq<char>, c: Seq<char>)
    requires
        dentro(a, b),
        dentro(b, c),
    ensures
        dentro(a, c),
{
    let (ka, kb, kc) = (chave(a), chave(b), chave(c));
    assert forall|i: int| 0 <= i < kc.len() implies kc[i] == ka[i] by {
        assert(kc[i] == kb.subrange(0, kc.len() as int)[i]);
        assert(kb[i] == ka.subrange(0, kb.len() as int)[i]);
    }
    assert(kc =~= ka.subrange(0, kc.len() as int));
}

/// Two paths that are the same place are each inside the other.
pub proof fn lei_mesmo_caminho_dentro(a: Seq<char>, b: Seq<char>)
    requires
        chave(a) == chave(b),
    ensures
        dentro(a, b),
        dentro(b, a),
{
    lei_dentro_de_si(a);
}

// ---------------------------------------------------------------------------
// Dates
// ---------------------------------------------------------------------------

/// Local date and time, as Windows reports it.
#[derive(Clone, Copy, Debug, PartialEq, Eq)]
pub struct Agora {
    pub ano: u16,
    pub mes: u16,
    pub dia: u16,
    pub hora: u16,
    pub minuto: u16,
    pub segundo: u16,
}

/// `{:02}`
pub open spec fn dois(n: u16) -> Seq<char> {
    decimal_com_zeros(n as nat, 2)
}

/// `{:04}`
pub open spec fn quatro(n: u16) -> Seq<char> {
    decimal_com_zeros(n as nat, 4)
}

impl Agora {
    /// `2026-09`
    pub open spec fn texto_ano_mes(&self) -> Seq<char> {
        quatro(self.ano) + seq!['-'] + dois(self.mes)
    }

    /// `2026-09-24`
    pub open spec fn texto_ano_mes_dia(&self) -> Seq<char> {
        self.texto_ano_mes() + seq!['-'] + dois(self.dia)
    }

    /// `24/09/2026 14:30:05`
    pub open spec fn texto_legivel(&self) -> Seq<char> {
        dois(self.dia) + seq!['/'] + dois(self.mes) + seq!['/'] + quatro(self.ano) + seq![' ']
            + dois(self.hora) + seq![':'] + dois(self.minuto) + seq![':'] + dois(self.segundo)
    }

    /// Name of the monthly sub-folder, e.g. `2026-09`.
    pub fn ano_mes(&self) -> (r: String)
        ensures
            r@ == self.texto_ano_mes(),
    {
        let mut s = String::new();
        escrever_com_zeros(&mut s, self.ano as u128, 4);
        s.push('-');
        escrever_com_zeros(&mut s, self.mes as u128, 2);
        s
    }

    /// Name of the daily sub-folder, e.g. `2026-09-24`.
    pub fn ano_mes_dia(&self) -> (r: String)
        ensures
            r@ == self.texto_ano_mes_dia(),
    {
        let mut s = self.ano_mes();
        s.push('-');
        escrever_com_zeros(&mut s, self.dia as u128, 2);
        s
    }

    /// Brazilian format used in the log: `24/09/2026 14:30:05`.
    pub fn legivel(&self) -> (r: String)
        ensures
            r@ == self.texto_legivel(),
    {
        let mut s = String::new();
        escrever_com_zeros(&mut s, self.dia as u128, 2);
        s.push('/');
        escrever_com_zeros(&mut s, self.mes as u128, 2);
        s.push('/');
        escrever_com_zeros(&mut s, self.ano as u128, 4);
        s.push(' ');
        escrever_com_zeros(&mut s, self.hora as u128, 2);
        s.push(':');
        escrever_com_zeros(&mut s, self.minuto as u128, 2);
        s.push(':');
        escrever_com_zeros(&mut s, self.segundo as u128, 2);
        s
    }
}

// ---------------------------------------------------------------------------
// Names
// ---------------------------------------------------------------------------

/// Position of the last `c` in `s`, or -1.
pub open spec fn ultima_posicao(s: Seq<char>, c: char) -> int
    decreases s.len(),
{
    if s.len() == 0 {
        -1
    } else if s.last() == c {
        s.len() - 1
    } else {
        ultima_posicao(s.drop_last(), c)
    }
}

/// Name and extension: the extension starts at the last `'.'`, unless that
/// dot is the first character; folders have no extension.
pub open spec fn separar(nome: Seq<char>, eh_pasta: bool) -> (Seq<char>, Seq<char>) {
    let i = ultima_posicao(nome, '.');
    if eh_pasta || i <= 0 {
        (nome, Seq::empty())
    } else {
        (nome.take(i), nome.skip(i))
    }
}

proof fn lema_ultima_posicao(s: Seq<char>, c: char, k: int)
    requires
        0 <= k <= s.len(),
        forall|j: int| k <= j < s.len() ==> s[j] != c,
    ensures
        ultima_posicao(s, c) == ultima_posicao(s.take(k), c),
        -1 <= ultima_posicao(s, c) < s.len(),
        ultima_posicao(s, c) >= 0 ==> s[ultima_posicao(s, c)] == c,
    decreases s.len(),
{
    if s.len() > 0 {
        if k == s.len() {
            assert(s.take(k) =~= s);
            if s.last() != c {
                lema_ultima_posicao(s.drop_last(), c, k - 1);
            }
        } else {
            lema_ultima_posicao(s.drop_last(), c, k);
            assert(s.drop_last().take(k) =~= s.take(k));
        }
    }
}

/// Splits "video.final.mp4" into ("video.final", ".mp4"). Folders have no extension.
pub fn separar_extensao<'a>(nome: &'a str, eh_pasta: bool) -> (r: (&'a str, &'a str))
    ensures
        (r.0@, r.1@) == separar(nome@, eh_pasta),
        r.0@ + r.1@ == nome@,
{
    let n: usize = nome.unicode_len();
    let v = caracteres(nome);
    let mut k: usize = n;
    while k > 0 && v[k - 1] != '.'
        invariant
            n == v@.len(),
            v@ == nome@,
            k <= n,
            forall|j: int| k <= j < n ==> v@[j] != '.',
        decreases k,
    {
        k = k - 1;
    }
    proof {
        lema_ultima_posicao(v@, '.', k as int);
        if k > 0 {
            assert(v@.take(k as int).last() == '.');
        } else {
            assert(v@.take(0) =~= Seq::<char>::empty());
        }
    }
    if eh_pasta || k <= 1 {
        assert(nome@.subrange(0, n as int) =~= nome@);
        (nome.substring_char(0, n), nome.substring_char(n, n))
    } else {
        assert(nome@.subrange(0, (k - 1) as int) + nome@.subrange((k - 1) as int, n as int) =~= nome@);
        (nome.substring_char(0, k - 1), nome.substring_char(k - 1, n))
    }
}

/// What `encurtar` shows: the whole text if it fits, otherwise its start and
/// its end, each `(max - 1) / 2` characters long, around `'…'`.
pub open spec fn encurtado(texto: Seq<char>, max: nat) -> Seq<char> {
    if texto.len() <= max {
        texto
    } else {
        let lado = (if max >= 1 { max - 1 } else { 0int }) / 2;
        texto.take(lado) + seq!['…'] + texto.skip(texto.len() - lado)
    }
}

/// Shortens long paths to fit in the menu: "D:\Trabalho\...\Usados".
pub fn encurtar(texto: &str, max: usize) -> (r: String)
    ensures
        r@ == encurtado(texto@, max as nat),
        max >= 1 ==> r@.len() <= max,
{
    let v = caracteres(texto);
    if v.len() <= max {
        return texto_de(&v);
    }
    let lado: usize = max.saturating_sub(1) / 2;
    let ini = copiar_trecho(&v, 0, lado);
    let fim = copiar_desde(&v, v.len() - lado);
    let mut r = texto_de(&ini);
    r.push('…');
    acrescentar(&mut r, &fim);
    r
}

// ---------------------------------------------------------------------------
// Free names
// ---------------------------------------------------------------------------

/// Path separators.
pub open spec fn eh_separador(c: char) -> bool {
    c == '\\' || c == '/'
}

/// `pasta` followed by the single name `nome`, with a `'\'` between them
/// unless `pasta` is empty, already ends in a separator or is a bare drive
/// such as `D:` (as Windows joins a path and a file name).
pub open spec fn juntado(pasta: Seq<char>, nome: Seq<char>) -> Seq<char> {
    if pasta.len() == 0 || eh_separador(pasta.last()) || (pasta.len() == 2 && pasta[1] == ':') {
        pasta + nome
    } else {
        pasta + seq!['\\'] + nome
    }
}

/// Joins a folder and a single file name.
pub fn juntar(pasta: &str, nome: &str) -> (r: String)
    ensures
        r@ == juntado(pasta@, nome@),
{
    let p = caracteres(pasta);
    let mut r = texto_de(&p);
    let n: usize = p.len();
    if !(n == 0 || p[n - 1] == '\\' || p[n - 1] == '/' || (n == 2 && p[1] == ':')) {
        r.push('\\');
    }
    acrescentar(&mut r, &caracteres(nome));
    r
}

/// The path is taken literally (`\\?\`): only `\` separates its pieces,
/// and a `.` piece counts.
pub open spec fn eh_caminho_literal(s: Seq<char>) -> bool {
    eh_literal(analise_prefixo(pontos(s)).0)
}

/// A separator of a path: `\`, and also `/` unless the path is literal.
pub open spec fn separa(c: char, literal: bool) -> bool {
    c == '\\' || (!literal && c == '/')
}

/// `s` ends with the piece `.`: a dot alone or right after a separator.
pub open spec fn termina_em_ponto(s: Seq<char>) -> bool {
    s.len() > 0 && s.last() == '.' && (s.len() == 1 || eh_separador(s[s.len() - 2]))
}

/// Length of `s` without its trailing separators and (unless the path is
/// literal) `.` pieces, which a path ignores at its end.
pub open spec fn fim_sem_separadores(s: Seq<char>, literal: bool) -> nat
    decreases s.len(),
{
    if s.len() > 0 && (separa(s.last(), literal) || (!literal && termina_em_ponto(s))) {
        fim_sem_separadores(s.drop_last(), literal)
    } else {
        s.len()
    }
}

/// Position just after the last separator of `s` (0 when there is none).
pub open spec fn depois_do_ultimo_separador(s: Seq<char>, literal: bool) -> nat
    decreases s.len(),
{
    if s.len() == 0 {
        0
    } else if separa(s.last(), literal) {
        s.len()
    } else {
        depois_do_ultimo_separador(s.drop_last(), literal)
    }
}

/// `s` begins with a drive, as `D:`.
pub open spec fn comeca_com_unidade(s: Seq<char>) -> bool {
    s.len() >= 2 && s[1] == ':' && !eh_separador(s[0])
}

/// Where the last piece of a path starts, once trailing separators and `.`
/// pieces are dropped (after the drive when it directly follows it, as in
/// `D:x`).
pub open spec fn inicio_do_ultimo(s: Seq<char>) -> nat {
    let literal = eh_caminho_literal(s);
    let t = s.take(fim_sem_separadores(s, literal) as int);
    let i = depois_do_ultimo_separador(t, literal);
    if i == 0 && comeca_com_unidade(t) {
        2
    } else {
        i
    }
}

/// The file name of a Windows path, as `Path::file_name` gives it: the
/// last component, when it is a name (not a prefix such as `D:` or
/// `\\server\share`, a root, `.` or `..`).
pub open spec fn nome_do_arquivo(s: Seq<char>) -> Option<Seq<char>> {
    match nome_final(componentes(pontos(s))) {
        Some(n) => Some(n.map_values(|x: u32| x as char)),
        None => None,
    }
}

/// The path has a parent, as `Path::parent` sees it: its last component is
/// a name, `.` or `..` (not a prefix or a root).
pub open spec fn tem_pai(s: Seq<char>) -> bool {
    pai_existe(componentes(pontos(s)))
}

/// The text of the path up to its last piece, which is dropped with the
/// separators and `.` pieces after it: `D:\` for `D:\video.mp4`, `D:\a\`
/// for `D:\a\b\.`, `D:\a\b\` for `D:\a\b\..` (the folder that holds the
/// last component, with its final separator when it had one).
pub open spec fn texto_do_pai(s: Seq<char>) -> Seq<char> {
    s.take(inicio_do_ultimo(s) as int)
}

proof fn lema_depois(s: Seq<char>, k: int, literal: bool)
    requires
        0 <= k <= s.len(),
        forall|j: int| k <= j < s.len() ==> !separa(s[j], literal),
        k == 0 || separa(s[k - 1], literal),
    ensures
        depois_do_ultimo_separador(s, literal) == k,
    decreases s.len(),
{
    if s.len() > k {
        lema_depois(s.drop_last(), k, literal);
    }
}

proof fn lema_char(c: char)
    ensures
        (c as u32) as char == c,
        (c as u32) as int == c as int,
{
}

/// Is the path literal (see `eh_caminho_literal`)?
fn literal_exec(v: &Vec<char>) -> (r: bool)
    ensures
        r == eh_caminho_literal(v@),
{
    let n: usize = v.len();
    let r = n >= 4 && v[0] == '\\' && v[1] == '\\' && v[2] == '?' && v[3] == '\\';
    proof {
        let p = pontos(v@);
        if n >= 4 {
            lema_char(v@[0]);
            lema_char(v@[1]);
            lema_char(v@[2]);
            lema_char(v@[3]);
            assert(p[0] == v@[0] as u32 && p[1] == v@[1] as u32 && p[2] == v@[2] as u32 && p[3]
                == v@[3] as u32);
        }
    }
    r
}

/// Where the last piece of a path starts (see `inicio_do_ultimo`).
fn inicio_do_ultimo_exec(v: &Vec<char>) -> (r: usize)
    ensures
        r == inicio_do_ultimo(v@),
        r <= v.len(),
{
    let literal = literal_exec(v);
    let mut f: usize = v.len();
    assert(v@.take(f as int) =~= v@);
    while f > 0 && (v[f - 1] == '\\' || (!literal && v[f - 1] == '/') || (!literal && v[f - 1]
        == '.' && (f == 1 || v[f - 2] == '\\' || v[f - 2] == '/')))
        invariant
            f <= v.len(),
            fim_sem_separadores(v@, literal) == fim_sem_separadores(v@.take(f as int), literal),
        decreases f,
    {
        let ghost t = v@.take(f as int);
        assert(t.drop_last() =~= v@.take(f - 1));
        assert(t.last() == v@[f - 1]);
        if f >= 2 {
            assert(t[t.len() - 2] == v@[f - 2]);
        }
        f = f - 1;
    }
    proof {
        let t = v@.take(f as int);
        if f > 0 {
            assert(t.last() == v@[f - 1]);
            if f >= 2 {
                assert(t[t.len() - 2] == v@[f - 2]);
            }
        }
        assert(fim_sem_separadores(t, literal) == f);
    }
    let mut i: usize = f;
    while i > 0 && !(v[i - 1] == '\\' || (!literal && v[i - 1] == '/'))
        invariant
            i <= f <= v.len(),
            forall|j: int| i <= j < f ==> !separa(v@[j], literal),
        decreases i,
    {
        i = i - 1;
    }
    let ghost t = v@.take(f as int);
    proof {
        assert forall|j: int| i <= j < t.len() implies !separa(t[j], literal) by {
            assert(t[j] == v@[j]);
        }
        if i > 0 {
            assert(t[i - 1] == v@[i - 1]);
        }
        lema_depois(t, i as int, literal);
    }
    if i == 0 && f >= 2 && v[1] == ':' && !(v[0] == '\\' || v[0] == '/') {
        assert(t[1] == v@[1] && t[0] == v@[0]);
        2
    } else {
        proof {
            if f >= 2 {
                assert(t[1] == v@[1] && t[0] == v@[0]);
            }
        }
        i
    }
}

/// The file name of a path (see `nome_do_arquivo`).
pub fn nome_arquivo(caminho: &str) -> (r: Option<String>)
    ensures
        match nome_do_arquivo(caminho@) {
            Some(n) => r matches Some(t) && t@ == n,
            None => r is None,
        },
{
    let v = caracteres(caminho);
    let p = pontos_de(caminho);
    match nome_final_exec(&p) {
        Some((a, b)) => {
            let t = copiar_trecho(&v, a, b);
            proof {
                let n = p@.subrange(a as int, b as int);
                assert forall|k: int| 0 <= k < t@.len() implies t@[k] == n.map_values(
                    |x: u32| x as char,
                )[k] by {
                    lema_char(v@[a + k]);
                }
                assert(t@ =~= n.map_values(|x: u32| x as char));
            }
            Some(texto_de(&t))
        },
        None => None,
    }
}

/// Does the path have a parent (see `tem_pai`)?
pub fn possui_pai(caminho: &str) -> (r: bool)
    ensures
        r == tem_pai(caminho@),
{
    pai_existe_exec(&pontos_de(caminho))
}

/// The text of the path up to its last piece (see `texto_do_pai`).
pub fn pai(caminho: &str) -> (r: String)
    ensures
        r@ == texto_do_pai(caminho@),
{
    let v = caracteres(caminho);
    let i = inicio_do_ultimo_exec(&v);
    texto_de(&copiar_trecho(&v, 0, i))
}

/// The `n`-th name tried for `nome`: the name itself, then "clip (2).mp4",
/// "clip (3).mp4"...
pub open spec fn candidato(nome: Seq<char>, eh_pasta: bool, n: nat) -> Seq<char> {
    if n <= 1 {
        nome
    } else {
        let (base, ext) = separar(nome, eh_pasta);
        base + seq![' ', '('] + decimal(n) + seq![')'] + ext
    }
}

/// A folder has no extension: its `n`-th candidate (from 2 on) is its
/// whole name followed by ` (n)`, as "Projeto.v2 (2)".
pub proof fn lei_candidato_pasta(nome: Seq<char>, n: nat)
    requires
        n >= 2,
    ensures
        candidato(nome, true, n) == nome + " ("@ + decimal(n) + ")"@,
{
    reveal_strlit(" (");
    reveal_strlit(")");
    assert(candidato(nome, true, n) =~= nome + " ("@ + decimal(n) + ")"@);
}

/// A file keeps its extension, from its last dot (not a leading one): its
/// `n`-th candidate (from 2 on) puts ` (n)` right before that dot, or at the
/// end when there is none; the first candidate is the name itself.
pub proof fn lei_candidato_arquivo(nome: Seq<char>, n: nat)
    ensures
        n <= 1 ==> candidato(nome, false, n) == nome,
        n >= 2 ==> forall|i: int|
            #![trigger nome.take(i)]
            0 < i < nome.len() && nome[i] == '.' && (forall|k: int|
                i < k < nome.len() ==> nome[k] != '.') ==> candidato(nome, false, n) == nome.take(i)
                + " ("@ + decimal(n) + ")"@ + nome.skip(i),
        n >= 2 && (forall|k: int| 0 < k < nome.len() ==> nome[k] != '.') ==> candidato(
            nome,
            false,
            n,
        ) == nome + " ("@ + decimal(n) + ")"@,
{
    reveal_strlit(" (");
    reveal_strlit(")");
    if n >= 2 {
        assert forall|i: int|
            #![trigger nome.take(i)]
            0 < i < nome.len() && nome[i] == '.' && (forall|k: int|
                i < k < nome.len() ==> nome[k] != '.') implies candidato(nome, false, n) == nome.take(
            i,
        ) + " ("@ + decimal(n) + ")"@ + nome.skip(i) by {
            lema_ultima_posicao(nome, '.', i + 1);
            assert(nome.take(i + 1).last() == nome[i]);
            assert(candidato(nome, false, n) =~= nome.take(i) + " ("@ + decimal(n) + ")"@
                + nome.skip(i));
        }
        if forall|k: int| 0 < k < nome.len() ==> nome[k] != '.' {
            let k: int = if nome.len() == 0 { 0 } else { 1 };
            lema_ultima_posicao(nome, '.', k);
            assert(ultima_posicao(nome, '.') <= 0);
            assert(candidato(nome, false, n) =~= nome + " ("@ + decimal(n) + ")"@);
        }
    }
}

/// Builds the `n`-th candidate (`n` at least 2).
fn nome_candidato(nome: &str, eh_pasta: bool, n: u32) -> (r: String)
    requires
        n >= 2,
    ensures
        r@ == candidato(nome@, eh_pasta, n as nat),
{
    let (base, ext) = separar_extensao(nome, eh_pasta);
    let mut r = texto_de(&caracteres(base));
    r.push(' ');
    r.push('(');
    escrever_decimal(&mut r, n as u128);
    r.push(')');
    acrescentar(&mut r, &caracteres(ext));
    r
}

/// Keys (see `chave`) of the names already given to earlier items of a batch.
#[derive(Debug)]
pub struct Reservados {
    chaves: Vec<String>,
}

impl View for Reservados {
    type V = Set<Seq<char>>;

    closed spec fn view(&self) -> Set<Seq<char>> {
        self.chaves@.map_values(|s: String| s@).to_set()
    }
}

impl Reservados {
    /// No name reserved yet.
    pub fn new() -> (r: Reservados)
        ensures
            r@ == Set::<Seq<char>>::empty(),
    {
        let r = Reservados { chaves: Vec::new() };
        assert(r@ =~= Set::<Seq<char>>::empty());
        r
    }

    /// Is `chave` reserved?
    pub fn contem(&self, chave: &String) -> (r: bool)
        ensures
            r == self@.contains(chave@),
    {
        let mut i: usize = 0;
        while i < self.chaves.len()
            invariant
                i <= self.chaves.len(),
                forall|j: int| 0 <= j < i ==> self.chaves@[j]@ != chave@,
            decreases self.chaves.len() - i,
        {
            if self.chaves[i] == *chave {
                assert(self.chaves@.map_values(|s: String| s@)[i as int] == chave@);
                return true;
            }
            i = i + 1;
        }
        assert(!self.chaves@.map_values(|s: String| s@).contains(chave@));
        false
    }

    /// Reserves `chave`.
    pub fn reservar(&mut self, chave: String)
        ensures
            final(self)@ == old(self)@.insert(chave@),
    {
        let ghost antes = self.chaves@;
        let ghost nova = chave@;
        self.chaves.push(chave);
        let ghost velho = antes.map_values(|s: String| s@);
        let ghost novo = self.chaves@.map_values(|s: String| s@);
        assert(novo =~= velho.push(nova));
        assert forall|x: Seq<char>| novo.contains(x) <==> velho.contains(x) || x == nova by {
            if velho.contains(x) {
                let i = choose|i: int| 0 <= i < velho.len() && velho[i] == x;
                assert(novo[i] == x);
            }
            if x == nova {
                assert(novo[velho.len() as int] == x);
            }
            if novo.contains(x) {
                let i = choose|i: int| 0 <= i < novo.len() && novo[i] == x;
                if i < velho.len() {
                    assert(velho[i] == x);
                }
            }
        }
        assert(self@ =~= old(self)@.insert(nova));
    }
}

/// The `n`-th candidate cannot be used: a call of `existe` on it answered
/// true, or its key is already reserved.
pub open spec fn recusado<F: Fn(&str) -> bool>(
    existe: F,
    pasta: Seq<char>,
    nome: Seq<char>,
    eh_pasta: bool,
    n: nat,
    reservados: Set<Seq<char>>,
) -> bool {
    ||| exists|s: &str|
        s@ == candidato(nome, eh_pasta, n) && #[trigger] call_ensures(existe, (s,), true)
    ||| reservados.contains(chave(juntado(pasta, candidato(nome, eh_pasta, n))))
}

/// Picks a name that does not exist yet in `pasta`: "clip.mp4", "clip (2).mp4",
/// "clip (3).mp4"... `existe` tells whether a name is taken on disk;
/// `reservados` keeps two items of one batch from getting the same name and
/// gets the key of the chosen name. `None` only when every candidate up to
/// `u32::MAX` was refused.
pub fn nome_livre<F: Fn(&str) -> bool>(
    pasta: &str,
    nome: &str,
    eh_pasta: bool,
    reservados: &mut Reservados,
    existe: F,
) -> (r: Option<String>)
    requires
        forall|s: &str| call_requires(existe, (s,)),
    ensures
        match r {
            Some(escolhido) => {
                &&& exists|n: nat|
                    1 <= n <= u32::MAX && escolhido@ == #[trigger] candidato(nome@, eh_pasta, n)
                        && forall|m: nat|
                        1 <= m < n ==> recusado(existe, pasta@, nome@, eh_pasta, m, old(reservados)@)
                &&& exists|s: &str| s@ == escolhido@ && #[trigger] call_ensures(existe, (s,), false)
                &&& !old(reservados)@.contains(chave(juntado(pasta@, escolhido@)))
                &&& final(reservados)@ == old(reservados)@.insert(chave(juntado(pasta@, escolhido@)))
            },
            None => {
                &&& forall|m: nat|
                    1 <= m <= u32::MAX ==> recusado(existe, pasta@, nome@, eh_pasta, m, old(reservados)@)
                &&& final(reservados)@ == old(reservados)@
            },
        },
{
    let ghost inicial = reservados@;
    let primeiro = texto_de(&caracteres(nome));
    let chave1 = chave_caminho(&juntar(pasta, primeiro.as_str()));

    let ps = primeiro.as_str();
    let ocupado = existe(ps);
    if !ocupado && !reservados.contem(&chave1) {
        reservados.reservar(chave1);
        assert(call_ensures(existe, (ps,), false));
        assert(primeiro@ == candidato(nome@, eh_pasta, 1));
        return Some(primeiro);
    }
    assert(recusado(existe, pasta@, nome@, eh_pasta, 1, inicial));
    let mut n: u32 = 2;
    loop
        invariant
            2 <= n,
            inicial == old(reservados)@,
            reservados@ == inicial,
            forall|s: &str| call_requires(existe, (s,)),
            forall|m: nat| 1 <= m < n ==> recusado(existe, pasta@, nome@, eh_pasta, m, inicial),
        ensures
            forall|m: nat| 1 <= m <= u32::MAX ==> recusado(existe, pasta@, nome@, eh_pasta, m, inicial),
            reservados@ == inicial,
        decreases u32::MAX - n,
    {
        let c = nome_candidato(nome, eh_pasta, n);
        let cs = c.as_str();
        let k = chave_caminho(&juntar(pasta, cs));
        let ocupado = existe(cs);
        if !ocupado && !reservados.contem(&k) {
            reservados.reservar(k);
            assert(call_ensures(existe, (cs,), false));
            assert(1 <= n as nat <= u32::MAX && c@ == candidato(nome@, eh_pasta, n as nat));
            return Some(c);
        }
        assert(recusado(existe, pasta@, nome@, eh_pasta, n as nat, inicial));
        if n == u32::MAX {
            break;
        }
        n = n + 1;
    }
    None
}

/// Names handed out one after the other from the same reservations differ:
/// the second key was not reserved, and the first one was.
pub proof fn lei_nomes_do_lote_distintos(
    antes: Set<Seq<char>>,
    chave1: Seq<char>,
    chave2: Seq<char>,
)
    requires
        !antes.insert(chave1).contains(chave2),
    ensures
        chave1 != chave2,
{
}

// ---------------------------------------------------------------------------
// CSV
// ---------------------------------------------------------------------------

/// Characters that force a CSV field into quotes.
pub open spec fn especial_csv(c: char) -> bool {
    c == ';' || c == '"' || c == '\n' || c == '\r'
}

/// `s` with every `c` doubled.
pub open spec fn dobrar(s: Seq<char>, c: char) -> Seq<char>
    decreases s.len(),
{
    if s.len() == 0 {
        Seq::empty()
    } else {
        (if s[0] == c { seq![c, c] } else { seq![s[0]] }) + dobrar(s.skip(1), c)
    }
}

/// A CSV field (separator `;`): quoted, with doubled quotes, when it holds
/// `;`, `"`, a line feed or a carriage return; as it is otherwise.
pub open spec fn campo_csv(s: Seq<char>) -> Seq<char> {
    if exists|i: int| 0 <= i < s.len() && especial_csv(#[trigger] s[i]) {
        seq!['"'] + dobrar(s, '"') + seq!['"']
    } else {
        s
    }
}

/// Undoes `dobrar(_, '"')`: each `""` becomes `"`.
pub open spec fn desdobrar_aspas(s: Seq<char>) -> Seq<char>
    decreases s.len(),
{
    if s.len() == 0 {
        Seq::empty()
    } else if s.len() >= 2 && s[0] == '"' && s[1] == '"' {
        seq!['"'] + desdobrar_aspas(s.skip(2))
    } else {
        seq![s[0]] + desdobrar_aspas(s.skip(1))
    }
}

/// How a spreadsheet reads one field back.
pub open spec fn ler_campo_csv(t: Seq<char>) -> Seq<char> {
    if t.len() >= 2 && t[0] == '"' && t.last() == '"' {
        desdobrar_aspas(t.subrange(1, t.len() - 1))
    } else {
        t
    }
}

proof fn lema_dobrar_concat(a: Seq<char>, b: Seq<char>, c: char)
    ensures
        dobrar(a + b, c) == dobrar(a, c) + dobrar(b, c),
    decreases a.len(),
{
    if a.len() == 0 {
        assert(a + b =~= b);
        assert(dobrar(a, c) + dobrar(b, c) =~= dobrar(b, c));
    } else {
        assert((a + b).skip(1) =~= a.skip(1) + b);
        lema_dobrar_concat(a.skip(1), b, c);
        assert((a + b)[0] == a[0]);
        let p = if a[0] == c { seq![c, c] } else { seq![a[0]] };
        assert(dobrar(a + b, c) =~= p + dobrar(a.skip(1) + b, c));
        assert(p + (dobrar(a.skip(1), c) + dobrar(b, c)) =~= (p + dobrar(a.skip(1), c)) + dobrar(
            b,
            c,
        ));
    }
}

proof fn lema_desdobrar(s: Seq<char>)
    ensures
        desdobrar_aspas(dobrar(s, '"')) == s,
    decreases s.len(),
{
    if s.len() > 0 {
        lema_desdobrar(s.skip(1));
        let d = dobrar(s, '"');
        if s[0] == '"' {
            assert(d.skip(2) =~= dobrar(s.skip(1), '"'));
            assert(seq!['"'] + s.skip(1) =~= s);
        } else {
            assert(d.skip(1) =~= dobrar(s.skip(1), '"'));
            assert(seq![s[0]] + s.skip(1) =~= s);
        }
    }
}

/// Appends `v` to `r` with every `c` doubled.
pub fn escrever_dobrando(r: &mut String, v: &Vec<char>, c: char)
    ensures
        final(r)@ == old(r)@ + dobrar(v@, c),
{
    let ghost antes = r@;
    let mut k: usize = 0;
    while k < v.len()
        invariant
            k <= v.len(),
            r@ == antes + dobrar(v@.take(k as int), c),
        decreases v.len() - k,
    {
        proof {
            assert(v@.take(k + 1) =~= v@.take(k as int) + seq![v@[k as int]]);
            lema_dobrar_concat(v@.take(k as int), seq![v@[k as int]], c);
            let x = v@[k as int];
            let p = if x == c { seq![c, c] } else { seq![x] };
            assert(seq![x].skip(1) =~= Seq::<char>::empty());
            assert(dobrar(seq![x], c) == p + dobrar(seq![x].skip(1), c));
            assert(dobrar(seq![x], c) =~= p);
        }
        if v[k] == c {
            r.push(c);
            r.push(c);
        } else {
            r.push(v[k]);
        }
        k = k + 1;
        assert(r@ =~= antes + dobrar(v@.take(k as int), c));
    }
    assert(v@.take(v@.len() as int) =~= v@);
}

/// A field written by `csv` reads back as the text it was made from.
pub proof fn lei_csv_ida_e_volta(s: Seq<char>)
    ensures
        ler_campo_csv(campo_csv(s)) == s,
{
    if exists|i: int| 0 <= i < s.len() && especial_csv(#[trigger] s[i]) {
        let t = campo_csv(s);
        assert(t.subrange(1, t.len() - 1) =~= dobrar(s, '"'));
        lema_desdobrar(s);
    } else {
        if s.len() >= 2 && s[0] == '"' {
            assert(especial_csv(s[0]));
        }
    }
}

/// A CSV field (separator ";", the default of Excel in Portuguese).
pub fn csv(campo: &str) -> (r: String)
    ensures
        r@ == campo_csv(campo@),
{
    let v = caracteres(campo);
    let mut precisa = false;
    let mut i: usize = 0;
    while i < v.len()
        invariant
            v@ == campo@,
            i <= v.len(),
            precisa == exists|j: int| 0 <= j < i && especial_csv(#[trigger] v@[j]),
        decreases v.len() - i,
    {
        let c = v[i];
        if c == ';' || c == '"' || c == '\n' || c == '\r' {
            precisa = true;
        }
        i = i + 1;
    }
    if !precisa {
        return texto_de(&v);
    }
    let mut r = String::new();
    r.push('"');
    escrever_dobrando(&mut r, &v, '"');
    r.push('"');
    r
}

// ---------------------------------------------------------------------------
// Paths as UTF-16
// ---------------------------------------------------------------------------

/// The UTF-16 units of a path, two bytes each, low byte first.
pub open spec fn bytes_le(u: Seq<u16>) -> Seq<u8> {
    Seq::new(
        2 * u.len(),
        |j: int| if j % 2 == 0 { (u[j / 2] % 256) as u8 } else { (u[j / 2] / 256) as u8 },
    )
}

/// Reads pairs of bytes (low byte first) back into UTF-16 units; an odd
/// last byte is ignored.
pub open spec fn unidades_le(b: Seq<u8>) -> Seq<u16> {
    Seq::new(b.len() / 2, |i: int| (b[2 * i] + 256 * b[2 * i + 1]) as u16)
}

/// Encodes a path (its UTF-16 units) as bytes without loss.
pub fn caminho_para_bytes(unidades: &[u16]) -> (r: Vec<u8>)
    ensures
        r@ == bytes_le(unidades@),
{
    let mut r: Vec<u8> = Vec::new();
    let mut i: usize = 0;
    while i < unidades.len()
        invariant
            i <= unidades.len(),
            r@ == bytes_le(unidades@.take(i as int)),
        decreases unidades.len() - i,
    {
        let c: u16 = unidades[i];
        r.push((c % 256) as u8);
        r.push((c / 256) as u8);
        i = i + 1;
        assert(r@ =~= bytes_le(unidades@.take(i as int)));
    }
    assert(unidades@.take(unidades@.len() as int) =~= unidades@);
    r
}

/// Decodes what `caminho_para_bytes` wrote back into UTF-16 units.
pub fn bytes_para_caminho(b: &[u8]) -> (r: Vec<u16>)
    ensures
        r@ == unidades_le(b@),
{
    let mut r: Vec<u16> = Vec::new();
    let n: usize = b.len() / 2;
    let mut i: usize = 0;
    while i < n
        invariant
            n == b@.len() / 2,
            i <= n,
            r@ =~= unidades_le(b@).take(i as int),
        decreases n - i,
    {
        assert(2 * i + 1 < b.len());
        let baixo: u16 = b[2 * i] as u16;
        let alto: u16 = b[2 * i + 1] as u16;
        let u: u16 = baixo + 256 * alto;
        r.push(u);
        i = i + 1;
    }
    r
}

/// Decoding the bytes of a path gives back the same UTF-16 units.
pub proof fn lei_bytes_ida_e_volta(u: Seq<u16>)
    ensures
        unidades_le(bytes_le(u)) == u,
{
    let b = bytes_le(u);
    assert forall|i: int| 0 <= i < u.len() implies #[trigger] unidades_le(b)[i] == u[i] by {
        assert((2 * i) % 2 == 0);
        assert((2 * i + 1) % 2 == 1);
        assert((2 * i) / 2 == i);
        assert((2 * i + 1) / 2 == i);
        let x = u[i];
        assert(x % 256 + 256 * (x / 256) == x);
    }
    assert(unidades_le(b) =~= u);
}

} // verus!
