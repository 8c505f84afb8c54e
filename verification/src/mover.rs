//! Deciding what happens to a batch: which items go where, under which
//! name, and what is written to the log. The moving itself is done by the
//! program with the same mechanism as Explorer (`IFileOperation`).

use vstd::prelude::*;
use vstd::string::StrSliceExecFns;
use vstd::string::StringExecFns;

use crate::config::{
    Config, Organizacao, passos_ultima_outra_pasta, salvar_ultima_outra_pasta, texto_opcional,
};
use crate::ordem::{
    antes, chave_de_ordem, chave_ordem_pontos, lema_antes_assimetrico, lema_nao_depois, vem_antes,
};
use crate::registro::{Passo, PassoModelo, modelo_passos};
use crate::fila::{Modo, Pedido};
use crate::texto::{
    caracteres, decimal, escrever_decimal, palavras_unidas, pontos_de_utf16, pontos_utf16, texto_de,
    texto_de_utf16, texto_utf16, unir,
    unir_palavras,
};
use crate::util::{
    Agora, Reservados, campo_csv, chave, chave_caminho, csv, dentro, esta_dentro, juntado, juntar,
    nome_arquivo, nome_do_arquivo, pai, possui_pai, tem_pai, texto_do_pai,
};

verus! {

// ---------------------------------------------------------------------------
// Sub-folder by origin
// ---------------------------------------------------------------------------

/// Characters that Windows does not accept in a folder name.
pub open spec fn proibido(c: char) -> bool {
    c == '\\' || c == '/' || c == ':' || c == '*' || c == '?' || c == '"' || c == '<' || c == '>'
        || c == '|'
}

/// Forbidden characters replaced by spaces.
pub open spec fn limpo(s: Seq<char>) -> Seq<char> {
    s.map_values(|c: char| if proibido(c) { ' ' } else { c })
}

/// The name of the folder the item is in; for an item at the root of a
/// disk, `Disco ` and the disk (`D:\video.mp4` gives `Disco D:\`); empty for
/// a path with no parent (a bare drive or root).
pub open spec fn origem_bruta(item: Seq<char>) -> Seq<char> {
    if !tem_pai(item) {
        Seq::empty()
    } else {
        let p = texto_do_pai(item);
        match nome_do_arquivo(p) {
            Some(n) => n,
            None => "Disco "@ + p,
        }
    }
}

/// Name of the sub-folder in the "by origin" arrangement: the folder the
/// item came from, without forbidden characters and extra spaces, or
/// `Outros` when nothing is left.
pub open spec fn nome_de_origem(item: Seq<char>) -> Seq<char> {
    let l = palavras_unidas(limpo(origem_bruta(item)));
    if l.len() == 0 {
        "Outros"@
    } else {
        l
    }
}

/// Name of the sub-folder in the "by origin" arrangement (see `nome_de_origem`).
pub fn nome_da_origem(item: &str) -> (r: String)
    ensures
        r@ == nome_de_origem(item@),
{
    let bruto = if !possui_pai(item) {
        String::new()
    } else {
        let p = pai(item);
        match nome_arquivo(p.as_str()) {
            Some(n) => n,
            None => unir("Disco ", p.as_str()),
        }
    };
    let v = caracteres(bruto.as_str());
    let mut sem: Vec<char> = Vec::new();
    let mut i: usize = 0;
    while i < v.len()
        invariant
            i <= v.len(),
            sem@ == limpo(v@.take(i as int)),
        decreases v.len() - i,
    {
        let c = v[i];
        let forbidden = c == '\\' || c == '/' || c == ':' || c == '*' || c == '?' || c == '"' || c
            == '<' || c == '>' || c == '|';
        sem.push(if forbidden { ' ' } else { c });
        i = i + 1;
        assert(sem@ =~= limpo(v@.take(i as int)));
    }
    assert(v@.take(v@.len() as int) =~= v@);
    let l = unir_palavras(&sem);
    if l.len() == 0 {
        String::from_str("Outros")
    } else {
        texto_de(&l)
    }
}

/// The folder an item goes to inside `raiz`.
pub open spec fn pasta_de_destino(
    raiz: Seq<char>,
    org: Organizacao,
    agora: Agora,
    item: Seq<char>,
) -> Seq<char> {
    match org {
        Organizacao::Direto => raiz,
        Organizacao::PorMes => juntado(raiz, agora.texto_ano_mes()),
        Organizacao::PorDia => juntado(raiz, agora.texto_ano_mes_dia()),
        Organizacao::PorOrigem => juntado(raiz, nome_de_origem(item)),
    }
}

/// The folder an item goes to inside `raiz` (see `pasta_de_destino`).
pub fn pasta_alvo(raiz: &str, org: Organizacao, agora: &Agora, item: &str) -> (r: String)
    ensures
        r@ == pasta_de_destino(raiz@, org, *agora, item@),
{
    match org {
        Organizacao::Direto => String::from_str(raiz),
        Organizacao::PorMes => juntar(raiz, agora.ano_mes().as_str()),
        Organizacao::PorDia => juntar(raiz, agora.ano_mes_dia().as_str()),
        Organizacao::PorOrigem => juntar(raiz, nome_da_origem(item).as_str()),
    }
}

// ---------------------------------------------------------------------------
// Checking items before and after moving
// ---------------------------------------------------------------------------

/// Whether an item can be moved into `raiz`: it must exist, must not be in
/// the destination already, must not hold the destination (both compared by
/// its absolute form `absoluto`), and must have a name, as written (a whole
/// disk cannot be moved). `Ok` holds its name.
pub open spec fn avaliacao(
    encontrado: bool,
    item: Seq<char>,
    absoluto: Seq<char>,
    raiz: Seq<char>,
) -> Result<Seq<char>, Seq<char>> {
    if !encontrado {
        Err("não foi encontrado (já foi movido ou apagado?)"@)
    } else if dentro(absoluto, raiz) {
        Err("já está na pasta de destino"@)
    } else if dentro(raiz, absoluto) {
        Err("a pasta de destino fica dentro dele"@)
    } else {
        match nome_do_arquivo(item) {
            Some(n) => Ok(n),
            None => Err("não dá para mover um disco inteiro"@),
        }
    }
}

/// Checks an item before moving it (see `avaliacao`); `encontrado` tells
/// whether it still exists, `absoluto` is the item made absolute and `raiz`
/// the absolute destination.
pub fn avaliar_item(encontrado: bool, item: &str, absoluto: &str, raiz: &str) -> (r: Result<
    String,
    String,
>)
    ensures
        match avaliacao(encontrado, item@, absoluto@, raiz@) {
            Ok(n) => r matches Ok(t) && t@ == n,
            Err(m) => r matches Err(t) && t@ == m,
        },
{
    if !encontrado {
        return Err(String::from_str("não foi encontrado (já foi movido ou apagado?)"));
    }
    if esta_dentro(absoluto, raiz) {
        return Err(String::from_str("já está na pasta de destino"));
    }
    if esta_dentro(raiz, absoluto) {
        return Err(String::from_str("a pasta de destino fica dentro dele"));
    }
    match nome_arquivo(item) {
        Some(n) => Ok(n),
        None => Err(String::from_str("não dá para mover um disco inteiro")),
    }
}

/// What the check before moving decides, for every input: a missing item
/// is reported missing; an item already in the destination is refused; an
/// item that holds the destination is refused, whether it has a name or
/// not; and an item is accepted only when none of these holds, under its
/// file name.
pub proof fn lei_avaliacao(encontrado: bool, item: Seq<char>, absoluto: Seq<char>, raiz: Seq<char>)
    ensures
        !encontrado ==> avaliacao(encontrado, item, absoluto, raiz) == Err::<Seq<char>, Seq<char>>(
            "não foi encontrado (já foi movido ou apagado?)"@,
        ),
        encontrado && dentro(absoluto, raiz) ==> avaliacao(encontrado, item, absoluto, raiz) == Err::<
            Seq<char>,
            Seq<char>,
        >("já está na pasta de destino"@),
        encontrado && !dentro(absoluto, raiz) && dentro(raiz, absoluto) ==> avaliacao(
            encontrado,
            item,
            absoluto,
            raiz,
        ) == Err::<Seq<char>, Seq<char>>("a pasta de destino fica dentro dele"@),
        avaliacao(encontrado, item, absoluto, raiz) matches Ok(n) ==> encontrado && !dentro(
            absoluto,
            raiz,
        ) && !dentro(raiz, absoluto) && nome_do_arquivo(item) == Some(n),
        encontrado && !dentro(absoluto, raiz) && !dentro(raiz, absoluto) && nome_do_arquivo(item)
            is None ==> avaliacao(encontrado, item, absoluto, raiz) == Err::<Seq<char>, Seq<char>>(
            "não dá para mover um disco inteiro"@,
        ),
{
}

/// After moving: `None` when the item arrived and left its old place;
/// otherwise why it counts as not moved.
pub open spec fn conferencia(chegou: bool, saiu: bool, erro: Option<Seq<char>>) -> Option<
    Seq<char>,
> {
    if chegou && saiu {
        None
    } else if chegou {
        Some("foi movido só em parte (cancelado ou algum arquivo em uso)"@)
    } else {
        match erro {
            Some(e) => Some(e),
            None => Some("não foi movido (cancelado, em uso ou sem permissão)"@),
        }
    }
}

/// Checks an item after moving (see `conferencia`): `chegou` tells whether
/// the destination exists, `saiu` whether the origin is gone, `erro` the
/// error already known for it.
pub fn conferir_movimento(chegou: bool, saiu: bool, erro: Option<String>) -> (r: Option<String>)
    ensures
        texto_opcional(r) == conferencia(chegou, saiu, texto_opcional(erro)),
{
    if chegou && saiu {
        None
    } else if chegou {
        Some(String::from_str("foi movido só em parte (cancelado ou algum arquivo em uso)"))
    } else {
        match erro {
            Some(e) => Some(e),
            None => Some(String::from_str("não foi movido (cancelado, em uso ou sem permissão)")),
        }
    }
}

/// An item counts as moved exactly when it arrived and left its origin.
/// One that arrived but is still at its origin was moved only in part; one
/// that did not arrive is reported with the error known for it, or as not
/// moved (cancelled, in use or refused) when none is known.
pub proof fn lei_conferencia(chegou: bool, saiu: bool, erro: Option<Seq<char>>)
    ensures
        (conferencia(chegou, saiu, erro) is None) == (chegou && saiu),
        chegou && !saiu ==> conferencia(chegou, saiu, erro) == Some(
            "foi movido só em parte (cancelado ou algum arquivo em uso)"@,
        ),
        !chegou && erro is None ==> conferencia(chegou, saiu, erro) == Some(
            "não foi movido (cancelado, em uso ou sem permissão)"@,
        ),
        !chegou && erro is Some ==> conferencia(chegou, saiu, erro) == erro,
{
}

// ---------------------------------------------------------------------------
// The log: _registro_usados.csv
// ---------------------------------------------------------------------------

/// An item that was moved.
#[derive(Debug, PartialEq, Eq)]
pub struct Movido {
    pub origem: String,
    pub destino: String,
    pub eh_pasta: bool,
}

pub struct MovidoModelo {
    pub origem: Seq<char>,
    pub destino: Seq<char>,
    pub eh_pasta: bool,
}

impl View for Movido {
    type V = MovidoModelo;

    open spec fn view(&self) -> MovidoModelo {
        MovidoModelo { origem: self.origem@, destino: self.destino@, eh_pasta: self.eh_pasta }
    }
}

/// The file name of a path, or nothing.
pub open spec fn nome_ou_vazio(s: Seq<char>) -> Seq<char> {
    match nome_do_arquivo(s) {
        Some(n) => n,
        None => Seq::empty(),
    }
}

/// The first line of a new log: a byte order mark (so Excel reads the
/// accents) and the column names.
pub open spec fn cabecalho_registro() -> Seq<char> {
    seq!['\u{FEFF}'] + "Data;Tipo;Nome;Caminho original;Caminho novo\r\n"@
}

/// One line of the log: date, kind, new name, old path, new path.
pub open spec fn linha_registro(data: Seq<char>, m: MovidoModelo) -> Seq<char> {
    data + seq![';'] + (if m.eh_pasta {
        "Pasta"@
    } else {
        "Arquivo"@
    }) + seq![';'] + campo_csv(nome_ou_vazio(m.destino)) + seq![';'] + campo_csv(m.origem) + seq![
        ';',
    ] + campo_csv(m.destino) + seq!['\r', '\n']
}

pub open spec fn linhas_registro(data: Seq<char>, movidos: Seq<MovidoModelo>) -> Seq<char>
    decreases movidos.len(),
{
    if movidos.len() == 0 {
        Seq::empty()
    } else {
        linhas_registro(data, movidos.drop_last()) + linha_registro(data, movidos.last())
    }
}

/// What is appended to the log: the header when the file is new, then one
/// line per moved item.
pub open spec fn texto_do_registro(
    novo: bool,
    data: Seq<char>,
    movidos: Seq<MovidoModelo>,
) -> Seq<char> {
    (if novo {
        cabecalho_registro()
    } else {
        Seq::empty()
    }) + linhas_registro(data, movidos)
}

fn escrever_linha(r: &mut String, data: &str, m: &Movido)
    ensures
        final(r)@ == old(r)@ + linha_registro(data@, m@),
{
    let nome = match nome_arquivo(m.destino.as_str()) {
        Some(n) => n,
        None => String::new(),
    };
    r.append(data);
    r.push(';');
    r.append(if m.eh_pasta { "Pasta" } else { "Arquivo" });
    r.push(';');
    r.append(csv(nome.as_str()).as_str());
    r.push(';');
    r.append(csv(m.origem.as_str()).as_str());
    r.push(';');
    r.append(csv(m.destino.as_str()).as_str());
    r.push('\r');
    r.push('\n');
    assert(final(r)@ =~= old(r)@ + linha_registro(data@, m@)) by {
        reveal_strlit("Pasta");
        reveal_strlit("Arquivo");
    }
}

/// What `registrar_csv` appends to `_registro_usados.csv` (which opens in
/// Excel), so that it is known where each item came from. `novo` tells
/// that the file does not exist yet; `data` is the time of the move.
pub fn texto_registro(novo: bool, data: &str, movidos: &[Movido]) -> (r: String)
    ensures
        r@ == texto_do_registro(novo, data@, movidos@.map_values(|m: Movido| m@)),
{
    let mut r = String::new();
    if novo {
        r.push('\u{FEFF}');
        r.append("Data;Tipo;Nome;Caminho original;Caminho novo\r\n");
    }
    let ghost inicio = r@;
    let mut i: usize = 0;
    while i < movidos.len()
        invariant
            i <= movidos.len(),
            r@ == inicio + linhas_registro(data@, movidos@.map_values(|m: Movido| m@).take(i as int)),
        decreases movidos.len() - i,
    {
        let ghost ms = movidos@.map_values(|m: Movido| m@);
        assert(ms.take(i + 1).drop_last() =~= ms.take(i as int));
        assert(ms.take(i + 1).last() == movidos[i as int]@);
        escrever_linha(&mut r, data, &movidos[i]);
        i = i + 1;
    }
    let ghost ms = movidos@.map_values(|m: Movido| m@);
    assert(ms.take(ms.len() as int) =~= ms);
    r
}

// ---------------------------------------------------------------------------
// Closing a move
// ---------------------------------------------------------------------------

/// A planned item after the move: where it was, where it should be now,
/// and what the program found there (`chegou`: the destination exists;
/// `saiu`: the origin is gone; `erro`: an error already known for it).
#[derive(Debug, PartialEq, Eq)]
pub struct Apurado {
    pub origem: String,
    pub destino: String,
    pub eh_pasta: bool,
    pub chegou: bool,
    pub saiu: bool,
    pub erro: Option<String>,
}

pub struct ApuradoModelo {
    pub origem: Seq<char>,
    pub destino: Seq<char>,
    pub eh_pasta: bool,
    pub chegou: bool,
    pub saiu: bool,
    pub erro: Option<Seq<char>>,
}

impl View for Apurado {
    type V = ApuradoModelo;

    open spec fn view(&self) -> ApuradoModelo {
        ApuradoModelo {
            origem: self.origem@,
            destino: self.destino@,
            eh_pasta: self.eh_pasta,
            chegou: self.chegou,
            saiu: self.saiu,
            erro: texto_opcional(self.erro),
        }
    }
}

pub open spec fn apurados(a: Seq<Apurado>) -> Seq<ApuradoModelo> {
    a.map_values(|x: Apurado| x@)
}

/// A list of problems: each item with the reason it was not moved.
pub open spec fn problemas_modelo(p: Seq<(String, String)>) -> Seq<(Seq<char>, Seq<char>)> {
    p.map_values(|x: (String, String)| (x.0@, x.1@))
}

/// The items that were moved, in order (see `conferencia`).
pub open spec fn movidos_de(a: Seq<ApuradoModelo>) -> Seq<MovidoModelo>
    decreases a.len(),
{
    if a.len() == 0 {
        Seq::empty()
    } else {
        let x = a.last();
        if conferencia(x.chegou, x.saiu, x.erro) is None {
            movidos_de(a.drop_last()).push(
                MovidoModelo { origem: x.origem, destino: x.destino, eh_pasta: x.eh_pasta },
            )
        } else {
            movidos_de(a.drop_last())
        }
    }
}

/// The items that were not moved, in order, each with the reason.
pub open spec fn falhas_de(a: Seq<ApuradoModelo>) -> Seq<(Seq<char>, Seq<char>)>
    decreases a.len(),
{
    if a.len() == 0 {
        Seq::empty()
    } else {
        let x = a.last();
        match conferencia(x.chegou, x.saiu, x.erro) {
            Some(m) => falhas_de(a.drop_last()).push((x.origem, m)),
            None => falhas_de(a.drop_last()),
        }
    }
}

/// The end of a move: the items moved (for the log), all the problems (for
/// the summary), whether the log is written and whether the summary shows.
#[derive(Debug, PartialEq, Eq)]
pub struct Fechamento {
    pub movidos: Vec<Movido>,
    pub problemas: Vec<(String, String)>,
    pub registrar: bool,
    pub resumir: bool,
}

fn copiar_opcional(o: &Option<String>) -> (r: Option<String>)
    ensures
        texto_opcional(r) == texto_opcional(*o),
{
    match o {
        Some(t) => Some(copiar_texto(t)),
        None => None,
    }
}

/// Closes a move: each item checked after moving is either moved or a
/// problem (after the `problemas` found before moving); the log is written
/// only if something moved and it was asked for, and the summary shows only
/// when there are problems.
pub fn fechar_lote(problemas: Vec<(String, String)>, itens: &Vec<Apurado>, registrar: bool) -> (r:
    Fechamento)
    ensures
        r.movidos@.map_values(|m: Movido| m@) == movidos_de(apurados(itens@)),
        problemas_modelo(r.problemas@) == problemas_modelo(problemas@) + falhas_de(
            apurados(itens@),
        ),
        r.registrar == (registrar && r.movidos.len() > 0),
        r.resumir == (r.problemas.len() > 0),
{
    let ghost inicio = problemas_modelo(problemas@);
    let mut problemas = problemas;
    let mut movidos: Vec<Movido> = Vec::new();
    let mut i: usize = 0;
    assert(apurados(itens@).take(0) =~= Seq::<ApuradoModelo>::empty());
    assert(problemas_modelo(problemas@) =~= inicio + falhas_de(Seq::<ApuradoModelo>::empty()));
    assert(movidos@.map_values(|m: Movido| m@) =~= movidos_de(Seq::<ApuradoModelo>::empty()));
    while i < itens.len()
        invariant
            i <= itens.len(),
            movidos@.map_values(|m: Movido| m@) == movidos_de(apurados(itens@).take(i as int)),
            problemas_modelo(problemas@) == inicio + falhas_de(apurados(itens@).take(i as int)),
        decreases itens.len() - i,
    {
        let x = &itens[i];
        let ghost a = apurados(itens@).take(i + 1);
        assert(a.drop_last() =~= apurados(itens@).take(i as int));
        assert(a.last() == x@);
        let ghost m0 = movidos@;
        let ghost p0 = problemas@;
        match conferir_movimento(x.chegou, x.saiu, copiar_opcional(&x.erro)) {
            None => {
                movidos.push(
                    Movido {
                        origem: copiar_texto(&x.origem),
                        destino: copiar_texto(&x.destino),
                        eh_pasta: x.eh_pasta,
                    },
                );
                assert(movidos@.map_values(|m: Movido| m@) =~= m0.map_values(|m: Movido| m@).push(
                    movidos@.last()@,
                ));
                assert(problemas@ =~= p0);
            },
            Some(motivo) => {
                problemas.push((copiar_texto(&x.origem), motivo));
                assert(problemas_modelo(problemas@) =~= problemas_modelo(p0).push(
                    (problemas@.last().0@, problemas@.last().1@),
                ));
                assert(movidos@ =~= m0);
            },
        }
        i = i + 1;
    }
    assert(apurados(itens@).take(itens.len() as int) =~= apurados(itens@));
    let com_movidos = movidos.len() > 0;
    let com_problemas = problemas.len() > 0;
    Fechamento {
        movidos,
        problemas,
        registrar: registrar && com_movidos,
        resumir: com_problemas,
    }
}

/// Every item checked after a move is counted once: either moved or a
/// problem.
pub proof fn lei_cada_item_uma_vez(a: Seq<ApuradoModelo>)
    ensures
        movidos_de(a).len() + falhas_de(a).len() == a.len(),
    decreases a.len(),
{
    if a.len() > 0 {
        lei_cada_item_uma_vez(a.drop_last());
    }
}

// ---------------------------------------------------------------------------
// The batch
// ---------------------------------------------------------------------------

/// An entry as (mode, path).
pub open spec fn modelo_lote(lote: Seq<Pedido>) -> Seq<(Modo, Seq<u16>)> {
    lote.map_values(|p: Pedido| (p.modo, p.caminho@))
}

/// The key under which entries count as the same path.
pub open spec fn chave_do_pedido(caminho: Seq<u16>) -> Seq<char> {
    chave(texto_utf16(caminho))
}

/// Entry `k` repeats an earlier entry of the same mode and path.
pub open spec fn repetido(s: Seq<(Modo, Seq<u16>)>, k: int) -> bool {
    exists|j: int|
        0 <= j < k && s[j].0 == s[k].0 && #[trigger] chave_do_pedido(s[j].1) == chave_do_pedido(
            s[k].1,
        )
}

/// The paths of mode `m`, in arrival order, each path once.
pub open spec fn caminhos_do_modo(s: Seq<(Modo, Seq<u16>)>, m: Modo) -> Seq<Seq<u16>>
    decreases s.len(),
{
    if s.len() == 0 {
        Seq::empty()
    } else {
        let a = caminhos_do_modo(s.drop_last(), m);
        let k = s.len() - 1;
        if s[k].0 == m && !repetido(s, k) {
            a.push(s[k].1)
        } else {
            a
        }
    }
}

pub open spec fn unidades(v: Seq<Vec<u16>>) -> Seq<Seq<u16>> {
    v.map_values(|x: Vec<u16>| x@)
}

/// The title of the folder picker: the item's name when there is one item,
/// the number of items otherwise.
pub open spec fn titulo_escolher(itens: Seq<Seq<u16>>) -> Seq<char> {
    if itens.len() == 1 {
        "Mover “"@ + nome_ou_vazio(texto_utf16(itens[0])) + "” para…"@
    } else {
        "Mover "@ + decimal(itens.len()) + " itens para…"@
    }
}

/// A yes/no question: its main line, its text and its two buttons.
#[derive(Debug, PartialEq, Eq)]
pub struct Pergunta {
    pub instrucao: String,
    pub conteudo: String,
    pub sim: String,
    pub nao: String,
}

/// What to do with the entries of the default mode.
#[derive(Debug, PartialEq, Eq)]
pub enum AcaoPadrao {
    /// There are none.
    Nada,
    /// Move these items, in this order, into `destino`.
    Mover { itens: Vec<Vec<u16>>, destino: String, organizacao: Organizacao, registrar: bool },
    /// No folder of used items was chosen yet: ask this, and open the
    /// settings when the answer is yes.
    PerguntarConfiguracao(Pergunta),
}

/// Entries that ask for a folder: ask once, with this title, starting at
/// `inicial`; then (see `ao_escolher_pasta`) move the items, in this order,
/// into the folder chosen, arranged as `organizacao` says, and remember it.
#[derive(Debug, PartialEq, Eq)]
pub struct PedidoDePasta {
    pub itens: Vec<Vec<u16>>,
    pub titulo: String,
    pub inicial: Option<String>,
    pub organizacao: Organizacao,
    pub registrar: bool,
}

/// What follows the choice of a folder: the writes that remember it, then
/// the move.
#[derive(Debug, PartialEq, Eq)]
pub struct PastaEscolhida {
    pub lembrar: Vec<Passo>,
    pub itens: Vec<Vec<u16>>,
    pub destino: String,
    pub organizacao: Organizacao,
    pub registrar: bool,
}

/// The question asked when the folder of used items was not chosen yet.
pub open spec fn pergunta_sem_destino(p: Pergunta) -> bool {
    &&& p.instrucao@ == "A pasta de usados ainda não foi escolhida"@
    &&& p.conteudo@ == "Abra as configurações e escolha para onde os arquivos devem ir."@
    &&& p.sim@ == "Abrir configurações"@
    &&& p.nao@ == "Cancelar"@
}

fn pergunta_configuracao() -> (r: Pergunta)
    ensures
        pergunta_sem_destino(r),
{
    Pergunta {
        instrucao: String::from_str("A pasta de usados ainda não foi escolhida"),
        conteudo: String::from_str(
            "Abra as configurações e escolha para onde os arquivos devem ir.",
        ),
        sim: String::from_str("Abrir configurações"),
        nao: String::from_str("Cancelar"),
    }
}

/// The sort key of an entry's path.
pub open spec fn ordem_do_pedido(u: Seq<u16>) -> Seq<u64> {
    chave_de_ordem(pontos_utf16(u))
}

/// Where `x` goes into the sorted `s`: right after the last item that does
/// not come after it.
pub open spec fn posicao(s: Seq<Seq<u16>>, x: Seq<u16>) -> int
    decreases s.len(),
{
    if s.len() == 0 {
        0
    } else if antes(ordem_do_pedido(x), ordem_do_pedido(s.last())) {
        posicao(s.drop_last(), x)
    } else {
        s.len() as int
    }
}

/// `s` sorted by path (see `crate::ordem`), paths with equal keys in the
/// order they came: each item is placed after the items before it that do
/// not come after it.
pub open spec fn ordenados(s: Seq<Seq<u16>>) -> Seq<Seq<u16>>
    decreases s.len(),
{
    if s.len() == 0 {
        s
    } else {
        let a = ordenados(s.drop_last());
        a.insert(posicao(a, s.last()), s.last())
    }
}

proof fn lema_posicao(s: Seq<Seq<u16>>, x: Seq<u16>)
    ensures
        0 <= posicao(s, x) <= s.len(),
    decreases s.len(),
{
    if s.len() > 0 {
        lema_posicao(s.drop_last(), x);
    }
}

proof fn lema_ordenados_tamanho(s: Seq<Seq<u16>>)
    ensures
        ordenados(s).len() == s.len(),
    decreases s.len(),
{
    if s.len() > 0 {
        lema_ordenados_tamanho(s.drop_last());
        lema_posicao(ordenados(s.drop_last()), s.last());
    }
}

proof fn lema_posicao_separa(s: Seq<Seq<u16>>, x: Seq<u16>)
    ensures
        forall|i: int|
            posicao(s, x) <= i < s.len() ==> antes(
                ordem_do_pedido(x),
                ordem_do_pedido(#[trigger] s[i]),
            ),
        posicao(s, x) > 0 ==> !antes(ordem_do_pedido(x), ordem_do_pedido(s[posicao(s, x) - 1])),
    decreases s.len(),
{
    if s.len() > 0 && antes(ordem_do_pedido(x), ordem_do_pedido(s.last())) {
        let t = s.drop_last();
        lema_posicao_separa(t, x);
        lema_posicao(t, x);
        assert forall|i: int| posicao(s, x) <= i < s.len() implies antes(
            ordem_do_pedido(x),
            ordem_do_pedido(#[trigger] s[i]),
        ) by {
            if i < s.len() - 1 {
                assert(s[i] == t[i]);
            }
        }
        if posicao(s, x) > 0 {
            assert(s[posicao(s, x) - 1] == t[posicao(t, x) - 1]);
        }
    }
}

/// Sorting keeps the items: the same items, each as many times.
pub proof fn lei_ordenados_permutacao(s: Seq<Seq<u16>>)
    ensures
        ordenados(s).to_multiset() == s.to_multiset(),
    decreases s.len(),
{
    broadcast use vstd::seq_lib::to_multiset_build, vstd::seq_lib::to_multiset_insert;

    if s.len() == 0 {
    } else {
        let t = s.drop_last();
        lei_ordenados_permutacao(t);
        lema_ordenados_tamanho(t);
        lema_posicao(ordenados(t), s.last());
        assert(s =~= t.push(s.last()));
    }
}

/// Sorted items come in order: no item comes after one placed later.
pub proof fn lei_ordenados_em_ordem(s: Seq<Seq<u16>>, i: int, j: int)
    requires
        0 <= i < j < s.len(),
    ensures
        !antes(ordem_do_pedido(ordenados(s)[j]), ordem_do_pedido(ordenados(s)[i])),
    decreases s.len(),
{
    let t = s.drop_last();
    let x = s.last();
    let a = ordenados(t);
    lema_ordenados_tamanho(t);
    lema_posicao(a, x);
    lema_posicao_separa(a, x);
    let p = posicao(a, x);
    let b = ordenados(s);
    assert(b == a.insert(p, x));
    let kx = ordem_do_pedido(x);
    if i != p && j != p {
        let i2 = if i < p { i } else { i - 1 };
        let j2 = if j < p { j } else { j - 1 };
        assert(b[i] == a[i2] && b[j] == a[j2]);
        lei_ordenados_em_ordem(t, i2, j2);
    } else if i == p {
        assert(b[j] == a[j - 1]);
        assert(antes(kx, ordem_do_pedido(a[j - 1])));
        lema_antes_assimetrico(kx, ordem_do_pedido(a[j - 1]));
    } else {
        assert(b[i] == a[i]);
        assert(!antes(kx, ordem_do_pedido(a[p - 1])));
        if i < p - 1 {
            lei_ordenados_em_ordem(t, i, p - 1);
            lema_nao_depois(ordem_do_pedido(a[i]), ordem_do_pedido(a[p - 1]), kx);
        }
    }
}

/// The items whose sort key is `k`, in their order.
pub open spec fn com_chave(s: Seq<Seq<u16>>, k: Seq<u64>) -> Seq<Seq<u16>> {
    s.filter(|x: Seq<u16>| ordem_do_pedido(x) == k)
}

/// Sorting is stable: items with the same key keep the order they came in.
pub proof fn lei_ordenados_estavel(s: Seq<Seq<u16>>, k: Seq<u64>)
    ensures
        com_chave(ordenados(s), k) == com_chave(s, k),
    decreases s.len(),
{
    let pred = |x: Seq<u16>| ordem_do_pedido(x) == k;
    if s.len() == 0 {
    } else {
        let t = s.drop_last();
        let x = s.last();
        let a = ordenados(t);
        lei_ordenados_estavel(t, k);
        lema_ordenados_tamanho(t);
        lema_posicao(a, x);
        lema_posicao_separa(a, x);
        let p = posicao(a, x);
        let antes_de = a.take(p);
        let depois_de = a.skip(p);
        assert(s =~= t.push(x));
        t.lemma_filter_push(x, pred);
        assert(a =~= antes_de + depois_de);
        assert(a.insert(p, x) =~= antes_de + seq![x] + depois_de);
        Seq::filter_distributes_over_add(antes_de, depois_de, pred);
        Seq::filter_distributes_over_add(antes_de + seq![x], depois_de, pred);
        Seq::filter_distributes_over_add(antes_de, seq![x], pred);
        assert(seq![x] =~= Seq::<Seq<u16>>::empty().push(x));
        Seq::<Seq<u16>>::empty().lemma_filter_push(x, pred);
        assert(Seq::<Seq<u16>>::empty().filter(pred) =~= Seq::<Seq<u16>>::empty()) by {
            reveal(Seq::filter);
        }
        if pred(x) {
            assert forall|i: int| 0 <= i < depois_de.len() implies !pred(#[trigger] depois_de[i]) by {
                assert(depois_de[i] == a[p + i]);
                lema_antes_assimetrico(ordem_do_pedido(x), ordem_do_pedido(a[p + i]));
            }
            depois_de.lemma_all_neg_filter_empty(pred);
            assert(depois_de.filter(pred) =~= Seq::<Seq<u16>>::empty());
            assert(com_chave(ordenados(s), k) =~= com_chave(s, k));
        } else {
            assert(com_chave(ordenados(s), k) =~= com_chave(s, k));
        }
    }
}

/// The items sorted by path (see `ordenados`).
fn ordenar(itens: &Vec<Vec<u16>>) -> (r: Vec<Vec<u16>>)
    ensures
        unidades(r@) == ordenados(unidades(itens@)),
{
    let ghost s = unidades(itens@);
    let mut r: Vec<Vec<u16>> = Vec::new();
    let mut chaves: Vec<Vec<u64>> = Vec::new();
    let mut i: usize = 0;
    assert(s.take(0) =~= Seq::<Seq<u16>>::empty());
    assert(unidades(r@) =~= Seq::<Seq<u16>>::empty());
    while i < itens.len()
        invariant
            i <= itens.len(),
            s == unidades(itens@),
            unidades(r@) == ordenados(s.take(i as int)),
            chaves.len() == r.len(),
            forall|k: int| 0 <= k < r.len() ==> #[trigger] chaves@[k]@ == ordem_do_pedido(r@[k]@),
        decreases itens.len() - i,
    {
        let x = &itens[i];
        let c = chave_ordem_pontos(&pontos_de_utf16(x.as_slice()));
        let ghost rs = unidades(r@);
        let mut j: usize = r.len();
        assert(rs.take(j as int) =~= rs);
        while j > 0 && vem_antes(&c, &chaves[j - 1])
            invariant
                j <= r.len(),
                chaves.len() == r.len(),
                rs == unidades(r@),
                c@ == ordem_do_pedido(x@),
                forall|k: int| 0 <= k < r.len() ==> #[trigger] chaves@[k]@ == ordem_do_pedido(r@[k]@),
                posicao(rs, x@) == posicao(rs.take(j as int), x@),
            decreases j,
        {
            assert(rs.take(j as int).drop_last() =~= rs.take(j - 1));
            assert(rs.take(j as int).last() == r@[j - 1]@);
            j = j - 1;
        }
        proof {
            if j > 0 {
                assert(rs.take(j as int).last() == r@[j - 1]@);
            }
            assert(posicao(rs, x@) == j);
            assert(s.take(i + 1).drop_last() =~= s.take(i as int));
            assert(s.take(i + 1).last() == x@);
        }
        let ghost r0 = r@;
        let ghost c0 = chaves@;
        r.insert(j, copiar_unidades(x));
        chaves.insert(j, c);
        proof {
            assert(unidades(r@) =~= rs.insert(j as int, x@));
            assert forall|k: int| 0 <= k < r.len() implies #[trigger] chaves@[k]@ == ordem_do_pedido(
                r@[k]@,
            ) by {
                if k < j {
                    assert(chaves@[k] == c0[k] && r@[k] == r0[k]);
                } else if k > j {
                    assert(chaves@[k] == c0[k - 1] && r@[k] == r0[k - 1]);
                }
            }
        }
        i = i + 1;
    }
    assert(s.take(itens.len() as int) =~= s);
    r
}

/// What to do with a batch.
#[derive(Debug, PartialEq, Eq)]
pub struct PlanoLote {
    pub padrao: AcaoPadrao,
    pub escolher: Option<PedidoDePasta>,
}

fn copiar_unidades(u: &Vec<u16>) -> (r: Vec<u16>)
    ensures
        r@ == u@,
{
    let mut r: Vec<u16> = Vec::new();
    let mut i: usize = 0;
    while i < u.len()
        invariant
            i <= u.len(),
            r@ == u@.take(i as int),
        decreases u.len() - i,
    {
        r.push(u[i]);
        i = i + 1;
        assert(r@ =~= u@.take(i as int));
    }
    assert(u@.take(u@.len() as int) =~= u@);
    r
}

fn copiar_texto(s: &String) -> (r: String)
    ensures
        r@ == s@,
{
    String::from_str(s.as_str())
}

/// The keys already seen for mode `m` among the first `i` entries.
pub open spec fn vistos(s: Seq<(Modo, Seq<u16>)>, m: Modo, i: int) -> Set<Seq<char>> {
    Set::new(|k: Seq<char>| exists|j: int| 0 <= j < i && s[j].0 == m && chave_do_pedido(s[j].1) == k)
}

proof fn lema_passo_do_modo(s: Seq<(Modo, Seq<u16>)>, i: int, m: Modo)
    requires
        0 <= i < s.len(),
    ensures
        caminhos_do_modo(s.take(i + 1), m) == (if s[i].0 == m && !vistos(s, s[i].0, i).contains(
            chave_do_pedido(s[i].1),
        ) {
            caminhos_do_modo(s.take(i), m).push(s[i].1)
        } else {
            caminhos_do_modo(s.take(i), m)
        }),
{
    let t = s.take(i + 1);
    assert(t.drop_last() =~= s.take(i));
    assert(t[i] == s[i]);
    if repetido(t, i) {
        let j = choose|j: int|
            0 <= j < i && t[j].0 == t[i].0 && #[trigger] chave_do_pedido(t[j].1) == chave_do_pedido(
                t[i].1,
            );
        assert(t[j] == s[j]);
        assert(vistos(s, s[i].0, i).contains(chave_do_pedido(s[i].1)));
    }
    if vistos(s, s[i].0, i).contains(chave_do_pedido(s[i].1)) {
        let j = choose|j: int|
            0 <= j < i && s[j].0 == s[i].0 && chave_do_pedido(s[j].1) == chave_do_pedido(s[i].1);
        assert(t[j] == s[j]);
        assert(repetido(t, i));
    }
}

/// Splits a batch by mode, drops repeated entries (same mode and same path,
/// as `chave_caminho` compares them), sorts each part by path, and says
/// what to do with each part.
pub fn executar_lote(lote: &Vec<Pedido>, cfg: &Config) -> (r: PlanoLote)
    ensures
        ({
            let pad = caminhos_do_modo(modelo_lote(lote@), Modo::Padrao);
            match r.padrao {
                AcaoPadrao::Nada => pad.len() == 0,
                AcaoPadrao::PerguntarConfiguracao(p) => {
                    &&& pad.len() > 0
                    &&& cfg.destino is None
                    &&& pergunta_sem_destino(p)
                },
                AcaoPadrao::Mover { itens, destino, organizacao, registrar } => {
                    &&& pad.len() > 0
                    &&& cfg@.destino == Some(destino@)
                    &&& unidades(itens@) == ordenados(pad)
                    &&& organizacao == cfg.organizacao
                    &&& registrar == cfg.registrar
                },
            }
        }),
        ({
            let esc = caminhos_do_modo(modelo_lote(lote@), Modo::Escolher);
            match r.escolher {
                None => esc.len() == 0,
                Some(p) => {
                    &&& esc.len() > 0
                    &&& unidades(p.itens@) == ordenados(esc)
                    &&& p.titulo@ == titulo_escolher(ordenados(esc))
                    &&& texto_opcional(p.inicial) == (match cfg@.ultima_outra_pasta {
                        Some(u) => Some(u),
                        None => cfg@.destino,
                    })
                    &&& p.organizacao == Organizacao::Direto
                    &&& p.registrar == cfg.registrar
                },
            }
        }),
{
    let ghost s = modelo_lote(lote@);
    let mut vistos_padrao = Reservados::new();
    let mut vistos_escolher = Reservados::new();
    let mut padrao: Vec<Vec<u16>> = Vec::new();
    let mut escolher: Vec<Vec<u16>> = Vec::new();
    let mut i: usize = 0;
    assert(s.take(0) =~= Seq::<(Modo, Seq<u16>)>::empty());
    assert(vistos_padrao@ =~= vistos(s, Modo::Padrao, 0));
    assert(vistos_escolher@ =~= vistos(s, Modo::Escolher, 0));
    while i < lote.len()
        invariant
            i <= lote.len(),
            s == modelo_lote(lote@),
            vistos_padrao@ == vistos(s, Modo::Padrao, i as int),
            vistos_escolher@ == vistos(s, Modo::Escolher, i as int),
            unidades(padrao@) == caminhos_do_modo(s.take(i as int), Modo::Padrao),
            unidades(escolher@) == caminhos_do_modo(s.take(i as int), Modo::Escolher),
        decreases lote.len() - i,
    {
        let p = &lote[i];
        assert(s[i as int] == (p.modo, p.caminho@));
        proof {
            lema_passo_do_modo(s, i as int, Modo::Padrao);
            lema_passo_do_modo(s, i as int, Modo::Escolher);
        }
        let texto = texto_de_utf16(p.caminho.as_slice());
        let k = chave_caminho(texto.as_str());
        assert(k@ == chave_do_pedido(s[i as int].1));
        match p.modo {
            Modo::Padrao => {
                if !vistos_padrao.contem(&k) {
                    vistos_padrao.reservar(k);
                    padrao.push(copiar_unidades(&p.caminho));
                }
            },
            Modo::Escolher => {
                if !vistos_escolher.contem(&k) {
                    vistos_escolher.reservar(k);
                    escolher.push(copiar_unidades(&p.caminho));
                }
            },
        }
        assert(vistos_padrao@ =~= vistos(s, Modo::Padrao, i + 1));
        assert(vistos_escolher@ =~= vistos(s, Modo::Escolher, i + 1));
        assert(unidades(padrao@) =~= caminhos_do_modo(s.take(i + 1), Modo::Padrao));
        assert(unidades(escolher@) =~= caminhos_do_modo(s.take(i + 1), Modo::Escolher));
        i = i + 1;
    }
    assert(s.take(lote.len() as int) =~= s);
    let padrao = ordenar(&padrao);
    let escolher = ordenar(&escolher);
    proof {
        lema_ordenados_tamanho(caminhos_do_modo(s, Modo::Padrao));
        lema_ordenados_tamanho(caminhos_do_modo(s, Modo::Escolher));
    }
    let acao = if padrao.len() == 0 {
        AcaoPadrao::Nada
    } else {
        match &cfg.destino {
            Some(d) => AcaoPadrao::Mover {
                itens: padrao,
                destino: copiar_texto(d),
                organizacao: cfg.organizacao,
                registrar: cfg.registrar,
            },
            None => AcaoPadrao::PerguntarConfiguracao(pergunta_configuracao()),
        }
    };
    let pedido = if escolher.len() == 0 {
        None
    } else {
        let titulo = if escolher.len() == 1 {
            let texto = texto_de_utf16(escolher[0].as_slice());
            let nome = match nome_arquivo(texto.as_str()) {
                Some(n) => n,
                None => String::new(),
            };
            let mut t = unir("Mover “", nome.as_str());
            t.append("” para…");
            t
        } else {
            let mut t = String::from_str("Mover ");
            escrever_decimal(&mut t, escolher.len() as u128);
            t.append(" itens para…");
            t
        };
        let inicial = match &cfg.ultima_outra_pasta {
            Some(u) => Some(copiar_texto(u)),
            None => match &cfg.destino {
                Some(d) => Some(copiar_texto(d)),
                None => None,
            },
        };
        Some(
            PedidoDePasta {
                itens: escolher,
                titulo,
                inicial,
                organizacao: Organizacao::Direto,
                registrar: cfg.registrar,
            },
        )
    };
    PlanoLote { padrao: acao, escolher: pedido }
}

/// After a folder was chosen for `pedido` (`None`: the choice was
/// cancelled, and nothing happens): remember the folder, then move the
/// items into it as the request says.
pub fn ao_escolher_pasta(pedido: PedidoDePasta, pasta: Option<&str>) -> (r: Option<PastaEscolhida>)
    ensures
        match pasta {
            None => r is None,
            Some(p) => r matches Some(e) && {
                &&& modelo_passos(e.lembrar@) == passos_ultima_outra_pasta(p@)
                &&& e.itens@ == pedido.itens@
                &&& e.destino@ == p@
                &&& e.organizacao == pedido.organizacao
                &&& e.registrar == pedido.registrar
            },
        },
{
    match pasta {
        None => None,
        Some(p) => Some(
            PastaEscolhida {
                lembrar: salvar_ultima_outra_pasta(p),
                itens: pedido.itens,
                destino: String::from_str(p),
                organizacao: pedido.organizacao,
                registrar: pedido.registrar,
            },
        ),
    }
}

/// A path given twice in one batch, with the same mode, is moved once.
pub proof fn lei_lote_sem_repetidos(s: Seq<(Modo, Seq<u16>)>, m: Modo, a: int, b: int)
    requires
        0 <= a < b < caminhos_do_modo(s, m).len(),
    ensures
        chave_do_pedido(caminhos_do_modo(s, m)[a]) != chave_do_pedido(caminhos_do_modo(s, m)[b]),
    decreases s.len(),
{
    let t = s.drop_last();
    let k = s.len() - 1;
    let c = caminhos_do_modo(s, m);
    let ct = caminhos_do_modo(t, m);
    if s[k].0 == m && !repetido(s, k) && b == c.len() - 1 {
        lema_do_modo_vem_de(t, m, a);
        let j = choose|j: int| 0 <= j < t.len() && t[j].0 == m && t[j].1 == ct[a];
        assert(s[j] == t[j]);
        if chave_do_pedido(ct[a]) == chave_do_pedido(s[k].1) {
            assert(repetido(s, k));
        }
    } else {
        lei_lote_sem_repetidos(t, m, a, b);
    }
}

/// Only what really moved is logged as moved: every item that `fechar_lote`
/// lists as moved arrived at its destination and left its origin, with the
/// same origin and destination.
pub proof fn lei_so_conta_o_que_chegou(a: Seq<ApuradoModelo>, i: int)
    requires
        0 <= i < movidos_de(a).len(),
    ensures
        exists|j: int|
            0 <= j < a.len() && (#[trigger] a[j]).chegou && a[j].saiu && a[j].origem == movidos_de(
                a,
            )[i].origem && a[j].destino == movidos_de(a)[i].destino,
    decreases a.len(),
{
    let t = a.drop_last();
    let x = a.last();
    lei_conferencia(x.chegou, x.saiu, x.erro);
    if conferencia(x.chegou, x.saiu, x.erro) is None && i == movidos_de(a).len() - 1 {
        assert(a[a.len() - 1] == x);
    } else {
        lei_so_conta_o_que_chegou(t, i);
        let j = choose|j: int|
            0 <= j < t.len() && (#[trigger] t[j]).chegou && t[j].saiu && t[j].origem == movidos_de(
                t,
            )[i].origem && t[j].destino == movidos_de(t)[i].destino;
        assert(a[j] == t[j]);
    }
}

/// Repeats are found by the whole path: every entry of a batch is
/// represented by an item of its mode whose full path has the same key
/// (`chave` of its text), so two entries whose full paths differ are both
/// moved, even when their file names are the same.
pub proof fn lei_lote_guarda_cada_caminho(s: Seq<(Modo, Seq<u16>)>, j: int)
    requires
        0 <= j < s.len(),
    ensures
        exists|a: int|
            0 <= a < caminhos_do_modo(s, s[j].0).len() && chave(
                texto_utf16(#[trigger] caminhos_do_modo(s, s[j].0)[a]),
            ) == chave(texto_utf16(s[j].1)),
{
    lei_lote_completo(s, j);
    let c = caminhos_do_modo(s, s[j].0);
    let a = choose|a: int|
        0 <= a < c.len() && #[trigger] chave_do_pedido(c[a]) == chave_do_pedido(s[j].1);
    assert(chave(texto_utf16(c[a])) == chave(texto_utf16(s[j].1)));
}

/// Every entry of a batch is represented: some item of its mode has the
/// same path key, so nothing selected is left out.
pub proof fn lei_lote_completo(s: Seq<(Modo, Seq<u16>)>, j: int)
    requires
        0 <= j < s.len(),
    ensures
        exists|a: int|
            0 <= a < caminhos_do_modo(s, s[j].0).len() && #[trigger] chave_do_pedido(
                caminhos_do_modo(s, s[j].0)[a],
            ) == chave_do_pedido(s[j].1),
    decreases s.len(),
{
    let m = s[j].0;
    let t = s.drop_last();
    let k = s.len() - 1;
    let c = caminhos_do_modo(s, m);
    let ct = caminhos_do_modo(t, m);
    assert(c == ct || c == ct.push(s[k].1));
    if j == k && !repetido(s, k) {
        assert(c == ct.push(s[k].1));
        assert(c[c.len() - 1] == s[k].1);
        assert(chave_do_pedido(c[c.len() - 1]) == chave_do_pedido(s[j].1));
    } else {
        let j2 = if j == k {
            choose|i: int|
                0 <= i < k && s[i].0 == s[k].0 && #[trigger] chave_do_pedido(s[i].1) == chave_do_pedido(
                    s[k].1,
                )
        } else {
            j
        };
        assert(t[j2] == s[j2]);
        lei_lote_completo(t, j2);
        let a = choose|a: int|
            0 <= a < ct.len() && #[trigger] chave_do_pedido(ct[a]) == chave_do_pedido(t[j2].1);
        assert(c[a] == ct[a]);
        assert(chave_do_pedido(c[a]) == chave_do_pedido(s[j].1));
    }
}

proof fn lema_do_modo_vem_de(s: Seq<(Modo, Seq<u16>)>, m: Modo, a: int)
    requires
        0 <= a < caminhos_do_modo(s, m).len(),
    ensures
        exists|j: int| 0 <= j < s.len() && s[j].0 == m && s[j].1 == caminhos_do_modo(s, m)[a],
    decreases s.len(),
{
    let t = s.drop_last();
    let k = s.len() - 1;
    if s[k].0 == m && !repetido(s, k) && a == caminhos_do_modo(s, m).len() - 1 {
        assert(s[k].1 == caminhos_do_modo(s, m)[a]);
    } else {
        lema_do_modo_vem_de(t, m, a);
        let j = choose|j: int| 0 <= j < t.len() && t[j].0 == m && t[j].1 == caminhos_do_modo(t, m)[a];
        assert(s[j] == t[j]);
    }
}

} // verus!
