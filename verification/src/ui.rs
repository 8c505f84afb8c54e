//! What the program's windows say and what their answers mean. The windows
//! themselves (TaskDialog, the folder picker) are shown by the program.

use vstd::prelude::*;
use vstd::string::StrSliceExecFns;
use vstd::string::StringExecFns;

use crate::config::{Config, Organizacao, numero_de, organizacao_de};
use crate::texto::{aparar_fim, caracteres, decimal, escrever_decimal, sem_espacos_finais, texto_de};
use crate::util::{nome_arquivo, nome_do_arquivo};

verus! {

/// How a path is named in a list: its file name, or the whole path.
pub open spec fn nome_para_lista(p: Seq<char>) -> Seq<char> {
    match nome_do_arquivo(p) {
        Some(n) => n,
        None => p,
    }
}

/// `• name — reason` and a line feed.
pub open spec fn linha_problema(p: (Seq<char>, Seq<char>)) -> Seq<char> {
    "• "@ + nome_para_lista(p.0) + " — "@ + p.1 + seq!['\n']
}

pub open spec fn linhas_problemas(ps: Seq<(Seq<char>, Seq<char>)>) -> Seq<char>
    decreases ps.len(),
{
    if ps.len() == 0 {
        Seq::empty()
    } else {
        linhas_problemas(ps.drop_last()) + linha_problema(ps.last())
    }
}

/// The list of problems: the first 12, then how many more there are,
/// without trailing white space.
pub open spec fn lista_problemas(ps: Seq<(Seq<char>, Seq<char>)>) -> Seq<char> {
    sem_espacos_finais(
        if ps.len() > 12 {
            linhas_problemas(ps.take(12)) + "• … e mais "@ + decimal((ps.len() - 12) as nat) + seq![
                '\n',
            ]
        } else {
            linhas_problemas(ps)
        },
    )
}

/// The heading of the summary.
pub open spec fn instrucao_resumo(movidos: nat) -> Seq<char> {
    if movidos == 0 {
        "Nenhum item foi movido"@
    } else if movidos == 1 {
        "1 item movido, mas alguns ficaram de fora"@
    } else {
        decimal(movidos) + " itens movidos, mas alguns ficaram de fora"@
    }
}

/// The text of the summary shown after moving, when some items were left behind.
#[derive(Debug, PartialEq, Eq)]
pub struct Resumo {
    pub instrucao: String,
    pub conteudo: String,
}

pub open spec fn modelo_problemas(ps: Seq<(String, String)>) -> Seq<(Seq<char>, Seq<char>)> {
    ps.map_values(|p: (String, String)| (p.0@, p.1@))
}

/// The summary for `movidos` moved items and the `problemas` (path, reason)
/// of the items left behind.
pub fn resumo_problemas(movidos: usize, problemas: &[(String, String)]) -> (r: Resumo)
    ensures
        r.instrucao@ == instrucao_resumo(movidos as nat),
        r.conteudo@ == lista_problemas(modelo_problemas(problemas@)),
{
    let ghost ps = modelo_problemas(problemas@);
    let n: usize = if problemas.len() > 12 { 12 } else { problemas.len() };
    let mut lista = String::new();
    let mut i: usize = 0;
    while i < n
        invariant
            n <= problemas.len(),
            n == (if problemas.len() > 12 { 12 } else { problemas.len() }),
            i <= n,
            ps == modelo_problemas(problemas@),
            lista@ == linhas_problemas(ps.take(i as int)),
        decreases n - i,
    {
        let (p, motivo) = &problemas[i];
        assert(ps.take(i + 1).drop_last() =~= ps.take(i as int));
        assert(ps.take(i + 1).last() == (p@, motivo@));
        let nome = match nome_arquivo(p.as_str()) {
            Some(t) => t,
            None => String::from_str(p.as_str()),
        };
        lista.append("• ");
        lista.append(nome.as_str());
        lista.append(" — ");
        lista.append(motivo.as_str());
        lista.push('\n');
        i = i + 1;
    }
    let ghost antes = lista@;
    if problemas.len() > 12 {
        lista.append("• … e mais ");
        escrever_decimal(&mut lista, (problemas.len() - 12) as u128);
        lista.push('\n');
        assert(lista@ =~= linhas_problemas(ps.take(12)) + "• … e mais "@ + decimal(
            (ps.len() - 12) as nat,
        ) + seq!['\n']);
    } else {
        assert(ps.take(n as int) =~= ps);
    }
    let conteudo = texto_de(&aparar_fim(&caracteres(lista.as_str())));
    let instrucao = if movidos == 0 {
        String::from_str("Nenhum item foi movido")
    } else if movidos == 1 {
        String::from_str("1 item movido, mas alguns ficaram de fora")
    } else {
        let mut t = String::new();
        escrever_decimal(&mut t, movidos as u128);
        t.append(" itens movidos, mas alguns ficaram de fora");
        t
    };
    Resumo { instrucao, conteudo }
}

// ---------------------------------------------------------------------------
// Settings screen
// ---------------------------------------------------------------------------

/// Button ids.
pub const ID_PASTA: i32 = 101;
pub const ID_SALVAR: i32 = 102;
pub const ID_DESINSTALAR: i32 = 103;
pub const ID_SIM: i32 = 201;
pub const ID_NAO: i32 = 202;
pub const ID_RADIO_BASE: i32 = 300;

/// How each arrangement is described on the settings screen.
pub open spec fn descricao_organizacao(o: Organizacao) -> Seq<char> {
    match o {
        Organizacao::Direto => "Tudo direto na pasta de destino"@,
        Organizacao::PorMes => "Separar em subpastas por mês   (ex.: 2026-09)"@,
        Organizacao::PorDia => "Separar em subpastas por dia   (ex.: 2026-09-24)"@,
        Organizacao::PorOrigem => "Separar pelo nome da pasta de onde o arquivo veio   (ex.: Casamento Ana)"@,
    }
}

pub fn texto_organizacao(o: Organizacao) -> (r: &'static str)
    ensures
        r@ == descricao_organizacao(o),
{
    match o {
        Organizacao::Direto => "Tudo direto na pasta de destino",
        Organizacao::PorMes => "Separar em subpastas por mês   (ex.: 2026-09)",
        Organizacao::PorDia => "Separar em subpastas por dia   (ex.: 2026-09-24)",
        Organizacao::PorOrigem => "Separar pelo nome da pasta de onde o arquivo veio   (ex.: Casamento Ana)",
    }
}

/// A button or an option of a window.
#[derive(Debug, PartialEq, Eq)]
pub struct Botao {
    pub id: i32,
    pub texto: String,
}

pub open spec fn modelo_botoes(b: Seq<Botao>) -> Seq<(i32, Seq<char>)> {
    b.map_values(|x: Botao| (x.id, x.texto@))
}

/// What the settings screen shows.
#[derive(Debug, PartialEq, Eq)]
pub struct TelaConfiguracoes {
    pub instrucao: String,
    pub conteudo: String,
    pub rodape: String,
    pub botoes: Vec<Botao>,
    pub radios: Vec<Botao>,
    pub radio_padrao: i32,
    /// The "classic menu" check box and whether it is ticked (Windows 11 only).
    pub caixa: Option<bool>,
    pub botao_padrao: i32,
}

pub open spec fn texto_apresentacao() -> Seq<char> {
    "Este programa adiciona a opção “Marcar como usado” ao clique direito do Windows. Ela move os arquivos e pastas selecionados para a sua pasta de usados.\n\n"@
}

/// The body of the settings screen.
pub open spec fn conteudo_tela(destino: Option<Seq<char>>, instalado: bool) -> Seq<char> {
    (if instalado {
        Seq::empty()
    } else {
        texto_apresentacao()
    }) + "Pasta de destino:\n"@ + (match destino {
        Some(d) => d,
        None => "(nenhuma escolhida ainda)"@,
    }) + "\n\nComo organizar os arquivos lá dentro:"@
}

/// The buttons of the settings screen.
pub open spec fn botoes_tela(instalado: bool) -> Seq<(i32, Seq<char>)> {
    seq![(ID_PASTA, "Escolher a pasta de destino…\nOnde os arquivos usados vão ficar"@)] + if instalado {
        seq![
            (ID_SALVAR, "Salvar\nAplica as mudanças no clique direito"@),
            (
                ID_DESINSTALAR,
                "Desinstalar\nRemove a opção do clique direito. Nenhum arquivo seu é apagado."@,
            ),
        ]
    } else {
        seq![(ID_SALVAR, "Instalar\nSó para este usuário, não precisa de administrador"@)]
    }
}

/// One option per arrangement, in order.
pub open spec fn radios_tela() -> Seq<(i32, Seq<char>)> {
    Seq::new(
        4,
        |i: int|
            ((ID_RADIO_BASE + i) as i32, descricao_organizacao(organizacao_de(i as u32))),
    )
}

pub open spec fn rodape_tela(win11: bool) -> Seq<char> {
    if win11 {
        "No Windows 11, a opção fica em “Mostrar mais opções” (ou Shift + clique direito). Marque a caixa acima para ela aparecer direto no clique direito."@
    } else {
        Seq::empty()
    }
}

fn botao(id: i32, texto: &str) -> (r: Botao)
    ensures
        r.id == id,
        r.texto@ == texto@,
{
    Botao { id, texto: String::from_str(texto) }
}

/// Builds the settings screen for the current settings; `classico` tells
/// whether the classic menu is on.
pub fn montar_tela(cfg: &Config, instalado: bool, win11: bool, classico: bool) -> (r:
    TelaConfiguracoes)
    ensures
        r.instrucao@ == (if instalado {
            "Marcar como usado — Configurações"@
        } else {
            "Bem-vindo! Vamos configurar"@
        }),
        r.conteudo@ == conteudo_tela(cfg@.destino, instalado),
        r.rodape@ == rodape_tela(win11),
        modelo_botoes(r.botoes@) == botoes_tela(instalado),
        modelo_botoes(r.radios@) == radios_tela(),
        r.radio_padrao == ID_RADIO_BASE + numero_de(cfg.organizacao),
        r.caixa == (if win11 {
            Some(classico)
        } else {
            None
        }),
        r.botao_padrao == (if cfg.destino is Some {
            ID_SALVAR
        } else {
            ID_PASTA
        }),
{
    let mut conteudo = String::new();
    if !instalado {
        conteudo.append(
            "Este programa adiciona a opção “Marcar como usado” ao clique direito do Windows. Ela move os arquivos e pastas selecionados para a sua pasta de usados.\n\n",
        );
    }
    conteudo.append("Pasta de destino:\n");
    match &cfg.destino {
        Some(d) => conteudo.append(d.as_str()),
        None => conteudo.append("(nenhuma escolhida ainda)"),
    }
    conteudo.append("\n\nComo organizar os arquivos lá dentro:");
    let mut botoes: Vec<Botao> = Vec::new();
    botoes.push(botao(ID_PASTA, "Escolher a pasta de destino…\nOnde os arquivos usados vão ficar"));
    if instalado {
        botoes.push(botao(ID_SALVAR, "Salvar\nAplica as mudanças no clique direito"));
        botoes.push(
            botao(
                ID_DESINSTALAR,
                "Desinstalar\nRemove a opção do clique direito. Nenhum arquivo seu é apagado.",
            ),
        );
    } else {
        botoes.push(botao(ID_SALVAR, "Instalar\nSó para este usuário, não precisa de administrador"));
    }
    assert(modelo_botoes(botoes@) =~= botoes_tela(instalado));
    let mut radios: Vec<Botao> = Vec::new();
    let ordem = [
        Organizacao::Direto,
        Organizacao::PorMes,
        Organizacao::PorDia,
        Organizacao::PorOrigem,
    ];
    let mut i: usize = 0;
    while i < 4
        invariant
            i <= 4,
            ordem@ == seq![
                Organizacao::Direto,
                Organizacao::PorMes,
                Organizacao::PorDia,
                Organizacao::PorOrigem,
            ],
            modelo_botoes(radios@) =~= radios_tela().take(i as int),
        decreases 4 - i,
    {
        let o = ordem[i];
        assert(o == organizacao_de(i as u32));
        assert(numero_de(o) == i);
        let ghost antes = modelo_botoes(radios@);
        radios.push(botao(ID_RADIO_BASE + o.numero() as i32, texto_organizacao(o)));
        assert(modelo_botoes(radios@) =~= antes.push(radios_tela()[i as int]));
        i = i + 1;
        assert(modelo_botoes(radios@) =~= radios_tela().take(i as int));
    }
    assert(radios_tela().take(4) =~= radios_tela());
    let rodape = if win11 {
        String::from_str(
            "No Windows 11, a opção fica em “Mostrar mais opções” (ou Shift + clique direito). Marque a caixa acima para ela aparecer direto no clique direito.",
        )
    } else {
        String::new()
    };
    TelaConfiguracoes {
        instrucao: if instalado {
            String::from_str("Marcar como usado — Configurações")
        } else {
            String::from_str("Bem-vindo! Vamos configurar")
        },
        conteudo,
        rodape,
        botoes,
        radios,
        radio_padrao: ID_RADIO_BASE + cfg.organizacao.numero() as i32,
        caixa: if win11 {
            Some(classico)
        } else {
            None
        },
        botao_padrao: if cfg.destino.is_some() {
            ID_SALVAR
        } else {
            ID_PASTA
        },
    }
}

/// What the settings screen asks for next.
#[derive(Clone, Copy, PartialEq, Eq, Debug, Structural)]
pub enum AcaoTela {
    /// Pick the destination folder, then show the screen again.
    EscolherPasta,
    /// Save and install; done when that works, otherwise show the screen again.
    SalvarEInstalar,
    /// Uninstall (after asking); done when it was uninstalled.
    Desinstalar,
    /// Cancel or close.
    Fechar,
}

/// The answer of the settings screen: the arrangement picked, whether the
/// classic menu is wanted, and what to do.
#[derive(Debug, PartialEq, Eq)]
pub struct RespostaTela {
    pub organizacao: Organizacao,
    pub classico: bool,
    pub acao: AcaoTela,
}

/// The arrangement picked with the option `radio`.
pub open spec fn organizacao_escolhida(radio: i32) -> Organizacao {
    organizacao_de(if radio - ID_RADIO_BASE < 0 { 0 } else { (radio - ID_RADIO_BASE) as u32 })
}

/// Answering the settings screen with the option shown for an arrangement
/// gives that arrangement back, and the option picked is always the one
/// whose text was shown: for each of the four options of `radios_tela`,
/// reading its id gives the arrangement its text describes.
pub proof fn lei_tela_ida_e_volta(o: Organizacao, i: int)
    ensures
        organizacao_escolhida((ID_RADIO_BASE + numero_de(o)) as i32) == o,
        0 <= i < 4 ==> descricao_organizacao(organizacao_escolhida(radios_tela()[i].0))
            == radios_tela()[i].1,
        0 <= i < 4 ==> numero_de(organizacao_escolhida(radios_tela()[i].0)) == i,
{
}

/// Reads the answer of the settings screen: the button clicked, the option
/// picked, the check box, and the previous wish for the classic menu (kept
/// when the check box is not shown).
pub fn responder_tela(botao: i32, radio: i32, caixa: bool, win11: bool, classico: bool) -> (r:
    RespostaTela)
    requires
        radio >= i32::MIN + ID_RADIO_BASE,
    ensures
        r.organizacao == organizacao_escolhida(radio),
        r.classico == (if win11 {
            caixa
        } else {
            classico
        }),
        r.acao == (if botao == ID_PASTA {
            AcaoTela::EscolherPasta
        } else if botao == ID_SALVAR {
            AcaoTela::SalvarEInstalar
        } else if botao == ID_DESINSTALAR {
            AcaoTela::Desinstalar
        } else {
            AcaoTela::Fechar
        }),
{
    let d: i32 = radio - ID_RADIO_BASE;
    let n: u32 = if d < 0 { 0 } else { d as u32 };
    let acao = if botao == ID_PASTA {
        AcaoTela::EscolherPasta
    } else if botao == ID_SALVAR {
        AcaoTela::SalvarEInstalar
    } else if botao == ID_DESINSTALAR {
        AcaoTela::Desinstalar
    } else {
        AcaoTela::Fechar
    };
    RespostaTela {
        organizacao: Organizacao::de_numero(n),
        classico: if win11 {
            caixa
        } else {
            classico
        },
        acao,
    }
}

/// How to reach the menu entry.
pub open spec fn como_usar(win11: bool, classico: bool) -> Seq<char> {
    if !win11 || classico {
        "Clique com o botão direito em qualquer arquivo ou pasta → “Marcar como usado”."@
    } else {
        "Clique com o botão direito em qualquer arquivo ou pasta → “Mostrar mais opções” (ou segure Shift ao clicar) → “Marcar como usado”."@
    }
}

pub open spec fn aviso_instalado() -> Seq<char> {
    "\n\nO programa foi instalado no seu usuário, então o arquivo que você baixou já pode ser apagado. Para mudar a pasta depois: clique direito → Marcar como usado → Configurações…"@
}

/// The message after saving (and installing): where the entry is, where
/// items go, and, on the first installation, that the downloaded file can
/// be deleted.
pub fn mensagem_instalacao(win11: bool, classico: bool, ja_instalado: bool, destino: &str) -> (r:
    Resumo)
    ensures
        r.instrucao@ == (if ja_instalado {
            "Configurações salvas"@
        } else {
            "Pronto, instalado!"@
        }),
        r.conteudo@ == como_usar(win11, classico)
            + "\n\nDá para selecionar vários arquivos de uma vez. Eles vão para:\n"@ + destino@ + (
        if ja_instalado {
            Seq::empty()
        } else {
            aviso_instalado()
        }),
{
    let mut t = if !win11 || classico {
        String::from_str(
            "Clique com o botão direito em qualquer arquivo ou pasta → “Marcar como usado”.",
        )
    } else {
        String::from_str(
            "Clique com o botão direito em qualquer arquivo ou pasta → “Mostrar mais opções” (ou segure Shift ao clicar) → “Marcar como usado”.",
        )
    };
    t.append("\n\nDá para selecionar vários arquivos de uma vez. Eles vão para:\n");
    t.append(destino);
    if !ja_instalado {
        t.append(
            "\n\nO programa foi instalado no seu usuário, então o arquivo que você baixou já pode ser apagado. Para mudar a pasta depois: clique direito → Marcar como usado → Configurações…",
        );
    }
    Resumo {
        instrucao: if ja_instalado {
            String::from_str("Configurações salvas")
        } else {
            String::from_str("Pronto, instalado!")
        },
        conteudo: t,
    }
}

} // verus!
