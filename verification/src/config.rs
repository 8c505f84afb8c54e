//! Settings (kept in the registry, per user) and what installing and
//! uninstalling write there.
//!
//! Everything lives under HKEY_CURRENT_USER, so no administrator is needed
//! and every person using the computer has a folder of their own.

use vstd::prelude::*;
use vstd::string::StrSliceExecFns;
use vstd::string::StringExecFns;

use crate::registro::{
    Passo, PassoModelo, Registro, ValorModelo, apagar_arvore, chave_existe, executar,
    executar_todos, gravacao, gravar_numero, gravar_texto, ler_numero, ler_texto, modelo_passos,
    na_arvore, remocao,
};
use crate::texto::{
    aparado, aparar, caracteres, ler_sem_sinal, numero_sem_sinal, texto_de, unir,
};
use crate::util::{
    chave, dentro, dobrar, encurtado, encurtar, escrever_dobrando, esta_dentro, juntado, juntar,
};

verus! {

/// Settings of the program.
pub const CHAVE_APP: &'static str = "Software\\Usados";

/// The right-click menu.
pub const CHAVE_MENU: &'static str = "Software\\Classes\\AllFilesystemObjects\\shell\\Usados";

/// The entry in "Installed apps".
pub const CHAVE_DESINSTALAR: &'static str = "Software\\Microsoft\\Windows\\CurrentVersion\\Uninstall\\Usados";

/// A known Windows 11 trick: with this key present and empty, right-click
/// shows the full (classic) menu again, without "Show more options".
pub const CHAVE_MENU_CLASSICO: &'static str = "Software\\Classes\\CLSID\\{86ca1aa0-34aa-4e8b-a509-50c905bae2a2}";

/// The log written in the destination folder.
pub const NOME_REGISTRO_CSV: &'static str = "_registro_usados.csv";

/// How moved items are arranged inside the destination folder.
#[derive(Clone, Copy, PartialEq, Eq, Debug, Structural)]
pub enum Organizacao {
    /// Everything straight into the destination folder
    Direto,
    /// Destino\2026-09
    PorMes,
    /// Destino\2026-09-24
    PorDia,
    /// Destino\<name of the folder the item came from>
    PorOrigem,
}

/// The arrangement stored as `n` (anything unknown means `Direto`).
pub open spec fn organizacao_de(n: u32) -> Organizacao {
    if n == 1 {
        Organizacao::PorMes
    } else if n == 2 {
        Organizacao::PorDia
    } else if n == 3 {
        Organizacao::PorOrigem
    } else {
        Organizacao::Direto
    }
}

/// The number stored for an arrangement.
pub open spec fn numero_de(o: Organizacao) -> u32 {
    match o {
        Organizacao::Direto => 0,
        Organizacao::PorMes => 1,
        Organizacao::PorDia => 2,
        Organizacao::PorOrigem => 3,
    }
}

impl Organizacao {
    pub fn de_numero(n: u32) -> (r: Self)
        ensures
            r == organizacao_de(n),
    {
        match n {
            1 => Organizacao::PorMes,
            2 => Organizacao::PorDia,
            3 => Organizacao::PorOrigem,
            _ => Organizacao::Direto,
        }
    }

    pub fn numero(self) -> (r: u32)
        ensures
            r == numero_de(self),
    {
        match self {
            Organizacao::Direto => 0,
            Organizacao::PorMes => 1,
            Organizacao::PorDia => 2,
            Organizacao::PorOrigem => 3,
        }
    }
}

/// Every arrangement reads back from the number stored for it.
pub proof fn lei_organizacao_ida_e_volta(o: Organizacao)
    ensures
        organizacao_de(numero_de(o)) == o,
        numero_de(o) <= 3,
{
}

/// The settings.
#[derive(Clone, Debug, PartialEq, Eq)]
pub struct Config {
    pub destino: Option<String>,
    pub organizacao: Organizacao,
    /// Write `_registro_usados.csv` (where each item came from). Default: yes.
    pub registrar: bool,
    /// Last folder used in "Mover para outra pasta..."
    pub ultima_outra_pasta: Option<String>,
}

pub struct ConfigModelo {
    pub destino: Option<Seq<char>>,
    pub organizacao: Organizacao,
    pub registrar: bool,
    pub ultima_outra_pasta: Option<Seq<char>>,
}

pub open spec fn texto_opcional(o: Option<String>) -> Option<Seq<char>> {
    match o {
        Some(s) => Some(s@),
        None => None,
    }
}

impl View for Config {
    type V = ConfigModelo;

    open spec fn view(&self) -> ConfigModelo {
        ConfigModelo {
            destino: texto_opcional(self.destino),
            organizacao: self.organizacao,
            registrar: self.registrar,
            ultima_outra_pasta: texto_opcional(self.ultima_outra_pasta),
        }
    }
}

/// What was read from the settings key: each value, or `None` when the key
/// or the value is missing or has another type.
#[derive(Debug, PartialEq, Eq)]
pub struct LeituraConfig {
    pub destino: Option<String>,
    pub organizacao: Option<u32>,
    pub registrar_csv: Option<u32>,
    pub ultima_outra_pasta: Option<String>,
}

pub struct LeituraModelo {
    pub destino: Option<Seq<char>>,
    pub organizacao: Option<u32>,
    pub registrar_csv: Option<u32>,
    pub ultima_outra_pasta: Option<Seq<char>>,
}

impl View for LeituraConfig {
    type V = LeituraModelo;

    open spec fn view(&self) -> LeituraModelo {
        LeituraModelo {
            destino: texto_opcional(self.destino),
            organizacao: self.organizacao,
            registrar_csv: self.registrar_csv,
            ultima_outra_pasta: texto_opcional(self.ultima_outra_pasta),
        }
    }
}

/// A text setting counts only when it is not blank.
pub open spec fn preenchido(o: Option<Seq<char>>) -> Option<Seq<char>> {
    match o {
        Some(t) => if aparado(t).len() > 0 {
            Some(t)
        } else {
            None
        },
        None => None,
    }
}

/// The settings given what was read.
pub open spec fn configuracao(lido: LeituraModelo) -> ConfigModelo {
    ConfigModelo {
        destino: preenchido(lido.destino),
        organizacao: organizacao_de(
            match lido.organizacao {
                Some(n) => n,
                None => 0,
            },
        ),
        registrar: match lido.registrar_csv {
            Some(n) => n != 0,
            None => true,
        },
        ultima_outra_pasta: preenchido(lido.ultima_outra_pasta),
    }
}

fn texto_preenchido(o: &Option<String>) -> (r: Option<String>)
    ensures
        texto_opcional(r) == preenchido(texto_opcional(*o)),
{
    match o {
        Some(t) => {
            let v = caracteres(t.as_str());
            if aparar(&v).len() > 0 {
                Some(texto_de(&v))
            } else {
                None
            }
        },
        None => None,
    }
}

/// The settings from what was read from the registry.
pub fn carregar(lido: &LeituraConfig) -> (r: Config)
    ensures
        r@ == configuracao(lido@),
{
    let organizacao: u32 = match lido.organizacao {
        Some(n) => n,
        None => 0,
    };
    let registrar = match lido.registrar_csv {
        Some(n) => n != 0,
        None => true,
    };
    Config {
        destino: texto_preenchido(&lido.destino),
        organizacao: Organizacao::de_numero(organizacao),
        registrar,
        ultima_outra_pasta: texto_preenchido(&lido.ultima_outra_pasta),
    }
}

/// What the settings key holds, in the model.
pub open spec fn leitura_do_registro(reg: Registro) -> LeituraModelo {
    LeituraModelo {
        destino: ler_texto(reg, CHAVE_APP@, "Destino"@),
        organizacao: ler_numero(reg, CHAVE_APP@, "Organizacao"@),
        registrar_csv: ler_numero(reg, CHAVE_APP@, "RegistrarCsv"@),
        ultima_outra_pasta: ler_texto(reg, CHAVE_APP@, "UltimaOutraPasta"@),
    }
}

/// What `salvar` writes.
pub open spec fn passos_salvar(cfg: ConfigModelo) -> Seq<PassoModelo> {
    let destino = match cfg.destino {
        Some(d) => d,
        None => Seq::empty(),
    };
    seq![
        gravacao(CHAVE_APP@, "Destino"@, ValorModelo::Texto(destino), true),
        gravacao(CHAVE_APP@, "Organizacao"@, ValorModelo::Numero(numero_de(cfg.organizacao)), true),
        gravacao(
            CHAVE_APP@,
            "RegistrarCsv"@,
            ValorModelo::Numero(if cfg.registrar { 1 } else { 0 }),
            true,
        ),
    ]
}

/// The writes that store the settings (destination, arrangement, log on/off).
pub fn salvar(cfg: &Config) -> (r: Vec<Passo>)
    ensures
        modelo_passos(r@) == passos_salvar(cfg@),
{
    let destino = match &cfg.destino {
        Some(d) => texto_de(&caracteres(d.as_str())),
        None => String::new(),
    };
    let mut r: Vec<Passo> = Vec::new();
    r.push(gravar_texto(CHAVE_APP, "Destino", destino, true));
    r.push(gravar_numero(CHAVE_APP, "Organizacao", cfg.organizacao.numero(), true));
    r.push(gravar_numero(CHAVE_APP, "RegistrarCsv", if cfg.registrar { 1 } else { 0 }, true));
    assert(modelo_passos(r@) =~= passos_salvar(cfg@));
    r
}

/// What `salvar_ultima_outra_pasta` writes.
pub open spec fn passos_ultima_outra_pasta(p: Seq<char>) -> Seq<PassoModelo> {
    seq![gravacao(CHAVE_APP@, "UltimaOutraPasta"@, ValorModelo::Texto(p), false)]
}

/// The write that remembers the folder last chosen in "Mover para outra pasta...".
pub fn salvar_ultima_outra_pasta(p: &str) -> (r: Vec<Passo>)
    ensures
        modelo_passos(r@) == passos_ultima_outra_pasta(p@),
{
    let mut r: Vec<Passo> = Vec::new();
    r.push(gravar_texto(CHAVE_APP, "UltimaOutraPasta", texto_de(&caracteres(p)), false));
    assert(modelo_passos(r@) =~= passos_ultima_outra_pasta(p@));
    r
}

/// Saving the settings and loading them back gives the same settings (the
/// remembered "other folder" is not part of what is saved and stays as it
/// was). A destination made only of white space reads back as none.
pub proof fn lei_salvar_e_carregar(reg: Registro, cfg: ConfigModelo)
    ensures
        configuracao(leitura_do_registro(executar_todos(reg, passos_salvar(cfg)))) == (ConfigModelo {
            destino: preenchido(cfg.destino),
            organizacao: cfg.organizacao,
            registrar: cfg.registrar,
            ultima_outra_pasta: configuracao(leitura_do_registro(reg)).ultima_outra_pasta,
        }),
{
    reveal_strlit("Destino");
    reveal_strlit("Organizacao");
    reveal_strlit("RegistrarCsv");
    reveal_strlit("UltimaOutraPasta");
    assert(("Destino"@).len() == 7);
    assert(("Organizacao"@).len() == 11);
    assert(("RegistrarCsv"@).len() == 12);
    assert(("UltimaOutraPasta"@).len() == 16);
    let p = passos_salvar(cfg);
    assert(p.drop_last().drop_last().drop_last() =~= Seq::<PassoModelo>::empty());
    let r1 = executar_todos(reg, p.drop_last().drop_last());
    let r2 = executar_todos(reg, p.drop_last());
    let r3 = executar_todos(reg, p);
    assert(r3 == executar(r2, p.last().operacao));
    assert(r2 == executar(r1, p.drop_last().last().operacao));
    assert(executar_todos(reg, p.drop_last().drop_last().drop_last()) == reg);
    assert(r1 == executar(reg, p[0].operacao));
    let destino = match cfg.destino {
        Some(d) => d,
        None => Seq::empty(),
    };
    let chave = CHAVE_APP@;
    assert(r3.valores == reg.valores.insert((chave, "Destino"@), ValorModelo::Texto(destino)).insert(
        (chave, "Organizacao"@),
        ValorModelo::Numero(numero_de(cfg.organizacao)),
    ).insert((chave, "RegistrarCsv"@), ValorModelo::Numero(if cfg.registrar { 1 } else { 0 })));
    assert(ler_texto(r3, chave, "Destino"@) == Some(destino));
    assert(ler_numero(r3, chave, "Organizacao"@) == Some(numero_de(cfg.organizacao)));
    assert(ler_texto(r3, chave, "UltimaOutraPasta"@) == ler_texto(reg, chave, "UltimaOutraPasta"@));
    assert(aparado(Seq::<char>::empty()) =~= Seq::<char>::empty());
    assert(("Destino"@) != ("UltimaOutraPasta"@));
    assert(("Organizacao"@) != ("UltimaOutraPasta"@));
    assert(("RegistrarCsv"@) != ("UltimaOutraPasta"@));
    assert(("Destino"@) != ("RegistrarCsv"@));
    assert(("Destino"@) != ("Organizacao"@));
    assert(("Organizacao"@) != ("RegistrarCsv"@));
}

/// After remembering an "other folder", loading the settings gives that
/// folder (when it is not blank) and leaves the rest as it was.
pub proof fn lei_lembrar_outra_pasta(reg: Registro, p: Seq<char>)
    requires
        aparado(p).len() > 0,
    ensures
        configuracao(leitura_do_registro(executar_todos(reg, passos_ultima_outra_pasta(p))))
            == (ConfigModelo {
            destino: configuracao(leitura_do_registro(reg)).destino,
            organizacao: configuracao(leitura_do_registro(reg)).organizacao,
            registrar: configuracao(leitura_do_registro(reg)).registrar,
            ultima_outra_pasta: Some(p),
        }),
{
    reveal_strlit("Destino");
    reveal_strlit("Organizacao");
    reveal_strlit("RegistrarCsv");
    reveal_strlit("UltimaOutraPasta");
    assert(("Destino"@).len() == 7);
    assert(("Organizacao"@).len() == 11);
    assert(("RegistrarCsv"@).len() == 12);
    assert(("UltimaOutraPasta"@).len() == 16);
    let ps = passos_ultima_outra_pasta(p);
    assert(ps.drop_last() =~= Seq::<PassoModelo>::empty());
    let r = executar_todos(reg, ps);
    assert(executar_todos(reg, ps.drop_last()) == reg);
    assert(r == executar(reg, ps.last().operacao));
    assert(r.valores == reg.valores.insert((CHAVE_APP@, "UltimaOutraPasta"@), ValorModelo::Texto(p)));
    assert(ler_texto(r, CHAVE_APP@, "UltimaOutraPasta"@) == Some(p));
    assert(("Destino"@) != ("UltimaOutraPasta"@));
    assert(("Organizacao"@) != ("UltimaOutraPasta"@));
    assert(("RegistrarCsv"@) != ("UltimaOutraPasta"@));
}

// ---------------------------------------------------------------------------
// Installation
// ---------------------------------------------------------------------------

/// `%LOCALAPPDATA%\Programs\Usados`, given `%LOCALAPPDATA%`.
pub open spec fn caminho_instalacao(local: Seq<char>) -> Seq<char> {
    juntado(juntado(local, "Programs"@), "Usados"@)
}

/// Where the program installs itself (the same place VS Code, Discord etc. use).
pub fn pasta_instalacao(local_appdata: &str) -> (r: String)
    ensures
        r@ == caminho_instalacao(local_appdata@),
{
    let programas = juntar(local_appdata, "Programs");
    juntar(programas.as_str(), "Usados")
}

/// The installed program, `...\Programs\Usados\Usados.exe`.
pub fn exe_instalado(local_appdata: &str) -> (r: String)
    ensures
        r@ == juntado(caminho_instalacao(local_appdata@), "Usados.exe"@),
{
    let pasta = pasta_instalacao(local_appdata);
    juntar(pasta.as_str(), "Usados.exe")
}

/// `%LOCALAPPDATA%\Usados` (temporary work queue).
pub fn pasta_dados(local_appdata: &str) -> (r: String)
    ensures
        r@ == juntado(local_appdata@, "Usados"@),
{
    juntar(local_appdata, "Usados")
}

/// Installed means: the menu key exists and the installed program is there.
pub fn esta_instalado(menu_registrado: bool, exe_existe: bool) -> (r: bool)
    ensures
        r == (menu_registrado && exe_existe),
{
    menu_registrado && exe_existe
}

/// Windows 11 is build 22000 or later.
pub open spec fn windows_11(build: Option<Seq<char>>) -> bool {
    match build {
        Some(b) => match numero_sem_sinal(aparado(b), u32::MAX as nat) {
            Some(n) => n >= 22000,
            None => false,
        },
        None => false,
    }
}

/// Given the `CurrentBuildNumber` read from the registry (if any), is this Windows 11?
pub fn eh_windows_11(build: Option<&str>) -> (r: bool)
    ensures
        r == windows_11(
            match build {
                Some(b) => Some(b@),
                None => None,
            },
        ),
{
    match build {
        Some(b) => {
            let t = aparar(&caracteres(b));
            match ler_sem_sinal(&t, 0xffff_ffff) {
                Some(n) => n >= 22000,
                None => false,
            }
        },
        None => false,
    }
}

/// `exe,0`: the first icon inside the program.
pub open spec fn icone(exe: Seq<char>) -> Seq<char> {
    exe + ",0"@
}

/// The destination as the menu shows it: shortened to 60 characters, with
/// `&` doubled (a single `&` would turn into a keyboard shortcut).
pub open spec fn destino_no_menu(destino: Option<Seq<char>>) -> Seq<char> {
    dobrar(
        match destino {
            Some(d) => encurtado(d, 60),
            None => "(pasta não configurada)"@,
        },
        '&',
    )
}

/// The command a menu entry runs.
pub open spec fn linha_comando(exe: Seq<char>, argumento: Seq<char>, com_arquivo: bool) -> Seq<char> {
    if com_arquivo {
        "\""@ + exe + "\" "@ + argumento + " \"%1\""@
    } else {
        "\""@ + exe + "\" "@ + argumento
    }
}

/// The writes for one entry of the submenu.
pub open spec fn passos_item(
    chave_item: Seq<char>,
    rotulo: Seq<char>,
    linha: Seq<char>,
    separador_antes: bool,
    icone: Seq<char>,
) -> Seq<PassoModelo> {
    let k = CHAVE_MENU@ + "\\shell\\"@ + chave_item;
    seq![
        gravacao(k, "MUIVerb"@, ValorModelo::Texto(rotulo), true),
        gravacao(k, "MultiSelectModel"@, ValorModelo::Texto("Player"@), true),
        if separador_antes {
            gravacao(k, "CommandFlags"@, ValorModelo::Numero(0x20), true)
        } else {
            gravacao(k, "Icon"@, ValorModelo::Texto(icone), true)
        },
        gravacao(k + "\\command"@, ""@, ValorModelo::Texto(linha), true),
    ]
}

/// What `registrar_menu` writes: the old menu is removed (ignoring failure),
/// then the submenu
///   Marcar como usado ▸  Mover para  D:\Usados
///                        Mover para outra pasta...
///                        ─────────────
///                        Configurações...
/// is created.
pub open spec fn passos_menu(exe: Seq<char>, destino: Option<Seq<char>>) -> Seq<PassoModelo> {
    let ic = icone(exe);
    seq![
        remocao(CHAVE_MENU@, false),
        gravacao(CHAVE_MENU@, "MUIVerb"@, ValorModelo::Texto("Marcar como usado"@), true),
        gravacao(CHAVE_MENU@, "Icon"@, ValorModelo::Texto(ic), true),
        gravacao(CHAVE_MENU@, "SubCommands"@, ValorModelo::Texto(""@), true),
    ] + passos_item(
        "1_mover"@,
        "Mover para  "@ + destino_no_menu(destino),
        linha_comando(exe, "--mover"@, true),
        false,
        ic,
    ) + passos_item(
        "2_outra"@,
        "Mover para outra pasta..."@,
        linha_comando(exe, "--mover-para"@, true),
        false,
        ic,
    ) + passos_item("3_config"@, "Configurações..."@, linha_comando(exe, "--config"@, false), true, ic)
}

fn linha_de_comando(exe: &str, argumento: &str, com_arquivo: bool) -> (r: String)
    ensures
        r@ == linha_comando(exe@, argumento@, com_arquivo),
{
    let mut r = unir("\"", exe);
    r.append("\" ");
    r.append(argumento);
    if com_arquivo {
        r.append(" \"%1\"");
    }
    r
}

fn acrescentar_item(
    r: &mut Vec<Passo>,
    chave_item: &str,
    rotulo: String,
    linha: String,
    separador_antes: bool,
    icone: &str,
)
    ensures
        modelo_passos(final(r)@) == modelo_passos(old(r)@) + passos_item(
            chave_item@,
            rotulo@,
            linha@,
            separador_antes,
            icone@,
        ),
{
    let ghost antes = r@;
    let base = unir(CHAVE_MENU, "\\shell\\");
    let k = unir(base.as_str(), chave_item);
    let comando = unir(k.as_str(), "\\command");
    r.push(gravar_texto(k.as_str(), "MUIVerb", rotulo, true));
    r.push(gravar_texto(k.as_str(), "MultiSelectModel", String::from_str("Player"), true));
    if separador_antes {
        r.push(gravar_numero(k.as_str(), "CommandFlags", 0x20, true));
    } else {
        r.push(gravar_texto(k.as_str(), "Icon", String::from_str(icone), true));
    }
    r.push(gravar_texto(comando.as_str(), "", linha, true));
    assert(modelo_passos(r@) =~= modelo_passos(antes) + passos_item(
        chave_item@,
        rotulo@,
        linha@,
        separador_antes,
        icone@,
    ));
}

/// The writes that create (or update) the right-click submenu for the
/// program `exe` and the configured destination.
pub fn registrar_menu(exe: &str, cfg: &Config) -> (r: Vec<Passo>)
    ensures
        modelo_passos(r@) == passos_menu(exe@, cfg@.destino),
{
    let icone = unir(exe, ",0");
    let mut r: Vec<Passo> = Vec::new();
    r.push(apagar_arvore(CHAVE_MENU, false));
    r.push(gravar_texto(CHAVE_MENU, "MUIVerb", String::from_str("Marcar como usado"), true));
    r.push(gravar_texto(CHAVE_MENU, "Icon", String::from_str(icone.as_str()), true));
    r.push(gravar_texto(CHAVE_MENU, "SubCommands", String::new(), true));
    proof {
        reveal_strlit("");
        assert(("")@.len() == 0);
        assert(("")@ =~= Seq::<char>::empty());
    }
    assert(modelo_passos(r@) =~= seq![
        remocao(CHAVE_MENU@, false),
        gravacao(CHAVE_MENU@, "MUIVerb"@, ValorModelo::Texto("Marcar como usado"@), true),
        gravacao(CHAVE_MENU@, "Icon"@, ValorModelo::Texto(icone@), true),
        gravacao(CHAVE_MENU@, "SubCommands"@, ValorModelo::Texto(""@), true),
    ]);
    let destino = match &cfg.destino {
        Some(d) => encurtar(d.as_str(), 60),
        None => String::from_str("(pasta não configurada)"),
    };
    let mut rotulo = String::from_str("Mover para  ");
    escrever_dobrando(&mut rotulo, &caracteres(destino.as_str()), '&');
    acrescentar_item(
        &mut r,
        "1_mover",
        rotulo,
        linha_de_comando(exe, "--mover", true),
        false,
        icone.as_str(),
    );
    acrescentar_item(
        &mut r,
        "2_outra",
        String::from_str("Mover para outra pasta..."),
        linha_de_comando(exe, "--mover-para", true),
        false,
        icone.as_str(),
    );
    acrescentar_item(
        &mut r,
        "3_config",
        String::from_str("Configurações..."),
        linha_de_comando(exe, "--config", false),
        true,
        icone.as_str(),
    );
    r
}

/// The size shown in "Installed apps", in KiB (0 when unknown).
pub open spec fn tamanho_kb(tamanho: Option<u64>) -> u32 {
    match tamanho {
        Some(t) => (t / 1024) as u32,
        None => 0,
    }
}

/// What `registrar_desinstalador` writes.
pub open spec fn passos_desinstalador(
    exe: Seq<char>,
    instalacao: Seq<char>,
    versao: Seq<char>,
    tamanho: Option<u64>,
) -> Seq<PassoModelo> {
    let k = CHAVE_DESINSTALAR@;
    seq![
        gravacao(k, "DisplayName"@, ValorModelo::Texto("Usados (Marcar como usado)"@), true),
        gravacao(k, "DisplayVersion"@, ValorModelo::Texto(versao), true),
        gravacao(k, "Publisher"@, ValorModelo::Texto("Usados"@), true),
        gravacao(k, "DisplayIcon"@, ValorModelo::Texto(icone(exe)), true),
        gravacao(k, "InstallLocation"@, ValorModelo::Texto(instalacao), true),
        gravacao(k, "UninstallString"@, ValorModelo::Texto("\""@ + exe + "\" --desinstalar"@), true),
        gravacao(k, "NoModify"@, ValorModelo::Numero(1), true),
        gravacao(k, "NoRepair"@, ValorModelo::Numero(1), true),
        gravacao(k, "EstimatedSize"@, ValorModelo::Numero(tamanho_kb(tamanho)), true),
    ]
}

/// The writes for the entry in Settings › Apps › Installed apps, so that the
/// program can be uninstalled from there. `tamanho` is the size of `exe`
/// in bytes, when known.
pub fn registrar_desinstalador(
    exe: &str,
    pasta_instalacao: &str,
    versao: &str,
    tamanho: Option<u64>,
) -> (r: Vec<Passo>)
    ensures
        modelo_passos(r@) == passos_desinstalador(exe@, pasta_instalacao@, versao@, tamanho),
{
    let k = CHAVE_DESINSTALAR;
    let kb: u32 = match tamanho {
        Some(t) => (t / 1024) as u32,
        None => 0,
    };
    let mut desinstalar = unir("\"", exe);
    desinstalar.append("\" --desinstalar");
    let mut r: Vec<Passo> = Vec::new();
    r.push(gravar_texto(k, "DisplayName", String::from_str("Usados (Marcar como usado)"), true));
    r.push(gravar_texto(k, "DisplayVersion", String::from_str(versao), true));
    r.push(gravar_texto(k, "Publisher", String::from_str("Usados"), true));
    r.push(gravar_texto(k, "DisplayIcon", unir(exe, ",0"), true));
    r.push(gravar_texto(k, "InstallLocation", String::from_str(pasta_instalacao), true));
    r.push(gravar_texto(k, "UninstallString", desinstalar, true));
    r.push(gravar_numero(k, "NoModify", 1, true));
    r.push(gravar_numero(k, "NoRepair", 1, true));
    r.push(gravar_numero(k, "EstimatedSize", kb, true));
    assert(modelo_passos(r@) =~= passos_desinstalador(
        exe@,
        pasta_instalacao@,
        versao@,
        tamanho,
    ));
    r
}

// ---------------------------------------------------------------------------
// Classic menu of Windows 11
// ---------------------------------------------------------------------------

/// The key whose presence turns the classic menu on.
pub open spec fn servidor_menu_classico() -> Seq<char> {
    CHAVE_MENU_CLASSICO@ + "\\InprocServer32"@
}

/// The key to look for: the classic menu is on when it can be opened.
pub fn chave_servidor_menu_classico() -> (r: String)
    ensures
        r@ == servidor_menu_classico(),
{
    unir(CHAVE_MENU_CLASSICO, "\\InprocServer32")
}

/// Is the classic menu on, in the model.
pub open spec fn menu_classico_ativo(reg: Registro) -> bool {
    chave_existe(reg, servidor_menu_classico())
}

/// What `definir_menu_classico` writes: turn the menu on (create the key) or
/// off (remove it; a missing key is fine), then remember, without failing
/// over it, whether this program was the one that turned it on.
pub open spec fn passos_menu_classico(ativar: bool) -> Seq<PassoModelo> {
    (if ativar {
        seq![gravacao(servidor_menu_classico(), ""@, ValorModelo::Texto(""@), true)]
    } else {
        seq![remocao(CHAVE_MENU_CLASSICO@, true)]
    }) + seq![
        gravacao(
            CHAVE_APP@,
            "MenuClassicoPeloUsados"@,
            ValorModelo::Numero(if ativar { 1 } else { 0 }),
            false,
        ),
    ]
}

/// The writes that turn the Windows 11 classic menu on or off.
pub fn definir_menu_classico(ativar: bool) -> (r: Vec<Passo>)
    ensures
        modelo_passos(r@) == passos_menu_classico(ativar),
{
    let mut r: Vec<Passo> = Vec::new();
    if ativar {
        let k = chave_servidor_menu_classico();
        r.push(gravar_texto(k.as_str(), "", String::new(), true));
        proof {
            reveal_strlit("");
            assert(("")@.len() == 0);
            assert(("")@ =~= Seq::<char>::empty());
        }
    } else {
        r.push(apagar_arvore(CHAVE_MENU_CLASSICO, true));
    }
    r.push(gravar_numero(CHAVE_APP, "MenuClassicoPeloUsados", if ativar { 1 } else { 0 }, false));
    assert(modelo_passos(r@) =~= passos_menu_classico(ativar));
    r
}

/// When the settings are saved, the classic menu is switched only if the
/// choice changed from what it was when the settings opened: then these are
/// the writes, and Explorer must restart for the change to show.
pub fn trocar_menu_classico(classico: bool, inicial: bool) -> (r: Option<Vec<Passo>>)
    ensures
        match r {
            None => classico == inicial,
            Some(p) => classico != inicial && modelo_passos(p@) == passos_menu_classico(classico),
        },
{
    if classico != inicial {
        Some(definir_menu_classico(classico))
    } else {
        None
    }
}

proof fn lema_abaixo_do_servidor(c: Seq<char>)
    requires
        na_arvore(c, servidor_menu_classico()),
    ensures
        na_arvore(c, CHAVE_MENU_CLASSICO@),
{
    reveal_strlit("\\InprocServer32");
    let base = CHAVE_MENU_CLASSICO@ + seq!['\\'];
    let serv = servidor_menu_classico();
    assert(("\\InprocServer32"@)[0] == '\\');
    assert(base =~= serv.subrange(0, base.len() as int));
    if c != serv {
        let s2 = serv + seq!['\\'];
        assert(s2.is_prefix_of(c));
        assert forall|i: int| 0 <= i < base.len() implies base[i] == c[i] by {
            assert(base[i] == serv[i]);
            assert(serv[i] == s2[i]);
            assert(s2[i] == c.subrange(0, s2.len() as int)[i]);
        }
        assert(base =~= c.subrange(0, base.len() as int));
    } else {
        assert(base =~= c.subrange(0, base.len() as int));
    }
}

/// Turning the classic menu on or off and then reading the registry back:
/// the menu is on exactly when it was turned on, the program remembers
/// having done it, and uninstalling undoes it exactly in that case.
pub proof fn lei_menu_classico(reg: Registro, ativar: bool)
    ensures
        menu_classico_ativo(executar_todos(reg, passos_menu_classico(ativar))) == ativar,
        ler_numero(
            executar_todos(reg, passos_menu_classico(ativar)),
            CHAVE_APP@,
            "MenuClassicoPeloUsados"@,
        ) == Some(if ativar { 1u32 } else { 0u32 }),
        desfaz_menu_classico(
            ler_numero(
                executar_todos(reg, passos_menu_classico(ativar)),
                CHAVE_APP@,
                "MenuClassicoPeloUsados"@,
            ),
            menu_classico_ativo(executar_todos(reg, passos_menu_classico(ativar))),
        ) == ativar,
{
    reveal_strlit("Software\\Usados");
    reveal_strlit("\\InprocServer32");
    reveal_strlit("Software\\Classes\\CLSID\\{86ca1aa0-34aa-4e8b-a509-50c905bae2a2}");
    let ps = passos_menu_classico(ativar);
    assert(ps.drop_last().drop_last() =~= Seq::<PassoModelo>::empty());
    let r1 = executar_todos(reg, ps.drop_last());
    let r = executar_todos(reg, ps);
    assert(executar_todos(reg, ps.drop_last().drop_last()) == reg);
    assert(r1 == executar(reg, ps[0].operacao));
    assert(r == executar(r1, ps[1].operacao));
    let serv = servidor_menu_classico();
    assert(CHAVE_APP@.len() == 15);
    assert(serv.len() > 15);
    assert(!na_arvore(CHAVE_APP@, serv));
    if ativar {
        assert(r.chaves.contains(serv));
        assert(na_arvore(serv, serv));
    } else {
        assert forall|c: Seq<char>| r.chaves.contains(c) implies !na_arvore(c, serv) by {
            if c != CHAVE_APP@ {
                assert(r1.chaves.contains(c));
                assert(!na_arvore(c, CHAVE_MENU_CLASSICO@));
                if na_arvore(c, serv) {
                    lema_abaixo_do_servidor(c);
                }
            }
        }
    }
}

// ---------------------------------------------------------------------------
// Uninstalling
// ---------------------------------------------------------------------------

#[derive(Debug, PartialEq, Eq)]
pub struct ResultadoDesinstalacao {
    /// The Windows 11 classic menu was turned off (Explorer must restart).
    pub desfez_menu_classico: bool,
}

/// What uninstalling does, in order: run `remover` (menu and "Installed
/// apps" entry, failures ignored); if `desfazer_menu_classico`, turn the
/// classic menu off with `definir_menu_classico(false)`; run
/// `remover_config`; delete the data folder if `apagar_dados`; then, if
/// `apagar_instalacao`, delete the installation folder now, or, when the
/// running program is inside it, after it exits: `pendente` is then that
/// folder, kept for `ao_sair`.
#[derive(Debug, PartialEq, Eq)]
pub struct PlanoDesinstalacao {
    pub remover: Vec<Passo>,
    pub desfazer_menu_classico: bool,
    pub remover_config: Vec<Passo>,
    pub apagar_dados: bool,
    pub apagar_instalacao: bool,
    pub pendente: Option<String>,
}

/// The classic menu is undone only when it is on and this program turned it on.
pub open spec fn desfaz_menu_classico(pelo_usados: Option<u32>, ativo: bool) -> bool {
    (match pelo_usados {
        Some(n) => n,
        None => 0,
    }) != 0 && ativo
}

/// Deleting `pasta` would touch the folder of used items: that folder lies
/// in `pasta`, or `pasta` lies in it.
pub open spec fn toca_destino(pasta: Seq<char>, destino: Option<Seq<char>>) -> bool {
    match destino {
        Some(d) => dentro(d, pasta) || dentro(pasta, d),
        None => false,
    }
}

fn toca_destino_exec(pasta: &str, destino: Option<&str>) -> (r: bool)
    ensures
        r == toca_destino(
            pasta@,
            match destino {
                Some(d) => Some(d@),
                None => None,
            },
        ),
{
    match destino {
        Some(d) => esta_dentro(d, pasta) || esta_dentro(pasta, d),
        None => false,
    }
}

/// Plans the uninstallation from what was read: the `MenuClassicoPeloUsados`
/// value, whether the classic menu is on, the folder of used items, the
/// running program, the installation folder and the data folder. A folder
/// that holds the folder of used items, or lies inside it, is not deleted.
pub fn desinstalar(
    menu_classico_pelo_usados: Option<u32>,
    menu_classico_ativo: bool,
    destino: Option<&str>,
    exe_atual: &str,
    pasta_instalacao: &str,
    pasta_dados: &str,
) -> (r: PlanoDesinstalacao)
    ensures
        modelo_passos(r.remover@) == seq![
            remocao(CHAVE_MENU@, false),
            remocao(CHAVE_DESINSTALAR@, false),
        ],
        r.desfazer_menu_classico == desfaz_menu_classico(
            menu_classico_pelo_usados,
            menu_classico_ativo,
        ),
        modelo_passos(r.remover_config@) == seq![remocao(CHAVE_APP@, false)],
        ({
            let d = match destino {
                Some(x) => Some(x@),
                None => None,
            };
            &&& r.apagar_dados == !toca_destino(pasta_dados@, d)
            &&& r.apagar_instalacao == !toca_destino(pasta_instalacao@, d)
        }),
        match r.pendente {
            Some(p) => r.apagar_instalacao && dentro(exe_atual@, pasta_instalacao@) && p@
                == pasta_instalacao@,
            None => !(r.apagar_instalacao && dentro(exe_atual@, pasta_instalacao@)),
        },
{
    let pelo_usados: u32 = match menu_classico_pelo_usados {
        Some(n) => n,
        None => 0,
    };
    let mut remover: Vec<Passo> = Vec::new();
    remover.push(apagar_arvore(CHAVE_MENU, false));
    remover.push(apagar_arvore(CHAVE_DESINSTALAR, false));
    let mut remover_config: Vec<Passo> = Vec::new();
    remover_config.push(apagar_arvore(CHAVE_APP, false));
    let apagar_dados = !toca_destino_exec(pasta_dados, destino);
    let apagar_instalacao = !toca_destino_exec(pasta_instalacao, destino);
    let pendente = if apagar_instalacao && esta_dentro(exe_atual, pasta_instalacao) {
        Some(String::from_str(pasta_instalacao))
    } else {
        None
    };
    let r = PlanoDesinstalacao {
        remover,
        desfazer_menu_classico: pelo_usados != 0 && menu_classico_ativo,
        remover_config,
        apagar_dados,
        apagar_instalacao,
        pendente,
    };
    assert(modelo_passos(r.remover@) =~= seq![
        remocao(CHAVE_MENU@, false),
        remocao(CHAVE_DESINSTALAR@, false),
    ]);
    assert(modelo_passos(r.remover_config@) =~= seq![remocao(CHAVE_APP@, false)]);
    r
}

/// Uninstalling never deletes the folder of used items nor anything in it:
/// nothing inside the destination (the destination included) lies inside
/// a folder that the plan deletes.
pub proof fn lei_desinstalar_preserva_destino(pasta: Seq<char>, destino: Seq<char>, f: Seq<char>)
    requires
        !toca_destino(pasta, Some(destino)),
        dentro(f, destino),
    ensures
        !dentro(f, pasta),
{
    let kp = chave(pasta);
    let kd = chave(destino);
    let kf = chave(f);
    if dentro(f, pasta) {
        if kp.len() <= kd.len() {
            assert(kp =~= kd.subrange(0, kp.len() as int)) by {
                assert forall|i: int| 0 <= i < kp.len() implies kp[i] == kd[i] by {
                    assert(kp[i] == kf[i] && kd[i] == kf[i]);
                }
            }
            assert(dentro(destino, pasta));
        } else {
            assert(kd =~= kp.subrange(0, kd.len() as int)) by {
                assert forall|i: int| 0 <= i < kd.len() implies kd[i] == kp[i] by {
                    assert(kp[i] == kf[i] && kd[i] == kf[i]);
                }
            }
            assert(dentro(pasta, destino));
        }
    }
}

/// The hidden command that deletes `pasta` after the program exits: a
/// running program cannot delete itself, so `cmd.exe` retries about once a
/// second for up to 30 s.
pub open spec fn comando_apagar(pasta: Seq<char>) -> Seq<char> {
    "/d /c for /l %i in (1,1,30) do (ping -n 2 127.0.0.1 >nul & rmdir /s /q \""@ + pasta
        + "\" 2>nul & if not exist \""@ + pasta + "\" exit)"@
}

/// What `ao_sair` answers for the folder left to delete.
pub open spec fn comando_pendente(pendente: Option<Seq<char>>) -> Option<Seq<char>> {
    match pendente {
        Some(p) => Some(comando_apagar(p)),
        None => None,
    }
}

/// Called just before the program exits: takes the folder left to delete
/// (if any) and gives the arguments for `cmd.exe` that delete it. Nothing is
/// left pending afterwards.
pub fn ao_sair(pendente: &mut Option<String>) -> (r: Option<String>)
    ensures
        (*final(pendente)) is None,
        match r {
            Some(c) => comando_pendente(texto_opcional(*old(pendente))) == Some(c@),
            None => comando_pendente(texto_opcional(*old(pendente))) is None,
        },
{
    let tirado = pendente.take();
    match tirado {
        Some(p) => {
            let mut c = unir(
                "/d /c for /l %i in (1,1,30) do (ping -n 2 127.0.0.1 >nul & rmdir /s /q \"",
                p.as_str(),
            );
            c.append("\" 2>nul & if not exist \"");
            c.append(p.as_str());
            c.append("\" exit)");
            Some(c)
        },
        None => None,
    }
}

/// The folder is deleted once: `ao_sair` leaves nothing pending, and with
/// nothing pending a second call asks for no command.
pub proof fn lei_ao_sair_uma_vez(depois: Option<String>)
    requires
        depois is None,
    ensures
        comando_pendente(texto_opcional(depois)) is None,
{
}

} // verus!
