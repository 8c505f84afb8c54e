use usados::config::{
    ao_sair, carregar, chave_servidor_menu_classico, definir_menu_classico, desinstalar,
    trocar_menu_classico,
    eh_windows_11, esta_instalado, exe_instalado, pasta_dados, pasta_instalacao, registrar_desinstalador,
    registrar_menu, salvar, salvar_ultima_outra_pasta, Config, LeituraConfig, Organizacao,
    CHAVE_APP, CHAVE_DESINSTALAR, CHAVE_MENU, CHAVE_MENU_CLASSICO,
};
use usados::registro::{Operacao, Passo, Valor};

fn gravar(chave: &str, nome: &str, valor: Valor, obrigatorio: bool) -> Passo {
    Passo {
        operacao: Operacao::Gravar { chave: chave.to_string(), nome: nome.to_string(), valor },
        obrigatorio,
    }
}

fn texto(s: &str) -> Valor {
    Valor::Texto(s.to_string())
}

fn apagar(chave: &str, obrigatorio: bool) -> Passo {
    Passo { operacao: Operacao::ApagarArvore { chave: chave.to_string() }, obrigatorio }
}

#[test]
fn organizacao_pelo_numero() {
    assert_eq!(Organizacao::de_numero(0), Organizacao::Direto);
    assert_eq!(Organizacao::de_numero(1), Organizacao::PorMes);
    assert_eq!(Organizacao::de_numero(2), Organizacao::PorDia);
    assert_eq!(Organizacao::de_numero(3), Organizacao::PorOrigem);
    assert_eq!(Organizacao::de_numero(4), Organizacao::Direto);
    for o in [Organizacao::Direto, Organizacao::PorMes, Organizacao::PorDia, Organizacao::PorOrigem] {
        assert_eq!(Organizacao::de_numero(o.numero()), o);
    }
}

#[test]
fn carregar_padroes() {
    let cfg = carregar(&LeituraConfig {
        destino: None,
        organizacao: None,
        registrar_csv: None,
        ultima_outra_pasta: None,
    });
    assert_eq!(cfg.destino, None);
    assert_eq!(cfg.organizacao, Organizacao::Direto);
    assert!(cfg.registrar);
    assert_eq!(cfg.ultima_outra_pasta, None);
}

#[test]
fn carregar_valores() {
    let cfg = carregar(&LeituraConfig {
        destino: Some(r"D:\Usados".to_string()),
        organizacao: Some(2),
        registrar_csv: Some(0),
        ultima_outra_pasta: Some(" \t ".to_string()),
    });
    assert_eq!(cfg.destino, Some(r"D:\Usados".to_string()));
    assert_eq!(cfg.organizacao, Organizacao::PorDia);
    // RegistrarCsv = 0 turns the log off
    assert!(!cfg.registrar);
    // a blank value counts as none
    assert_eq!(cfg.ultima_outra_pasta, None);
}

#[test]
fn salvar_grava_tres_valores() {
    let cfg = Config {
        destino: Some(r"E:\Velhos".to_string()),
        organizacao: Organizacao::PorOrigem,
        registrar: false,
        ultima_outra_pasta: Some(r"F:\x".to_string()),
    };
    assert_eq!(
        salvar(&cfg),
        vec![
            gravar(CHAVE_APP, "Destino", texto(r"E:\Velhos"), true),
            gravar(CHAVE_APP, "Organizacao", Valor::Numero(3), true),
            gravar(CHAVE_APP, "RegistrarCsv", Valor::Numero(0), true),
        ]
    );
    let sem_destino = Config { destino: None, registrar: true, ..cfg };
    assert_eq!(salvar(&sem_destino)[0], gravar(CHAVE_APP, "Destino", texto(""), true));
    assert_eq!(salvar(&sem_destino)[2], gravar(CHAVE_APP, "RegistrarCsv", Valor::Numero(1), true));
}

#[test]
fn salvar_e_carregar_de_novo() {
    let cfg = Config {
        destino: Some(r"D:\Usados".to_string()),
        organizacao: Organizacao::PorMes,
        registrar: true,
        ultima_outra_pasta: None,
    };
    let passos = salvar(&cfg);
    let mut lido = LeituraConfig { destino: None, organizacao: None, registrar_csv: None, ultima_outra_pasta: None };
    for p in passos {
        if let Operacao::Gravar { nome, valor, .. } = p.operacao {
            match (nome.as_str(), valor) {
                ("Destino", Valor::Texto(t)) => lido.destino = Some(t),
                ("Organizacao", Valor::Numero(n)) => lido.organizacao = Some(n),
                ("RegistrarCsv", Valor::Numero(n)) => lido.registrar_csv = Some(n),
                _ => panic!("unexpected value"),
            }
        }
    }
    assert_eq!(carregar(&lido), cfg);
}

#[test]
fn lembrar_outra_pasta() {
    assert_eq!(
        salvar_ultima_outra_pasta(r"G:\Fotos"),
        vec![gravar(CHAVE_APP, "UltimaOutraPasta", texto(r"G:\Fotos"), false)]
    );
}

#[test]
fn pastas_do_programa() {
    let local = r"C:\Users\Ana\AppData\Local";
    assert_eq!(pasta_instalacao(local), r"C:\Users\Ana\AppData\Local\Programs\Usados");
    assert_eq!(exe_instalado(local), r"C:\Users\Ana\AppData\Local\Programs\Usados\Usados.exe");
    assert_eq!(pasta_dados(local), r"C:\Users\Ana\AppData\Local\Usados");
    assert!(esta_instalado(true, true));
    assert!(!esta_instalado(true, false));
    assert!(!esta_instalado(false, true));
}

#[test]
fn windows_11_pelo_build() {
    assert!(eh_windows_11(Some("22000")));
    assert!(eh_windows_11(Some(" 26100\n")));
    assert!(eh_windows_11(Some("+22631")));
    assert!(!eh_windows_11(Some("19045")));
    assert!(!eh_windows_11(Some("22a00")));
    assert!(!eh_windows_11(Some("")));
    assert!(!eh_windows_11(Some("99999999999")));
    assert!(!eh_windows_11(Some("-22000")));
    assert!(!eh_windows_11(None));
}

#[test]
fn menu_do_clique_direito() {
    let exe = r"C:\P\Usados.exe";
    let cfg = Config {
        destino: Some(r"D:\A & B".to_string()),
        organizacao: Organizacao::Direto,
        registrar: true,
        ultima_outra_pasta: None,
    };
    let passos = registrar_menu(exe, &cfg);
    assert_eq!(passos.len(), 16);
    assert_eq!(passos[0], apagar(CHAVE_MENU, false));
    assert_eq!(passos[1], gravar(CHAVE_MENU, "MUIVerb", texto("Marcar como usado"), true));
    assert_eq!(passos[2], gravar(CHAVE_MENU, "Icon", texto(r"C:\P\Usados.exe,0"), true));
    assert_eq!(passos[3], gravar(CHAVE_MENU, "SubCommands", texto(""), true));
    let k1 = format!(r"{CHAVE_MENU}\shell\1_mover");
    assert_eq!(passos[4], gravar(&k1, "MUIVerb", texto(r"Mover para  D:\A && B"), true));
    assert_eq!(passos[5], gravar(&k1, "MultiSelectModel", texto("Player"), true));
    assert_eq!(passos[6], gravar(&k1, "Icon", texto(r"C:\P\Usados.exe,0"), true));
    assert_eq!(
        passos[7],
        gravar(&format!(r"{k1}\command"), "", texto(r#""C:\P\Usados.exe" --mover "%1""#), true)
    );
    let k2 = format!(r"{CHAVE_MENU}\shell\2_outra");
    assert_eq!(passos[8], gravar(&k2, "MUIVerb", texto("Mover para outra pasta..."), true));
    assert_eq!(
        passos[11],
        gravar(&format!(r"{k2}\command"), "", texto(r#""C:\P\Usados.exe" --mover-para "%1""#), true)
    );
    let k3 = format!(r"{CHAVE_MENU}\shell\3_config");
    assert_eq!(passos[12], gravar(&k3, "MUIVerb", texto("Configurações..."), true));
    assert_eq!(passos[14], gravar(&k3, "CommandFlags", Valor::Numero(0x20), true));
    assert_eq!(
        passos[15],
        gravar(&format!(r"{k3}\command"), "", texto(r#""C:\P\Usados.exe" --config"#), true)
    );
}

#[test]
fn menu_sem_destino_e_destino_longo() {
    let exe = r"C:\P\Usados.exe";
    let mut cfg = Config { destino: None, organizacao: Organizacao::Direto, registrar: true, ultima_outra_pasta: None };
    let k1 = format!(r"{CHAVE_MENU}\shell\1_mover");
    assert_eq!(registrar_menu(exe, &cfg)[4], gravar(&k1, "MUIVerb", texto("Mover para  (pasta não configurada)"), true));
    cfg.destino = Some(format!(r"D:\{}", "x".repeat(100)));
    let rotulo = match &registrar_menu(exe, &cfg)[4].operacao {
        Operacao::Gravar { valor: Valor::Texto(t), .. } => t.clone(),
        _ => panic!("expected a text value"),
    };
    assert_eq!(rotulo, format!(r"Mover para  D:\{}…{}", "x".repeat(26), "x".repeat(29)));
}

#[test]
fn entrada_de_desinstalacao() {
    let passos = registrar_desinstalador(r"C:\P\Usados.exe", r"C:\P", "0.1.0", Some(409_600));
    assert_eq!(passos.len(), 9);
    assert_eq!(passos[0], gravar(CHAVE_DESINSTALAR, "DisplayName", texto("Usados (Marcar como usado)"), true));
    assert_eq!(passos[1], gravar(CHAVE_DESINSTALAR, "DisplayVersion", texto("0.1.0"), true));
    assert_eq!(passos[3], gravar(CHAVE_DESINSTALAR, "DisplayIcon", texto(r"C:\P\Usados.exe,0"), true));
    assert_eq!(passos[4], gravar(CHAVE_DESINSTALAR, "InstallLocation", texto(r"C:\P"), true));
    assert_eq!(
        passos[5],
        gravar(CHAVE_DESINSTALAR, "UninstallString", texto(r#""C:\P\Usados.exe" --desinstalar"#), true)
    );
    assert_eq!(passos[8], gravar(CHAVE_DESINSTALAR, "EstimatedSize", Valor::Numero(400), true));
    let sem_tamanho = registrar_desinstalador(r"C:\P\Usados.exe", r"C:\P", "0.1.0", None);
    assert_eq!(sem_tamanho[8], gravar(CHAVE_DESINSTALAR, "EstimatedSize", Valor::Numero(0), true));
}

#[test]
fn menu_classico_liga_e_desliga() {
    let servidor = chave_servidor_menu_classico();
    assert_eq!(servidor, format!(r"{CHAVE_MENU_CLASSICO}\InprocServer32"));
    assert_eq!(
        definir_menu_classico(true),
        vec![
            gravar(&servidor, "", texto(""), true),
            gravar(CHAVE_APP, "MenuClassicoPeloUsados", Valor::Numero(1), false),
        ]
    );
    assert_eq!(
        definir_menu_classico(false),
        vec![
            apagar(CHAVE_MENU_CLASSICO, true),
            gravar(CHAVE_APP, "MenuClassicoPeloUsados", Valor::Numero(0), false),
        ]
    );
}

#[test]
fn plano_de_desinstalacao() {
    let instalacao = r"C:\Users\Ana\AppData\Local\Programs\Usados";
    let dados = r"C:\Users\Ana\AppData\Local\Usados";
    let destino = Some(r"D:\Usados");
    let p = desinstalar(
        Some(1),
        true,
        destino,
        r"C:\Users\Ana\AppData\Local\Programs\Usados\Usados.exe",
        instalacao,
        dados,
    );
    assert_eq!(p.remover, vec![apagar(CHAVE_MENU, false), apagar(CHAVE_DESINSTALAR, false)]);
    assert!(p.desfazer_menu_classico);
    assert_eq!(p.remover_config, vec![apagar(CHAVE_APP, false)]);
    assert!(p.apagar_dados);
    assert!(p.apagar_instalacao);
    assert_eq!(p.pendente, Some(instalacao.to_string()));
    // turned on by someone else: left alone
    let fora = r"D:\Downloads\Usados.exe";
    assert!(!desinstalar(Some(0), true, destino, fora, instalacao, dados).desfazer_menu_classico);
    assert!(!desinstalar(None, true, destino, fora, instalacao, dados).desfazer_menu_classico);
    assert!(!desinstalar(Some(1), false, destino, fora, instalacao, dados).desfazer_menu_classico);
    let p = desinstalar(None, false, None, fora, instalacao, dados);
    assert!(p.apagar_instalacao && p.apagar_dados);
    assert_eq!(p.pendente, None);
}

#[test]
fn desinstalar_nao_apaga_a_pasta_de_usados() {
    let instalacao = r"C:\Users\Ana\AppData\Local\Programs\Usados";
    let dados = r"C:\Users\Ana\AppData\Local\Usados";
    let exe = r"C:\Users\Ana\AppData\Local\Programs\Usados\Usados.exe";
    // the folder of used items inside the data folder
    let p = desinstalar(None, false, Some(r"c:\users\ana\appdata\local\usados\Velhos"), exe, instalacao, dados);
    assert!(!p.apagar_dados);
    assert!(p.apagar_instalacao);
    // the folder of used items is the installation folder itself
    let p = desinstalar(None, false, Some(instalacao), exe, instalacao, dados);
    assert!(!p.apagar_instalacao);
    assert_eq!(p.pendente, None);
    assert!(p.apagar_dados);
    // the data folder inside the folder of used items
    let p = desinstalar(None, false, Some(r"C:\Users\Ana\AppData"), exe, instalacao, dados);
    assert!(!p.apagar_dados && !p.apagar_instalacao);
}

#[test]
fn comando_ao_sair() {
    let mut nada: Option<String> = None;
    assert_eq!(ao_sair(&mut nada), None);
    let mut pendente = Some(r"C:\P".to_string());
    assert_eq!(
        ao_sair(&mut pendente),
        Some(
            r#"/d /c for /l %i in (1,1,30) do (ping -n 2 127.0.0.1 >nul & rmdir /s /q "C:\P" 2>nul & if not exist "C:\P" exit)"#
                .to_string()
        )
    );
    assert_eq!(pendente, None);
    assert_eq!(ao_sair(&mut pendente), None);
}

#[test]
fn menu_classico_so_quando_muda() {
    assert_eq!(trocar_menu_classico(true, true), None);
    assert_eq!(trocar_menu_classico(false, false), None);
    assert_eq!(trocar_menu_classico(true, false), Some(definir_menu_classico(true)));
    assert_eq!(trocar_menu_classico(false, true), Some(definir_menu_classico(false)));
}
