use usados::config::{Config, Organizacao};
use usados::fila::{Modo, Pedido};
use usados::config::salvar_ultima_outra_pasta;
use usados::mover::{
    ao_escolher_pasta, avaliar_item, conferir_movimento, executar_lote, nome_da_origem, pasta_alvo,
    texto_registro, fechar_lote, AcaoPadrao, Apurado, Movido, Pergunta,
};
use usados::util::Agora;

fn u(s: &str) -> Vec<u16> {
    s.encode_utf16().collect()
}

#[test]
fn origem_das_pastas() {
    assert_eq!(nome_da_origem(r"D:\Casamento Ana\video.mp4"), "Casamento Ana");
    assert_eq!(nome_da_origem(r"D:\video.mp4"), "Disco D");
    assert_eq!(nome_da_origem(r"\\servidor\fotos\a.jpg"), "Disco servidor fotos");
    assert_eq!(nome_da_origem(r"C:\x\  muitos   espaços \a.txt"), "muitos espaços");
    assert_eq!(nome_da_origem(r"C:\x\???\a.txt"), "Outros");
    assert_eq!(nome_da_origem(r"D:\"), "Outros");
    assert_eq!(nome_da_origem(r"C:\a\b\."), "a");
    assert_eq!(nome_da_origem(r"C:\a\b\.\"), "a");
    // a path ending in ".." still has a parent
    assert_eq!(nome_da_origem(r"D:\a\b\.."), "b");
    assert_eq!(nome_da_origem(r"D:\.."), "Disco D");
    // in a literal path "." is a component
    assert_eq!(nome_da_origem(r"\\?\C:\a\."), "a");
    assert_eq!(nome_da_origem(r"\\?\UNC\srv\share"), "Outros");
    assert_eq!(nome_da_origem(r"\\?\UNC\srv\share\x.txt"), "Disco UNC srv share");
}

#[test]
fn pasta_alvo_por_organizacao() {
    let agora = Agora { ano: 2026, mes: 9, dia: 24, hora: 14, minuto: 30, segundo: 5 };
    let item = r"C:\Projetos\Cliente X\render.mov";
    assert_eq!(pasta_alvo(r"D:\Usados", Organizacao::Direto, &agora, item), r"D:\Usados");
    assert_eq!(pasta_alvo(r"D:\Usados", Organizacao::PorMes, &agora, item), r"D:\Usados\2026-09");
    assert_eq!(pasta_alvo(r"D:\Usados", Organizacao::PorDia, &agora, item), r"D:\Usados\2026-09-24");
    assert_eq!(pasta_alvo(r"D:\Usados", Organizacao::PorOrigem, &agora, item), r"D:\Usados\Cliente X");
}

#[test]
fn itens_que_nao_podem_ir() {
    let raiz = r"D:\Usados";
    assert_eq!(avaliar_item(true, r"C:\a\clip.mp4", r"C:\a\clip.mp4", raiz), Ok("clip.mp4".to_string()));
    assert_eq!(
        avaliar_item(false, r"C:\a\clip.mp4", r"C:\a\clip.mp4", raiz),
        Err("não foi encontrado (já foi movido ou apagado?)".to_string())
    );
    assert_eq!(avaliar_item(true, r"d:\usados\clip.mp4", r"d:\usados\clip.mp4", raiz), Err("já está na pasta de destino".to_string()));
    assert_eq!(avaliar_item(true, r"D:\", r"D:\", raiz), Err("a pasta de destino fica dentro dele".to_string()));
    assert_eq!(avaliar_item(true, r"E:\", r"E:\", raiz), Err("não dá para mover um disco inteiro".to_string()));
    // the name is taken from the item as written, the comparisons from its absolute form
    assert_eq!(
        avaliar_item(true, r"C:\a\b\..", r"C:\a", raiz),
        Err("não dá para mover um disco inteiro".to_string())
    );
    assert_eq!(
        avaliar_item(true, r"C:\x\.\clip.mp4", r"D:\Usados\clip.mp4", raiz),
        Err("já está na pasta de destino".to_string())
    );
}

#[test]
fn conferencia_depois_de_mover() {
    assert_eq!(conferir_movimento(true, true, None), None);
    assert_eq!(
        conferir_movimento(true, false, Some("x".to_string())),
        Some("foi movido só em parte (cancelado ou algum arquivo em uso)".to_string())
    );
    assert_eq!(conferir_movimento(false, false, Some("Acesso negado".to_string())), Some("Acesso negado".to_string()));
    assert_eq!(
        conferir_movimento(false, true, None),
        Some("não foi movido (cancelado, em uso ou sem permissão)".to_string())
    );
}

#[test]
fn registro_csv() {
    let movidos = vec![
        Movido { origem: r"C:\a\x;y.mp4".to_string(), destino: r"D:\U\x;y.mp4".to_string(), eh_pasta: false },
        Movido { origem: r"C:\a\Projeto".to_string(), destino: r"D:\U\Projeto (2)".to_string(), eh_pasta: true },
    ];
    let novo = texto_registro(true, "24/09/2026 14:30:05", &movidos);
    assert_eq!(
        novo,
        "\u{FEFF}Data;Tipo;Nome;Caminho original;Caminho novo\r\n\
         24/09/2026 14:30:05;Arquivo;\"x;y.mp4\";\"C:\\a\\x;y.mp4\";\"D:\\U\\x;y.mp4\"\r\n\
         24/09/2026 14:30:05;Pasta;Projeto (2);C:\\a\\Projeto;D:\\U\\Projeto (2)\r\n"
    );
    let depois = texto_registro(false, "d", &movidos[1..]);
    assert_eq!(depois, "d;Pasta;Projeto (2);C:\\a\\Projeto;D:\\U\\Projeto (2)\r\n");
    assert_eq!(texto_registro(false, "d", &[]), "");
}

#[test]
fn lote_separado_e_sem_repetidos() {
    let cfg = Config {
        destino: Some(r"D:\Usados".to_string()),
        organizacao: Organizacao::PorMes,
        registrar: true,
        ultima_outra_pasta: None,
    };
    let lote = vec![
        Pedido { modo: Modo::Padrao, caminho: u(r"C:\b.mp4") },
        Pedido { modo: Modo::Escolher, caminho: u(r"C:\x\Foto.jpg") },
        Pedido { modo: Modo::Padrao, caminho: u(r"c:/B.MP4") },
        Pedido { modo: Modo::Padrao, caminho: u(r"C:\a.mp4") },
        Pedido { modo: Modo::Escolher, caminho: u(r"C:\x\foto.jpg") },
    ];
    let plano = executar_lote(&lote, &cfg);
    assert_eq!(
        plano.padrao,
        AcaoPadrao::Mover {
            itens: vec![u(r"C:\a.mp4"), u(r"C:\b.mp4")],
            destino: r"D:\Usados".to_string(),
            organizacao: Organizacao::PorMes,
            registrar: true,
        }
    );
    let escolher = plano.escolher.unwrap();
    assert_eq!(escolher.itens, vec![u(r"C:\x\Foto.jpg")]);
    assert_eq!(escolher.titulo, "Mover “Foto.jpg” para…");
    assert_eq!(escolher.inicial, Some(r"D:\Usados".to_string()));
    assert_eq!(escolher.organizacao, Organizacao::Direto);
    assert!(escolher.registrar);
}

#[test]
fn lote_sem_destino_configurado() {
    let cfg = Config {
        destino: None,
        organizacao: Organizacao::Direto,
        registrar: false,
        ultima_outra_pasta: Some(r"F:\Antigos".to_string()),
    };
    let lote = vec![
        Pedido { modo: Modo::Padrao, caminho: u(r"C:\b.mp4") },
        Pedido { modo: Modo::Escolher, caminho: u(r"C:\1.jpg") },
        Pedido { modo: Modo::Escolher, caminho: u(r"C:\2.jpg") },
    ];
    let plano = executar_lote(&lote, &cfg);
    assert_eq!(
        plano.padrao,
        AcaoPadrao::PerguntarConfiguracao(Pergunta {
            instrucao: "A pasta de usados ainda não foi escolhida".to_string(),
            conteudo: "Abra as configurações e escolha para onde os arquivos devem ir.".to_string(),
            sim: "Abrir configurações".to_string(),
            nao: "Cancelar".to_string(),
        })
    );
    let escolher = plano.escolher.unwrap();
    assert_eq!(escolher.titulo, "Mover 2 itens para…");
    assert_eq!(escolher.inicial, Some(r"F:\Antigos".to_string()));
    assert!(!escolher.registrar);
    let vazio = executar_lote(&vec![], &cfg);
    assert_eq!(vazio.padrao, AcaoPadrao::Nada);
    assert_eq!(vazio.escolher, None);
}

#[test]
fn lote_em_ordem_de_caminho() {
    let cfg = Config {
        destino: Some(r"D:\Usados".to_string()),
        organizacao: Organizacao::Direto,
        registrar: false,
        ultima_outra_pasta: None,
    };
    let lote = vec![
        Pedido { modo: Modo::Padrao, caminho: u(r"d:\b") },
        Pedido { modo: Modo::Padrao, caminho: u(r"C:\z\a.txt") },
        Pedido { modo: Modo::Padrao, caminho: u(r"\\srv\share\x") },
        Pedido { modo: Modo::Padrao, caminho: u(r"C:\z") },
        Pedido { modo: Modo::Padrao, caminho: u(r"C:\Z\b.txt") },
        Pedido { modo: Modo::Padrao, caminho: u(r"C:\z\..\a") },
        Pedido { modo: Modo::Escolher, caminho: u(r"C:\b.jpg") },
        Pedido { modo: Modo::Escolher, caminho: u(r"C:\a.jpg") },
    ];
    let plano = executar_lote(&lote, &cfg);
    match plano.padrao {
        AcaoPadrao::Mover { itens, .. } => assert_eq!(
            itens,
            vec![
                u(r"\\srv\share\x"),
                u(r"C:\Z\b.txt"),
                u(r"C:\z"),
                u(r"C:\z\..\a"),
                u(r"C:\z\a.txt"),
                u(r"d:\b"),
            ]
        ),
        outro => panic!("{:?}", outro),
    }
    let escolher = plano.escolher.unwrap();
    assert_eq!(escolher.itens, vec![u(r"C:\a.jpg"), u(r"C:\b.jpg")]);
    assert_eq!(escolher.titulo, "Mover 2 itens para…");
}

#[test]
fn pasta_escolhida_sem_subpastas_e_lembrada() {
    let cfg = Config {
        destino: None,
        organizacao: Organizacao::PorDia,
        registrar: true,
        ultima_outra_pasta: None,
    };
    let lote = vec![Pedido { modo: Modo::Escolher, caminho: u(r"C:\1.jpg") }];
    let pedido = executar_lote(&lote, &cfg).escolher.unwrap();
    assert_eq!(pedido.organizacao, Organizacao::Direto);
    assert_eq!(pedido.inicial, None);
    let escolhida = ao_escolher_pasta(pedido, Some(r"E:\Fotos velhas")).unwrap();
    assert_eq!(escolhida.lembrar, salvar_ultima_outra_pasta(r"E:\Fotos velhas"));
    assert_eq!(escolhida.itens, vec![u(r"C:\1.jpg")]);
    assert_eq!(escolhida.destino, r"E:\Fotos velhas");
    assert_eq!(escolhida.organizacao, Organizacao::Direto);
    assert!(escolhida.registrar);
    let pedido = executar_lote(&lote, &cfg).escolher.unwrap();
    assert_eq!(ao_escolher_pasta(pedido, None), None);
}

#[test]
fn fechamento_do_lote() {
    let ap = |o: &str, d: &str, chegou: bool, saiu: bool, erro: Option<&str>| Apurado {
        origem: o.to_string(),
        destino: d.to_string(),
        eh_pasta: false,
        chegou,
        saiu,
        erro: erro.map(|e| e.to_string()),
    };
    let antes = vec![(r"C:\sumiu.txt".to_string(), "não foi encontrado".to_string())];
    let itens = vec![
        ap(r"C:\a.txt", r"D:\U\a.txt", true, true, None),
        ap(r"C:\b.txt", r"D:\U\b.txt", true, false, None),
        ap(r"C:\c.txt", r"D:\U\c.txt", false, false, Some("negado")),
    ];
    let f = fechar_lote(antes, &itens, true);
    assert_eq!(
        f.movidos,
        vec![Movido { origem: r"C:\a.txt".to_string(), destino: r"D:\U\a.txt".to_string(), eh_pasta: false }]
    );
    assert_eq!(
        f.problemas,
        vec![
            (r"C:\sumiu.txt".to_string(), "não foi encontrado".to_string()),
            (r"C:\b.txt".to_string(), "foi movido só em parte (cancelado ou algum arquivo em uso)".to_string()),
            (r"C:\c.txt".to_string(), "negado".to_string()),
        ]
    );
    assert!(f.registrar && f.resumir);
    // nothing moved: no log; no problem: no summary
    let f = fechar_lote(vec![], &vec![ap(r"C:\c.txt", r"D:\U\c.txt", false, false, Some("negado"))], true);
    assert!(!f.registrar && f.resumir);
    let f = fechar_lote(vec![], &vec![ap(r"C:\a.txt", r"D:\U\a.txt", true, true, None)], false);
    assert!(!f.registrar && !f.resumir);
    assert_eq!(f.movidos.len(), 1);
}

#[test]
fn ordem_com_substitutos_soltos() {
    let cfg = Config {
        destino: Some(r"D:\Usados".to_string()),
        organizacao: Organizacao::Direto,
        registrar: false,
        ultima_outra_pasta: None,
    };
    let com = |x: u16| {
        let mut v = u(r"C:\");
        v.push(x);
        v
    };
    // an unpaired surrogate sorts by its own value, below U+E000
    let lote = vec![
        Pedido { modo: Modo::Padrao, caminho: com(0xE000) },
        Pedido { modo: Modo::Padrao, caminho: com(0xD800) },
    ];
    match executar_lote(&lote, &cfg).padrao {
        AcaoPadrao::Mover { itens, .. } => assert_eq!(itens, vec![com(0xD800), com(0xE000)]),
        outro => panic!("{:?}", outro),
    }
    // paths equal once shown as text (the surrogate as U+FFFD) count as one
    let lote = vec![
        Pedido { modo: Modo::Padrao, caminho: com(0xFFFD) },
        Pedido { modo: Modo::Padrao, caminho: com(0xD800) },
    ];
    match executar_lote(&lote, &cfg).padrao {
        AcaoPadrao::Mover { itens, .. } => assert_eq!(itens, vec![com(0xFFFD)]),
        outro => panic!("{:?}", outro),
    }
}
